//! The box of one table: a header with its name and one row per column.
use vstd::prelude::*;
use vstd::string::*;

use svg::node::element::Element;

use crate::ir::{Column, Position, Table};
use crate::render::nodes::{
    element_attrs, element_children, element_tag, element_text, is_element, new_element, text_element, with_attr,
    with_child,
};
use crate::render::route::position_or_origin;
use crate::render::route::table_height;
use crate::style::box_height;
use crate::render::text::{int_string, int_text, push_int};
use crate::style::{
    BORDER_RADIUS, COLUMN_TEXT, FONT_SIZE, HEADER_BG, HEADER_FONT_SIZE, HEADER_HEIGHT, HEADER_TEXT,
    PADDING_X, PK_COLOR, ROW_HEIGHT, TABLE_BG, TABLE_BORDER, TABLE_WIDTH, TYPE_TEXT,
};

verus! {

/// `translate(x, y)`, the transform that puts a table box at `p`.
pub open spec fn translate_text(p: Position) -> Seq<char> {
    seq!['t', 'r', 'a', 'n', 's', 'l', 'a', 't', 'e', '('] + int_text(p.x as int) + seq![',', ' ']
        + int_text(p.y as int) + seq![')']
}

pub fn translate_attr(p: Position) -> (r: String)
    ensures
        r@ == translate_text(p),
{
    let mut r = String::from_str("translate(");
    push_int(&mut r, p.x as i128);
    r.append(", ");
    push_int(&mut r, p.y as i128);
    r.append(")");
    proof {
        reveal_strlit("translate(");
        reveal_strlit(", ");
        reveal_strlit(")");
    }
    assert(r@ =~= translate_text(p));
    r
}

/// The label of a column: its name, after a key symbol for a primary key.
pub open spec fn label_text(c: Column) -> Seq<char> {
    if c.is_pk {
        seq!['\u{1f511}', ' '] + c.name@
    } else {
        c.name@
    }
}

pub fn column_label(col: &Column) -> (r: String)
    ensures
        r@ == label_text(*col),
{
    if col.is_pk {
        let mut r = String::from_str("\u{1f511} ");
        r.append(col.name.as_str());
        proof {
            reveal_strlit("\u{1f511} ");
        }
        assert(r@ =~= label_text(*col));
        r
    } else {
        col.name.clone()
    }
}

/// Attributes of a text element at (x, y) in monospace of size `font`.
pub open spec fn text_attrs(x: int, y: int, font: int, fill: Seq<char>) -> Map<Seq<char>, Seq<char>> {
    map![
        "x"@ => int_text(x),
        "y"@ => int_text(y),
        "font-family"@ => "monospace"@,
        "font-size"@ => int_text(font),
        "fill"@ => fill,
    ]
}

/// Baseline of the header text: a third of the font size, rounded, below
/// the centre of the header band.
pub open spec fn header_text_y() -> int {
    HEADER_HEIGHT / 2 + (HEADER_FONT_SIZE + 1) / 3
}

/// Baseline of the texts of row `i`: a third of the font size, rounded,
/// below the centre of the row.
pub open spec fn column_text_y(i: int) -> int {
    HEADER_HEIGHT + i * ROW_HEIGHT + ROW_HEIGHT / 2 + (FONT_SIZE + 1) / 3
}

/// `e` is a text element with `content` at (x, y) of size `font`.
pub open spec fn is_text(e: Element, content: Seq<char>, x: int, y: int, font: int, fill: Seq<char>) -> bool {
    is_element(e, "text"@, text_attrs(x, y, font, fill), Seq::empty(), Some(content))
}

/// `g` is the box of `table`: a group moved to the table's position (the
/// origin if it has none) holding, in order, the border (260 wide, as tall
/// as the box), the header band, the header text with the table's name, the
/// line under the header, and for each column in order its label (with a
/// key symbol for a primary key) left and its raw type right-aligned.
pub open spec fn table_box(table: Table, g: Element) -> bool {
    let n = table.columns@.len() as int;
    let kids = element_children(g);
    &&& element_tag(g) == "g"@
    &&& element_attrs(g) == map!["transform"@ => translate_text(position_or_origin(table))]
    &&& element_text(g) is None
    &&& kids.len() == 4 + 2 * n
    &&& is_element(
        kids[0],
        "rect"@,
        map![
            "width"@ => int_text(TABLE_WIDTH as int),
            "height"@ => int_text(box_height(n)),
            "fill"@ => TABLE_BG@,
            "stroke"@ => TABLE_BORDER@,
            "rx"@ => int_text(BORDER_RADIUS as int),
        ],
        Seq::empty(),
        None,
    )
    &&& is_element(
        kids[1],
        "rect"@,
        map![
            "width"@ => int_text(TABLE_WIDTH as int),
            "height"@ => int_text(HEADER_HEIGHT as int),
            "fill"@ => HEADER_BG@,
        ],
        Seq::empty(),
        None,
    )
    &&& is_element(
        kids[2],
        "text"@,
        text_attrs(PADDING_X as int, header_text_y(), HEADER_FONT_SIZE as int, HEADER_TEXT@).insert(
            "font-weight"@,
            "bold"@,
        ),
        Seq::empty(),
        Some(table.id.name@),
    )
    &&& is_element(
        kids[3],
        "line"@,
        map![
            "x1"@ => "0"@,
            "y1"@ => int_text(HEADER_HEIGHT as int),
            "x2"@ => int_text(TABLE_WIDTH as int),
            "y2"@ => int_text(HEADER_HEIGHT as int),
            "stroke"@ => TABLE_BORDER@,
        ],
        Seq::empty(),
        None,
    )
    &&& forall|i: int| 0 <= i < n ==> column_row_drawn(table.columns@[i], i, #[trigger] kids[4 + 2 * i], kids[5 + 2 * i])
}

/// `name` and `ty` are the texts of column `c` in row `i`.
pub open spec fn column_row_drawn(c: Column, i: int, name: Element, ty: Element) -> bool {
    &&& is_text(name, label_text(c), PADDING_X as int, column_text_y(i), FONT_SIZE as int, if c.is_pk {
        PK_COLOR@
    } else {
        COLUMN_TEXT@
    })
    &&& is_element(
        ty,
        "text"@,
        text_attrs((TABLE_WIDTH - PADDING_X) as int, column_text_y(i), FONT_SIZE as int, TYPE_TEXT@).insert(
            "text-anchor"@,
            "end"@,
        ),
        Seq::empty(),
        Some(c.type_raw@),
    )
}

fn text_at(content: &str, x: i128, y: i128, font_size: i64, fill: &str) -> (e: Element)
    requires
        x > i128::MIN,
        y > i128::MIN,
    ensures
        is_text(e, content@, x as int, y as int, font_size as int, fill@),
{
    let t = text_element(content);
    assert(element_attrs(t) =~= Map::empty());
    let mut t = with_attr(t, "x", int_string(x).as_str());
    t = with_attr(t, "y", int_string(y).as_str());
    t = with_attr(t, "font-family", "monospace");
    t = with_attr(t, "font-size", int_string(font_size as i128).as_str());
    with_attr(t, "fill", fill)
}

/// The SVG group of a table box.
pub fn render_table(table: &Table) -> (group: Element)
    ensures
        table_box(*table, group),
{
    let pos = match table.position {
        Some(p) => p,
        None => Position { x: 0, y: 0 },
    };
    let g = new_element("g");
    assert(element_attrs(g) =~= Map::empty());
    let mut group = with_attr(g, "transform", translate_attr(pos).as_str());
    let h = table_height(table);
    let width = int_string(TABLE_WIDTH as i128);
    let header_height = int_string(HEADER_HEIGHT as i128);

    let border = new_element("rect");
    assert(element_attrs(border) =~= Map::empty());
    let mut border = with_attr(border, "width", width.as_str());
    border = with_attr(border, "height", int_string(h).as_str());
    border = with_attr(border, "fill", TABLE_BG);
    border = with_attr(border, "stroke", TABLE_BORDER);
    border = with_attr(border, "rx", int_string(BORDER_RADIUS as i128).as_str());
    assert(is_element(
        border,
        "rect"@,
        map![
            "width"@ => int_text(TABLE_WIDTH as int),
            "height"@ => int_text(box_height(table.columns@.len() as int)),
            "fill"@ => TABLE_BG@,
            "stroke"@ => TABLE_BORDER@,
            "rx"@ => int_text(BORDER_RADIUS as int),
        ],
        Seq::empty(),
        None,
    ));
    group = with_child(group, border);

    let header_bg = new_element("rect");
    assert(element_attrs(header_bg) =~= Map::empty());
    let mut header_bg = with_attr(header_bg, "width", width.as_str());
    header_bg = with_attr(header_bg, "height", header_height.as_str());
    header_bg = with_attr(header_bg, "fill", HEADER_BG);
    assert(is_element(
        header_bg,
        "rect"@,
        map![
            "width"@ => int_text(TABLE_WIDTH as int),
            "height"@ => int_text(HEADER_HEIGHT as int),
            "fill"@ => HEADER_BG@,
        ],
        Seq::empty(),
        None,
    ));
    group = with_child(group, header_bg);

    let header_y = HEADER_HEIGHT as i128 / 2 + (HEADER_FONT_SIZE as i128 + 1) / 3;
    let mut header_text = text_at(table.id.name.as_str(), PADDING_X as i128, header_y, HEADER_FONT_SIZE, HEADER_TEXT);
    header_text = with_attr(header_text, "font-weight", "bold");
    group = with_child(group, header_text);

    let sep = new_element("line");
    assert(element_attrs(sep) =~= Map::empty());
    let mut sep = with_attr(sep, "x1", "0");
    sep = with_attr(sep, "y1", header_height.as_str());
    sep = with_attr(sep, "x2", width.as_str());
    sep = with_attr(sep, "y2", header_height.as_str());
    sep = with_attr(sep, "stroke", TABLE_BORDER);
    assert(is_element(
        sep,
        "line"@,
        map![
            "x1"@ => "0"@,
            "y1"@ => int_text(HEADER_HEIGHT as int),
            "x2"@ => int_text(TABLE_WIDTH as int),
            "y2"@ => int_text(HEADER_HEIGHT as int),
            "stroke"@ => TABLE_BORDER@,
        ],
        Seq::empty(),
        None,
    ));
    group = with_child(group, sep);

    let ghost head = element_children(group);
    assert(head =~= seq![border, header_bg, header_text, sep]);
    assert(element_attrs(group) == map!["transform"@ => translate_text(position_or_origin(*table))]);
    let mut i: usize = 0;
    while i < table.columns.len()
        invariant
            i <= table.columns.len(),
            element_tag(group) == "g"@,
            element_attrs(group) == map!["transform"@ => translate_text(position_or_origin(*table))],
            element_text(group) is None,
            element_children(group).len() == 4 + 2 * i,
            forall|k: int| 0 <= k < 4 ==> element_children(group)[k] == #[trigger] head[k],
            forall|j: int|
                0 <= j < i ==> column_row_drawn(
                    table.columns@[j],
                    j,
                    #[trigger] element_children(group)[4 + 2 * j],
                    element_children(group)[5 + 2 * j],
                ),
        decreases table.columns.len() - i,
    {
        let col = &table.columns[i];
        let row_top = HEADER_HEIGHT as i128 + i as i128 * ROW_HEIGHT as i128;
        let text_y = row_top + ROW_HEIGHT as i128 / 2 + (FONT_SIZE as i128 + 1) / 3;
        let fill = if col.is_pk { PK_COLOR } else { COLUMN_TEXT };
        let name_text = text_at(column_label(col).as_str(), PADDING_X as i128, text_y, FONT_SIZE, fill);
        let ghost before = element_children(group);
        group = with_child(group, name_text);
        let type_text = text_at(col.type_raw.as_str(), (TABLE_WIDTH - PADDING_X) as i128, text_y, FONT_SIZE, TYPE_TEXT);
        let type_text = with_attr(type_text, "text-anchor", "end");
        group = with_child(group, type_text);
        proof {
            assert(element_children(group) == before.push(name_text).push(type_text));
            assert(column_row_drawn(table.columns@[i as int], i as int, name_text, type_text));
            assert forall|j: int|
                0 <= j < i + 1 implies column_row_drawn(
                table.columns@[j],
                j,
                #[trigger] element_children(group)[4 + 2 * j],
                element_children(group)[5 + 2 * j],
            ) by {
                if j < i {
                    assert(element_children(group)[4 + 2 * j] == before[4 + 2 * j]);
                    assert(element_children(group)[5 + 2 * j] == before[5 + 2 * j]);
                }
            }
        }
        i = i + 1;
    }
    assert(element_children(group)[0] == border);
    assert(element_children(group)[1] == header_bg);
    assert(element_children(group)[2] == header_text);
    assert(element_children(group)[3] == sep);
    group
}

} // verus!
