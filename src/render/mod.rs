//! The SVG drawing of a diagram: background, marker definitions, the
//! relationship lines, then the table boxes on top of them.
use vstd::prelude::*;
use vstd::string::*;

use crate::ir::{no_table, Diagram, Table};
use crate::render::marker::create_markers;
use crate::render::marker::marker_defs;
use crate::render::nodes::{
    document, element_attrs, element_children, element_markup, element_tag, element_text, is_element, markup,
    new_element, with_attr, with_child,
};
use crate::render::relationship::{drawn_count, is_line_group, lemma_drawn_count_grows, line_groups};
use crate::render::route::{lemma_dangling_route, route_of};
use crate::render::table::table_box;
use svg::node::element::Element;
use crate::render::relationship::render_relationships;
use crate::render::route::table_height;
use crate::render::table::render_table;
use crate::render::text::{int_string, int_text, push_int};
use crate::style::{
    box_height, CANVAS_BG, CANVAS_MARGIN, MIN_CANVAS_HEIGHT, MIN_CANVAS_WIDTH, TABLE_WIDTH,
};

pub mod corridor;
pub mod marker;
pub mod nodes;
pub mod path;
pub mod relationship;
pub mod route;
pub mod table;
pub mod text;

verus! {

/// Canvas width and height for the first `k` tables: at least 800 by 600,
/// and wide and tall enough for every placed box plus the margin.
pub open spec fn canvas_upto(tables: Seq<Table>, k: int) -> (int, int)
    decreases k,
{
    if k <= 0 {
        (MIN_CANVAS_WIDTH as int, MIN_CANVAS_HEIGHT as int)
    } else {
        let (w, h) = canvas_upto(tables, k - 1);
        match tables[k - 1].position {
            Some(p) => {
                let right = p.x + TABLE_WIDTH + CANVAS_MARGIN;
                let bottom = p.y + box_height(tables[k - 1].columns@.len() as int) + CANVAS_MARGIN;
                (if right > w { right } else { w }, if bottom > h { bottom } else { h })
            },
            None => (w, h),
        }
    }
}

proof fn lemma_canvas_bounds(tables: Seq<Table>, k: int)
    requires
        0 <= k <= tables.len(),
    ensures
        MIN_CANVAS_WIDTH <= canvas_upto(tables, k).0 <= i64::MAX + TABLE_WIDTH + CANVAS_MARGIN,
        MIN_CANVAS_HEIGHT <= canvas_upto(tables, k).1 <= i64::MAX + box_height(usize::MAX as int)
            + CANVAS_MARGIN,
    decreases k,
{
    if k > 0 {
        lemma_canvas_bounds(tables, k - 1);
        let c = tables[k - 1].columns@.len() as int;
        assert(c == tables[k - 1].columns.len());
        assert(c * 28 <= usize::MAX * 28) by (nonlinear_arith)
            requires 0 <= c <= usize::MAX;
    }
}

pub fn compute_canvas_size(diagram: &Diagram) -> (r: (i128, i128))
    ensures
        (r.0 as int, r.1 as int) == canvas_upto(diagram.tables@, diagram.tables.len() as int),
{
    let mut w: i128 = MIN_CANVAS_WIDTH as i128;
    let mut h: i128 = MIN_CANVAS_HEIGHT as i128;
    let mut i: usize = 0;
    while i < diagram.tables.len()
        invariant
            i <= diagram.tables.len(),
            (w as int, h as int) == canvas_upto(diagram.tables@, i as int),
        decreases diagram.tables.len() - i,
    {
        proof {
            lemma_canvas_bounds(diagram.tables@, i as int);
        }
        let t = &diagram.tables[i];
        if let Some(p) = t.position {
            let right = p.x as i128 + TABLE_WIDTH as i128 + CANVAS_MARGIN as i128;
            let bottom = p.y as i128 + table_height(t) + CANVAS_MARGIN as i128;
            if right > w {
                w = right;
            }
            if bottom > h {
                h = bottom;
            }
        }
        i = i + 1;
    }
    (w, h)
}

/// `doc` is the drawing of `d`: the root `svg` element sized to the canvas,
/// holding in order the background, the marker definitions, one group per
/// relationship whose two tables are present (in relationship order), and
/// the box of every table (in table order), so that tables lie above lines.
pub open spec fn document_of(d: Diagram, doc: Element) -> bool {
    let tables = d.tables@;
    let rels = d.relationships@;
    let size = canvas_upto(tables, tables.len() as int);
    let lines = drawn_count(tables, rels, rels.len() as int) as int;
    let kids = element_children(doc);
    &&& element_tag(doc) == "svg"@
    &&& element_attrs(doc) == map![
        "xmlns"@ => "http://www.w3.org/2000/svg"@,
        "width"@ => int_text(size.0),
        "height"@ => int_text(size.1),
        "viewBox"@ => "0 0 "@ + int_text(size.0) + " "@ + int_text(size.1),
    ]
    &&& element_text(doc) is None
    &&& kids.len() == 2 + lines + tables.len()
    &&& is_element(
        kids[0],
        "rect"@,
        map!["width"@ => "100%"@, "height"@ => "100%"@, "fill"@ => CANVAS_BG@],
        Seq::empty(),
        None,
    )
    &&& marker_defs(kids[1])
    &&& line_groups(tables, rels, kids.subrange(2, 2 + lines))
    &&& forall|t: int| 0 <= t < tables.len() ==> table_box(tables[t], #[trigger] kids[2 + lines + t])
}

/// The drawing of a diagram holds the box of every table, whatever its
/// relationships name, and a line for a relationship exactly when both of
/// its tables are present: one that names a missing table is left out, and
/// only that one.
pub proof fn lemma_drawing_keeps_tables(d: Diagram, doc: Element, i: int)
    requires
        document_of(d, doc),
        0 <= i < d.relationships.len(),
    ensures
        forall|t: int|
            0 <= t < d.tables.len() ==> table_box(
                d.tables@[t],
                #[trigger] element_children(doc)[2 + drawn_count(
                    d.tables@,
                    d.relationships@,
                    d.relationships.len() as int,
                ) as int + t],
            ),
        route_of(d.tables@, d.relationships@[i]) is None <==> (no_table(
            d.tables@,
            d.relationships@[i].from.table_id@,
        ) || no_table(d.tables@, d.relationships@[i].to.table_id@)),
        route_of(d.tables@, d.relationships@[i]) is Some ==> is_line_group(
            element_children(doc)[2 + drawn_count(d.tables@, d.relationships@, i) as int],
            d.tables@,
            d.relationships@,
            i,
            route_of(d.tables@, d.relationships@[i])->Some_0,
        ),
{
    lemma_dangling_route(d.tables@, d.relationships@[i]);
    let tables = d.tables@;
    let rels = d.relationships@;
    let lines = drawn_count(tables, rels, rels.len() as int) as int;
    let kids = element_children(doc);
    if route_of(tables, rels[i]) is Some {
        lemma_drawn_count_grows(tables, rels, i, rels.len() as int);
        assert(kids.subrange(2, 2 + lines)[drawn_count(tables, rels, i) as int] == kids[2 + drawn_count(
            tables,
            rels,
            i,
        ) as int]);
    }
}

/// The whole drawing of `diagram` as an SVG document.
pub fn render_svg(diagram: &Diagram) -> (r: String)
    ensures
        exists|doc: Element| document_of(*diagram, doc) && r@ == element_markup(doc),
{
    let (width, height) = compute_canvas_size(diagram);
    proof {
        lemma_canvas_bounds(diagram.tables@, diagram.tables.len() as int);
    }
    let w = int_string(width);
    let h = int_string(height);
    let mut view_box = String::from_str("0 0 ");
    push_int(&mut view_box, width);
    view_box.append(" ");
    push_int(&mut view_box, height);
    let doc = document();
    assert(element_attrs(doc) =~= map!["xmlns"@ => "http://www.w3.org/2000/svg"@]);
    let mut doc = with_attr(doc, "width", w.as_str());
    doc = with_attr(doc, "height", h.as_str());
    doc = with_attr(doc, "viewBox", view_box.as_str());

    let bg = new_element("rect");
    assert(element_attrs(bg) =~= Map::empty());
    let mut bg = with_attr(bg, "width", "100%");
    bg = with_attr(bg, "height", "100%");
    bg = with_attr(bg, "fill", CANVAS_BG);
    doc = with_child(doc, bg);

    let defs = create_markers();
    doc = with_child(doc, defs);

    let mut groups = render_relationships(diagram);
    let ghost all_groups = groups@;
    let ghost head = element_children(doc);
    assert(head =~= seq![bg, defs]);
    while groups.len() > 0
        invariant
            element_tag(doc) == "svg"@,
            element_text(doc) is None,
            element_attrs(doc) == map![
                "xmlns"@ => "http://www.w3.org/2000/svg"@,
                "width"@ => w@,
                "height"@ => h@,
                "viewBox"@ => view_box@,
            ],
            groups.len() <= all_groups.len(),
            groups@ == all_groups.subrange(all_groups.len() - groups.len(), all_groups.len() as int),
            element_children(doc) == head + all_groups.subrange(0, all_groups.len() - groups.len()),
        decreases groups.len(),
    {
        let ghost before = element_children(doc);
        let ghost taken = all_groups.len() - groups.len();
        let g = groups.remove(0);
        doc = with_child(doc, g);
        assert(all_groups.subrange(0, taken + 1) =~= all_groups.subrange(0, taken).push(g));
        assert(groups@ =~= all_groups.subrange(all_groups.len() - groups.len(), all_groups.len() as int));
        assert(element_children(doc) =~= head + all_groups.subrange(0, all_groups.len() - groups.len()));
    }
    assert(all_groups.subrange(0, all_groups.len() as int) =~= all_groups);
    let ghost with_lines = element_children(doc);
    assert(with_lines[0] == bg && with_lines[1] == defs);
    assert(with_lines.len() == 2 + all_groups.len());
    assert forall|k: int| 0 <= k < all_groups.len() implies with_lines[2 + k] == all_groups[k] by {}
    let mut t: usize = 0;
    while t < diagram.tables.len()
        invariant
            t <= diagram.tables.len(),
            element_tag(doc) == "svg"@,
            element_text(doc) is None,
            element_attrs(doc) == map![
                "xmlns"@ => "http://www.w3.org/2000/svg"@,
                "width"@ => w@,
                "height"@ => h@,
                "viewBox"@ => view_box@,
            ],
            element_children(doc).len() == with_lines.len() + t,
            forall|k: int| 0 <= k < with_lines.len() ==> element_children(doc)[k] == #[trigger] with_lines[k],
            forall|j: int|
                0 <= j < t ==> table_box(
                    diagram.tables@[j],
                    #[trigger] element_children(doc)[with_lines.len() + j],
                ),
        decreases diagram.tables.len() - t,
    {
        let b = render_table(&diagram.tables[t]);
        let ghost before = element_children(doc);
        doc = with_child(doc, b);
        proof {
            assert forall|j: int| 0 <= j < t + 1 implies table_box(
                diagram.tables@[j],
                #[trigger] element_children(doc)[with_lines.len() + j],
            ) by {
                if j < t {
                    assert(element_children(doc)[with_lines.len() + j] == before[with_lines.len() + j]);
                }
            }
        }
        t = t + 1;
    }
    let r = markup(&doc);
    proof {
        let kids = element_children(doc);
        let lines = all_groups.len() as int;
        assert(kids[0] == with_lines[0]);
        assert(kids[1] == with_lines[1]);
        assert forall|k: int| 0 <= k < lines implies kids[2 + k] == all_groups[k] by {
            assert(kids[2 + k] == with_lines[2 + k]);
        }
        assert(kids.subrange(2, 2 + lines) =~= all_groups);
        assert(document_of(*diagram, doc));
    }
    r
}

} // verus!
