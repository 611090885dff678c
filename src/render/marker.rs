//! Cardinality markers in Information Engineering notation.
use vstd::prelude::*;
use vstd::string::*;

use svg::node::element::Element;

use crate::ir::{RelationType, Relationship, Table};
use crate::render::nodes::{
    element_attrs, element_children, element_tag, element_text, is_element, new_element, with_attr, with_child,
};
use crate::render::route::find_column;
use crate::render::text::{int_string, int_text, push_int};
use crate::style::{RELATION_STROKE, RELATION_STROKE_WIDTH};

verus! {

/// The glyph at one end of a relationship line.
#[derive(Debug, Clone, Copy, PartialEq, Eq, Structural)]
pub enum IeMarker {
    /// Exactly one: two bars.
    OneMandatory,
    /// Zero or one: a bar and a circle.
    OneOptional,
    /// One or many: a crow's foot and a bar.
    ManyMandatory,
    /// Zero or many: a crow's foot and a circle.
    ManyOptional,
}

pub open spec fn marker_name(m: IeMarker) -> Seq<char> {
    match m {
        IeMarker::OneMandatory => seq!['o', 'n', 'e', '-', 'm', 'a', 'n', 'd', 'a', 't', 'o', 'r', 'y'],
        IeMarker::OneOptional => seq!['o', 'n', 'e', '-', 'o', 'p', 't', 'i', 'o', 'n', 'a', 'l'],
        IeMarker::ManyMandatory => seq!['m', 'a', 'n', 'y', '-', 'm', 'a', 'n', 'd', 'a', 't', 'o', 'r', 'y'],
        IeMarker::ManyOptional => seq!['m', 'a', 'n', 'y', '-', 'o', 'p', 't', 'i', 'o', 'n', 'a', 'l'],
    }
}

/// The id of the marker definition for `marker` at `position` (`start` or
/// `end` of a line): `{one|many}-{mandatory|optional}-{position}`.
pub fn marker_id(marker: IeMarker, position: &str) -> (r: String)
    ensures
        r@ == marker_name(marker) + seq!['-'] + position@,
{
    let name = match marker {
        IeMarker::OneMandatory => {
            proof { reveal_strlit("one-mandatory"); }
            "one-mandatory"
        },
        IeMarker::OneOptional => {
            proof { reveal_strlit("one-optional"); }
            "one-optional"
        },
        IeMarker::ManyMandatory => {
            proof { reveal_strlit("many-mandatory"); }
            "many-mandatory"
        },
        IeMarker::ManyOptional => {
            proof { reveal_strlit("many-optional"); }
            "many-optional"
        },
    };
    let mut r = String::from_str(name);
    r.append("-");
    r.append(position);
    proof { reveal_strlit("-"); }
    assert(r@ =~= marker_name(marker) + seq!['-'] + position@);
    r
}

/// Whether the foreign-key column that `names` starts with is nullable in
/// `table`: the first column of that name decides; an empty list, or a name
/// the table lacks, counts as nullable.
pub open spec fn fk_nullable(names: Seq<String>, table: Table) -> bool {
    let name = names[0]@;
    if names.len() == 0 {
        true
    } else if exists|i: int| 0 <= i < table.columns@.len() && (#[trigger] table.columns@[i]).name@ == name {
        table.columns@[choose|i: int|
            0 <= i < table.columns@.len() && table.columns@[i].name@ == name && forall|j: int|
                0 <= j < i ==> (#[trigger] table.columns@[j]).name@ != name].is_nullable
    } else {
        true
    }
}

pub open spec fn one_marker(nullable: bool) -> IeMarker {
    if nullable { IeMarker::OneOptional } else { IeMarker::OneMandatory }
}

pub open spec fn many_marker(nullable: bool) -> IeMarker {
    if nullable { IeMarker::ManyOptional } else { IeMarker::ManyMandatory }
}

/// The markers at the `from` and `to` ends of `rel`. The foreign-key column
/// that decides optionality is the `from` column for many-to-one and
/// one-to-one, the `to` column for one-to-many; many-to-many is optional at
/// both ends.
pub open spec fn ie_markers(rel: Relationship, from_table: Table, to_table: Table) -> (IeMarker, IeMarker) {
    match rel.relation_type {
        RelationType::ManyToOne => {
            let n = fk_nullable(rel.from.column_names@, from_table);
            (many_marker(n), one_marker(n))
        },
        RelationType::OneToMany => {
            let n = fk_nullable(rel.to.column_names@, to_table);
            (one_marker(n), many_marker(n))
        },
        RelationType::OneToOne => {
            let n = fk_nullable(rel.from.column_names@, from_table);
            (one_marker(n), one_marker(n))
        },
        RelationType::ManyToMany => (IeMarker::ManyOptional, IeMarker::ManyOptional),
    }
}

pub fn fk_is_nullable(column_names: &Vec<String>, table: &Table) -> (r: bool)
    ensures
        r == fk_nullable(column_names@, *table),
{
    if column_names.len() == 0 {
        return true;
    }
    let name = &column_names[0];
    match find_column(table, name) {
        Some(i) => {
            proof {
                let c = choose|c: int|
                    0 <= c < table.columns@.len() && table.columns@[c].name@ == name@ && forall|j: int|
                        0 <= j < c ==> (#[trigger] table.columns@[j]).name@ != name@;
                assert(c == i as int) by {
                    if c < i {
                        assert(table.columns@[c].name@ != name@);
                    } else if c > i {
                        assert(table.columns@[i as int].name@ != name@);
                    }
                }
            }
            table.columns[i].is_nullable
        },
        None => true,
    }
}

pub fn determine_ie_markers(rel: &Relationship, from_table: &Table, to_table: &Table) -> (r: (IeMarker, IeMarker))
    ensures
        r == ie_markers(*rel, *from_table, *to_table),
{
    match rel.relation_type {
        RelationType::ManyToOne => {
            let fk_nullable = fk_is_nullable(&rel.from.column_names, from_table);
            let from_marker = if fk_nullable { IeMarker::ManyOptional } else { IeMarker::ManyMandatory };
            let to_marker = if fk_nullable { IeMarker::OneOptional } else { IeMarker::OneMandatory };
            (from_marker, to_marker)
        },
        RelationType::OneToMany => {
            let fk_nullable = fk_is_nullable(&rel.to.column_names, to_table);
            let from_marker = if fk_nullable { IeMarker::OneOptional } else { IeMarker::OneMandatory };
            let to_marker = if fk_nullable { IeMarker::ManyOptional } else { IeMarker::ManyMandatory };
            (from_marker, to_marker)
        },
        RelationType::OneToOne => {
            let from_nullable = fk_is_nullable(&rel.from.column_names, from_table);
            let from_marker = if from_nullable { IeMarker::OneOptional } else { IeMarker::OneMandatory };
            let to_marker = if from_nullable { IeMarker::OneOptional } else { IeMarker::OneMandatory };
            (from_marker, to_marker)
        },
        RelationType::ManyToMany => (IeMarker::ManyOptional, IeMarker::ManyOptional),
    }
}

/// A many-to-one relationship whose foreign-key column is not nullable has a
/// mandatory crow's foot at `from` and a mandatory bar at `to`; with a
/// nullable one, both are optional. The column is the first column of the
/// `from` table named by the relationship's first `from` column name.
pub proof fn lemma_many_to_one_markers(rel: Relationship, from_table: Table, to_table: Table, c: int)
    requires
        rel.relation_type == RelationType::ManyToOne,
        rel.from.column_names@.len() > 0,
        0 <= c < from_table.columns@.len(),
        from_table.columns@[c].name@ == rel.from.column_names@[0]@,
        forall|j: int| 0 <= j < c ==> (#[trigger] from_table.columns@[j]).name@ != rel.from.column_names@[0]@,
    ensures
        !from_table.columns@[c].is_nullable ==> ie_markers(rel, from_table, to_table) == (
            IeMarker::ManyMandatory,
            IeMarker::OneMandatory,
        ),
        from_table.columns@[c].is_nullable ==> ie_markers(rel, from_table, to_table) == (
            IeMarker::ManyOptional,
            IeMarker::OneOptional,
        ),
{
    let name = rel.from.column_names@[0]@;
    assert(from_table.columns@[c].name@ == name);
    let d = choose|i: int|
        0 <= i < from_table.columns@.len() && from_table.columns@[i].name@ == name && forall|j: int|
            0 <= j < i ==> (#[trigger] from_table.columns@[j]).name@ != name;
    assert(d == c) by {
        if d < c {
            assert(from_table.columns@[d].name@ != name);
        } else if d > c {
            assert(from_table.columns@[c].name@ != name);
        }
    }
}

/// Path data of a crow's foot whose two prongs join at x = `base` and open
/// towards x = `tip`: `M base 12 L tip 3 M base 12 L tip 21`.
pub open spec fn crow_foot_text(base: int, tip: int) -> Seq<char> {
    seq!['M', ' '] + int_text(base) + seq![' ', '1', '2', ' ', 'L', ' '] + int_text(tip) + seq![' ', '3', ' ', 'M', ' ']
        + int_text(base) + seq![' ', '1', '2', ' ', 'L', ' '] + int_text(tip) + seq![' ', '2', '1']
}

pub fn crow_foot_data(base: i64, tip: i64) -> (d: String)
    ensures
        d@ == crow_foot_text(base as int, tip as int),
{
    let mut d = String::from_str("M ");
    push_int(&mut d, base as i128);
    d.append(" 12 L ");
    push_int(&mut d, tip as i128);
    d.append(" 3 M ");
    push_int(&mut d, base as i128);
    d.append(" 12 L ");
    push_int(&mut d, tip as i128);
    d.append(" 21");
    proof {
        reveal_strlit("M ");
        reveal_strlit(" 12 L ");
        reveal_strlit(" 3 M ");
        reveal_strlit(" 21");
    }
    assert(d@ =~= crow_foot_text(base as int, tip as int));
    d
}

pub open spec fn start_word() -> Seq<char> {
    seq!['s', 't', 'a', 'r', 't']
}

pub open spec fn end_word() -> Seq<char> {
    seq!['e', 'n', 'd']
}

/// The stroke attributes of marker glyphs added to `attrs`.
pub open spec fn stroked_attrs(attrs: Map<Seq<char>, Seq<char>>) -> Map<Seq<char>, Seq<char>> {
    attrs.insert("stroke"@, RELATION_STROKE@).insert("stroke-width"@, RELATION_STROKE_WIDTH@)
}

/// `e` is a bar across the line at x = `x`.
pub open spec fn is_bar(e: Element, x: int) -> bool {
    is_element(
        e,
        "line"@,
        stroked_attrs(map!["x1"@ => int_text(x), "y1"@ => "3"@, "x2"@ => int_text(x), "y2"@ => "21"@]),
        Seq::empty(),
        None,
    )
}

/// `e` is an open circle on the line centred at x = `cx`.
pub open spec fn is_circle(e: Element, cx: int) -> bool {
    is_element(
        e,
        "circle"@,
        stroked_attrs(map!["cx"@ => int_text(cx), "cy"@ => "12"@, "r"@ => "5"@]).insert("fill"@, "white"@),
        Seq::empty(),
        None,
    )
}

/// `e` is a crow's foot whose prongs join at x = `base` and open towards
/// x = `tip`.
pub open spec fn is_crow_foot(e: Element, base: int, tip: int) -> bool {
    is_element(
        e,
        "path"@,
        stroked_attrs(map!["d"@ => crow_foot_text(base, tip)]).insert("fill"@, "none"@),
        Seq::empty(),
        None,
    )
}

/// The glyph of marker definition `k` at the start of a line (even `k`) or
/// at its end (odd `k`), in the order one-mandatory, one-optional,
/// many-mandatory, many-optional.
pub open spec fn defined_marker(k: int) -> IeMarker {
    if k < 2 {
        IeMarker::OneMandatory
    } else if k < 4 {
        IeMarker::OneOptional
    } else if k < 6 {
        IeMarker::ManyMandatory
    } else {
        IeMarker::ManyOptional
    }
}

pub open spec fn defined_position(k: int) -> Seq<char> {
    if k % 2 == 0 {
        start_word()
    } else {
        end_word()
    }
}

/// The reference point of a marker: near the start of a start marker, near
/// the end of an end marker.
pub open spec fn defined_ref_x(k: int) -> int {
    if k % 2 == 0 {
        4
    } else {
        28
    }
}

/// The attributes of a marker definition `id` with reference x `ref_x`.
pub open spec fn marker_attrs(id: Seq<char>, ref_x: int) -> Map<Seq<char>, Seq<char>> {
    map![
        "id"@ => id,
        "markerWidth"@ => "32"@,
        "markerHeight"@ => "24"@,
        "refX"@ => int_text(ref_x),
        "refY"@ => "12"@,
        "orient"@ => "auto"@,
        "markerUnits"@ => "userSpaceOnUse"@,
    ]
}

/// The two glyphs of marker definition `k`: bars for one, a circle for
/// optional, a crow's foot for many, mirrored between start and end.
pub open spec fn marker_glyphs(k: int, a: Element, b: Element) -> bool {
    if k == 0 {
        is_bar(a, 16) && is_bar(b, 22)
    } else if k == 1 {
        is_bar(a, 10) && is_bar(b, 16)
    } else if k == 2 {
        is_bar(a, 16) && is_circle(b, 22)
    } else if k == 3 {
        is_circle(a, 10) && is_bar(b, 16)
    } else if k == 4 {
        is_crow_foot(a, 16, 6) && is_bar(b, 24)
    } else if k == 5 {
        is_bar(a, 8) && is_crow_foot(b, 16, 26)
    } else if k == 6 {
        is_crow_foot(a, 16, 6) && is_circle(b, 22)
    } else {
        is_circle(a, 10) && is_crow_foot(b, 16, 26)
    }
}

/// `m` is marker definition `k`.
pub open spec fn is_marker_def(m: Element, k: int) -> bool {
    &&& element_tag(m) == "marker"@
    &&& element_attrs(m) == marker_attrs(
        marker_name(defined_marker(k)) + seq!['-'] + defined_position(k),
        defined_ref_x(k),
    )
    &&& element_text(m) is None
    &&& element_children(m).len() == 2
    &&& marker_glyphs(k, element_children(m)[0], element_children(m)[1])
}

/// `defs` holds the eight marker definitions, in order.
pub open spec fn marker_defs(defs: Element) -> bool {
    &&& element_tag(defs) == "defs"@
    &&& element_attrs(defs).dom() == Set::<Seq<char>>::empty()
    &&& element_text(defs) is None
    &&& element_children(defs).len() == 8
    &&& forall|k: int| 0 <= k < 8 ==> is_marker_def(#[trigger] element_children(defs)[k], k)
}

fn stroked(e: Element) -> (r: Element)
    ensures
        element_tag(r) == element_tag(e),
        element_attrs(r) == stroked_attrs(element_attrs(e)),
        element_children(r) == element_children(e),
        element_text(r) == element_text(e),
{
    let e = with_attr(e, "stroke", RELATION_STROKE);
    with_attr(e, "stroke-width", RELATION_STROKE_WIDTH)
}

fn vertical_line(x: i64) -> (e: Element)
    ensures
        is_bar(e, x as int),
{
    let xs = int_string(x as i128);
    let e = new_element("line");
    assert(element_attrs(e) =~= Map::empty());
    let mut e = with_attr(e, "x1", xs.as_str());
    e = with_attr(e, "y1", "3");
    e = with_attr(e, "x2", xs.as_str());
    e = with_attr(e, "y2", "21");
    stroked(e)
}

fn circle_symbol(cx: i64) -> (e: Element)
    ensures
        is_circle(e, cx as int),
{
    let e = new_element("circle");
    assert(element_attrs(e) =~= Map::empty());
    let mut e = with_attr(e, "cx", int_string(cx as i128).as_str());
    e = with_attr(e, "cy", "12");
    e = with_attr(e, "r", "5");
    e = stroked(e);
    with_attr(e, "fill", "white")
}

/// A crow's foot opening towards the start of a line, its tip at `tip_x`.
fn crow_foot_start(tip_x: i64) -> (e: Element)
    requires
        tip_x <= i64::MAX - 10,
    ensures
        is_crow_foot(e, tip_x + 10, tip_x as int),
{
    let e = new_element("path");
    assert(element_attrs(e) =~= Map::empty());
    let mut e = with_attr(e, "d", crow_foot_data(tip_x + 10, tip_x).as_str());
    e = stroked(e);
    with_attr(e, "fill", "none")
}

/// A crow's foot opening towards the end of a line, its tip at `tip_x`.
fn crow_foot_end(tip_x: i64) -> (e: Element)
    requires
        tip_x >= i64::MIN + 10,
    ensures
        is_crow_foot(e, tip_x - 10, tip_x as int),
{
    let e = new_element("path");
    assert(element_attrs(e) =~= Map::empty());
    let mut e = with_attr(e, "d", crow_foot_data(tip_x - 10, tip_x).as_str());
    e = stroked(e);
    with_attr(e, "fill", "none")
}

/// Marker definition `k` (see `is_marker_def`) drawing `first`, then
/// `second`.
fn build_marker(k: usize, first: Element, second: Element) -> (m: Element)
    requires
        k < 8,
        marker_glyphs(k as int, first, second),
    ensures
        is_marker_def(m, k as int),
{
    let kind = if k < 2 {
        IeMarker::OneMandatory
    } else if k < 4 {
        IeMarker::OneOptional
    } else if k < 6 {
        IeMarker::ManyMandatory
    } else {
        IeMarker::ManyOptional
    };
    let (position, ref_x): (&str, i64) = if k % 2 == 0 {
        ("start", 4)
    } else {
        ("end", 28)
    };
    proof {
        reveal_strlit("start");
        reveal_strlit("end");
        assert("start"@ =~= start_word());
        assert("end"@ =~= end_word());
    }
    let id = marker_id(kind, position);
    let m = new_element("marker");
    assert(element_attrs(m) =~= Map::empty());
    let mut m = with_attr(m, "id", id.as_str());
    m = with_attr(m, "markerWidth", "32");
    m = with_attr(m, "markerHeight", "24");
    m = with_attr(m, "refX", int_string(ref_x as i128).as_str());
    m = with_attr(m, "refY", "12");
    m = with_attr(m, "orient", "auto");
    m = with_attr(m, "markerUnits", "userSpaceOnUse");
    m = with_child(m, first);
    m = with_child(m, second);
    assert(element_children(m) =~= seq![first, second]);
    m
}

/// The `defs` element with the eight marker definitions: each glyph once
/// for the start and once, mirrored, for the end of a line.
pub fn create_markers() -> (defs: Element)
    ensures
        marker_defs(defs),
{
    let mut defs = new_element("defs");
    let m0 = build_marker(0, vertical_line(16), vertical_line(22));
    let m1 = build_marker(1, vertical_line(10), vertical_line(16));
    let m2 = build_marker(2, vertical_line(16), circle_symbol(22));
    let m3 = build_marker(3, circle_symbol(10), vertical_line(16));
    let m4 = build_marker(4, crow_foot_start(6), vertical_line(24));
    let m5 = build_marker(5, vertical_line(8), crow_foot_end(26));
    let m6 = build_marker(6, crow_foot_start(6), circle_symbol(22));
    let m7 = build_marker(7, circle_symbol(10), crow_foot_end(26));
    defs = with_child(defs, m0);
    defs = with_child(defs, m1);
    defs = with_child(defs, m2);
    defs = with_child(defs, m3);
    defs = with_child(defs, m4);
    defs = with_child(defs, m5);
    defs = with_child(defs, m6);
    defs = with_child(defs, m7);
    assert(element_children(defs) =~= seq![m0, m1, m2, m3, m4, m5, m6, m7]);
    defs
}

} // verus!
