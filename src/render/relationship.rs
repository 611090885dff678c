//! The lines of the relationships: routed, spread over their corridors and
//! marked at both ends.
use vstd::prelude::*;
use vstd::string::*;

use svg::node::element::Element;

use crate::ir::{Diagram, Relationship, Table};
use crate::render::corridor::{corridor_value, distribute_corridors};
use crate::render::marker::{
    determine_ie_markers, end_word, ie_markers, marker_id, marker_name, start_word, IeMarker,
};
use crate::render::nodes::{
    element_attrs, element_children, element_tag, element_text, is_element, new_element, with_attr, with_child,
};
use crate::render::path::{build_path, path_text, polyline};
use crate::render::route::{compute_routes, route_of, RouteInfo};
use crate::style::{RELATION_STROKE, RELATION_STROKE_WIDTH};

verus! {

/// What is drawn for one relationship: its path data and the ids of the
/// markers at its two ends, as `url(#id)` references.
#[derive(Debug)]
pub struct RelationshipLine {
    pub d: String,
    pub marker_start: String,
    pub marker_end: String,
}

/// `url(#id)` for the marker definition of `m` at `position`.
pub open spec fn marker_url(m: IeMarker, position: Seq<char>) -> Seq<char> {
    seq!['u', 'r', 'l', '(', '#'] + marker_name(m) + seq!['-'] + position + seq![')']
}

/// The route of every relationship of `diagram`.
pub open spec fn routes_of(tables: Seq<Table>, rels: Seq<Relationship>) -> Seq<Option<RouteInfo>> {
    Seq::new(rels.len(), |i: int| route_of(tables, rels[i]))
}

/// `line` is what is drawn for relationship `i`, whose route is `route`.
#[verifier::opaque]
pub open spec fn draws(tables: Seq<Table>, rels: Seq<Relationship>, i: int, route: RouteInfo, line: RelationshipLine) -> bool {
    let markers = ie_markers(rels[i], tables[route.from_idx as int], tables[route.to_idx as int]);
    &&& line.d@ == path_text(polyline(route, corridor_value(routes_of(tables, rels), i)))
    &&& line.marker_start@ == marker_url(markers.0, start_word())
    &&& line.marker_end@ == marker_url(markers.1, end_word())
}

fn marker_ref(m: IeMarker, position: &str) -> (r: String)
    ensures
        r@ == seq!['u', 'r', 'l', '(', '#'] + marker_name(m) + seq!['-'] + position@ + seq![')'],
{
    let id = marker_id(m, position);
    let mut r = String::from_str("url(#");
    r.append(id.as_str());
    r.append(")");
    proof {
        reveal_strlit("url(#");
        reveal_strlit(")");
    }
    assert(r@ =~= seq!['u', 'r', 'l', '(', '#'] + marker_name(m) + seq!['-'] + position@ + seq![')']);
    r
}

/// The line drawn for relationship `i` of `diagram` along route `info` with
/// middle-segment coordinate `mid`.
fn draw_line(diagram: &Diagram, i: usize, info: &RouteInfo, mid: i128) -> (line: RelationshipLine)
    requires
        i < diagram.relationships.len(),
        info.from_idx < diagram.tables.len(),
        info.to_idx < diagram.tables.len(),
        crate::render::route::route_bounded(*info),
        -4 * crate::render::route::COORD_LIMIT <= mid <= 4 * crate::render::route::COORD_LIMIT,
        mid == corridor_value(routes_of(diagram.tables@, diagram.relationships@), i as int),
    ensures
        draws(diagram.tables@, diagram.relationships@, i as int, *info, line),
{
    let d = build_path(info, mid);
    let from_table = &diagram.tables[info.from_idx];
    let to_table = &diagram.tables[info.to_idx];
    let (from_marker, to_marker) = determine_ie_markers(&diagram.relationships[i], from_table, to_table);
    let marker_start = marker_ref(from_marker, "start");
    let marker_end = marker_ref(to_marker, "end");
    proof {
        reveal_strlit("start");
        reveal_strlit("end");
        assert("start"@ =~= start_word());
        assert("end"@ =~= end_word());
    }
    let line = RelationshipLine { d, marker_start, marker_end };
    proof {
        reveal(draws);
    }
    line
}

/// The line of each relationship in order; `None` for a relationship one of
/// whose tables is not in the diagram.
pub fn relationship_lines(diagram: &Diagram) -> (lines: Vec<Option<RelationshipLine>>)
    ensures
        lines.len() == diagram.relationships.len(),
        forall|i: int|
            0 <= i < lines.len() ==> match route_of(diagram.tables@, diagram.relationships@[i]) {
                Some(route) => (#[trigger] lines@[i]) is Some && draws(
                    diagram.tables@,
                    diagram.relationships@,
                    i,
                    route,
                    lines@[i]->Some_0,
                ),
                None => lines@[i] is None,
            },
{
    let routes = compute_routes(diagram);
    let mids = distribute_corridors(&routes);
    let ghost all = routes_of(diagram.tables@, diagram.relationships@);
    assert(routes@ =~= all);
    let mut lines: Vec<Option<RelationshipLine>> = Vec::new();
    let mut i: usize = 0;
    while i < routes.len()
        invariant
            i <= routes.len(),
            routes.len() == diagram.relationships.len(),
            mids.len() == routes.len(),
            lines.len() == i,
            routes@ == all,
            all == routes_of(diagram.tables@, diagram.relationships@),
            forall|t: int| 0 <= t < routes.len() ==> #[trigger] mids@[t] == corridor_value(routes@, t),
            forall|t: int|
                0 <= t < routes.len() ==> -4 * crate::render::route::COORD_LIMIT <= #[trigger] mids@[t]
                    <= 4 * crate::render::route::COORD_LIMIT,
            forall|t: int|
                0 <= t < routes.len() && #[trigger] routes@[t] is Some ==> crate::render::route::route_bounded(
                    routes@[t]->Some_0,
                ) && routes@[t]->Some_0.from_idx < diagram.tables.len() && routes@[t]->Some_0.to_idx
                    < diagram.tables.len(),
            forall|t: int|
                0 <= t < i ==> match routes@[t] {
                    Some(route) => (#[trigger] lines@[t]) is Some && draws(
                        diagram.tables@,
                        diagram.relationships@,
                        t,
                        route,
                        lines@[t]->Some_0,
                    ),
                    None => lines@[t] is None,
                },
        decreases routes.len() - i,
    {
        assert(routes@[i as int] == all[i as int]);
        match &routes[i] {
            Some(info) => {
                assert(mids@[i as int] == corridor_value(routes_of(diagram.tables@, diagram.relationships@), i as int));
                let line = draw_line(diagram, i, info, mids[i]);
                lines.push(Some(line));
            },
            None => {
                lines.push(None);
            },
        }
        i = i + 1;
    }
    proof {
        assert forall|t: int| 0 <= t < lines.len() implies route_of(diagram.tables@, diagram.relationships@[t])
            == routes@[t] by {
            assert(all[t] == route_of(diagram.tables@, diagram.relationships@[t]));
        }
    }
    lines
}

/// Number of the first `k` relationships whose two tables are in the diagram.
pub open spec fn drawn_count(tables: Seq<Table>, rels: Seq<Relationship>, k: int) -> nat
    decreases k,
{
    if k <= 0 {
        0
    } else if route_of(tables, rels[k - 1]) is Some {
        drawn_count(tables, rels, k - 1) + 1
    } else {
        drawn_count(tables, rels, k - 1)
    }
}

/// The attributes of the path of a line with path data `d` and marker
/// references `start` and `end`.
pub open spec fn line_attrs(d: Seq<char>, start: Seq<char>, end: Seq<char>) -> Map<Seq<char>, Seq<char>> {
    map![
        "d"@ => d,
        "stroke"@ => RELATION_STROKE@,
        "stroke-width"@ => RELATION_STROKE_WIDTH@,
        "fill"@ => "none"@,
        "marker-start"@ => start,
        "marker-end"@ => end,
    ]
}

/// `g` is the group drawn for relationship `i`, whose route is `route`: a
/// group holding one path along the route's polyline with the markers of
/// the relationship at its two ends.
pub open spec fn is_line_group(g: Element, tables: Seq<Table>, rels: Seq<Relationship>, i: int, route: RouteInfo) -> bool {
    let markers = ie_markers(rels[i], tables[route.from_idx as int], tables[route.to_idx as int]);
    &&& element_tag(g) == "g"@
    &&& element_attrs(g).dom() == Set::<Seq<char>>::empty()
    &&& element_text(g) is None
    &&& element_children(g).len() == 1
    &&& is_element(
        element_children(g)[0],
        "path"@,
        line_attrs(
            path_text(polyline(route, corridor_value(routes_of(tables, rels), i))),
            marker_url(markers.0, start_word()),
            marker_url(markers.1, end_word()),
        ),
        Seq::empty(),
        None,
    )
}

/// `groups` holds one group per relationship whose two tables are in the
/// diagram, in relationship order: that of relationship `i` comes after the
/// groups of the drawn relationships before it.
pub open spec fn line_groups(tables: Seq<Table>, rels: Seq<Relationship>, groups: Seq<Element>) -> bool {
    &&& groups.len() == drawn_count(tables, rels, rels.len() as int)
    &&& forall|i: int|
        0 <= i < rels.len() && #[trigger] route_of(tables, rels[i]) is Some ==> is_line_group(
            groups[drawn_count(tables, rels, i) as int],
            tables,
            rels,
            i,
            route_of(tables, rels[i])->Some_0,
        )
}

/// A drawn relationship comes before the lines drawn after it.
pub proof fn lemma_drawn_count_grows(tables: Seq<Table>, rels: Seq<Relationship>, i: int, k: int)
    requires
        0 <= i < k <= rels.len(),
        route_of(tables, rels[i]) is Some,
    ensures
        drawn_count(tables, rels, i) < drawn_count(tables, rels, k),
    decreases k - i,
{
    if k > i + 1 {
        lemma_drawn_count_grows(tables, rels, i, k - 1);
    }
}

/// The group of one line.
fn line_group(line: &RelationshipLine) -> (g: Element)
    ensures
        element_tag(g) == "g"@,
        element_attrs(g).dom() == Set::<Seq<char>>::empty(),
        element_text(g) is None,
        element_children(g).len() == 1,
        is_element(
            element_children(g)[0],
            "path"@,
            line_attrs(line.d@, line.marker_start@, line.marker_end@),
            Seq::empty(),
            None,
        ),
{
    let path = new_element("path");
    assert(element_attrs(path) =~= Map::empty());
    let mut path = with_attr(path, "d", line.d.as_str());
    path = with_attr(path, "stroke", RELATION_STROKE);
    path = with_attr(path, "stroke-width", RELATION_STROKE_WIDTH);
    path = with_attr(path, "fill", "none");
    path = with_attr(path, "marker-start", line.marker_start.as_str());
    path = with_attr(path, "marker-end", line.marker_end.as_str());
    let g = with_child(new_element("g"), path);
    assert(element_children(g) =~= seq![path]);
    g
}

/// One SVG group per drawn relationship line, as `line_groups` states.
pub fn render_relationships(diagram: &Diagram) -> (groups: Vec<Element>)
    ensures
        line_groups(diagram.tables@, diagram.relationships@, groups@),
{
    let ghost tables = diagram.tables@;
    let ghost rels = diagram.relationships@;
    let lines = relationship_lines(diagram);
    let mut groups: Vec<Element> = Vec::new();
    let mut i: usize = 0;
    while i < lines.len()
        invariant
            i <= lines.len(),
            lines.len() == rels.len(),
            tables == diagram.tables@,
            rels == diagram.relationships@,
            forall|t: int|
                0 <= t < lines.len() ==> match route_of(tables, rels[t]) {
                    Some(route) => (#[trigger] lines@[t]) is Some && draws(tables, rels, t, route, lines@[t]->Some_0),
                    None => lines@[t] is None,
                },
            groups.len() == drawn_count(tables, rels, i as int),
            forall|t: int|
                0 <= t < i && #[trigger] route_of(tables, rels[t]) is Some ==> is_line_group(
                    groups@[drawn_count(tables, rels, t) as int],
                    tables,
                    rels,
                    t,
                    route_of(tables, rels[t])->Some_0,
                ),
        decreases lines.len() - i,
    {
        assert(lines@[i as int] is Some == route_of(tables, rels[i as int]) is Some);
        if let Some(line) = &lines[i] {
            let g = line_group(line);
            proof {
                reveal(draws);
            }
            let ghost before = groups@;
            groups.push(g);
            proof {
                assert forall|t: int|
                    0 <= t < i + 1 && #[trigger] route_of(tables, rels[t]) is Some implies is_line_group(
                    groups@[drawn_count(tables, rels, t) as int],
                    tables,
                    rels,
                    t,
                    route_of(tables, rels[t])->Some_0,
                ) by {
                    if t < i {
                        lemma_drawn_count_grows(tables, rels, t, i as int);
                        assert(groups@[drawn_count(tables, rels, t) as int] == before[drawn_count(tables, rels, t) as int]);
                    }
                }
            }
        }
        i = i + 1;
    }
    groups
}

} // verus!
