//! Where each relationship line starts and ends: the sides of the two table
//! boxes it joins and the exact points on them.
//!
use vstd::prelude::*;

use crate::ir::{
    find_table, is_first_table, lemma_table_index, no_table, table_index, Diagram, Position, Relationship,
    Table,
};
use crate::style::{box_height, HEADER_HEIGHT, ROW_HEIGHT, TABLE_WIDTH};

verus! {

/// The side of a table box that a line attaches to.
#[derive(Debug, Clone, Copy, PartialEq, Eq, Structural)]
pub enum Side {
    Left,
    Right,
    Top,
    Bottom,
}

/// The resolved ends of one relationship line, in pixels.
#[derive(Debug, Clone, Copy, PartialEq, Eq, Structural)]
pub struct RouteInfo {
    pub from_idx: usize,
    pub to_idx: usize,
    pub from_side: Side,
    pub to_side: Side,
    pub from_x: i128,
    pub from_y: i128,
    pub to_x: i128,
    pub to_y: i128,
}

/// Height in pixels of the box of `table`.
pub fn table_height(table: &Table) -> (h: i128)
    ensures
        h == box_height(table.columns@.len() as int),
        HEADER_HEIGHT <= h <= HEADER_HEIGHT + usize::MAX * ROW_HEIGHT,
{
    let rows = table.columns.len() as i128 * ROW_HEIGHT as i128;
    assert(0 <= rows <= usize::MAX * ROW_HEIGHT) by (nonlinear_arith)
        requires rows == table.columns@.len() * ROW_HEIGHT, table.columns@.len() <= usize::MAX, ROW_HEIGHT == 28;
    HEADER_HEIGHT as i128 + rows
}

/// Sides joined for boxes at `fp` and `tp` of heights `fh` and `th`: boxes
/// that overlap horizontally are joined bottom to top, the upper one (by
/// vertical centre) at its bottom; others are joined right to left, the
/// left one at its right.
pub open spec fn sides_for(fp: Position, fh: int, tp: Position, th: int) -> (Side, Side) {
    if fp.x < tp.x + TABLE_WIDTH && tp.x < fp.x + TABLE_WIDTH {
        if 2 * fp.y + fh < 2 * tp.y + th {
            (Side::Bottom, Side::Top)
        } else {
            (Side::Top, Side::Bottom)
        }
    } else if fp.x < tp.x {
        (Side::Right, Side::Left)
    } else {
        (Side::Left, Side::Right)
    }
}

pub fn determine_sides(from_pos: Position, from_h: i128, to_pos: Position, to_h: i128) -> (r: (Side, Side))
    requires
        0 <= from_h <= HEADER_HEIGHT + usize::MAX * ROW_HEIGHT,
        0 <= to_h <= HEADER_HEIGHT + usize::MAX * ROW_HEIGHT,
    ensures
        r == sides_for(from_pos, from_h as int, to_pos, to_h as int),
{
    let fx = from_pos.x as i128;
    let tx = to_pos.x as i128;
    let w = TABLE_WIDTH as i128;
    let h_overlap = fx < tx + w && tx < fx + w;
    if h_overlap {
        let from_cy2 = 2 * from_pos.y as i128 + from_h;
        let to_cy2 = 2 * to_pos.y as i128 + to_h;
        if from_cy2 < to_cy2 {
            (Side::Bottom, Side::Top)
        } else {
            (Side::Top, Side::Bottom)
        }
    } else if fx < tx {
        (Side::Right, Side::Left)
    } else {
        (Side::Left, Side::Right)
    }
}

/// Index of the first column of `table` named `name`, or 0 if none is.
pub open spec fn row_index(table: Table, name: Seq<char>) -> int {
    if exists|i: int| 0 <= i < table.columns@.len() && (#[trigger] table.columns@[i]).name@ == name {
        choose|i: int|
            0 <= i < table.columns@.len() && table.columns@[i].name@ == name && forall|j: int|
                0 <= j < i ==> (#[trigger] table.columns@[j]).name@ != name
    } else {
        0
    }
}

/// The index of the first column named `name`.
pub fn find_column(table: &Table, name: &String) -> (r: Option<usize>)
    ensures
        match r {
            Some(i) => i < table.columns.len() && table.columns@[i as int].name@ == name@ && forall|j: int|
                0 <= j < i ==> (#[trigger] table.columns@[j]).name@ != name@,
            None => forall|j: int| 0 <= j < table.columns.len() ==> (#[trigger] table.columns@[j]).name@ != name@,
        },
{
    let mut i: usize = 0;
    while i < table.columns.len()
        invariant
            i <= table.columns.len(),
            forall|j: int| 0 <= j < i ==> (#[trigger] table.columns@[j]).name@ != name@,
        decreases table.columns.len() - i,
    {
        if table.columns[i].name == *name {
            return Some(i);
        }
        i = i + 1;
    }
    None
}

/// The row a line anchors at for an endpoint whose columns are `names`: the
/// first column named like the first of them; the first row if the list is
/// empty or no column has that name.
pub open spec fn anchor_row(table: Table, names: Seq<String>) -> int {
    if names.len() == 0 {
        0
    } else {
        row_index(table, names[0]@)
    }
}

/// Vertical centre, below the top of `table`, of the row that an endpoint
/// with columns `names` anchors at.
pub fn column_row_y(table: &Table, names: &Vec<String>) -> (y: i128)
    ensures
        y == HEADER_HEIGHT + anchor_row(*table, names@) * ROW_HEIGHT + ROW_HEIGHT / 2,
        0 <= y <= HEADER_HEIGHT + usize::MAX * ROW_HEIGHT + ROW_HEIGHT / 2,
{
    let idx = if names.len() == 0 {
        0
    } else {
        match find_column(table, &names[0]) {
            Some(i) => {
                proof {
                    let name = names@[0]@;
                    let c = choose|c: int|
                        0 <= c < table.columns@.len() && table.columns@[c].name@ == name && forall|j: int|
                            0 <= j < c ==> (#[trigger] table.columns@[j]).name@ != name;
                    assert(c == i as int) by {
                        if c < i {
                            assert(table.columns@[c].name@ != name);
                        } else if c > i {
                            assert(table.columns@[i as int].name@ != name);
                        }
                    }
                }
                i
            },
            None => {
                assert(!exists|i: int|
                    0 <= i < table.columns@.len() && (#[trigger] table.columns@[i]).name@ == names@[0]@);
                0
            },
        }
    };
    let offset = idx as i128 * ROW_HEIGHT as i128;
    assert(0 <= offset <= usize::MAX * ROW_HEIGHT) by (nonlinear_arith)
        requires offset == idx * ROW_HEIGHT, 0 <= idx <= usize::MAX, ROW_HEIGHT == 28;
    HEADER_HEIGHT as i128 + offset + ROW_HEIGHT as i128 / 2
}

/// The point where a line meets side `side` of the box of `table` at `pos`:
/// on a left or right edge at the centre of the anchor row of the endpoint
/// columns `names`; on a top or bottom edge at the horizontal centre.
pub open spec fn attach_point(pos: Position, table: Table, side: Side, names: Seq<String>) -> (int, int) {
    let row = HEADER_HEIGHT + anchor_row(table, names) * ROW_HEIGHT + ROW_HEIGHT / 2;
    match side {
        Side::Left => (pos.x as int, pos.y + row),
        Side::Right => (pos.x + TABLE_WIDTH, pos.y + row),
        Side::Top => (pos.x + TABLE_WIDTH / 2, pos.y as int),
        Side::Bottom => (pos.x + TABLE_WIDTH / 2, pos.y + box_height(table.columns@.len() as int)),
    }
}

pub fn connection_point(pos: Position, table: &Table, side: Side, names: &Vec<String>) -> (r: (i128, i128))
    ensures
        (r.0 as int, r.1 as int) == attach_point(pos, *table, side, names@),
        -COORD_LIMIT <= r.0 <= COORD_LIMIT,
        -COORD_LIMIT <= r.1 <= COORD_LIMIT,
{
    let x = pos.x as i128;
    let y = pos.y as i128;
    let w = TABLE_WIDTH as i128;
    match side {
        Side::Left => (x, y + column_row_y(table, names)),
        Side::Right => (x + w, y + column_row_y(table, names)),
        Side::Top => (x + w / 2, y),
        Side::Bottom => (x + w / 2, y + table_height(table)),
    }
}

/// Position of a table, the origin if it has none.
pub open spec fn position_or_origin(t: Table) -> Position {
    match t.position {
        Some(p) => p,
        None => Position { x: 0, y: 0 },
    }
}

/// The route of relationship `rel`, if both of its tables are in `tables`.
#[verifier::opaque]
pub open spec fn route_of(tables: Seq<Table>, rel: Relationship) -> Option<RouteInfo> {
    let fi = table_index(tables, rel.from.table_id@);
    let ti = table_index(tables, rel.to.table_id@);
    if fi < 0 || ti < 0 {
        None
    } else {
        let ft = tables[fi];
        let tt = tables[ti];
        let fp = position_or_origin(ft);
        let tp = position_or_origin(tt);
        let sides = sides_for(fp, box_height(ft.columns@.len() as int), tp, box_height(tt.columns@.len() as int));
        let a = attach_point(fp, ft, sides.0, rel.from.column_names@);
        let b = attach_point(tp, tt, sides.1, rel.to.column_names@);
        Some(
            RouteInfo {
                from_idx: fi as usize,
                to_idx: ti as usize,
                from_side: sides.0,
                to_side: sides.1,
                from_x: a.0 as i128,
                from_y: a.1 as i128,
                to_x: b.0 as i128,
                to_y: b.1 as i128,
            },
        )
    }
}

/// The largest magnitude of a route coordinate.
pub const COORD_LIMIT: i128 = 0x1_0000_0000_0000_0000_0000;

/// Every coordinate of `r` is at most `COORD_LIMIT` in magnitude.
pub open spec fn route_bounded(r: RouteInfo) -> bool {
    &&& -COORD_LIMIT <= r.from_x <= COORD_LIMIT
    &&& -COORD_LIMIT <= r.from_y <= COORD_LIMIT
    &&& -COORD_LIMIT <= r.to_x <= COORD_LIMIT
    &&& -COORD_LIMIT <= r.to_y <= COORD_LIMIT
}

/// The route of one relationship, as `route_of` states.
pub fn route_for(tables: &Vec<Table>, rel: &Relationship) -> (r: Option<RouteInfo>)
    ensures
        r == route_of(tables@, *rel),
        r is Some ==> route_bounded(r->Some_0) && r->Some_0.from_idx < tables.len() && r->Some_0.to_idx
            < tables.len(),
{
    let from_idx = find_table(tables, &rel.from.table_id);
    let to_idx = find_table(tables, &rel.to.table_id);
    proof {
        lemma_table_index(tables@, rel.from.table_id@, from_idx);
        lemma_table_index(tables@, rel.to.table_id@, to_idx);
        reveal(route_of);
    }
    if let (Some(fi), Some(ti)) = (from_idx, to_idx) {
        let ft = &tables[fi];
        let tt = &tables[ti];
        let fp = match ft.position {
            Some(p) => p,
            None => Position { x: 0, y: 0 },
        };
        let tp = match tt.position {
            Some(p) => p,
            None => Position { x: 0, y: 0 },
        };
        let (from_side, to_side) = determine_sides(fp, table_height(ft), tp, table_height(tt));
        let (from_x, from_y) = connection_point(fp, ft, from_side, &rel.from.column_names);
        let (to_x, to_y) = connection_point(tp, tt, to_side, &rel.to.column_names);
        Some(RouteInfo { from_idx: fi, to_idx: ti, from_side, to_side, from_x, from_y, to_x, to_y })
    } else {
        None
    }
}

/// The route of each relationship, in order; `None` where a table is missing.
pub fn compute_routes(diagram: &Diagram) -> (routes: Vec<Option<RouteInfo>>)
    ensures
        routes.len() == diagram.relationships.len(),
        forall|i: int|
            0 <= i < routes.len() ==> #[trigger] routes@[i] == route_of(
                diagram.tables@,
                diagram.relationships@[i],
            ),
        forall|i: int|
            0 <= i < routes.len() && #[trigger] routes@[i] is Some ==> route_bounded(routes@[i]->Some_0)
                && routes@[i]->Some_0.from_idx < diagram.tables.len() && routes@[i]->Some_0.to_idx
                < diagram.tables.len(),
{
    let mut routes: Vec<Option<RouteInfo>> = Vec::new();
    let mut r: usize = 0;
    while r < diagram.relationships.len()
        invariant
            r <= diagram.relationships.len(),
            routes.len() == r,
            forall|i: int|
                0 <= i < r ==> #[trigger] routes@[i] == route_of(diagram.tables@, diagram.relationships@[i]),
            forall|i: int|
                0 <= i < r && #[trigger] routes@[i] is Some ==> route_bounded(routes@[i]->Some_0)
                    && routes@[i]->Some_0.from_idx < diagram.tables.len() && routes@[i]->Some_0.to_idx
                    < diagram.tables.len(),
        decreases diagram.relationships.len() - r,
    {
        let route = route_for(&diagram.tables, &diagram.relationships[r]);
        routes.push(route);
        r = r + 1;
    }
    routes
}

/// A relationship has a route exactly when both of its tables are in the
/// diagram: one that names a missing table is left out of the drawing, and
/// only that one.
pub proof fn lemma_dangling_route(tables: Seq<Table>, rel: Relationship)
    ensures
        route_of(tables, rel) is None <==> (no_table(tables, rel.from.table_id@) || no_table(
            tables,
            rel.to.table_id@,
        )),
{
    reveal(route_of);
    let from = rel.from.table_id@;
    let to = rel.to.table_id@;
    if !no_table(tables, from) {
        let j = choose|j: int| 0 <= j < tables.len() && tables[j].id@ == from;
        lemma_first_table_exists(tables, from, j);
    }
    if !no_table(tables, to) {
        let j = choose|j: int| 0 <= j < tables.len() && tables[j].id@ == to;
        lemma_first_table_exists(tables, to, j);
    }
}

/// If some table has identifier `id`, a first one does.
proof fn lemma_first_table_exists(tables: Seq<Table>, id: (Seq<char>, Seq<char>), j: int)
    requires
        0 <= j < tables.len(),
        tables[j].id@ == id,
    ensures
        exists|i: int| is_first_table(tables, id, i),
    decreases j,
{
    if forall|k: int| 0 <= k < j ==> tables[k].id@ != id {
        assert(is_first_table(tables, id, j));
    } else {
        let k = choose|k: int| 0 <= k < j && tables[k].id@ == id;
        lemma_first_table_exists(tables, id, k);
    }
}

} // verus!
