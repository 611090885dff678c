//! Automatic positions for the tables that have none.
use vstd::prelude::*;

use crate::ir::{find_table, lemma_table_index, table_index, Diagram, Position, Relationship, Table};
use crate::layout::grid::{
    adjacency_view, adjacency_wf, bfs_cross_layout, cells_distinct, cells_within, cross_layout, Cell,
    MAX_VERTICES, SEARCH_AREA, SEARCH_RADIUS,
};
use crate::style::{
    box_height, EMPTY_ROW_HEIGHT, HEADER_HEIGHT, MAX_COLUMNS, ROW_HEIGHT, SPACING_X, SPACING_Y,
    START_X, START_Y, TABLE_WIDTH,
};

verus! {

/// Number of tables among the first `k` that have no position.
pub open spec fn unplaced_count(tables: Seq<Table>, k: int) -> nat
    decreases k,
{
    if k <= 0 {
        0
    } else if tables[k - 1].position is None {
        unplaced_count(tables, k - 1) + 1
    } else {
        unplaced_count(tables, k - 1)
    }
}

/// Smallest column among the first `k` cells; `i32::MAX` if none is placed.
pub open spec fn min_col_upto(cells: Seq<Option<Cell>>, k: int) -> int
    decreases k,
{
    if k <= 0 {
        i32::MAX as int
    } else {
        let m = min_col_upto(cells, k - 1);
        if cells[k - 1] is Some && cells[k - 1]->Some_0.0 < m {
            cells[k - 1]->Some_0.0 as int
        } else {
            m
        }
    }
}

/// Smallest row among the first `k` cells; `i32::MAX` if none is placed.
pub open spec fn min_row_upto(cells: Seq<Option<Cell>>, k: int) -> int
    decreases k,
{
    if k <= 0 {
        i32::MAX as int
    } else {
        let m = min_row_upto(cells, k - 1);
        if cells[k - 1] is Some && cells[k - 1]->Some_0.1 < m {
            cells[k - 1]->Some_0.1 as int
        } else {
            m
        }
    }
}

/// Tallest box among the first `k` tables whose cell is on `row`; -1 if none.
pub open spec fn tallest_upto(tables: Seq<Table>, cells: Seq<Option<Cell>>, row: int, k: int) -> int
    decreases k,
{
    if k <= 0 {
        -1
    } else {
        let m = tallest_upto(tables, cells, row, k - 1);
        let h = box_height(tables[k - 1].columns@.len() as int);
        if cells[k - 1] is Some && cells[k - 1]->Some_0.1 == row && h > m {
            h
        } else {
            m
        }
    }
}

/// Height of a grid row: its tallest box, or `EMPTY_ROW_HEIGHT` if it holds none.
pub open spec fn row_height(tables: Seq<Table>, cells: Seq<Option<Cell>>, row: int) -> int {
    let m = tallest_upto(tables, cells, row, cells.len() as int);
    if m < 0 {
        EMPTY_ROW_HEIGHT as int
    } else {
        m
    }
}

/// Pixel top of grid row `row` when the first row is `base`: the top margin,
/// then each earlier row's height followed by the row spacing.
pub open spec fn row_top(tables: Seq<Table>, cells: Seq<Option<Cell>>, base: int, row: int) -> int
    decreases row - base,
{
    if row <= base {
        START_Y as int
    } else {
        row_top(tables, cells, base, row - 1) + row_height(tables, cells, row - 1) + SPACING_Y
    }
}

/// Pixel position of the table whose cell is `c`.
pub open spec fn cell_position(tables: Seq<Table>, cells: Seq<Option<Cell>>, c: Cell) -> Position {
    let n = cells.len() as int;
    Position {
        x: (START_X + (c.0 - min_col_upto(cells, n)) * (TABLE_WIDTH + SPACING_X)) as i64,
        y: row_top(tables, cells, min_row_upto(cells, n), c.1 as int) as i64,
    }
}

/// `cells` (one per table) is a placement of the unpositioned tables of
/// `before` on distinct cells, and `after` holds the positions it gives them.
pub open spec fn laid_out_from(before: Seq<Table>, after: Seq<Table>, cells: Seq<Option<Cell>>) -> bool {
    &&& cells.len() == before.len()
    &&& cells_distinct(cells)
    &&& forall|i: int| 0 <= i < cells.len() && #[trigger] cells[i] is Some ==> before[i].position is None
    &&& forall|i: int|
        0 <= i < after.len() ==> (#[trigger] after[i]).position == match cells[i] {
            Some(c) => Some(cell_position(before, cells, c)),
            None => before[i].position,
        }
}

/// The diagram's sizes keep every computed coordinate within `i64`.
pub open spec fn layout_fits(tables: Seq<Table>) -> bool {
    &&& tables.len() <= MAX_VERTICES
    &&& forall|i: int| 0 <= i < tables.len() ==> (#[trigger] tables[i]).columns@.len() <= MAX_COLUMNS
}

proof fn lemma_tallest_bounds(tables: Seq<Table>, cells: Seq<Option<Cell>>, row: int, k: int)
    requires
        0 <= k <= cells.len(),
        k <= tables.len(),
        layout_fits(tables),
    ensures
        -1 <= tallest_upto(tables, cells, row, k) <= box_height(MAX_COLUMNS as int),
    decreases k,
{
    if k > 0 {
        lemma_tallest_bounds(tables, cells, row, k - 1);
        assert(tables[k - 1].columns@.len() <= MAX_COLUMNS);
    }
}

/// The graph laid out after the first `r` relationships: one vertex per
/// unpositioned table, numbered in table order, and for each relationship
/// whose two tables are both unpositioned an edge recorded at both ends.
pub open spec fn layout_graph(tables: Seq<Table>, rels: Seq<Relationship>, r: int) -> Seq<Seq<usize>>
    decreases r,
{
    if r <= 0 {
        Seq::new(unplaced_count(tables, tables.len() as int), |v: int| Seq::<usize>::empty())
    } else {
        let g = layout_graph(tables, rels, r - 1);
        let fi = table_index(tables, rels[r - 1].from.table_id@);
        let ti = table_index(tables, rels[r - 1].to.table_id@);
        if fi >= 0 && ti >= 0 && tables[fi].position is None && tables[ti].position is None {
            let a = unplaced_count(tables, fi) as int;
            let b = unplaced_count(tables, ti) as int;
            let g1 = g.update(a, g[a].push(b as usize));
            g1.update(b, g1[b].push(a as usize))
        } else {
            g
        }
    }
}

/// The first of vertices 0 to v - 1 of greatest degree.
pub open spec fn root_upto(g: Seq<Seq<usize>>, v: int) -> int
    decreases v,
{
    if v <= 1 {
        0
    } else {
        let r = root_upto(g, v - 1);
        if g[v - 1].len() > g[r].len() {
            v - 1
        } else {
            r
        }
    }
}

/// The cell that the automatic layout gives each table: the cell of its
/// vertex in the cross layout of `layout_graph` from its first vertex of
/// greatest degree; none for a table that has a position.
pub open spec fn planned_cells(tables: Seq<Table>, rels: Seq<Relationship>) -> Seq<Option<Cell>> {
    let g = layout_graph(tables, rels, rels.len() as int);
    let grid = cross_layout(g, root_upto(g, g.len() as int) as usize);
    Seq::new(
        tables.len(),
        |t: int|
            if tables[t].position is None {
                grid[unplaced_count(tables, t) as int]
            } else {
                None
            },
    )
}

/// What the automatic layout does to a diagram: relationships, identifiers
/// and columns stay; the unpositioned tables are placed on the distinct
/// grid cells of `planned_cells` and get the pixel positions of those cells;
/// if at most `SEARCH_AREA` tables lacked a position, every table has one
/// afterwards.
pub open spec fn auto_laid_out(before: Diagram, after: Diagram) -> bool {
    &&& after.relationships == before.relationships
    &&& after.tables.len() == before.tables.len()
    &&& forall|i: int|
        0 <= i < after.tables.len() ==> (#[trigger] after.tables@[i]).id == before.tables@[i].id
            && after.tables@[i].columns == before.tables@[i].columns
    &&& laid_out_from(before.tables@, after.tables@, planned_cells(before.tables@, before.relationships@))
    &&& cells_within(planned_cells(before.tables@, before.relationships@), SEARCH_RADIUS * MAX_VERTICES)
    &&& unplaced_count(before.tables@, before.tables.len() as int) <= SEARCH_AREA ==> forall|i: int|
        0 <= i < after.tables.len() ==> (#[trigger] after.tables@[i]).position is Some
}

/// Every table has a position.
pub open spec fn all_positioned(tables: Seq<Table>) -> bool {
    forall|i: int| 0 <= i < tables.len() ==> (#[trigger] tables[i]).position is Some
}

/// Laying out a diagram whose tables all have positions changes nothing.
pub proof fn lemma_layout_idempotent(before: Diagram, after: Diagram)
    requires
        all_positioned(before.tables@),
        auto_laid_out(before, after),
    ensures
        after.tables@ == before.tables@,
        after.relationships == before.relationships,
{
    let cells = planned_cells(before.tables@, before.relationships@);
    assert forall|i: int| 0 <= i < after.tables.len() implies after.tables@[i] == before.tables@[i] by {
        assert(before.tables@[i].position is Some);
        assert(cells[i] is None);
        assert(after.tables@[i].position == before.tables@[i].position);
    }
    assert(after.tables@ =~= before.tables@);
}

/// The automatic layout is deterministic: laying out the same diagram twice
/// gives the same tables.
pub proof fn lemma_layout_deterministic(before: Diagram, first: Diagram, second: Diagram)
    requires
        auto_laid_out(before, first),
        auto_laid_out(before, second),
    ensures
        first.tables@ == second.tables@,
        first.relationships == second.relationships,
{
    assert forall|i: int| 0 <= i < first.tables.len() implies first.tables@[i] == second.tables@[i] by {
        assert(first.tables@[i].id == before.tables@[i].id);
        assert(second.tables@[i].id == before.tables@[i].id);
    }
    assert(first.tables@ =~= second.tables@);
}

proof fn lemma_min_bounds(cells: Seq<Option<Cell>>, k: int, bound: int)
    requires
        0 <= k <= cells.len(),
        0 <= bound < i32::MAX,
        cells_within(cells, bound),
    ensures
        min_col_upto(cells, k) >= -bound,
        min_row_upto(cells, k) >= -bound,
        forall|t: int|
            0 <= t < k && #[trigger] cells[t] is Some ==> min_col_upto(cells, k) <= cells[t]->Some_0.0
                && min_row_upto(cells, k) <= cells[t]->Some_0.1,
    decreases k,
{
    if k > 0 {
        lemma_min_bounds(cells, k - 1, bound);
    }
}

proof fn lemma_row_top_bounds(tables: Seq<Table>, cells: Seq<Option<Cell>>, base: int, r: int)
    requires
        base <= r,
        cells.len() <= tables.len(),
        layout_fits(tables),
    ensures
        START_Y <= row_top(tables, cells, base, r) <= START_Y + (r - base) * (box_height(MAX_COLUMNS as int)
            + SPACING_Y),
    decreases r - base,
{
    if r > base {
        lemma_row_top_bounds(tables, cells, base, r - 1);
        lemma_tallest_bounds(tables, cells, r - 1, cells.len() as int);
        let step = box_height(MAX_COLUMNS as int) + SPACING_Y;
        assert((r - 1 - base) * step + step == (r - base) * step) by (nonlinear_arith);
    }
}

proof fn lemma_row_top_increasing(tables: Seq<Table>, cells: Seq<Option<Cell>>, base: int, r1: int, r2: int)
    requires
        base <= r1 < r2,
        cells.len() <= tables.len(),
        layout_fits(tables),
    ensures
        row_top(tables, cells, base, r1) < row_top(tables, cells, base, r2),
    decreases r2 - r1,
{
    lemma_tallest_bounds(tables, cells, r2 - 1, cells.len() as int);
    if r2 - 1 > r1 {
        lemma_row_top_increasing(tables, cells, base, r1, r2 - 1);
    }
}

/// Tables that the automatic layout places get distinct positions, at or
/// right of the left margin and at or below the top margin.
pub proof fn lemma_placed_apart(before: Diagram, after: Diagram, i: int, j: int)
    requires
        auto_laid_out(before, after),
        layout_fits(before.tables@),
        0 <= i < before.tables.len(),
        0 <= j < before.tables.len(),
        i != j,
        before.tables@[i].position is None,
        before.tables@[j].position is None,
        after.tables@[i].position is Some,
        after.tables@[j].position is Some,
    ensures
        after.tables@[i].position != after.tables@[j].position,
        after.tables@[i].position->Some_0.x >= START_X,
        after.tables@[i].position->Some_0.y >= START_Y,
{
    let tables = before.tables@;
    let cells = planned_cells(tables, before.relationships@);
    let n = cells.len() as int;
    let bound = SEARCH_RADIUS * MAX_VERTICES;
    assert(after.tables@[i].position == match cells[i] {
        Some(c) => Some(cell_position(tables, cells, c)),
        None => tables[i].position,
    });
    assert(after.tables@[j].position == match cells[j] {
        Some(c) => Some(cell_position(tables, cells, c)),
        None => tables[j].position,
    });
    let ci = cells[i]->Some_0;
    let cj = cells[j]->Some_0;
    lemma_min_bounds(cells, n, bound);
    let min_col = min_col_upto(cells, n);
    let min_row = min_row_upto(cells, n);
    let step = box_height(MAX_COLUMNS as int) + SPACING_Y;
    assert(0 <= ci.0 - min_col <= 2 * bound);
    assert(0 <= cj.0 - min_col <= 2 * bound);
    assert(0 <= (ci.0 - min_col) * 360 <= 2 * bound * 360) by (nonlinear_arith)
        requires 0 <= ci.0 - min_col <= 2 * bound;
    assert(0 <= (cj.0 - min_col) * 360 <= 2 * bound * 360) by (nonlinear_arith)
        requires 0 <= cj.0 - min_col <= 2 * bound;
    lemma_row_top_bounds(tables, cells, min_row, ci.1 as int);
    lemma_row_top_bounds(tables, cells, min_row, cj.1 as int);
    assert((ci.1 - min_row) * step <= 2 * bound * step) by (nonlinear_arith)
        requires 0 <= ci.1 - min_row <= 2 * bound, step >= 0;
    assert((cj.1 - min_row) * step <= 2 * bound * step) by (nonlinear_arith)
        requires 0 <= cj.1 - min_row <= 2 * bound, step >= 0;
    assert(bound == 19_000_000 && step == 28_000_116);
    assert(2 * bound * step == 1_064_004_408_000_000) by (nonlinear_arith)
        requires bound == 19_000_000, step == 28_000_116;
    let yi = row_top(tables, cells, min_row, ci.1 as int);
    let yj = row_top(tables, cells, min_row, cj.1 as int);
    assert(START_Y <= yi <= 2_000_000_000_000_000);
    assert(START_Y <= yj <= 2_000_000_000_000_000);
    let xi = START_X + (ci.0 - min_col) * (TABLE_WIDTH + SPACING_X);
    let xj = START_X + (cj.0 - min_col) * (TABLE_WIDTH + SPACING_X);
    assert(cell_position(tables, cells, ci) == Position { x: xi as i64, y: yi as i64 });
    assert(cell_position(tables, cells, cj) == Position { x: xj as i64, y: yj as i64 });
    assert(START_X <= xi <= 2_000_000_000_000);
    assert(START_X <= xj <= 2_000_000_000_000);
    if ci.0 == cj.0 {
        assert(ci.1 != cj.1);
        if ci.1 < cj.1 {
            lemma_row_top_increasing(tables, cells, min_row, ci.1 as int, cj.1 as int);
        } else {
            lemma_row_top_increasing(tables, cells, min_row, cj.1 as int, ci.1 as int);
        }
    } else {
        assert((ci.0 - min_col) * 360 != (cj.0 - min_col) * 360) by (nonlinear_arith)
            requires ci.0 != cj.0;
    }
}

/// Gives every table without a position one from a breadth-first cross
/// layout of the graph of those tables.
///
/// The vertices are the unpositioned tables, an edge joins the two tables of
/// each relationship whose ends are both unpositioned, and the root is the
/// first vertex of greatest degree. Cells become pixels column by column and
/// row by row, each row as tall as its tallest box. Tables that already
/// have a position keep it.
pub fn grid_layout(diagram: &mut Diagram)
    requires
        layout_fits(old(diagram).tables@),
    ensures
        auto_laid_out(*old(diagram), *final(diagram)),
{
    let ghost before = diagram.tables@;
    let n = diagram.tables.len();
    let mut vertex_of: Vec<Option<usize>> = Vec::new();
    let mut table_of: Vec<usize> = Vec::new();
    let mut i: usize = 0;
    while i < n
        invariant
            n == diagram.tables.len(),
            before == diagram.tables@,
            i <= n,
            vertex_of.len() == i,
            table_of.len() == unplaced_count(before, i as int),
            table_of.len() <= i,
            forall|t: int| 0 <= t < i ==> (#[trigger] vertex_of@[t] is Some) == (before[t].position is None),
            forall|t: int|
                0 <= t < i && #[trigger] vertex_of@[t] is Some ==> vertex_of@[t]->Some_0 < table_of.len()
                    && table_of@[vertex_of@[t]->Some_0 as int] == t,
            forall|v: int|
                0 <= v < table_of.len() ==> #[trigger] table_of@[v] < i && vertex_of@[table_of@[v] as int]
                    == Some(v as usize),
            forall|t: int|
                0 <= t < i && #[trigger] vertex_of@[t] is Some ==> vertex_of@[t]->Some_0 == unplaced_count(
                    before,
                    t,
                ),
        decreases n - i,
    {
        if diagram.tables[i].position.is_none() {
            vertex_of.push(Some(table_of.len()));
            table_of.push(i);
        } else {
            vertex_of.push(None);
        }
        i = i + 1;
    }
    let m = table_of.len();
    if m == 0 {
        proof {
            let cells = Seq::new(n as nat, |t: int| None::<Cell>);
            assert forall|t: int| 0 <= t < n implies before[t].position is Some by {
                assert(vertex_of@[t] is None);
            }
            assert(cells =~= planned_cells(before, diagram.relationships@));
            assert(laid_out_from(before, diagram.tables@, cells));
        }
        return;
    }
    let mut adjacency: Vec<Vec<usize>> = Vec::new();
    let mut v: usize = 0;
    while v < m
        invariant
            v <= m,
            adjacency.len() == v,
            forall|w: int| 0 <= w < v ==> (#[trigger] adjacency@[w])@ == Seq::<usize>::empty(),
        decreases m - v,
    {
        adjacency.push(Vec::new());
        v = v + 1;
    }
    let ghost rels = diagram.relationships@;
    assert(adjacency_view(adjacency@) =~= layout_graph(before, rels, 0));
    let mut r: usize = 0;
    while r < diagram.relationships.len()
        invariant
            n == diagram.tables.len(),
            before == diagram.tables@,
            vertex_of.len() == n,
            adjacency.len() == m,
            forall|t: int| 0 <= t < n && #[trigger] vertex_of@[t] is Some ==> vertex_of@[t]->Some_0 < m,
            adjacency_wf(adjacency@),
            r <= diagram.relationships.len(),
            rels == diagram.relationships@,
            m == unplaced_count(before, n as int),
            forall|t: int| 0 <= t < n ==> (#[trigger] vertex_of@[t] is Some) == (before[t].position is None),
            forall|t: int|
                0 <= t < n && #[trigger] vertex_of@[t] is Some ==> vertex_of@[t]->Some_0 == unplaced_count(
                    before,
                    t,
                ),
            adjacency_view(adjacency@) == layout_graph(before, rels, r as int),
        decreases diagram.relationships.len() - r,
    {
        let ghost old_adj = adjacency@;
        let rel = &diagram.relationships[r];
        let from = find_table(&diagram.tables, &rel.from.table_id);
        let to = find_table(&diagram.tables, &rel.to.table_id);
        proof {
            lemma_table_index(before, rel.from.table_id@, from);
            lemma_table_index(before, rel.to.table_id@, to);
        }
        if let (Some(fi), Some(ti)) = (from, to) {
            if let (Some(a), Some(b)) = (vertex_of[fi], vertex_of[ti]) {
                let ghost old_adj = adjacency@;
                adjacency[a].push(b);
                adjacency[b].push(a);
                proof {
                    assert forall|w: int, k: int|
                        0 <= w < adjacency@.len() && 0 <= k < adjacency@[w]@.len() implies #[trigger] adjacency@[w]@[k]
                        < adjacency@.len() by {
                        if k < old_adj[w]@.len() {
                            if w == b {
                                if a == b {
                                    assert(adjacency@[w]@[k] == old_adj[w]@[k]);
                                } else {
                                    assert(adjacency@[w]@[k] == old_adj[w]@[k]);
                                }
                            } else if w == a {
                                assert(adjacency@[w]@[k] == old_adj[w]@[k]);
                            }
                        }
                    }
                    let g = layout_graph(before, rels, r as int);
                    let g1 = g.update(a as int, g[a as int].push(b));
                    assert(adjacency_view(adjacency@) =~= g1.update(b as int, g1[b as int].push(a)));
                }
            }
        }
        proof {
            assert(adjacency_view(adjacency@) =~= layout_graph(before, rels, r + 1));
        }
        r = r + 1;
    }
    let mut root: usize = 0;
    let mut v: usize = 1;
    while v < m
        invariant
            adjacency.len() == m,
            root < m,
            1 <= v <= m,
            root == root_upto(adjacency_view(adjacency@), v as int),
        decreases m - v,
    {
        if adjacency[v].len() > adjacency[root].len() {
            root = v;
        }
        v = v + 1;
    }
    let grid = bfs_cross_layout(root, &adjacency);
    let ghost planned = planned_cells(before, rels);
    // one cell per table
    let mut cells: Vec<Option<Cell>> = Vec::new();
    let mut i: usize = 0;
    while i < n
        invariant
            n == diagram.tables.len(),
            before == diagram.tables@,
            i <= n,
            vertex_of.len() == n,
            grid.len() == m,
            table_of.len() == m,
            cells.len() == i,
            forall|t: int| 0 <= t < n ==> (#[trigger] vertex_of@[t] is Some) == (before[t].position is None),
            forall|t: int|
                0 <= t < n && #[trigger] vertex_of@[t] is Some ==> vertex_of@[t]->Some_0 < m
                    && table_of@[vertex_of@[t]->Some_0 as int] == t,
            forall|t: int|
                0 <= t < n && #[trigger] vertex_of@[t] is Some ==> vertex_of@[t]->Some_0 == unplaced_count(
                    before,
                    t,
                ),
            forall|t: int|
                0 <= t < i ==> #[trigger] cells@[t] == match vertex_of@[t] {
                    Some(w) => grid@[w as int],
                    None => None,
                },
        decreases n - i,
    {
        let c = match vertex_of[i] {
            Some(w) => grid[w],
            None => None,
        };
        cells.push(c);
        i = i + 1;
    }
    proof {
        assert(adjacency_view(adjacency@).len() == m);
        assert(cells@ =~= planned) by {
            assert forall|t: int| 0 <= t < n implies cells@[t] == planned[t] by {
                assert((vertex_of@[t] is Some) == (before[t].position is None));
            }
        }
        assert forall|a: int, b: int|
            0 <= a < cells@.len() && 0 <= b < cells@.len() && a != b && cells@[a] is Some
                && cells@[b] is Some implies #[trigger] cells@[a] != #[trigger] cells@[b] by {
            let va = vertex_of@[a]->Some_0;
            let vb = vertex_of@[b]->Some_0;
            assert(grid@[va as int] is Some && grid@[vb as int] is Some);
        }
        assert forall|t: int| 0 <= t < n && #[trigger] cells@[t] is Some implies -SEARCH_RADIUS * MAX_VERTICES
            <= cells@[t]->Some_0.0 <= SEARCH_RADIUS * MAX_VERTICES && -SEARCH_RADIUS * MAX_VERTICES
            <= cells@[t]->Some_0.1 <= SEARCH_RADIUS * MAX_VERTICES by {
            let w = vertex_of@[t]->Some_0;
            assert(grid@[w as int] is Some);
        }
    }
    finish_layout(diagram, &cells);
    proof {
        assert(laid_out_from(before, diagram.tables@, cells@));
        if unplaced_count(before, n as int) <= SEARCH_AREA {
            assert forall|t: int| 0 <= t < n implies (#[trigger] diagram.tables@[t]).position is Some by {
                if before[t].position is None {
                    let w = vertex_of@[t]->Some_0;
                    assert(grid@[w as int] is Some);
                }
            }
        }
    }
}

/// Height of grid row `row`, computed as `row_height` states.
fn grid_row_height(tables: &Vec<Table>, cells: &Vec<Option<Cell>>, row: i32) -> (h: i64)
    requires
        cells.len() == tables.len(),
        layout_fits(tables@),
    ensures
        h == row_height(tables@, cells@, row as int),
        0 <= h <= box_height(MAX_COLUMNS as int),
{
    let mut tallest: i64 = -1;
    let mut k: usize = 0;
    while k < cells.len()
        invariant
            cells.len() == tables.len(),
            layout_fits(tables@),
            k <= cells.len(),
            tallest == tallest_upto(tables@, cells@, row as int, k as int),
        decreases cells.len() - k,
    {
        proof {
            lemma_tallest_bounds(tables@, cells@, row as int, k as int);
            assert(tables@[k as int].columns@.len() <= MAX_COLUMNS);
        }
        if let Some(c) = cells[k] {
            let h = HEADER_HEIGHT + tables[k].columns.len() as i64 * ROW_HEIGHT;
            if c.1 == row && h > tallest {
                tallest = h;
            }
        }
        k = k + 1;
    }
    proof {
        lemma_tallest_bounds(tables@, cells@, row as int, cells.len() as int);
    }
    if tallest < 0 {
        EMPTY_ROW_HEIGHT
    } else {
        tallest
    }
}

/// Turns the cells of the placed tables into pixel positions.
fn finish_layout(diagram: &mut Diagram, cells: &Vec<Option<Cell>>)
    requires
        layout_fits(old(diagram).tables@),
        cells.len() == old(diagram).tables.len(),
        forall|t: int|
            0 <= t < cells.len() && #[trigger] cells@[t] is Some ==> old(diagram).tables@[t].position is None
                && -SEARCH_RADIUS * MAX_VERTICES <= cells@[t]->Some_0.0 <= SEARCH_RADIUS * MAX_VERTICES
                && -SEARCH_RADIUS * MAX_VERTICES <= cells@[t]->Some_0.1 <= SEARCH_RADIUS * MAX_VERTICES,
    ensures
        final(diagram).relationships == old(diagram).relationships,
        final(diagram).tables.len() == old(diagram).tables.len(),
        forall|i: int|
            0 <= i < final(diagram).tables.len() ==> (#[trigger] final(diagram).tables@[i]).id
                == old(diagram).tables@[i].id && final(diagram).tables@[i].columns == old(
                diagram,
            ).tables@[i].columns && final(diagram).tables@[i].position == match cells@[i] {
                Some(c) => Some(cell_position(old(diagram).tables@, cells@, c)),
                None => old(diagram).tables@[i].position,
            },
{
    let ghost before = diagram.tables@;
    let n = cells.len();
    let bound: i32 = 19_000_000;
    let mut min_col: i32 = i32::MAX;
    let mut min_row: i32 = i32::MAX;
    let mut max_row: i32 = -bound;
    let mut k: usize = 0;
    while k < n
        invariant
            n == cells.len(),
            bound == SEARCH_RADIUS * MAX_VERTICES,
            k <= n,
            min_col == min_col_upto(cells@, k as int),
            min_row == min_row_upto(cells@, k as int),
            min_col == i32::MAX || -bound <= min_col,
            min_row == i32::MAX || -bound <= min_row,
            -bound <= max_row <= bound,
            forall|t: int|
                0 <= t < cells.len() && #[trigger] cells@[t] is Some ==> -bound <= cells@[t]->Some_0.0
                    <= bound && -bound <= cells@[t]->Some_0.1 <= bound,
            forall|t: int|
                0 <= t < k && #[trigger] cells@[t] is Some ==> min_col <= cells@[t]->Some_0.0
                    && min_row <= cells@[t]->Some_0.1 && cells@[t]->Some_0.1 <= max_row,
        decreases n - k,
    {
        if let Some(c) = cells[k] {
            if c.0 < min_col {
                min_col = c.0;
            }
            if c.1 < min_row {
                min_row = c.1;
            }
            if c.1 > max_row {
                max_row = c.1;
            }
        }
        k = k + 1;
    }
    // pixel top of each grid row from min_row to max_row
    let mut tops: Vec<i64> = Vec::new();
    let ghost step = box_height(MAX_COLUMNS as int) + SPACING_Y;
    if min_row <= max_row {
        let mut top: i64 = START_Y;
        let mut row: i32 = min_row;
        tops.push(top);
        while row < max_row
            invariant
                layout_fits(diagram.tables@),
                cells.len() == diagram.tables.len(),
                before == diagram.tables@,
                -bound <= min_row <= row <= max_row <= bound,
                bound == 19_000_000,
                step == box_height(MAX_COLUMNS as int) + SPACING_Y,
                tops.len() == row - min_row + 1,
                top == tops@[row - min_row],
                forall|j: int|
                    0 <= j < tops.len() ==> #[trigger] tops@[j] == row_top(before, cells@, min_row as int, min_row + j),
                START_Y <= top <= START_Y + (row - min_row) * step,
            decreases max_row - row,
        {
            let h = grid_row_height(&diagram.tables, cells, row);
            proof {
                assert((row - min_row) * step + step == (row + 1 - min_row) * step) by (nonlinear_arith);
                assert((row + 1 - min_row) * step <= 38_000_000 * step) by (nonlinear_arith)
                    requires row + 1 - min_row <= 38_000_000, step >= 0;
            }
            top = top + h + SPACING_Y;
            row = row + 1;
            tops.push(top);
        }
    }
    let mut i: usize = 0;
    while i < n
        invariant
            n == cells.len(),
            n == diagram.tables.len(),
            bound == 19_000_000,
            min_col == i32::MAX || -bound <= min_col,
            min_row == i32::MAX || -bound <= min_row,
            max_row <= bound,
            min_col == min_col_upto(cells@, n as int),
            min_row == min_row_upto(cells@, n as int),
            tops.len() == max_row - min_row + 1 || (min_row > max_row && tops.len() == 0),
            forall|j: int|
                0 <= j < tops.len() ==> #[trigger] tops@[j] == row_top(before, cells@, min_row as int, min_row + j),
            forall|t: int|
                0 <= t < cells.len() && #[trigger] cells@[t] is Some ==> -bound <= cells@[t]->Some_0.0
                    <= bound && min_col <= cells@[t]->Some_0.0 && min_row <= cells@[t]->Some_0.1
                    <= max_row,
            diagram.relationships == old(diagram).relationships,
            before == old(diagram).tables@,
            before.len() == n,
            forall|t: int|
                0 <= t < n ==> (#[trigger] diagram.tables@[t]).id == before[t].id
                    && diagram.tables@[t].columns == before[t].columns && diagram.tables@[t].position
                    == if t < i {
                    match cells@[t] {
                        Some(c) => Some(cell_position(before, cells@, c)),
                        None => before[t].position,
                    }
                } else {
                    before[t].position
                },
        decreases n - i,
    {
        if let Some(c) = cells[i] {
            assert(cells@[i as int] is Some);
            assert(min_col <= c.0 <= bound);
            let d = c.0 as i64 - min_col as i64;
            assert(0 <= d <= 2 * bound);
            assert(0 <= d * (TABLE_WIDTH + SPACING_X) <= 2 * bound * 360) by (nonlinear_arith)
                requires 0 <= d <= 2 * bound, TABLE_WIDTH + SPACING_X == 360;
            let x = START_X + d * (TABLE_WIDTH + SPACING_X);
            let y = tops[(c.1 - min_row) as usize];
            diagram.tables[i].position = Some(Position { x, y });
        }
        i = i + 1;
    }
}

} // verus!
