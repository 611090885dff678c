//! Placement of graph vertices on an integer grid: breadth-first from a root,
//! each neighbour on a free cardinal cell next to its parent, else on the
//! nearest free cell of the square rings around it.
use vstd::prelude::*;
use vstd::set_lib::*;

verus! {

/// A grid cell: (column, row).
pub type Cell = (i32, i32);

/// The largest ring radius searched for a free cell.
pub const SEARCH_RADIUS: i32 = 19;

/// Number of cells in the rings of radius 1 to `SEARCH_RADIUS`: 39 * 39 - 1.
pub const SEARCH_AREA: usize = 1520;

/// The most vertices a layout run accepts; it keeps every cell well inside `i32`.
pub const MAX_VERTICES: usize = 1_000_000;

pub open spec fn abs_int(v: int) -> int {
    if v < 0 { -v } else { v }
}

/// Chebyshev distance of an offset from the origin: the ring it lies on.
pub open spec fn ring_of(dx: int, dy: int) -> int {
    if abs_int(dx) < abs_int(dy) { abs_int(dy) } else { abs_int(dx) }
}

/// The offsets searched around a cell: rings 1 to `SEARCH_RADIUS`.
pub open spec fn in_search_area(dx: int, dy: int) -> bool {
    1 <= ring_of(dx, dy) <= SEARCH_RADIUS
}

/// Search order: inner rings first; within a ring, by `dx`, then by `dy`.
pub open spec fn scanned_before(dx1: int, dy1: int, dx2: int, dy2: int) -> bool {
    ||| ring_of(dx1, dy1) < ring_of(dx2, dy2)
    ||| ring_of(dx1, dy1) == ring_of(dx2, dy2) && dx1 < dx2
    ||| ring_of(dx1, dy1) == ring_of(dx2, dy2) && dx1 == dx2 && dy1 < dy2
}

/// Some entry of `occupied` is the cell (x, y).
pub open spec fn cell_taken(occupied: Seq<Cell>, x: int, y: int) -> bool {
    exists|i: int| 0 <= i < occupied.len() && (#[trigger] occupied[i]).0 == x && occupied[i].1 == y
}

/// The four neighbours of a cell in the order tried: east, south, west, north.
pub open spec fn cardinal(k: int) -> (int, int) {
    if k == 0 {
        (1, 0)
    } else if k == 1 {
        (0, 1)
    } else if k == 2 {
        (-1, 0)
    } else {
        (0, -1)
    }
}

/// Whether the cell (x, y) is in `occupied`.
pub fn is_occupied(occupied: &Vec<Cell>, x: i32, y: i32) -> (r: bool)
    ensures
        r == cell_taken(occupied@, x as int, y as int),
{
    let mut i: usize = 0;
    while i < occupied.len()
        invariant
            i <= occupied.len(),
            forall|j: int| 0 <= j < i ==> !(occupied@[j].0 == x && occupied@[j].1 == y),
        decreases occupied.len() - i,
    {
        if occupied[i].0 == x && occupied[i].1 == y {
            return true;
        }
        i = i + 1;
    }
    false
}

/// The first free cell of the four around (cx, cy), in the order of
/// `cardinal`: east, south, west, north.
pub open spec fn cardinal_free(cx: i32, cy: i32, occupied: Seq<Cell>) -> Option<Cell> {
    if !cell_taken(occupied, cx + 1, cy as int) {
        Some(((cx + 1) as i32, cy))
    } else if !cell_taken(occupied, cx as int, cy + 1) {
        Some((cx, (cy + 1) as i32))
    } else if !cell_taken(occupied, cx - 1, cy as int) {
        Some(((cx - 1) as i32, cy))
    } else if !cell_taken(occupied, cx as int, cy - 1) {
        Some((cx, (cy - 1) as i32))
    } else {
        None
    }
}

/// The first free cell of the four around (cx, cy), as `cardinal_free`
/// states.
pub fn first_free_cardinal(cx: i32, cy: i32, occupied: &Vec<Cell>) -> (r: Option<Cell>)
    requires
        -2_000_000_000 <= cx <= 2_000_000_000,
        -2_000_000_000 <= cy <= 2_000_000_000,
    ensures
        r == cardinal_free(cx, cy, occupied@),
{
    let directions: [(i32, i32); 4] = [(1, 0), (0, 1), (-1, 0), (0, -1)];
    let mut k: usize = 0;
    while k < 4
        invariant
            k <= 4,
            -2_000_000_000 <= cx <= 2_000_000_000,
            -2_000_000_000 <= cy <= 2_000_000_000,
            forall|j: int| 0 <= j < 4 ==> directions@[j] == ((#[trigger] cardinal(j)).0 as i32, cardinal(j).1 as i32),
            forall|j: int|
                0 <= j < k ==> cell_taken(occupied@, cx + (#[trigger] cardinal(j)).0, cy + cardinal(j).1),
        decreases 4 - k,
    {
        let (dx, dy) = directions[k];
        assert(dx == cardinal(k as int).0 && dy == cardinal(k as int).1);
        let nx = cx + dx;
        let ny = cy + dy;
        if !is_occupied(occupied, nx, ny) {
            proof {
                assert(cardinal(0) == (1int, 0int));
                assert(cardinal(1) == (0int, 1int));
                assert(cardinal(2) == (-1int, 0int));
            }
            return Some((nx, ny));
        }
        k = k + 1;
    }
    proof {
        assert(cardinal(0) == (1int, 0int));
        assert(cardinal(1) == (0int, 1int));
        assert(cardinal(2) == (-1int, 0int));
        assert(cardinal(3) == (0int, -1int));
    }
    None
}

/// `c` is the first free cell of the search area around (cx, cy) in search
/// order.
pub open spec fn first_free_at(cx: int, cy: int, occupied: Seq<Cell>, c: Cell) -> bool {
    &&& in_search_area(c.0 - cx, c.1 - cy)
    &&& !cell_taken(occupied, c.0 as int, c.1 as int)
    &&& forall|dx: int, dy: int|
        in_search_area(dx, dy) && scanned_before(dx, dy, c.0 - cx, c.1 - cy) ==> cell_taken(
            occupied,
            cx + dx,
            cy + dy,
        )
}

/// The first free cell of the search area around (cx, cy), if any.
pub open spec fn nearest_free(cx: int, cy: int, occupied: Seq<Cell>) -> Option<Cell> {
    if exists|c: Cell| first_free_at(cx, cy, occupied, c) {
        Some(choose|c: Cell| first_free_at(cx, cy, occupied, c))
    } else {
        None
    }
}

/// Search order is total, so at most one cell is the first free one.
proof fn lemma_first_free_unique(cx: int, cy: int, occupied: Seq<Cell>, c1: Cell, c2: Cell)
    requires
        first_free_at(cx, cy, occupied, c1),
        first_free_at(cx, cy, occupied, c2),
    ensures
        c1 == c2,
{
    let (dx1, dy1) = (c1.0 - cx, c1.1 - cy);
    let (dx2, dy2) = (c2.0 - cx, c2.1 - cy);
    if c1 != c2 {
        assert(dx1 != dx2 || dy1 != dy2);
        if scanned_before(dx1, dy1, dx2, dy2) {
            assert(cell_taken(occupied, cx + dx1, cy + dy1));
        } else {
            assert(scanned_before(dx2, dy2, dx1, dy1));
            assert(cell_taken(occupied, cx + dx2, cy + dy2));
        }
    }
}

/// The 39 x 39 square of cells centred on (cx, cy), row by row.
pub open spec fn square_around(cx: int, cy: int) -> Seq<Cell> {
    Seq::new(1521, |i: int| ((cx + i / 39 - 19) as i32, (cy + i % 39 - 19) as i32))
}

/// A duplicate-free list of cells that holds every cell of the search area
/// around (cx, cy) has at least `SEARCH_AREA` entries.
pub proof fn lemma_full_area_size(cx: int, cy: int, occupied: Seq<Cell>)
    requires
        -2_000_000_000 <= cx <= 2_000_000_000,
        -2_000_000_000 <= cy <= 2_000_000_000,
        occupied.no_duplicates(),
        forall|dx: int, dy: int| in_search_area(dx, dy) ==> cell_taken(occupied, cx + dx, cy + dy),
    ensures
        occupied.len() >= SEARCH_AREA,
{
    let sq = square_around(cx, cy);
    let ring = sq.remove(760);
    assert forall|i: int, j: int| 0 <= i < j < 1521 implies sq[i] != sq[j] by {
        assert(i == 39 * (i / 39) + i % 39);
        assert(j == 39 * (j / 39) + j % 39);
    }
    assert(ring.no_duplicates()) by {
        assert forall|i: int, j: int| 0 <= i < j < ring.len() implies ring[i] != ring[j] by {
            let si = if i < 760 { i } else { i + 1 };
            let sj = if j < 760 { j } else { j + 1 };
            assert(ring[i] == sq[si]);
            assert(ring[j] == sq[sj]);
        }
    }
    assert forall|c: Cell| ring.to_set().contains(c) implies occupied.to_set().contains(c) by {
        let k = choose|k: int| 0 <= k < ring.len() && ring[k] == c;
        let i = if k < 760 { k } else { k + 1 };
        assert(ring[k] == sq[i]);
        let dx = i / 39 - 19;
        let dy = i % 39 - 19;
        assert(i != 760);
        assert(in_search_area(dx, dy));
        assert(cell_taken(occupied, cx + dx, cy + dy));
        let t = choose|t: int|
            0 <= t < occupied.len() && (#[trigger] occupied[t]).0 == cx + dx && occupied[t].1 == cy + dy;
        assert(occupied[t] == c);
    }
    ring.unique_seq_to_set();
    occupied.lemma_cardinality_of_set();
    lemma_len_subset(ring.to_set(), occupied.to_set());
}

/// The first free cell around (cx, cy) in search order, if the search area
/// holds one.
pub fn find_nearest_empty(cx: i32, cy: i32, occupied: &Vec<Cell>) -> (r: Option<Cell>)
    requires
        -2_000_000_000 <= cx <= 2_000_000_000,
        -2_000_000_000 <= cy <= 2_000_000_000,
    ensures
        match r {
            Some(c) => {
                &&& in_search_area(c.0 - cx, c.1 - cy)
                &&& !cell_taken(occupied@, c.0 as int, c.1 as int)
                &&& forall|dx: int, dy: int|
                    in_search_area(dx, dy) && scanned_before(dx, dy, c.0 - cx, c.1 - cy)
                        ==> cell_taken(occupied@, cx + dx, cy + dy)
            },
            None => forall|dx: int, dy: int|
                in_search_area(dx, dy) ==> cell_taken(occupied@, cx + dx, cy + dy),
        },
        occupied@.no_duplicates() && occupied.len() < SEARCH_AREA ==> r is Some,
        r == nearest_free(cx as int, cy as int, occupied@),
{
    let mut radius: i32 = 1;
    while radius <= SEARCH_RADIUS
        invariant
            1 <= radius <= SEARCH_RADIUS + 1,
            -2_000_000_000 <= cx <= 2_000_000_000,
            -2_000_000_000 <= cy <= 2_000_000_000,
            forall|dx: int, dy: int|
                in_search_area(dx, dy) && ring_of(dx, dy) < radius ==> cell_taken(
                    occupied@,
                    cx + dx,
                    cy + dy,
                ),
        decreases SEARCH_RADIUS + 1 - radius,
    {
        let mut dx: i32 = -radius;
        while dx <= radius
            invariant
                1 <= radius <= SEARCH_RADIUS,
                -radius <= dx <= radius + 1,
                -2_000_000_000 <= cx <= 2_000_000_000,
                -2_000_000_000 <= cy <= 2_000_000_000,
                forall|ddx: int, ddy: int|
                    in_search_area(ddx, ddy) && (ring_of(ddx, ddy) < radius || (ring_of(ddx, ddy)
                        == radius && ddx < dx)) ==> cell_taken(occupied@, cx + ddx, cy + ddy),
            decreases radius + 1 - dx,
        {
            let mut dy: i32 = -radius;
            while dy <= radius
                invariant
                    1 <= radius <= SEARCH_RADIUS,
                    -radius <= dx <= radius,
                    -radius <= dy <= radius + 1,
                    -2_000_000_000 <= cx <= 2_000_000_000,
                    -2_000_000_000 <= cy <= 2_000_000_000,
                    forall|ddx: int, ddy: int|
                        in_search_area(ddx, ddy) && (ring_of(ddx, ddy) < radius || (ring_of(
                            ddx,
                            ddy,
                        ) == radius && (ddx < dx || (ddx == dx && ddy < dy)))) ==> cell_taken(
                            occupied@,
                            cx + ddx,
                            cy + ddy,
                        ),
                decreases radius + 1 - dy,
            {
                let on_ring = dx == radius || dx == -radius || dy == radius || dy == -radius;
                if on_ring {
                    let nx = cx + dx;
                    let ny = cy + dy;
                    if !is_occupied(occupied, nx, ny) {
                        proof {
                            let c = (nx, ny);
                            assert(first_free_at(cx as int, cy as int, occupied@, c));
                            let d = choose|d: Cell| first_free_at(cx as int, cy as int, occupied@, d);
                            lemma_first_free_unique(cx as int, cy as int, occupied@, c, d);
                        }
                        return Some((nx, ny));
                    }
                }
                dy = dy + 1;
            }
            dx = dx + 1;
        }
        radius = radius + 1;
    }
    proof {
        if occupied@.no_duplicates() {
            lemma_full_area_size(cx as int, cy as int, occupied@);
        }
        if exists|c: Cell| first_free_at(cx as int, cy as int, occupied@, c) {
            let c = choose|c: Cell| first_free_at(cx as int, cy as int, occupied@, c);
            assert(cell_taken(occupied@, cx + (c.0 - cx), cy + (c.1 - cy)));
        }
    }
    None
}

/// Every neighbour listed in `adjacency` is a vertex of it.
pub open spec fn adjacency_wf(adjacency: Seq<Vec<usize>>) -> bool {
    forall|v: int, k: int|
        0 <= v < adjacency.len() && 0 <= k < adjacency[v]@.len() ==> #[trigger] adjacency[v]@[k]
            < adjacency.len()
}

/// No two vertices share a cell.
pub open spec fn cells_distinct(grid: Seq<Option<Cell>>) -> bool {
    forall|u: int, v: int|
        0 <= u < grid.len() && 0 <= v < grid.len() && u != v && grid[u] is Some && grid[v] is Some
            ==> #[trigger] grid[u] != #[trigger] grid[v]
}

/// Every placed cell lies within `bound` of the origin in both coordinates.
pub open spec fn cells_within(grid: Seq<Option<Cell>>, bound: int) -> bool {
    forall|v: int|
        0 <= v < grid.len() && #[trigger] grid[v] is Some ==> -bound <= grid[v]->Some_0.0 <= bound
            && -bound <= grid[v]->Some_0.1 <= bound
}

/// Every placed cell is recorded in `occupied`.
pub open spec fn cells_recorded(grid: Seq<Option<Cell>>, occupied: Seq<Cell>) -> bool {
    forall|v: int|
        0 <= v < grid.len() && #[trigger] grid[v] is Some ==> cell_taken(
            occupied,
            grid[v]->Some_0.0 as int,
            grid[v]->Some_0.1 as int,
        )
}

/// Entry `i` of `occupied` is the cell of vertex `owners[i]`, and no vertex
/// owns two entries.
pub open spec fn cells_owned(grid: Seq<Option<Cell>>, occupied: Seq<Cell>, owners: Seq<usize>) -> bool {
    &&& owners.len() == occupied.len()
    &&& owners.no_duplicates()
    &&& forall|i: int|
        0 <= i < owners.len() ==> #[trigger] owners[i] < grid.len() && grid[owners[i] as int]
            == Some(occupied[i])
}

/// A duplicate-free list of vertices below `n` that leaves out `missing` has
/// fewer than `n` entries.
pub proof fn lemma_distinct_below(s: Seq<usize>, n: nat, missing: usize)
    requires
        s.no_duplicates(),
        missing < n,
        forall|i: int| 0 <= i < s.len() ==> #[trigger] s[i] < n && s[i] != missing,
    ensures
        s.len() < n,
{
    let t = s.map_values(|x: usize| x as int);
    assert(t.no_duplicates()) by {
        assert forall|i: int, j: int| 0 <= i < j < t.len() implies t[i] != t[j] by {
            assert(s[i] != s[j]);
        }
    }
    let range = set_int_range(0, n as int).remove(missing as int);
    lemma_int_range(0, n as int);
    assert forall|x: int| t.to_set().contains(x) implies range.contains(x) by {
        let k = choose|k: int| 0 <= k < t.len() && t[k] == x;
        assert(s[k] < n && s[k] != missing);
    }
    t.unique_seq_to_set();
    lemma_len_subset(t.to_set(), range);
}

/// A free cell next to (cx, cy): a cardinal neighbour if one is free, else
/// the first free cell of the search area.
pub open spec fn spot_near(cx: i32, cy: i32, occupied: Seq<Cell>) -> Option<Cell> {
    match cardinal_free(cx, cy, occupied) {
        Some(c) => Some(c),
        None => nearest_free(cx as int, cy as int, occupied),
    }
}

fn free_cell_near(cx: i32, cy: i32, occupied: &Vec<Cell>) -> (r: Option<Cell>)
    requires
        -2_000_000_000 <= cx <= 2_000_000_000,
        -2_000_000_000 <= cy <= 2_000_000_000,
    ensures
        match r {
            Some(c) => !cell_taken(occupied@, c.0 as int, c.1 as int) && -SEARCH_RADIUS <= c.0 - cx
                <= SEARCH_RADIUS && -SEARCH_RADIUS <= c.1 - cy <= SEARCH_RADIUS,
            None => true,
        },
        occupied@.no_duplicates() && occupied.len() < SEARCH_AREA ==> r is Some,
        r == spot_near(cx, cy, occupied@),
{
    match first_free_cardinal(cx, cy, occupied) {
        Some(c) => Some(c),
        None => find_nearest_empty(cx, cy, occupied),
    }
}

/// The state of a breadth-first cross layout between two steps: the cells
/// given so far, the occupied cells in the order taken, the vertices seen,
/// the queue with its head, and the next neighbour of the head to handle.
pub struct BfsState {
    pub grid: Seq<Option<Cell>>,
    pub occupied: Seq<Cell>,
    pub visited: Seq<bool>,
    pub queue: Seq<usize>,
    pub head: int,
    pub next: int,
}

/// The neighbour lists of a graph as sequences.
pub open spec fn adjacency_view(adjacency: Seq<Vec<usize>>) -> Seq<Seq<usize>> {
    Seq::new(adjacency.len(), |v: int| adjacency[v]@)
}

/// The root alone at (0, 0), seen and queued.
pub open spec fn bfs_start(n: nat, root: usize) -> BfsState {
    BfsState {
        grid: Seq::new(n, |v: int| None::<Cell>).update(root as int, Some((0i32, 0i32))),
        occupied: seq![(0i32, 0i32)],
        visited: Seq::new(n, |v: int| false).update(root as int, true),
        queue: seq![root],
        head: 0,
        next: 0,
    }
}

/// One step: handle the next neighbour of the vertex at the head of the
/// queue (placing it next to that vertex if it is unseen), or move the head
/// on when none is left; nothing once the queue is exhausted.
pub open spec fn bfs_step(adj: Seq<Seq<usize>>, s: BfsState) -> BfsState {
    if 0 <= s.head < s.queue.len() {
        let cur = s.queue[s.head] as int;
        if s.next < adj[cur].len() {
            let u = adj[cur][s.next] as int;
            if s.visited[u] {
                BfsState { grid: s.grid, occupied: s.occupied, visited: s.visited, queue: s.queue, head: s.head, next: s.next + 1 }
            } else {
                let c = s.grid[cur]->Some_0;
                let visited = s.visited.update(u, true);
                match spot_near(c.0, c.1, s.occupied) {
                    Some(p) => BfsState {
                        grid: s.grid.update(u, Some(p)),
                        occupied: s.occupied.push(p),
                        visited,
                        queue: s.queue.push(u as usize),
                        head: s.head,
                        next: s.next + 1,
                    },
                    None => BfsState { grid: s.grid, occupied: s.occupied, visited, queue: s.queue, head: s.head, next: s.next + 1 },
                }
            }
        } else {
            BfsState { grid: s.grid, occupied: s.occupied, visited: s.visited, queue: s.queue, head: s.head + 1, next: 0 }
        }
    } else {
        s
    }
}

/// The state after `steps` steps from `s`.
pub open spec fn bfs_run(adj: Seq<Seq<usize>>, s: BfsState, steps: nat) -> BfsState
    decreases steps,
{
    if steps == 0 {
        s
    } else {
        bfs_run(adj, bfs_step(adj, s), (steps - 1) as nat)
    }
}

proof fn lemma_run_step(adj: Seq<Seq<usize>>, s: BfsState, steps: nat)
    ensures
        bfs_run(adj, s, steps + 1) == bfs_step(adj, bfs_run(adj, s, steps)),
    decreases steps,
{
    assert(bfs_run(adj, s, steps + 1) == bfs_run(adj, bfs_step(adj, s), steps));
    if steps > 0 {
        lemma_run_step(adj, bfs_step(adj, s), (steps - 1) as nat);
        assert(bfs_run(adj, s, steps) == bfs_run(adj, bfs_step(adj, s), (steps - 1) as nat));
        assert((steps - 1) as nat + 1 == steps);
    } else {
        assert(bfs_run(adj, bfs_step(adj, s), 0) == bfs_step(adj, s));
    }
}

/// Once the queue is exhausted, further steps change nothing.
proof fn lemma_run_settled(adj: Seq<Seq<usize>>, s: BfsState, a: nat, b: nat)
    requires
        bfs_run(adj, s, a).head >= bfs_run(adj, s, a).queue.len(),
    ensures
        bfs_run(adj, s, a + b) == bfs_run(adj, s, a),
    decreases b,
{
    if b > 0 {
        lemma_run_settled(adj, s, a, (b - 1) as nat);
        lemma_run_step(adj, s, (a + b - 1) as nat);
        assert((a + b - 1) as nat + 1 == a + b);
    }
}

/// The breadth-first phase from `root` has ended after `steps` steps.
pub open spec fn bfs_settled(adj: Seq<Seq<usize>>, root: usize, steps: nat) -> bool {
    let s = bfs_run(adj, bfs_start(adj.len(), root), steps);
    s.head >= s.queue.len()
}

/// Give vertex `v`, if it has no cell, the first free cell around (0, 0).
pub open spec fn sweep_step(s: BfsState, v: int) -> BfsState {
    if s.grid[v] is None {
        match nearest_free(0, 0, s.occupied) {
            Some(c) => BfsState {
                grid: s.grid.update(v, Some(c)),
                occupied: s.occupied.push(c),
                visited: s.visited,
                queue: s.queue,
                head: s.head,
                next: s.next,
            },
            None => s,
        }
    } else {
        s
    }
}

/// `sweep_step` for vertices 0 to v - 1, in order.
pub open spec fn sweep(s: BfsState, v: int) -> BfsState
    decreases v,
{
    if v <= 0 {
        s
    } else {
        sweep_step(sweep(s, v - 1), v - 1)
    }
}

/// The cells that the breadth-first cross layout of `adj` from `root` gives.
pub open spec fn cross_layout(adj: Seq<Seq<usize>>, root: usize) -> Seq<Option<Cell>> {
    let steps = choose|steps: nat| bfs_settled(adj, root, steps);
    sweep(bfs_run(adj, bfs_start(adj.len(), root), steps), adj.len() as int).grid
}

/// The layout does not depend on how many steps were taken past the end of
/// the breadth-first phase.
proof fn lemma_cross_layout(adj: Seq<Seq<usize>>, root: usize, steps: nat)
    requires
        bfs_settled(adj, root, steps),
    ensures
        cross_layout(adj, root) == sweep(bfs_run(adj, bfs_start(adj.len(), root), steps), adj.len() as int).grid,
{
    let start = bfs_start(adj.len(), root);
    let other = choose|t: nat| bfs_settled(adj, root, t);
    lemma_run_settled(adj, start, steps, other);
    lemma_run_settled(adj, start, other, steps);
    assert(steps + other == other + steps);
}

/// Breadth-first cross layout of the graph `adjacency` from `root`.
///
/// The root takes cell (0, 0). Each vertex taken from the queue tries to give
/// every unvisited neighbour a free cardinal cell next to its own (east,
/// south, west, north), else the nearest free cell of the search area around
/// it; a neighbour that finds none stays without a cell. Vertices still
/// without a cell afterwards take, in index order, the nearest free cell
/// around (0, 0).
pub fn bfs_cross_layout(root: usize, adjacency: &Vec<Vec<usize>>) -> (grid: Vec<Option<Cell>>)
    requires
        root < adjacency.len(),
        adjacency.len() <= MAX_VERTICES,
        adjacency_wf(adjacency@),
    ensures
        grid.len() == adjacency.len(),
        grid@[root as int] == Some((0i32, 0i32)),
        cells_distinct(grid@),
        cells_within(grid@, SEARCH_RADIUS * adjacency.len()),
        adjacency.len() <= SEARCH_AREA ==> forall|v: int| 0 <= v < grid.len() ==> #[trigger] grid@[v] is Some,
        grid@ == cross_layout(adjacency_view(adjacency@), root),
{
    let ghost adj = adjacency_view(adjacency@);
    let n = adjacency.len();
    let mut grid: Vec<Option<Cell>> = Vec::new();
    let mut visited: Vec<bool> = Vec::new();
    let mut i: usize = 0;
    while i < n
        invariant
            i <= n,
            grid.len() == i,
            visited.len() == i,
            grid@ == Seq::new(i as nat, |v: int| None::<Cell>),
            visited@ == Seq::new(i as nat, |v: int| false),
        decreases n - i,
    {
        grid.push(None);
        visited.push(false);
        assert(grid@ =~= Seq::new((i + 1) as nat, |v: int| None::<Cell>));
        assert(visited@ =~= Seq::new((i + 1) as nat, |v: int| false));
        i = i + 1;
    }
    let mut occupied: Vec<Cell> = Vec::new();
    let mut queue: Vec<usize> = Vec::new();
    grid[root] = Some((0, 0));
    visited[root] = true;
    occupied.push((0, 0));
    queue.push(root);
    proof {
        assert(cell_taken(occupied@, 0, 0)) by {
            assert(occupied@[0] == (0i32, 0i32));
        }
        assert(queue@.no_duplicates());
        assert forall|v: int| 0 <= v < n && #[trigger] grid@[v] is Some implies v == root by {}
        assert(cells_recorded(grid@, occupied@));
        assert(cells_distinct(grid@));
    }
    let ghost start = bfs_start(n as nat, root);
    let ghost mut steps: nat = 0;
    assert(grid@ =~= start.grid);
    assert(visited@ =~= start.visited);
    assert(occupied@ =~= start.occupied);
    assert(queue@ =~= start.queue);
    let mut head: usize = 0;
    while head < queue.len()
        invariant
            n == adjacency.len(),
            n <= MAX_VERTICES,
            root < n,
            adjacency_wf(adjacency@),
            grid.len() == n,
            visited.len() == n,
            grid@[root as int] == Some((0i32, 0i32)),
            forall|v: int| 0 <= v < n && #[trigger] grid@[v] is Some ==> visited@[v],
            n <= SEARCH_AREA ==> forall|v: int| 0 <= v < n && #[trigger] visited@[v] ==> grid@[v] is Some,
            cells_distinct(grid@),
            cells_recorded(grid@, occupied@),
            cells_owned(grid@, occupied@, queue@),
            occupied@.no_duplicates(),
            occupied.len() <= n,
            cells_within(grid@, SEARCH_RADIUS * occupied.len()),
            head <= queue.len(),
            adj == adjacency_view(adjacency@),
            start == bfs_start(n as nat, root),
            (BfsState { grid: grid@, occupied: occupied@, visited: visited@, queue: queue@, head: head as int, next: 0 })
                == bfs_run(adj, start, steps),
        decreases n - head,
    {
        let current = queue[head];
        let (cx, cy) = match grid[current] {
            Some(c) => c,
            None => (0, 0),
        };
        assert(grid@[current as int] == Some((cx, cy)));
        let neighbours = &adjacency[current];
        let mut k: usize = 0;
        while k < neighbours.len()
            invariant
                n == adjacency.len(),
                n <= MAX_VERTICES,
                root < n,
                adjacency_wf(adjacency@),
                neighbours == &adjacency@[current as int],
                current < n,
                grid.len() == n,
                visited.len() == n,
                grid@[root as int] == Some((0i32, 0i32)),
                grid@[current as int] == Some((cx, cy)),
                forall|v: int| 0 <= v < n && #[trigger] grid@[v] is Some ==> visited@[v],
                n <= SEARCH_AREA ==> forall|v: int| 0 <= v < n && #[trigger] visited@[v] ==> grid@[v] is Some,
                cells_distinct(grid@),
                cells_recorded(grid@, occupied@),
                cells_owned(grid@, occupied@, queue@),
                occupied@.no_duplicates(),
                occupied.len() <= n,
                cells_within(grid@, SEARCH_RADIUS * occupied.len()),
                head < queue.len(),
                k <= neighbours.len(),
                current == queue@[head as int],
                adj == adjacency_view(adjacency@),
                start == bfs_start(n as nat, root),
                (BfsState { grid: grid@, occupied: occupied@, visited: visited@, queue: queue@, head: head as int, next: k as int })
                    == bfs_run(adj, start, steps),
            decreases neighbours.len() - k,
        {
            let ghost prev = BfsState {
                grid: grid@,
                occupied: occupied@,
                visited: visited@,
                queue: queue@,
                head: head as int,
                next: k as int,
            };
            assert(adj[current as int] == neighbours@);
            let u = neighbours[k];
            assert(adjacency@[current as int]@[k as int] < n);
            if !visited[u] {
                visited[u] = true;
                proof {
                    lemma_distinct_below(queue@, n as nat, u);
                    assert(-SEARCH_RADIUS * occupied.len() <= cx <= SEARCH_RADIUS * occupied.len());
                    assert(-SEARCH_RADIUS * occupied.len() <= cy <= SEARCH_RADIUS * occupied.len());
                }
                let spot = free_cell_near(cx, cy, &occupied);
                if let Some(c) = spot {
                    let ghost old_grid = grid@;
                    let ghost old_occ = occupied@;
                    let ghost old_queue = queue@;
                    grid[u] = Some(c);
                    occupied.push(c);
                    queue.push(u);
                    proof {
                        assert forall|v: int| 0 <= v < n && #[trigger] grid@[v] is Some implies cell_taken(
                            occupied@,
                            grid@[v]->Some_0.0 as int,
                            grid@[v]->Some_0.1 as int,
                        ) by {
                            if v == u {
                                assert(occupied@[old_occ.len() as int] == c);
                            } else {
                                let g = old_grid[v]->Some_0;
                                let t = choose|t: int|
                                    0 <= t < old_occ.len() && (#[trigger] old_occ[t]).0 == g.0
                                        && old_occ[t].1 == g.1;
                                assert(occupied@[t] == old_occ[t]);
                            }
                        }
                        assert forall|v: int|
                            0 <= v < n && v != u && #[trigger] old_grid[v] is Some implies old_grid[v]
                            != Some(c) by {
                            let g = old_grid[v]->Some_0;
                            assert(cell_taken(old_occ, g.0 as int, g.1 as int));
                        }
                        assert(occupied@.no_duplicates()) by {
                            assert forall|a: int, b: int|
                                0 <= a < b < occupied@.len() implies occupied@[a] != occupied@[b] by {
                                if b == old_occ.len() {
                                    if occupied@[a] == c {
                                        assert(old_occ[a] == c);
                                        assert(cell_taken(old_occ, c.0 as int, c.1 as int));
                                    }
                                }
                            }
                        }
                        assert(queue@.no_duplicates()) by {
                            assert forall|a: int, b: int|
                                0 <= a < b < queue@.len() implies queue@[a] != queue@[b] by {
                                if b == old_queue.len() {
                                    assert(old_grid[old_queue[a] as int] is Some);
                                }
                            }
                        }
                        assert forall|a: int| 0 <= a < queue@.len() implies #[trigger] queue@[a] < grid@.len()
                            && grid@[queue@[a] as int] == Some(occupied@[a]) by {
                            if a < old_queue.len() {
                                assert(old_grid[old_queue[a] as int] is Some);
                            }
                        }
                    }
                }
            }
            proof {
                lemma_run_step(adj, start, steps);
                steps = steps + 1;
                assert((BfsState { grid: grid@, occupied: occupied@, visited: visited@, queue: queue@, head: head as int, next: k + 1 })
                    =~= bfs_step(adj, prev));
            }
            k = k + 1;
        }
        proof {
            assert(adj[current as int] == neighbours@);
            lemma_run_step(adj, start, steps);
            steps = steps + 1;
        }
        head = head + 1;
    }
    let ghost settled = bfs_run(adj, start, steps);
    assert(bfs_settled(adj, root, steps));
    let ghost owners = queue@;
    let mut v: usize = 0;
    while v < n
        invariant
            n == adjacency.len(),
            n <= MAX_VERTICES,
            root < n,
            grid.len() == n,
            v <= n,
            grid@[root as int] == Some((0i32, 0i32)),
            n <= SEARCH_AREA ==> forall|w: int| 0 <= w < v ==> #[trigger] grid@[w] is Some,
            cells_distinct(grid@),
            cells_recorded(grid@, occupied@),
            cells_owned(grid@, occupied@, owners),
            occupied@.no_duplicates(),
            occupied.len() <= n,
            cells_within(grid@, SEARCH_RADIUS * occupied.len()),
            (BfsState {
                grid: grid@,
                occupied: occupied@,
                visited: settled.visited,
                queue: settled.queue,
                head: settled.head,
                next: settled.next,
            }) == sweep(settled, v as int),
        decreases n - v,
    {
        let ghost before_v = sweep(settled, v as int);
        if grid[v].is_none() {
            proof {
                lemma_distinct_below(owners, n as nat, v);
            }
            let spot = find_nearest_empty(0, 0, &occupied);
            if let Some(c) = spot {
                let ghost old_grid = grid@;
                let ghost old_occ = occupied@;
                let ghost old_owners = owners;
                grid[v] = Some(c);
                occupied.push(c);
                proof {
                    owners = owners.push(v);
                    assert forall|w: int| 0 <= w < n && #[trigger] grid@[w] is Some implies cell_taken(
                        occupied@,
                        grid@[w]->Some_0.0 as int,
                        grid@[w]->Some_0.1 as int,
                    ) by {
                        if w == v {
                            assert(occupied@[old_occ.len() as int] == c);
                        } else {
                            let g = old_grid[w]->Some_0;
                            let t = choose|t: int|
                                0 <= t < old_occ.len() && (#[trigger] old_occ[t]).0 == g.0
                                    && old_occ[t].1 == g.1;
                            assert(occupied@[t] == old_occ[t]);
                        }
                    }
                    assert forall|w: int|
                        0 <= w < n && w != v && #[trigger] old_grid[w] is Some implies old_grid[w] != Some(
                        c,
                    ) by {
                        let g = old_grid[w]->Some_0;
                        assert(cell_taken(old_occ, g.0 as int, g.1 as int));
                    }
                    assert(occupied@.no_duplicates()) by {
                        assert forall|a: int, b: int|
                            0 <= a < b < occupied@.len() implies occupied@[a] != occupied@[b] by {
                            if b == old_occ.len() {
                                if occupied@[a] == c {
                                    assert(old_occ[a] == c);
                                    assert(cell_taken(old_occ, c.0 as int, c.1 as int));
                                }
                            }
                        }
                    }
                    assert(owners.no_duplicates()) by {
                        assert forall|a: int, b: int|
                            0 <= a < b < owners.len() implies owners[a] != owners[b] by {
                            if b == old_owners.len() {
                                assert(old_grid[old_owners[a] as int] is Some);
                            }
                        }
                    }
                    assert forall|a: int| 0 <= a < owners.len() implies #[trigger] owners[a] < grid@.len()
                        && grid@[owners[a] as int] == Some(occupied@[a]) by {
                        if a < old_owners.len() {
                            assert(old_grid[old_owners[a] as int] is Some);
                        }
                    }
                }
            }
        }
        assert((BfsState {
            grid: grid@,
            occupied: occupied@,
            visited: settled.visited,
            queue: settled.queue,
            head: settled.head,
            next: settled.next,
        }) =~= sweep_step(before_v, v as int));
        v = v + 1;
    }
    proof {
        lemma_cross_layout(adj, root, steps);
    }
    grid
}

} // verus!
