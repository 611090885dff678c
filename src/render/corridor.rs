//! Spreading of relationship lines that would share a middle segment.
//!
//! A line between two left/right sides is horizontal, one between two
//! top/bottom sides is vertical, any other is mixed. The middle segment of a
//! horizontal line runs at the midpoint of its end x-coordinates, that of a
//! vertical line at the midpoint of its end y-coordinates. Lines of one kind
//! whose midpoints round to the same multiple of ten pixels share a corridor;
//! the members of a corridor of k > 1 lines are spread around the first
//! one's midpoint, 20 pixels apart. Corridor coordinates are in half pixels,
//! so that every midpoint is exact.
use vstd::prelude::*;

use crate::render::route::{route_bounded, RouteInfo, Side, COORD_LIMIT};

verus! {

/// Distance between neighbouring lines of a corridor, in half pixels.
pub const CORRIDOR_SPACING: i128 = 40;

pub open spec fn is_left_right(s: Side) -> bool {
    s == Side::Left || s == Side::Right
}

pub open spec fn is_top_bottom(s: Side) -> bool {
    s == Side::Top || s == Side::Bottom
}

pub open spec fn horizontal(r: RouteInfo) -> bool {
    is_left_right(r.from_side) && is_left_right(r.to_side)
}

pub open spec fn vertical(r: RouteInfo) -> bool {
    is_top_bottom(r.from_side) && is_top_bottom(r.to_side)
}

pub fn is_horizontal(r: &RouteInfo) -> (b: bool)
    ensures
        b == horizontal(*r),
{
    matches!(r.from_side, Side::Left | Side::Right) && matches!(r.to_side, Side::Left | Side::Right)
}

pub fn is_vertical(r: &RouteInfo) -> (b: bool)
    ensures
        b == vertical(*r),
{
    matches!(r.from_side, Side::Top | Side::Bottom) && matches!(r.to_side, Side::Top | Side::Bottom)
}

/// Midpoint of the line's middle segment before spreading, in half pixels.
pub open spec fn natural_mid(r: RouteInfo) -> int {
    if horizontal(r) {
        r.from_x + r.to_x
    } else {
        r.from_y + r.to_y
    }
}

/// `m` half pixels divided by ten pixels, rounded half away from zero.
pub open spec fn bucket(m: int) -> int {
    if m >= 0 {
        (m + 10) / 20
    } else {
        -((-m + 10) / 20)
    }
}

/// The corridor of a route: its direction and bucket; none for a missing or
/// mixed route.
pub open spec fn corridor_key(r: Option<RouteInfo>) -> Option<(bool, int)> {
    match r {
        Some(info) => if horizontal(info) || vertical(info) {
            Some((horizontal(info), bucket(natural_mid(info))))
        } else {
            None
        },
        None => None,
    }
}

/// `a` and `b` run through one corridor.
pub open spec fn same_corridor(a: Option<RouteInfo>, b: Option<RouteInfo>) -> bool {
    corridor_key(a) is Some && corridor_key(a) == corridor_key(b)
}

/// Number of the first `k` routes in the corridor of route `i`.
pub open spec fn count_in(routes: Seq<Option<RouteInfo>>, i: int, k: int) -> nat
    decreases k,
{
    if k <= 0 {
        0
    } else if same_corridor(routes[k - 1], routes[i]) {
        count_in(routes, i, k - 1) + 1
    } else {
        count_in(routes, i, k - 1)
    }
}

/// The first of the first `k` routes in the corridor of route `i`; `i` if
/// there is none.
pub open spec fn first_in(routes: Seq<Option<RouteInfo>>, i: int, k: int) -> int
    decreases k,
{
    if k <= 0 {
        i
    } else if count_in(routes, i, k - 1) == 0 && same_corridor(routes[k - 1], routes[i]) {
        k - 1
    } else {
        first_in(routes, i, k - 1)
    }
}

/// The coordinate of the middle segment of route `i`, in half pixels:
/// member `p` of a corridor of `k > 1` routes whose first member has
/// midpoint `c` runs at `c + (p - (k - 1) / 2) * 20` pixels; a route alone
/// in its corridor keeps its midpoint; a mixed or missing route has 0.
#[verifier::opaque]
pub open spec fn corridor_value(routes: Seq<Option<RouteInfo>>, i: int) -> int {
    let n = routes.len() as int;
    if corridor_key(routes[i]) is None {
        0
    } else {
        let k = count_in(routes, i, n);
        let mid = natural_mid(routes[i]->Some_0);
        if k <= 1 {
            mid
        } else {
            let center = natural_mid(routes[first_in(routes, i, n)]->Some_0);
            center + (2 * count_in(routes, i, i) - (k - 1)) * (CORRIDOR_SPACING / 2)
        }
    }
}

/// The corridor of one route, as `corridor_key` states.
fn corridor_of(r: &Option<RouteInfo>) -> (c: Option<(bool, i128)>)
    requires
        r is Some ==> route_bounded(r->Some_0),
    ensures
        match c {
            Some(k) => corridor_key(*r) == Some((k.0, k.1 as int)),
            None => corridor_key(*r) is None,
        },
        c is Some ==> natural_mid(r->Some_0) == if c->Some_0.0 {
            r->Some_0.from_x + r->Some_0.to_x
        } else {
            r->Some_0.from_y + r->Some_0.to_y
        },
{
    match r {
        Some(info) => {
            let h = is_horizontal(info);
            if h || is_vertical(info) {
                let m = if h {
                    info.from_x + info.to_x
                } else {
                    info.from_y + info.to_y
                };
                let b = if m >= 0 {
                    (m + 10) / 20
                } else {
                    -((-m + 10) / 20)
                };
                Some((h, b))
            } else {
                None
            }
        },
        None => None,
    }
}

/// The middle-segment coordinate of every route, in half pixels, as
/// `corridor_value` states.
pub fn distribute_corridors(routes: &Vec<Option<RouteInfo>>) -> (mids: Vec<i128>)
    requires
        forall|i: int| 0 <= i < routes.len() && #[trigger] routes@[i] is Some ==> route_bounded(routes@[i]->Some_0),
    ensures
        mids.len() == routes.len(),
        forall|i: int| 0 <= i < routes.len() ==> #[trigger] mids@[i] == corridor_value(routes@, i),
        forall|i: int| 0 <= i < routes.len() ==> -4 * COORD_LIMIT <= #[trigger] mids@[i] <= 4 * COORD_LIMIT,
{
    let n = routes.len();
    let mut mids: Vec<i128> = Vec::new();
    let mut i: usize = 0;
    while i < n
        invariant
            n == routes.len(),
            i <= n,
            mids.len() == i,
            forall|t: int| 0 <= t < n && #[trigger] routes@[t] is Some ==> route_bounded(routes@[t]->Some_0),
            forall|t: int| 0 <= t < i ==> #[trigger] mids@[t] == corridor_value(routes@, t),
            forall|t: int| 0 <= t < i ==> -4 * COORD_LIMIT <= #[trigger] mids@[t] <= 4 * COORD_LIMIT,
        decreases n - i,
    {
        let v = distribute_group(routes, i);
        mids.push(v);
        i = i + 1;
    }
    mids
}

/// The middle-segment coordinate of route `i`: its place among the members
/// of its corridor and the corridor's centre decide it.
pub fn distribute_group(routes: &Vec<Option<RouteInfo>>, i: usize) -> (v: i128)
    requires
        i < routes.len(),
        forall|t: int| 0 <= t < routes.len() && #[trigger] routes@[t] is Some ==> route_bounded(routes@[t]->Some_0),
    ensures
        v == corridor_value(routes@, i as int),
        -4 * COORD_LIMIT <= v <= 4 * COORD_LIMIT,
{
    proof {
        reveal(corridor_value);
    }
    let n = routes.len();
    let key = corridor_of(&routes[i]);
    let key = match key {
        Some(k) => k,
        None => {
            return 0;
        },
    };
    let mut count: usize = 0;
    let mut before: usize = 0;
    let mut center: i128 = 0;
    let mut j: usize = 0;
    while j < n
        invariant
            n == routes.len(),
            i < n,
            j <= n,
            corridor_key(routes@[i as int]) == Some((key.0, key.1 as int)),
            forall|t: int| 0 <= t < n && #[trigger] routes@[t] is Some ==> route_bounded(routes@[t]->Some_0),
            count == count_in(routes@, i as int, j as int),
            count <= j,
            before == count_in(routes@, i as int, if j < i { j as int } else { i as int }),
            count > 0 ==> 0 <= first_in(routes@, i as int, j as int) < j,
            count > 0 ==> -2 * COORD_LIMIT <= center <= 2 * COORD_LIMIT,
            count > 0 ==> center == natural_mid(routes@[first_in(routes@, i as int, j as int)]->Some_0)
                && routes@[first_in(routes@, i as int, j as int)] is Some,
            count == 0 ==> first_in(routes@, i as int, j as int) == i,
        decreases n - j,
    {
        let kj = corridor_of(&routes[j]);
        if let Some(k) = kj {
            if k.0 == key.0 && k.1 == key.1 {
                assert(same_corridor(routes@[j as int], routes@[i as int]));
                if count == 0 {
                    center = match &routes[j] {
                        Some(info) => if k.0 {
                            info.from_x + info.to_x
                        } else {
                            info.from_y + info.to_y
                        },
                        None => 0,
                    };
                }
                if j < i {
                    before = before + 1;
                }
                count = count + 1;
            }
        }
        j = j + 1;
    }
    let mid = match &routes[i] {
        Some(info) => if key.0 {
            info.from_x + info.to_x
        } else {
            info.from_y + info.to_y
        },
        None => 0,
    };
    if count <= 1 {
        mid
    } else {
        let places = 2 * before as i128 - (count as i128 - 1);
        assert(-(usize::MAX as int) <= places <= 2 * usize::MAX);
        assert(-20 * (usize::MAX as int) <= places * (CORRIDOR_SPACING / 2) <= 40 * usize::MAX) by (nonlinear_arith)
            requires -(usize::MAX as int) <= places <= 2 * usize::MAX, CORRIDOR_SPACING / 2 == 20;
        center + places * (CORRIDOR_SPACING / 2)
    }
}

/// Routes of one corridor agree on how many of the first `k` routes share
/// it, and on which of them comes first.
pub proof fn lemma_same_group(routes: Seq<Option<RouteInfo>>, i: int, j: int, k: int)
    requires
        0 <= i < routes.len(),
        0 <= j < routes.len(),
        0 <= k <= routes.len(),
        same_corridor(routes[i], routes[j]),
    ensures
        count_in(routes, i, k) == count_in(routes, j, k),
        count_in(routes, i, k) > 0 ==> first_in(routes, i, k) == first_in(routes, j, k),
        count_in(routes, i, k) > 0 ==> 0 <= first_in(routes, i, k) < k && routes[first_in(routes, i, k)] is Some,
    decreases k,
{
    if k > 0 {
        lemma_same_group(routes, i, j, k - 1);
        assert(same_corridor(routes[k - 1], routes[i]) == same_corridor(routes[k - 1], routes[j]));
    }
}

/// In a corridor of more than one route, the middle segments lie
/// symmetrically about the first member's midpoint: members at mirrored
/// places (p and k - 1 - p) average to it, and members at neighbouring places
/// are exactly `CORRIDOR_SPACING` half pixels (20 pixels) apart.
pub proof fn lemma_corridor_symmetry(routes: Seq<Option<RouteInfo>>, i: int, j: int)
    requires
        0 <= i < routes.len(),
        0 <= j < routes.len(),
        same_corridor(routes[i], routes[j]),
        count_in(routes, i, routes.len() as int) > 1,
    ensures
        count_in(routes, j, routes.len() as int) == count_in(routes, i, routes.len() as int),
        count_in(routes, i, i) + count_in(routes, j, j) == count_in(routes, i, routes.len() as int) - 1
            ==> corridor_value(routes, i) + corridor_value(routes, j) == 2 * natural_mid(
            routes[first_in(routes, i, routes.len() as int)]->Some_0,
        ),
        count_in(routes, j, j) == count_in(routes, i, i) + 1 ==> corridor_value(routes, j)
            - corridor_value(routes, i) == CORRIDOR_SPACING,
{
    reveal(corridor_value);
    let n = routes.len() as int;
    lemma_same_group(routes, i, j, n);
    assert(same_corridor(routes[j], routes[i]));
}

} // verus!
