//! The orthogonal polyline of a relationship line and its SVG path data.
use vstd::prelude::*;
use vstd::string::*;

use crate::render::corridor::{horizontal, is_horizontal, is_vertical, vertical};
use crate::render::route::{route_bounded, RouteInfo, COORD_LIMIT};
use crate::render::text::{half_text, push_half};

verus! {

/// A point of a polyline, in half pixels.
#[derive(Debug, Clone, Copy, PartialEq, Eq, Structural)]
pub struct Point {
    pub x: i128,
    pub y: i128,
}

impl View for Point {
    type V = (int, int);

    open spec fn view(&self) -> (int, int) {
        (self.x as int, self.y as int)
    }
}

/// The polyline of route `r` with middle-segment coordinate `mid`, in half
/// pixels: a horizontal route bends twice at x = `mid`, a vertical one twice
/// at y = `mid`, a mixed one once, below or above its end.
pub open spec fn polyline(r: RouteInfo, mid: int) -> Seq<(int, int)> {
    let a = (2 * r.from_x, 2 * r.from_y);
    let b = (2 * r.to_x, 2 * r.to_y);
    if horizontal(r) {
        seq![a, (mid, a.1), (mid, b.1), b]
    } else if vertical(r) {
        seq![a, (a.0, mid), (b.0, mid), b]
    } else {
        seq![a, (b.0, a.1), b]
    }
}

/// Consecutive points share an x or a y coordinate.
pub open spec fn axis_aligned(pts: Seq<(int, int)>) -> bool {
    forall|k: int| 0 <= k < pts.len() - 1 ==> (#[trigger] pts[k]).0 == pts[k + 1].0 || pts[k].1 == pts[k + 1].1
}

/// Every polyline starts at the route's `from` point, ends at its `to`
/// point, and has only horizontal and vertical segments.
pub proof fn lemma_path_endpoints(r: RouteInfo, mid: int)
    ensures
        polyline(r, mid).len() >= 2,
        polyline(r, mid)[0] == (2 * r.from_x, 2 * r.from_y),
        polyline(r, mid).last() == (2 * r.to_x, 2 * r.to_y),
        axis_aligned(polyline(r, mid)),
{
}

pub fn route_points(info: &RouteInfo, mid: i128) -> (pts: Vec<Point>)
    requires
        route_bounded(*info),
    ensures
        pts@.len() == polyline(*info, mid as int).len(),
        forall|k: int| 0 <= k < pts@.len() ==> (#[trigger] pts@[k])@ == polyline(*info, mid as int)[k],
{
    let a = Point { x: 2 * info.from_x, y: 2 * info.from_y };
    let b = Point { x: 2 * info.to_x, y: 2 * info.to_y };
    let pts = if is_horizontal(info) {
        vec![a, Point { x: mid, y: a.y }, Point { x: mid, y: b.y }, b]
    } else if is_vertical(info) {
        vec![a, Point { x: a.x, y: mid }, Point { x: b.x, y: mid }, b]
    } else {
        vec![a, Point { x: b.x, y: a.y }, b]
    };
    assert(pts@.len() == polyline(*info, mid as int).len());
    pts
}

/// SVG path data of a polyline: `M x y`, then `L x y` for every further
/// point, in pixels.
pub open spec fn path_text(pts: Seq<(int, int)>) -> Seq<char>
    decreases pts.len(),
{
    if pts.len() == 0 {
        Seq::empty()
    } else if pts.len() == 1 {
        seq!['M', ' '] + half_text(pts[0].0) + seq![' '] + half_text(pts[0].1)
    } else {
        path_text(pts.drop_last()) + seq![' ', 'L', ' '] + half_text(pts.last().0) + seq![' ']
            + half_text(pts.last().1)
    }
}

/// Every coordinate of the points is above `i128::MIN`.
pub open spec fn points_printable(pts: Seq<Point>) -> bool {
    forall|k: int| 0 <= k < pts.len() ==> (#[trigger] pts[k]).x > i128::MIN && pts[k].y > i128::MIN
}

/// The SVG path data of the polyline `pts`.
pub fn path_data(pts: &Vec<Point>) -> (d: String)
    requires
        points_printable(pts@),
    ensures
        d@ == path_text(pts@.map_values(|p: Point| p@)),
{
    let mut d = String::new();
    let mut k: usize = 0;
    while k < pts.len()
        invariant
            k <= pts.len(),
            points_printable(pts@),
            d@ == path_text(pts@.take(k as int).map_values(|p: Point| p@)),
        decreases pts.len() - k,
    {
        let ghost before = d@;
        let p = pts[k];
        if k == 0 {
            d.append("M ");
            proof { reveal_strlit("M "); }
        } else {
            d.append(" L ");
            proof { reveal_strlit(" L "); }
        }
        push_half(&mut d, p.x);
        d.append(" ");
        proof { reveal_strlit(" "); }
        push_half(&mut d, p.y);
        proof {
            let prev = pts@.take(k as int).map_values(|p: Point| p@);
            let next = pts@.take(k + 1).map_values(|p: Point| p@);
            assert(next.drop_last() =~= prev);
            assert(next.last() == p@);
            if k == 0 {
                assert(prev.len() == 0);
            }
        }
        k = k + 1;
    }
    assert(pts@.take(k as int) =~= pts@);
    d
}

/// The SVG path data of route `info` with middle-segment coordinate `mid`.
pub fn build_path(info: &RouteInfo, mid: i128) -> (d: String)
    requires
        route_bounded(*info),
        -4 * COORD_LIMIT <= mid <= 4 * COORD_LIMIT,
    ensures
        d@ == path_text(polyline(*info, mid as int)),
{
    let pts = route_points(info, mid);
    let d = path_data(&pts);
    assert(pts@.map_values(|p: Point| p@) =~= polyline(*info, mid as int));
    d
}

} // verus!
