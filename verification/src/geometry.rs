use vstd::prelude::*;

use crate::model::{BoundingBox, Point};

verus! {

// ---------------------------------------------------------------------------
// Polygon area (shoelace formula)
// ---------------------------------------------------------------------------

/// The index of the vertex after vertex `i` of a closed polygon with `n` vertices.
pub open spec fn next_index(i: int, n: int) -> int {
    if i + 1 < n {
        i + 1
    } else {
        0
    }
}

/// The cross product `p × q`, one term of the shoelace formula.
pub open spec fn cross(p: Point, q: Point) -> int {
    p.x * q.y - q.x * p.y
}

/// Shoelace term `i` of the closed polygon `pts`: the cross product of vertex
/// `i` and the vertex after it.
pub open spec fn shoelace_term(pts: Seq<Point>, i: int) -> int {
    cross(pts[i], pts[next_index(i, pts.len() as int)])
}

/// The sum of the first `k` shoelace terms of the closed polygon `pts`.
pub open spec fn shoelace_partial(pts: Seq<Point>, k: nat) -> int
    decreases k,
{
    if k == 0 {
        0
    } else {
        shoelace_partial(pts, (k - 1) as nat) + shoelace_term(pts, k - 1)
    }
}

/// The full shoelace sum of the closed polygon `pts`: twice its signed area.
pub open spec fn shoelace_sum(pts: Seq<Point>) -> int {
    shoelace_partial(pts, pts.len())
}

pub open spec fn abs(v: int) -> int {
    if v < 0 {
        -v
    } else {
        v
    }
}

/// Twice the area of the polygon through `pts` (closed back to the first point),
/// by the shoelace formula; 0 when there are fewer than three points.
pub open spec fn doubled_area(pts: Seq<Point>) -> int {
    if pts.len() < 3 {
        0
    } else {
        abs(shoelace_sum(pts))
    }
}

/// `2^31`: no coordinate of a `Point` exceeds it in magnitude.
pub open spec fn coord_bound() -> int {
    0x8000_0000
}

/// `2^63`: no shoelace term exceeds it in magnitude.
pub open spec fn term_bound() -> int {
    0x8000_0000_0000_0000
}

proof fn lemma_cross_bound(p: Point, q: Point)
    ensures
        -0x4000_0000_0000_0000 <= p.x * q.y <= 0x4000_0000_0000_0000,
        -0x4000_0000_0000_0000 <= q.x * p.y <= 0x4000_0000_0000_0000,
        -term_bound() <= cross(p, q) <= term_bound(),
{
    let a: int = p.x as int;
    let b: int = q.y as int;
    let c: int = q.x as int;
    let d: int = p.y as int;
    assert(-0x4000_0000_0000_0000 <= a * b <= 0x4000_0000_0000_0000) by (nonlinear_arith)
        requires
            -0x8000_0000 <= a < 0x8000_0000,
            -0x8000_0000 <= b < 0x8000_0000,
    ;
    assert(-0x4000_0000_0000_0000 <= c * d <= 0x4000_0000_0000_0000) by (nonlinear_arith)
        requires
            -0x8000_0000 <= c < 0x8000_0000,
            -0x8000_0000 <= d < 0x8000_0000,
    ;
}

/// Twice the area of the polygon through `points`, closed back to the first
/// point (shoelace formula); 0 for fewer than three points. The area itself may
/// be a half-integer; twice it is always an integer.
pub fn polygon_area_x2(points: &Vec<Point>) -> (area2: u128)
    ensures
        area2 as int == doubled_area(points@),
{
    let n: usize = points.len();
    if n < 3 {
        return 0;
    }
    let mut sum: i128 = 0;
    let mut i: usize = 0;
    while i < n
        invariant
            n == points@.len(),
            n >= 3,
            i <= n,
            sum as int == shoelace_partial(points@, i as nat),
            -(i as int) * term_bound() <= sum as int <= (i as int) * term_bound(),
        decreases n - i,
    {
        let p1 = points[i];
        let j: usize = if i + 1 < n { i + 1 } else { 0 };
        let p2 = points[j];
        proof {
            lemma_cross_bound(p1, p2);
            assert((i as int) * term_bound() + term_bound() == (i as int + 1) * term_bound())
                by (nonlinear_arith);
            assert((i as int + 1) * term_bound() <= 0x1_0000_0000_0000_0000 * term_bound())
                by (nonlinear_arith)
                requires
                    i < n,
                    n <= usize::MAX,
            ;
        }
        let left: i128 = (p1.x as i128) * (p2.y as i128);
        let right: i128 = (p2.x as i128) * (p1.y as i128);
        sum = sum + (left - right);
        i = i + 1;
    }
    proof {
        assert(n as int * term_bound() <= 0x1_0000_0000_0000_0000 * term_bound()) by (nonlinear_arith)
            requires
                n <= usize::MAX,
        ;
    }
    if sum < 0 {
        (-sum) as u128
    } else {
        sum as u128
    }
}

// ---------------------------------------------------------------------------
// Bounding box
// ---------------------------------------------------------------------------

pub open spec fn min_int(a: int, b: int) -> int {
    if a <= b {
        a
    } else {
        b
    }
}

pub open spec fn max_int(a: int, b: int) -> int {
    if a >= b {
        a
    } else {
        b
    }
}

/// The least x coordinate of `pts` (`i32::MAX` for no points).
pub open spec fn least_x(pts: Seq<Point>) -> int
    decreases pts.len(),
{
    if pts.len() == 0 {
        i32::MAX as int
    } else {
        min_int(least_x(pts.drop_last()), pts.last().x as int)
    }
}

/// The least y coordinate of `pts` (`i32::MAX` for no points).
pub open spec fn least_y(pts: Seq<Point>) -> int
    decreases pts.len(),
{
    if pts.len() == 0 {
        i32::MAX as int
    } else {
        min_int(least_y(pts.drop_last()), pts.last().y as int)
    }
}

/// The greatest x coordinate of `pts` (`i32::MIN` for no points).
pub open spec fn greatest_x(pts: Seq<Point>) -> int
    decreases pts.len(),
{
    if pts.len() == 0 {
        i32::MIN as int
    } else {
        max_int(greatest_x(pts.drop_last()), pts.last().x as int)
    }
}

/// The greatest y coordinate of `pts` (`i32::MIN` for no points).
pub open spec fn greatest_y(pts: Seq<Point>) -> int
    decreases pts.len(),
{
    if pts.len() == 0 {
        i32::MIN as int
    } else {
        max_int(greatest_y(pts.drop_last()), pts.last().y as int)
    }
}

/// The bounding box of `pts`: origin at the least coordinates (taken as `u32`,
/// wrapping for negative coordinates), extent the difference between greatest
/// and least coordinates. `None` for no points.
pub open spec fn bbox_of(pts: Seq<Point>) -> Option<BoundingBox> {
    if pts.len() == 0 {
        None
    } else {
        Some(
            BoundingBox {
                x: least_x(pts) as u32,
                y: least_y(pts) as u32,
                width: (greatest_x(pts) - least_x(pts)) as u32,
                height: (greatest_y(pts) - least_y(pts)) as u32,
            },
        )
    }
}

/// The extremes of a point list are attained and bound every point.
pub proof fn lemma_extremes(pts: Seq<Point>)
    ensures
        forall|i: int|
            0 <= i < pts.len() ==> least_x(pts) <= #[trigger] pts[i].x <= greatest_x(pts)
                && least_y(pts) <= pts[i].y <= greatest_y(pts),
        pts.len() > 0 ==> exists|i: int| 0 <= i < pts.len() && #[trigger] pts[i].x == least_x(pts),
        pts.len() > 0 ==> exists|i: int| 0 <= i < pts.len() && #[trigger] pts[i].y == least_y(pts),
        pts.len() > 0 ==> exists|i: int| 0 <= i < pts.len() && #[trigger] pts[i].x == greatest_x(pts),
        pts.len() > 0 ==> exists|i: int| 0 <= i < pts.len() && #[trigger] pts[i].y == greatest_y(pts),
        i32::MIN <= least_x(pts) <= i32::MAX,
        i32::MIN <= least_y(pts) <= i32::MAX,
        i32::MIN <= greatest_x(pts) <= i32::MAX,
        i32::MIN <= greatest_y(pts) <= i32::MAX,
    decreases pts.len(),
{
    if pts.len() > 0 {
        let rest = pts.drop_last();
        lemma_extremes(rest);
        let n: int = pts.len() - 1;
        assert forall|i: int| 0 <= i < pts.len() implies least_x(pts) <= #[trigger] pts[i].x
            <= greatest_x(pts) && least_y(pts) <= pts[i].y <= greatest_y(pts) by {
            if i < n {
                assert(pts[i] == rest[i]);
            }
        }
        if least_x(pts) != pts[n].x {
            let k: int = choose|k: int| 0 <= k < rest.len() && #[trigger] rest[k].x == least_x(rest);
            assert(pts[k] == rest[k]);
        }
        if least_y(pts) != pts[n].y {
            let k: int = choose|k: int| 0 <= k < rest.len() && #[trigger] rest[k].y == least_y(rest);
            assert(pts[k] == rest[k]);
        }
        if greatest_x(pts) != pts[n].x {
            let k: int = choose|k: int| 0 <= k < rest.len() && #[trigger] rest[k].x == greatest_x(rest);
            assert(pts[k] == rest[k]);
        }
        if greatest_y(pts) != pts[n].y {
            let k: int = choose|k: int| 0 <= k < rest.len() && #[trigger] rest[k].y == greatest_y(rest);
            assert(pts[k] == rest[k]);
        }
    }
}

/// The bounding box of `points`; `None` when there are no points.
pub fn bounding_box(points: &Vec<Point>) -> (bbox: Option<BoundingBox>)
    ensures
        bbox == bbox_of(points@),
{
    let mut min_x: i32 = i32::MAX;
    let mut min_y: i32 = i32::MAX;
    let mut max_x: i32 = i32::MIN;
    let mut max_y: i32 = i32::MIN;
    let n: usize = points.len();
    let mut i: usize = 0;
    while i < n
        invariant
            n == points@.len(),
            i <= n,
            min_x as int == least_x(points@.take(i as int)),
            min_y as int == least_y(points@.take(i as int)),
            max_x as int == greatest_x(points@.take(i as int)),
            max_y as int == greatest_y(points@.take(i as int)),
        decreases n - i,
    {
        let p = points[i];
        assert(points@.take(i + 1).drop_last() =~= points@.take(i as int));
        if p.x < min_x {
            min_x = p.x;
        }
        if p.y < min_y {
            min_y = p.y;
        }
        if p.x > max_x {
            max_x = p.x;
        }
        if p.y > max_y {
            max_y = p.y;
        }
        i = i + 1;
    }
    assert(points@.take(n as int) =~= points@);
    proof {
        lemma_extremes(points@);
    }
    if min_x > max_x || min_y > max_y {
        return None;
    }
    Some(
        BoundingBox {
            x: min_x as u32,
            y: min_y as u32,
            width: ((max_x as i64) - (min_x as i64)) as u32,
            height: ((max_y as i64) - (min_y as i64)) as u32,
        },
    )
}

/// For points with non-negative coordinates, the bounding box is the least
/// axis-aligned box that holds them all: every point lies in it, and a point
/// lies on each of its four sides.
pub proof fn law_bounding_box_is_tight(pts: Seq<Point>)
    requires
        pts.len() > 0,
        forall|i: int| 0 <= i < pts.len() ==> (#[trigger] pts[i]).x >= 0 && pts[i].y >= 0,
    ensures
        bbox_of(pts) matches Some(b) && {
            &&& forall|i: int|
                0 <= i < pts.len() ==> b.x <= (#[trigger] pts[i]).x <= b.x + b.width && b.y
                    <= pts[i].y <= b.y + b.height
            &&& exists|i: int| 0 <= i < pts.len() && (#[trigger] pts[i]).x == b.x
            &&& exists|i: int| 0 <= i < pts.len() && (#[trigger] pts[i]).x == b.x + b.width
            &&& exists|i: int| 0 <= i < pts.len() && (#[trigger] pts[i]).y == b.y
            &&& exists|i: int| 0 <= i < pts.len() && (#[trigger] pts[i]).y == b.y + b.height
        },
{
    lemma_extremes(pts);
    let k: int = choose|k: int| 0 <= k < pts.len() && #[trigger] pts[k].x == least_x(pts);
    let m: int = choose|m: int| 0 <= m < pts.len() && #[trigger] pts[m].y == least_y(pts);
    assert(pts[k].x >= 0);
    assert(pts[m].y >= 0);
    let b = bbox_of(pts).unwrap();
    assert(b.x as int == least_x(pts));
    assert(b.y as int == least_y(pts));
    assert(b.width as int == greatest_x(pts) - least_x(pts));
    assert(b.height as int == greatest_y(pts) - least_y(pts));
}

// ---------------------------------------------------------------------------
// Laws of the polygon area
// ---------------------------------------------------------------------------

/// `pts` rotated left by `k`: it starts at vertex `k` and wraps around.
pub open spec fn rotate_left(pts: Seq<Point>, k: int) -> Seq<Point> {
    pts.skip(k) + pts.take(k)
}

proof fn lemma_rotate_one_partial(pts: Seq<Point>, k: int)
    requires
        pts.len() >= 1,
        0 <= k <= pts.len() - 1,
    ensures
        shoelace_partial(rotate_left(pts, 1), k as nat) == shoelace_partial(pts, (k + 1) as nat)
            - shoelace_term(pts, 0),
    decreases k,
{
    let n = pts.len() as int;
    let q = rotate_left(pts, 1);
    if k > 0 {
        lemma_rotate_one_partial(pts, k - 1);
        let i = k - 1;
        assert(q[i] == pts[i + 1]);
        if i + 1 < n - 1 {
            assert(q[i + 1] == pts[i + 2]);
        } else {
            assert(q[n - 1] == pts[0]);
        }
        assert(shoelace_term(q, i) == shoelace_term(pts, i + 1));
        assert(shoelace_partial(q, k as nat) == shoelace_partial(q, i as nat) + shoelace_term(q, i));
        assert(shoelace_partial(pts, (k + 1) as nat) == shoelace_partial(pts, k as nat)
            + shoelace_term(pts, k));
    } else {
        assert(shoelace_partial(pts, 0) == 0);
        assert(shoelace_partial(pts, 1) == shoelace_term(pts, 0));
    }
}

proof fn lemma_shoelace_rotate_one(pts: Seq<Point>)
    requires
        pts.len() >= 1,
    ensures
        shoelace_sum(rotate_left(pts, 1)) == shoelace_sum(pts),
{
    let n = pts.len() as int;
    let q = rotate_left(pts, 1);
    lemma_rotate_one_partial(pts, n - 1);
    assert(q[n - 1] == pts[0]);
    if n >= 2 {
        assert(q[0] == pts[1]);
    } else {
        assert(q[0] == pts[0]);
    }
    assert(shoelace_term(q, n - 1) == shoelace_term(pts, 0));
}

/// The area of a polygon does not depend on which vertex its outline starts
/// at: rotating the vertex list leaves it unchanged.
pub proof fn law_area_independent_of_start(pts: Seq<Point>, k: int)
    requires
        0 <= k <= pts.len(),
    ensures
        doubled_area(rotate_left(pts, k)) == doubled_area(pts),
    decreases k,
{
    if k == 0 {
        assert(rotate_left(pts, 0) =~= pts);
    } else if k == pts.len() {
        assert(rotate_left(pts, k) =~= pts);
    } else {
        law_area_independent_of_start(pts, k - 1);
        let r = rotate_left(pts, k - 1);
        assert(rotate_left(r, 1) =~= rotate_left(pts, k));
        lemma_shoelace_rotate_one(r);
    }
}

proof fn lemma_cross_antisymmetric(p: Point, q: Point)
    ensures
        cross(q, p) == -cross(p, q),
{
}

proof fn lemma_reverse_partial(pts: Seq<Point>, k: int)
    requires
        pts.len() >= 1,
        0 <= k <= pts.len() - 1,
    ensures
        shoelace_partial(pts.reverse(), k as nat) == shoelace_partial(pts, (pts.len() - 1 - k) as nat)
            - shoelace_partial(pts, (pts.len() - 1) as nat),
    decreases k,
{
    let n = pts.len() as int;
    let r = pts.reverse();
    if k > 0 {
        lemma_reverse_partial(pts, k - 1);
        let i = k - 1;
        assert(r[i] == pts[n - 1 - i]);
        assert(r[i + 1] == pts[n - 2 - i]);
        lemma_cross_antisymmetric(pts[n - 2 - i], pts[n - 1 - i]);
        assert(shoelace_term(r, i) == -shoelace_term(pts, n - 2 - i));
    }
}

/// The area of a polygon does not depend on the orientation of its outline:
/// reversing the vertex list leaves it unchanged.
pub proof fn law_area_independent_of_orientation(pts: Seq<Point>)
    ensures
        doubled_area(pts.reverse()) == doubled_area(pts),
{
    let n = pts.len() as int;
    let r = pts.reverse();
    if n >= 1 {
        lemma_reverse_partial(pts, n - 1);
        assert(r[n - 1] == pts[0]);
        assert(r[0] == pts[n - 1]);
        lemma_cross_antisymmetric(pts[n - 1], pts[0]);
        assert(shoelace_term(r, n - 1) == -shoelace_term(pts, n - 1));
        assert(shoelace_sum(r) == -shoelace_sum(pts));
    }
}

proof fn lemma_insert_prefix(pts: Seq<Point>, i: int, q: Point, k: int)
    requires
        0 <= i < pts.len(),
        0 <= k <= i,
    ensures
        shoelace_partial(pts.insert(i + 1, q), k as nat) == shoelace_partial(pts, k as nat),
    decreases k,
{
    if k > 0 {
        lemma_insert_prefix(pts, i, q, k - 1);
        let r = pts.insert(i + 1, q);
        assert(r[k - 1] == pts[k - 1]);
        assert(r[k] == pts[k]);
        assert(shoelace_term(r, k - 1) == shoelace_term(pts, k - 1));
    }
}

proof fn lemma_insert_suffix(pts: Seq<Point>, i: int, q: Point, k: int)
    requires
        0 <= i < pts.len(),
        i + 2 <= k <= pts.len() + 1,
        shoelace_partial(pts.insert(i + 1, q), (i + 2) as nat) == shoelace_partial(pts, (i + 1) as nat),
    ensures
        shoelace_partial(pts.insert(i + 1, q), k as nat) == shoelace_partial(pts, (k - 1) as nat),
    decreases k,
{
    if k > i + 2 {
        lemma_insert_suffix(pts, i, q, k - 1);
        let r = pts.insert(i + 1, q);
        let n = pts.len() as int;
        let j = k - 1;
        assert(r[j] == pts[j - 1]);
        if j + 1 < n + 1 {
            assert(r[j + 1] == pts[j]);
        } else {
            assert(r[0] == pts[0]);
        }
        assert(shoelace_term(r, j) == shoelace_term(pts, j - 1));
    }
}

/// Inserting into a polygon's outline a vertex that lies on the line through
/// two consecutive vertices (such as a point on one of its sides) does not
/// change its area. In particular, however many border points a traced
/// outline holds, only its shape decides its area.
#[verifier::spinoff_prover]
pub proof fn law_area_unchanged_by_collinear_vertex(pts: Seq<Point>, i: int, q: Point)
    requires
        0 <= i < pts.len(),
        (q.x - pts[i].x) * (pts[next_index(i, pts.len() as int)].y - pts[i].y) == (q.y
            - pts[i].y) * (pts[next_index(i, pts.len() as int)].x - pts[i].x),
    ensures
        doubled_area(pts.insert(i + 1, q)) == doubled_area(pts),
{
    let n = pts.len() as int;
    let r = pts.insert(i + 1, q);
    let a = pts[i];
    let b = pts[next_index(i, n)];
    assert(r.len() == n + 1);
    lemma_insert_prefix(pts, i, q, i);
    assert(r[i] == a);
    assert(r[i + 1] == q);
    if i + 2 < n + 1 {
        assert(r[i + 2] == pts[i + 1]);
    } else {
        assert(r[0] == pts[0]);
    }
    assert(shoelace_term(r, i) == cross(a, q));
    assert(shoelace_term(r, i + 1) == cross(q, b));
    assert(shoelace_term(pts, i) == cross(a, b));
    let ax = a.x as int;
    let ay = a.y as int;
    let bx = b.x as int;
    let by = b.y as int;
    let qx = q.x as int;
    let qy = q.y as int;
    assert(cross(a, q) + cross(q, b) - cross(a, b) == (qx - ax) * (by - ay) - (qy - ay) * (bx - ax))
        by (nonlinear_arith)
        requires
            cross(a, q) == ax * qy - qx * ay,
            cross(q, b) == qx * by - bx * qy,
            cross(a, b) == ax * by - bx * ay,
    ;
    assert((qx - ax) * (by - ay) == (qy - ay) * (bx - ax));
    assert(shoelace_partial(r, (i + 1) as nat) == shoelace_partial(r, i as nat) + shoelace_term(r, i));
    assert(shoelace_partial(r, (i + 2) as nat) == shoelace_partial(r, (i + 1) as nat)
        + shoelace_term(r, i + 1));
    assert(shoelace_partial(pts, (i + 1) as nat) == shoelace_partial(pts, i as nat)
        + shoelace_term(pts, i));
    assert(shoelace_partial(r, (i + 2) as nat) == shoelace_partial(pts, (i + 1) as nat));
    lemma_insert_suffix(pts, i, q, n + 1);
    assert(shoelace_sum(r) == shoelace_sum(pts));
    if n == 2 {
        reveal_with_fuel(shoelace_partial, 3);
        lemma_cross_antisymmetric(pts[0], pts[1]);
        assert(shoelace_sum(pts) == 0);
    }
}

} // verus!
