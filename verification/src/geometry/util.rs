//! Lines and spheres of cells.

use vstd::prelude::*;
use vstd::arithmetic::div_mod::*;
use crate::geometry::point::Point3;

verus! {

/// The largest magnitude of a coordinate between which lines are drawn.
pub const MAX_LINE_COORD: i32 = 0x1000_0000;

/// The magnitude of a number.
pub open spec fn abs(a: int) -> int {
    if a < 0 {
        -a
    } else {
        a
    }
}

/// The direction of a number: -1 for a negative one, else 1.
pub open spec fn step_of(a: int) -> int {
    if a < 0 {
        -1
    } else {
        1
    }
}

/// How many steps a line has taken along an axis on which it covers `minor`
/// cells when it has taken `i` steps along the axis on which it covers
/// `major` cells: `minor * i / major`, rounded to the nearest number, a half
/// rounded down.
pub open spec fn minor_steps(minor: int, major: int, i: int) -> int {
    if major == 0 {
        0
    } else {
        (2 * minor * i + major - 1) / (2 * major)
    }
}

/// Whether the point lies near enough to the origin for lines to be drawn
/// from it and to it.
pub open spec fn in_line_reach(p: Point3) -> bool {
    &&& -MAX_LINE_COORD <= p.x <= MAX_LINE_COORD
    &&& -MAX_LINE_COORD <= p.y <= MAX_LINE_COORD
    &&& -MAX_LINE_COORD <= p.z <= MAX_LINE_COORD
}

/// The number of steps of the line from `p1` to `p2`: the number of cells
/// that it covers along the axis along which it covers the most.
pub open spec fn line_steps(p1: Point3, p2: Point3) -> int {
    let l = abs(p2.x - p1.x);
    let m = abs(p2.y - p1.y);
    let n = abs(p2.z - p1.z);
    if l >= m && l >= n {
        l
    } else if m >= l && m >= n {
        m
    } else {
        n
    }
}

/// The `i`-th point of the line from `p1` to `p2`. The line takes one step
/// with each point along the axis along which it covers the most cells,
/// the x axis before the y axis before the z axis where two cover the same;
/// along the other two axes it keeps as near to the straight line as whole
/// steps allow.
pub open spec fn line_point(p1: Point3, p2: Point3, i: int) -> Point3 {
    let dx = p2.x - p1.x;
    let dy = p2.y - p1.y;
    let dz = p2.z - p1.z;
    let l = abs(dx);
    let m = abs(dy);
    let n = abs(dz);
    if l >= m && l >= n {
        Point3 {
            x: (p1.x + step_of(dx) * i) as i32,
            y: (p1.y + step_of(dy) * minor_steps(m, l, i)) as i32,
            z: (p1.z + step_of(dz) * minor_steps(n, l, i)) as i32,
        }
    } else if m >= l && m >= n {
        Point3 {
            x: (p1.x + step_of(dx) * minor_steps(l, m, i)) as i32,
            y: (p1.y + step_of(dy) * i) as i32,
            z: (p1.z + step_of(dz) * minor_steps(n, m, i)) as i32,
        }
    } else {
        Point3 {
            x: (p1.x + step_of(dx) * minor_steps(l, n, i)) as i32,
            y: (p1.y + step_of(dy) * minor_steps(m, n, i)) as i32,
            z: (p1.z + step_of(dz) * i) as i32,
        }
    }
}

/// The steps along a minor axis keep to the straight line within half a
/// step: `2 * minor * i - major <= 2 * major * steps < 2 * minor * i + major`.
pub proof fn lemma_minor_steps_near(minor: int, major: int, i: int)
    requires
        0 <= minor <= major,
        0 < major,
        0 <= i <= major,
    ensures
        2 * minor * i - major <= 2 * major * minor_steps(minor, major, i) < 2 * minor * i + major,
        0 <= minor_steps(minor, major, i) <= minor,
        minor_steps(minor, major, 0) == 0,
        minor_steps(minor, major, major) == minor,
{
    let c = minor_steps(minor, major, i);
    let a = 2 * minor * i + major - 1;
    assert(0 <= 2 * minor * i) by (nonlinear_arith)
        requires
            0 <= minor,
            0 <= i,
    ;
    lemma_fundamental_div_mod(a, 2 * major);
    lemma_mod_bound(a, 2 * major);
    lemma_div_pos_is_pos(a, 2 * major);
    assert(c <= minor) by (nonlinear_arith)
        requires
            2 * major * c <= 2 * minor * i + major - 1,
            0 <= i <= major,
            0 <= minor,
            0 < major,
    {
        assert(2 * minor * i <= 2 * minor * major);
        if c >= minor + 1 {
            assert(2 * major * c >= 2 * major * (minor + 1));
        }
    }
    assert(2 * minor * 0 == 0) by (nonlinear_arith);
    lemma_small_div_is_zero(major - 1, 2 * major);
    let last = 2 * minor * major + major - 1;
    assert(last == 2 * major * minor + (major - 1)) by (nonlinear_arith)
        requires
            last == 2 * minor * major + major - 1,
    ;
    lemma_fundamental_div_mod_converse(last, 2 * major, minor, major - 1);
}

/// A quotient is zero where the numerator is smaller than the denominator.
proof fn lemma_small_div_is_zero(a: int, d: int)
    requires
        0 <= a < d,
    ensures
        a / d == 0,
{
    lemma_fundamental_div_mod_converse(a, d, 0, a);
}

/// A line begins in its first point and ends in its last.
pub proof fn lemma_line_ends(p1: Point3, p2: Point3)
    requires
        in_line_reach(p1),
        in_line_reach(p2),
    ensures
        line_point(p1, p2, 0) == p1,
        line_point(p1, p2, line_steps(p1, p2)) == p2,
{
    let l = abs(p2.x - p1.x);
    let m = abs(p2.y - p1.y);
    let n = abs(p2.z - p1.z);
    let k = line_steps(p1, p2);
    if k > 0 {
        if l >= m && l >= n {
            lemma_minor_steps_near(m, l, 0);
            lemma_minor_steps_near(n, l, 0);
            lemma_minor_steps_near(m, l, l);
            lemma_minor_steps_near(n, l, l);
        } else if m >= l && m >= n {
            lemma_minor_steps_near(l, m, 0);
            lemma_minor_steps_near(n, m, 0);
            lemma_minor_steps_near(l, m, m);
            lemma_minor_steps_near(n, m, m);
        } else {
            lemma_minor_steps_near(l, n, 0);
            lemma_minor_steps_near(m, n, 0);
            lemma_minor_steps_near(l, n, n);
            lemma_minor_steps_near(m, n, n);
        }
    }
    assert(step_of(p2.x - p1.x) * l == p2.x - p1.x) by (nonlinear_arith)
        requires
            l == abs(p2.x - p1.x),
    ;
    assert(step_of(p2.y - p1.y) * m == p2.y - p1.y) by (nonlinear_arith)
        requires
            m == abs(p2.y - p1.y),
    ;
    assert(step_of(p2.z - p1.z) * n == p2.z - p1.z) by (nonlinear_arith)
        requires
            n == abs(p2.z - p1.z),
    ;
    assert(step_of(p2.x - p1.x) * 0 == 0 && step_of(p2.y - p1.y) * 0 == 0 && step_of(p2.z - p1.z) * 0
        == 0) by (nonlinear_arith);
}

/// How often a line has stepped along a minor axis at each of its points:
/// the error term of the line is carried from point to point, and a step is
/// taken whenever it has grown beyond zero.
fn minor_track(minor: i32, major: i32) -> (track: Vec<i32>)
    requires
        0 <= minor <= major <= 2 * MAX_LINE_COORD,
    ensures
        track@.len() == major + 1,
        forall|i: int| 0 <= i <= major ==> #[trigger] track@[i] == minor_steps(minor as int, major as int, i),
{
    let mut track: Vec<i32> = Vec::new();
    let minor2 = minor << 1;
    let major2 = major << 1;
    assert(minor2 == 2 * minor && major2 == 2 * major) by (bit_vector)
        requires
            0 <= minor <= 0x2000_0000i32,
            0 <= major <= 0x2000_0000i32,
            minor2 == minor << 1,
            major2 == major << 1,
    ;
    let mut err: i32 = minor2 - major;
    let mut count: i32 = 0;
    let mut i: i32 = 0;
    proof {
        if major > 0 {
            lemma_minor_steps_near(minor as int, major as int, 0);
        }
    }
    while i < major
        invariant
            0 <= minor <= major <= 2 * MAX_LINE_COORD,
            minor2 == 2 * minor,
            major2 == 2 * major,
            0 <= i <= major,
            track@.len() == i,
            forall|j: int| 0 <= j < i ==> #[trigger] track@[j] == minor_steps(minor as int, major as int, j),
            count == minor_steps(minor as int, major as int, i as int),
            err == 2 * minor * (i + 1) - major - 2 * major * count,
            major > 0 ==> 2 * minor - 2 * major < err <= 2 * minor,
        decreases major - i,
    {
        track.push(count);
        proof {
            lemma_minor_steps_near(minor as int, major as int, i as int);
            lemma_minor_steps_near(minor as int, major as int, i + 1);
            let next = minor_steps(minor as int, major as int, i + 1);
            assert(2 * minor * (i + 1) == 2 * minor * i + 2 * minor) by (nonlinear_arith);
            // The next count is the one number within half a step of the line.
            if err > 0 {
                assert(next == count + 1) by (nonlinear_arith)
                    requires
                        2 * minor * (i + 1) - major <= 2 * major * next < 2 * minor * (i + 1) + major,
                        err == 2 * minor * (i + 1) - major - 2 * major * count,
                        0 < err <= 2 * minor,
                        minor <= major,
                        0 < major,
                ;
            } else {
                assert(next == count) by (nonlinear_arith)
                    requires
                        2 * minor * (i + 1) - major <= 2 * major * next < 2 * minor * (i + 1) + major,
                        err == 2 * minor * (i + 1) - major - 2 * major * count,
                        2 * minor - 2 * major < err <= 0,
                        0 <= minor,
                        0 < major,
                ;
            }
            assert(2 * minor * (i + 2) == 2 * minor * (i + 1) + 2 * minor) by (nonlinear_arith);
            assert(2 * major * (count + 1) == 2 * major * count + 2 * major) by (nonlinear_arith);
        }
        if err > 0 {
            count += 1;
            err -= major2;
        }
        err += minor2;
        i += 1;
    }
    track.push(count);
    track
}

/// The cells of the straight line from `p1` to `p2`, both ends included, in
/// the order from `p1` to `p2`.
pub fn calculate_bresenham(p1: Point3, p2: Point3) -> (line: Vec<Point3>)
    requires
        in_line_reach(p1),
        in_line_reach(p2),
    ensures
        line@.len() == line_steps(p1, p2) + 1,
        forall|i: int| 0 <= i < line@.len() ==> #[trigger] line@[i] == line_point(p1, p2, i),
{
    let dx = p2.x - p1.x;
    let dy = p2.y - p1.y;
    let dz = p2.z - p1.z;
    let x_inc: i32 = if dx < 0 { -1 } else { 1 };
    let l: i32 = if dx < 0 { -dx } else { dx };
    let y_inc: i32 = if dy < 0 { -1 } else { 1 };
    let m: i32 = if dy < 0 { -dy } else { dy };
    let z_inc: i32 = if dz < 0 { -1 } else { 1 };
    let n: i32 = if dz < 0 { -dz } else { dz };
    let mut line: Vec<Point3> = Vec::new();
    if l >= m && l >= n {
        let ys = minor_track(m, l);
        let zs = minor_track(n, l);
        let mut i: i32 = 0;
        while i <= l
            invariant
                in_line_reach(p1),
                in_line_reach(p2),
                dx == p2.x - p1.x && dy == p2.y - p1.y && dz == p2.z - p1.z,
                l == abs(dx as int) && m == abs(dy as int) && n == abs(dz as int),
                x_inc == step_of(dx as int) && y_inc == step_of(dy as int) && z_inc == step_of(
                    dz as int,
                ),
                l >= m && l >= n,
                0 <= i <= l + 1,
                ys@.len() == l + 1,
                zs@.len() == l + 1,
                forall|j: int| 0 <= j <= l ==> #[trigger] ys@[j] == minor_steps(m as int, l as int, j),
                forall|j: int| 0 <= j <= l ==> #[trigger] zs@[j] == minor_steps(n as int, l as int, j),
                line@.len() == i,
                forall|j: int| 0 <= j < i ==> #[trigger] line@[j] == line_point(p1, p2, j),
            decreases l + 1 - i,
        {
            let a = ys[i as usize];
            let b = zs[i as usize];
            proof {
                if l > 0 {
                    lemma_minor_steps_near(m as int, l as int, i as int);
                    lemma_minor_steps_near(n as int, l as int, i as int);
                }
                lemma_step_products(x_inc as int, i as int, y_inc as int, a as int, z_inc as int, b as int);
            }
            line.push(Point3 { x: p1.x + x_inc * i, y: p1.y + y_inc * a, z: p1.z + z_inc * b });
            i += 1;
        }
    } else if m >= l && m >= n {
        let xs = minor_track(l, m);
        let zs = minor_track(n, m);
        let mut i: i32 = 0;
        while i <= m
            invariant
                in_line_reach(p1),
                in_line_reach(p2),
                dx == p2.x - p1.x && dy == p2.y - p1.y && dz == p2.z - p1.z,
                l == abs(dx as int) && m == abs(dy as int) && n == abs(dz as int),
                x_inc == step_of(dx as int) && y_inc == step_of(dy as int) && z_inc == step_of(
                    dz as int,
                ),
                !(l >= m && l >= n),
                m >= l && m >= n,
                0 <= i <= m + 1,
                xs@.len() == m + 1,
                zs@.len() == m + 1,
                forall|j: int| 0 <= j <= m ==> #[trigger] xs@[j] == minor_steps(l as int, m as int, j),
                forall|j: int| 0 <= j <= m ==> #[trigger] zs@[j] == minor_steps(n as int, m as int, j),
                line@.len() == i,
                forall|j: int| 0 <= j < i ==> #[trigger] line@[j] == line_point(p1, p2, j),
            decreases m + 1 - i,
        {
            let a = xs[i as usize];
            let b = zs[i as usize];
            proof {
                lemma_minor_steps_near(l as int, m as int, i as int);
                lemma_minor_steps_near(n as int, m as int, i as int);
                lemma_step_products(y_inc as int, i as int, x_inc as int, a as int, z_inc as int, b as int);
            }
            line.push(Point3 { x: p1.x + x_inc * a, y: p1.y + y_inc * i, z: p1.z + z_inc * b });
            i += 1;
        }
    } else {
        let xs = minor_track(l, n);
        let ys = minor_track(m, n);
        let mut i: i32 = 0;
        while i <= n
            invariant
                in_line_reach(p1),
                in_line_reach(p2),
                dx == p2.x - p1.x && dy == p2.y - p1.y && dz == p2.z - p1.z,
                l == abs(dx as int) && m == abs(dy as int) && n == abs(dz as int),
                x_inc == step_of(dx as int) && y_inc == step_of(dy as int) && z_inc == step_of(
                    dz as int,
                ),
                !(l >= m && l >= n),
                !(m >= l && m >= n),
                0 <= i <= n + 1,
                xs@.len() == n + 1,
                ys@.len() == n + 1,
                forall|j: int| 0 <= j <= n ==> #[trigger] xs@[j] == minor_steps(l as int, n as int, j),
                forall|j: int| 0 <= j <= n ==> #[trigger] ys@[j] == minor_steps(m as int, n as int, j),
                line@.len() == i,
                forall|j: int| 0 <= j < i ==> #[trigger] line@[j] == line_point(p1, p2, j),
            decreases n + 1 - i,
        {
            let a = xs[i as usize];
            let b = ys[i as usize];
            proof {
                lemma_minor_steps_near(l as int, n as int, i as int);
                lemma_minor_steps_near(m as int, n as int, i as int);
                lemma_step_products(z_inc as int, i as int, x_inc as int, a as int, y_inc as int, b as int);
            }
            line.push(Point3 { x: p1.x + x_inc * a, y: p1.y + y_inc * b, z: p1.z + z_inc * i });
            i += 1;
        }
    }
    line
}

/// A step of one cell either way, taken a number of times, leads that many
/// cells away.
proof fn lemma_step_products(s: int, a: int, t: int, b: int, u: int, c: int)
    requires
        s == 1 || s == -1,
        t == 1 || t == -1,
        u == 1 || u == -1,
    ensures
        -abs(a) <= s * a <= abs(a),
        -abs(b) <= t * b <= abs(b),
        -abs(c) <= u * c <= abs(c),
{
    assert(s * a == a || s * a == -a) by (nonlinear_arith)
        requires
            s == 1 || s == -1,
    ;
    assert(t * b == b || t * b == -b) by (nonlinear_arith)
        requires
            t == 1 || t == -1,
    ;
    assert(u * c == c || u * c == -c) by (nonlinear_arith)
        requires
            u == 1 || u == -1,
    ;
}

/// The square of the distance between two points.
pub open spec fn spec_distance_squared(a: Point3, b: Point3) -> int {
    (a.x - b.x) * (a.x - b.x) + (a.y - b.y) * (a.y - b.y) + (a.z - b.z) * (a.z - b.z)
}

/// The square of the distance between two points.
pub fn euclidean_distance_squared(a: Point3, b: Point3) -> (d: u128)
    ensures
        d == spec_distance_squared(a, b),
{
    let x_diff: i128 = a.x as i128 - b.x as i128;
    let y_diff: i128 = a.y as i128 - b.y as i128;
    let z_diff: i128 = a.z as i128 - b.z as i128;
    proof {
        crate::shadowcast::shape::lemma_product_bounds(
            x_diff as int,
            x_diff as int,
            0x1_0000_0000,
            0x1_0000_0000,
        );
        crate::shadowcast::shape::lemma_product_bounds(
            y_diff as int,
            y_diff as int,
            0x1_0000_0000,
            0x1_0000_0000,
        );
        crate::shadowcast::shape::lemma_product_bounds(
            z_diff as int,
            z_diff as int,
            0x1_0000_0000,
            0x1_0000_0000,
        );
        assert(x_diff * x_diff >= 0 && y_diff * y_diff >= 0 && z_diff * z_diff >= 0)
            by (nonlinear_arith);
        assert(0x1_0000_0000int * 0x1_0000_0000 == 0x1_0000_0000_0000_0000);
    }
    (x_diff * x_diff + y_diff * y_diff + z_diff * z_diff) as u128
}

/// The square of the distance of a point from the origin.
pub open spec fn norm_squared(p: Point3) -> int {
    p.x * p.x + p.y * p.y + p.z * p.z
}

/// Whether the point lies in the cube from `-radius` up to, but not
/// including, `radius` along each axis.
pub open spec fn in_cube(radius: int, p: Point3) -> bool {
    -radius <= p.x < radius && -radius <= p.y < radius && -radius <= p.z < radius
}

/// Whether the distance of the point from the origin, rounded down, is
/// `radius`.
pub open spec fn on_sphere(radius: int, p: Point3) -> bool {
    radius * radius <= norm_squared(p) < (radius + 1) * (radius + 1)
}

/// Whether the distance of the point from the origin, rounded down, is at
/// most `radius`.
pub open spec fn in_sphere(radius: int, p: Point3) -> bool {
    norm_squared(p) < (radius + 1) * (radius + 1)
}

/// Whether `a` comes before `b` where points are ordered by x, then y, then
/// z.
pub open spec fn comes_before(a: Point3, b: Point3) -> bool {
    a.x < b.x || (a.x == b.x && (a.y < b.y || (a.y == b.y && a.z < b.z)))
}

/// Whether the sequence holds exactly the points of the cube that are
/// wanted, each once, ordered by x, then y, then z.
pub open spec fn is_selection(points: Seq<Point3>, radius: int, surface: bool) -> bool {
    &&& forall|i: int|
        0 <= i < points.len() ==> in_cube(radius, #[trigger] points[i]) && if surface {
            on_sphere(radius, points[i])
        } else {
            in_sphere(radius, points[i])
        }
    &&& forall|p: Point3|
        in_cube(radius, p) && (if surface {
            on_sphere(radius, p)
        } else {
            in_sphere(radius, p)
        }) ==> #[trigger] points.contains(p)
    &&& forall|i: int, j: int|
        0 <= i < j < points.len() ==> comes_before(#[trigger] points[i], #[trigger] points[j])
}

/// The points of the cube around the origin whose distance from the origin,
/// rounded down, is `radius` (`surface`) or at most `radius`.
fn sphere_points(radius: i32, surface: bool) -> (points: Vec<Point3>)
    requires
        0 <= radius,
    ensures
        is_selection(points@, radius as int, surface),
{
    let mut points: Vec<Point3> = Vec::new();
    let r: i128 = radius as i128;
    proof {
        crate::shadowcast::shape::lemma_product_bounds(r as int, r as int, 0x8000_0000, 0x8000_0000);
        crate::shadowcast::shape::lemma_product_bounds(
            r + 1,
            r + 1,
            0x8000_0000,
            0x8000_0000,
        );
        assert(0x8000_0000int * 0x8000_0000 == 0x4000_0000_0000_0000);
    }
    let low: i128 = r * r;
    let high: i128 = (r + 1) * (r + 1);
    let mut x: i32 = -radius;
    while x < radius
        invariant
            0 <= radius,
            r == radius,
            low == radius * radius,
            high == (radius + 1) * (radius + 1),
            -radius <= x <= radius,
            forall|i: int|
                0 <= i < points@.len() ==> in_cube(radius as int, #[trigger] points@[i])
                    && points@[i].x < x && if surface {
                    on_sphere(radius as int, points@[i])
                } else {
                    in_sphere(radius as int, points@[i])
                },
            forall|p: Point3|
                in_cube(radius as int, p) && p.x < x && (if surface {
                    on_sphere(radius as int, p)
                } else {
                    in_sphere(radius as int, p)
                }) ==> #[trigger] points@.contains(p),
            forall|i: int, j: int|
                0 <= i < j < points@.len() ==> comes_before(
                    #[trigger] points@[i],
                    #[trigger] points@[j],
                ),
        decreases radius - x,
    {
        let mut y: i32 = -radius;
        while y < radius
            invariant
                0 <= radius,
                r == radius,
                low == radius * radius,
                high == (radius + 1) * (radius + 1),
                -radius <= x < radius,
                -radius <= y <= radius,
                forall|i: int|
                    0 <= i < points@.len() ==> in_cube(radius as int, #[trigger] points@[i]) && (
                    points@[i].x < x || (points@[i].x == x && points@[i].y < y)) && if surface {
                        on_sphere(radius as int, points@[i])
                    } else {
                        in_sphere(radius as int, points@[i])
                    },
                forall|p: Point3|
                    in_cube(radius as int, p) && (p.x < x || (p.x == x && p.y < y)) && (if surface {
                        on_sphere(radius as int, p)
                    } else {
                        in_sphere(radius as int, p)
                    }) ==> #[trigger] points@.contains(p),
                forall|i: int, j: int|
                    0 <= i < j < points@.len() ==> comes_before(
                        #[trigger] points@[i],
                        #[trigger] points@[j],
                    ),
            decreases radius - y,
        {
            let mut z: i32 = -radius;
            while z < radius
                invariant
                    0 <= radius,
                    r == radius,
                    low == radius * radius,
                    high == (radius + 1) * (radius + 1),
                    -radius <= x < radius,
                    -radius <= y < radius,
                    -radius <= z <= radius,
                    forall|i: int|
                        0 <= i < points@.len() ==> in_cube(radius as int, #[trigger] points@[i])
                            && comes_before(points@[i], Point3 { x, y, z }) && if surface {
                            on_sphere(radius as int, points@[i])
                        } else {
                            in_sphere(radius as int, points@[i])
                        },
                    forall|p: Point3|
                        in_cube(radius as int, p) && comes_before(p, Point3 { x, y, z }) && (
                        if surface {
                            on_sphere(radius as int, p)
                        } else {
                            in_sphere(radius as int, p)
                        }) ==> #[trigger] points@.contains(p),
                    forall|i: int, j: int|
                        0 <= i < j < points@.len() ==> comes_before(
                            #[trigger] points@[i],
                            #[trigger] points@[j],
                        ),
                decreases radius - z,
            {
                let point = Point3 { x, y, z };
                proof {
                    crate::shadowcast::shape::lemma_product_bounds(
                        x as int,
                        x as int,
                        0x8000_0000,
                        0x8000_0000,
                    );
                    crate::shadowcast::shape::lemma_product_bounds(
                        y as int,
                        y as int,
                        0x8000_0000,
                        0x8000_0000,
                    );
                    crate::shadowcast::shape::lemma_product_bounds(
                        z as int,
                        z as int,
                        0x8000_0000,
                        0x8000_0000,
                    );
                }
                let d2: i128 = (x as i128) * (x as i128) + (y as i128) * (y as i128) + (z as i128) * (
                z as i128);
                let wanted = if surface {
                    low <= d2 && d2 < high
                } else {
                    d2 < high
                };
                let ghost before = points@;
                if wanted {
                    points.push(point);
                }
                proof {
                    assert forall|p: Point3|
                        in_cube(radius as int, p) && comes_before(p, Point3 { x, y, z: (z + 1) as i32 })
                            && (if surface {
                            on_sphere(radius as int, p)
                        } else {
                            in_sphere(radius as int, p)
                        }) implies #[trigger] points@.contains(p) by {
                        if p == point {
                            assert(points@[before.len() as int] == p);
                        } else {
                            assert(comes_before(p, point));
                            assert(before.contains(p));
                            let i = choose|i: int| 0 <= i < before.len() && before[i] == p;
                            assert(points@[i] == p);
                        }
                    }
                }
                z += 1;
            }
            y += 1;
        }
        x += 1;
    }
    points
}

/// The points with whole coordinates in the cube from `-radius` up to, but
/// not including, `radius` whose distance from the origin, rounded down, is
/// `radius`, ordered by x, then y, then z.
pub fn calculate_sphere_surface(radius: usize) -> (points: Vec<Point3>)
    requires
        radius <= i32::MAX,
    ensures
        is_selection(points@, radius as int, true),
{
    sphere_points(radius as i32, true)
}

/// The points with whole coordinates in the cube from `-radius` up to, but
/// not including, `radius` whose distance from the origin, rounded down, is
/// at most `radius`, ordered by x, then y, then z. There is none for a
/// radius that is not positive.
pub fn calculate_sphere(radius: i32) -> (points: Vec<Point3>)
    requires
        radius > i32::MIN,
    ensures
        is_selection(points@, radius as int, false),
{
    if radius <= 0 {
        Vec::new()
    } else {
        sphere_points(radius, false)
    }
}

/// The coordinate of a point along an axis: 0 for x, 1 for y, else z.
pub open spec fn coordinate(p: (i16, i16, i16), axis: int) -> i16 {
    if axis == 0 {
        p.0
    } else if axis == 1 {
        p.1
    } else {
        p.2
    }
}

/// Whether `low` and `high` are the least and the greatest coordinate of the
/// points along an axis.
pub open spec fn spans(points: Seq<(i16, i16, i16)>, axis: int, low: i16, high: i16) -> bool {
    &&& forall|i: int| 0 <= i < points.len() ==> low <= coordinate(#[trigger] points[i], axis) <= high
    &&& exists|i: int| 0 <= i < points.len() && coordinate(#[trigger] points[i], axis) == low
    &&& exists|i: int| 0 <= i < points.len() && coordinate(#[trigger] points[i], axis) == high
}

/// The corners of the smallest box that holds all the points: the least and
/// the greatest coordinate along each axis. `None` where there is no point.
pub fn bounds_of(points: &Vec<(i16, i16, i16)>) -> (r: Option<((i16, i16, i16), (i16, i16, i16))>)
    ensures
        r is None <==> points@.len() == 0,
        r matches Some((low, high)) ==> {
            &&& spans(points@, 0, low.0, high.0)
            &&& spans(points@, 1, low.1, high.1)
            &&& spans(points@, 2, low.2, high.2)
        },
{
    if points.len() == 0 {
        return None;
    }
    let first = points[0];
    let mut low = first;
    let mut high = first;
    let mut i: usize = 1;
    proof {
        let one = points@.take(1);
        assert(one[0] == first);
        assert(coordinate(one[0], 0) == low.0 && coordinate(one[0], 1) == low.1 && coordinate(
            one[0],
            2,
        ) == low.2);
    }
    while i < points.len()
        invariant
            1 <= i <= points@.len(),
            spans(points@.take(i as int), 0, low.0, high.0),
            spans(points@.take(i as int), 1, low.1, high.1),
            spans(points@.take(i as int), 2, low.2, high.2),
        decreases points@.len() - i,
    {
        let pos = points[i];
        let ghost before = points@.take(i as int);
        let ghost now = points@.take(i + 1);
        let ghost (old_low, old_high) = (low, high);
        if pos.0 < low.0 {
            low.0 = pos.0;
        }
        if pos.1 < low.1 {
            low.1 = pos.1;
        }
        if pos.2 < low.2 {
            low.2 = pos.2;
        }
        if pos.0 > high.0 {
            high.0 = pos.0;
        }
        if pos.1 > high.1 {
            high.1 = pos.1;
        }
        if pos.2 > high.2 {
            high.2 = pos.2;
        }
        proof {
            assert(now[i as int] == pos);
            assert forall|j: int| 0 <= j < i implies now[j] == before[j] by {}
            lemma_spans_grow(before, now, 0, old_low.0, old_high.0, low.0, high.0);
            lemma_spans_grow(before, now, 1, old_low.1, old_high.1, low.1, high.1);
            lemma_spans_grow(before, now, 2, old_low.2, old_high.2, low.2, high.2);
        }
        i += 1;
    }
    proof {
        assert(points@.take(points@.len() as int) =~= points@);
    }
    Some((low, high))
}

/// The least and the greatest coordinate of the points with one more point:
/// those of before, or the coordinate of the new point where it lies beyond
/// them.
proof fn lemma_spans_grow(
    before: Seq<(i16, i16, i16)>,
    now: Seq<(i16, i16, i16)>,
    axis: int,
    old_low: i16,
    old_high: i16,
    low: i16,
    high: i16,
)
    requires
        now.len() == before.len() + 1,
        forall|j: int| 0 <= j < before.len() ==> now[j] == before[j],
        spans(before, axis, old_low, old_high),
        low == if coordinate(now.last(), axis) < old_low {
            coordinate(now.last(), axis)
        } else {
            old_low
        },
        high == if coordinate(now.last(), axis) > old_high {
            coordinate(now.last(), axis)
        } else {
            old_high
        },
    ensures
        spans(now, axis, low, high),
{
    let a = choose|i: int| 0 <= i < before.len() && coordinate(#[trigger] before[i], axis) == old_low;
    let b = choose|i: int| 0 <= i < before.len() && coordinate(#[trigger] before[i], axis) == old_high;
    let last = now.len() - 1;
    assert forall|i: int| 0 <= i < now.len() implies low <= coordinate(#[trigger] now[i], axis)
        <= high by {
        if i < before.len() {
            assert(now[i] == before[i]);
        }
    }
    if coordinate(now.last(), axis) < old_low {
        assert(coordinate(now[last], axis) == low);
    } else {
        assert(coordinate(now[a], axis) == low);
    }
    if coordinate(now.last(), axis) > old_high {
        assert(coordinate(now[last], axis) == high);
    } else {
        assert(coordinate(now[b], axis) == high);
    }
}

} // verus!
