//! The camera, the sprites and the column projection that paints a frame.

use vstd::prelude::*;

use crate::map::ray_caster::{box_open, cast_spec, inside, point_in_reach};
use crate::map::{
    lemma_free_move, lemma_open_move, move_spec, surface_in_reach, surface_mat_known, surfaces, CastRules, GridMap, Surface,
    NODE_LIMIT,
};
use crate::tex::{paint_pixel, Colour, Frame, TColour, Texture};
use crate::vec::{bounded, isqrt, lemma_sqrt_of_square, lemma_sqrt_unique, sqrt_spec, Point2, Vector2, LIMIT, ONE};
use crate::{HEIGHT, WIDTH};
use thing::{projected_height, projected_height_exec, Thing};

pub mod thing;

verus! {

/// The point of the segment from `line_start` along `line_dist` nearest to
/// `circle_center`: the start where the centre lies behind it, the end
/// where it lies beyond, else the foot of the perpendicular (distances
/// rounded down).
pub open spec fn closest_spec(line_start: Point2, line_dist: Vector2, circle_center: Point2) -> Point2 {
    let c = Vector2 {
        x: (circle_center.x - line_start.x) as i64,
        y: (circle_center.y - line_start.y) as i64,
    };
    let d_len = line_dist.norm_spec();
    if d_len == 0 {
        Point2 { x: (line_start.x + line_dist.x) as i64, y: (line_start.y + line_dist.y) as i64 }
    } else {
        let c_on_d_len = c.dot_spec(line_dist) / d_len;
        if c_on_d_len < 0 {
            line_start
        } else if c_on_d_len <= d_len {
            Point2 {
                x: (line_start.x + line_dist.x * c_on_d_len / d_len) as i64,
                y: (line_start.y + line_dist.y * c_on_d_len / d_len) as i64,
            }
        } else {
            Point2 { x: (line_start.x + line_dist.x) as i64, y: (line_start.y + line_dist.y) as i64 }
        }
    }
}

/// The vector from the circle's centre to the nearest point of the segment.
pub open spec fn dist_spec(line_start: Point2, line_dist: Vector2, circle_center: Point2) -> Vector2 {
    let q = closest_spec(line_start, line_dist, circle_center);
    Vector2 { x: (q.x - circle_center.x) as i64, y: (q.y - circle_center.y) as i64 }
}

/// Closest point on a line segment to a circle.
pub fn closest_point_of_line_to_circle(line_start: Point2, line_dist: Vector2, circle_center: Point2) -> (r: Point2)
    requires
        -2 * LIMIT <= line_start.x <= 2 * LIMIT,
        -2 * LIMIT <= line_start.y <= 2 * LIMIT,
        -4 * LIMIT <= line_dist.x <= 4 * LIMIT,
        -4 * LIMIT <= line_dist.y <= 4 * LIMIT,
        -2 * LIMIT <= circle_center.x <= 2 * LIMIT,
        -2 * LIMIT <= circle_center.y <= 2 * LIMIT,
    ensures
        r == closest_spec(line_start, line_dist, circle_center),
        -6 * LIMIT <= r.x <= 6 * LIMIT,
        -6 * LIMIT <= r.y <= 6 * LIMIT,
{
    let c = line_start.vector_to_far(circle_center);
    let d_len = line_dist.norm();
    if d_len == 0 {
        return Point2 { x: line_start.x + line_dist.x, y: line_start.y + line_dist.y };
    }
    assert(-16 * LIMIT * LIMIT <= c.x * line_dist.x <= 16 * LIMIT * LIMIT) by (nonlinear_arith)
        requires
            -4 * LIMIT <= c.x <= 4 * LIMIT,
            -4 * LIMIT <= line_dist.x <= 4 * LIMIT,
    ;
    assert(-16 * LIMIT * LIMIT <= c.y * line_dist.y <= 16 * LIMIT * LIMIT) by (nonlinear_arith)
        requires
            -4 * LIMIT <= c.y <= 4 * LIMIT,
            -4 * LIMIT <= line_dist.y <= 4 * LIMIT,
    ;
    let dot: i128 = c.x as i128 * line_dist.x as i128 + c.y as i128 * line_dist.y as i128;
    assert(-32 * LIMIT * LIMIT <= (dot as int) / (d_len as int) <= 32 * LIMIT * LIMIT) by (nonlinear_arith)
        requires
            -32 * LIMIT * LIMIT <= dot <= 32 * LIMIT * LIMIT,
            d_len >= 1,
    ;
    let c_on_d_len = dot.checked_div_euclid(d_len as i128).unwrap();
    if c_on_d_len < 0 {
        line_start
    } else if c_on_d_len <= d_len as i128 {
        assert(-64 * LIMIT * LIMIT <= line_dist.x * c_on_d_len <= 64 * LIMIT * LIMIT) by (nonlinear_arith)
            requires
                -4 * LIMIT <= line_dist.x <= 4 * LIMIT,
                0 <= c_on_d_len <= 16 * LIMIT,
        ;
        assert(-64 * LIMIT * LIMIT <= line_dist.y * c_on_d_len <= 64 * LIMIT * LIMIT) by (nonlinear_arith)
            requires
                -4 * LIMIT <= line_dist.y <= 4 * LIMIT,
                0 <= c_on_d_len <= 16 * LIMIT,
        ;
        let ex = line_dist.x as i128 * c_on_d_len;
        let ey = line_dist.y as i128 * c_on_d_len;
        assert(-4 * LIMIT <= (ex as int) / (d_len as int) <= 4 * LIMIT) by (nonlinear_arith)
            requires
                ex == line_dist.x * c_on_d_len,
                -4 * LIMIT <= line_dist.x <= 4 * LIMIT,
                0 <= c_on_d_len <= d_len,
                d_len >= 1,
        ;
        assert(-4 * LIMIT <= (ey as int) / (d_len as int) <= 4 * LIMIT) by (nonlinear_arith)
            requires
                ey == line_dist.y * c_on_d_len,
                -4 * LIMIT <= line_dist.y <= 4 * LIMIT,
                0 <= c_on_d_len <= d_len,
                d_len >= 1,
        ;
        let ox = ex.checked_div_euclid(d_len as i128).unwrap() as i64;
        let oy = ey.checked_div_euclid(d_len as i128).unwrap() as i64;
        Point2 { x: line_start.x + ox, y: line_start.y + oy }
    } else {
        Point2 { x: line_start.x + line_dist.x, y: line_start.y + line_dist.y }
    }
}

/// Distance between a line section and a circle, as the vector from the
/// circle's centre to the section's nearest point.
pub fn distance_line_circle(line_start: Point2, line_dist: Vector2, circle_center: Point2) -> (r: Vector2)
    requires
        -2 * LIMIT <= line_start.x <= 2 * LIMIT,
        -2 * LIMIT <= line_start.y <= 2 * LIMIT,
        -4 * LIMIT <= line_dist.x <= 4 * LIMIT,
        -4 * LIMIT <= line_dist.y <= 4 * LIMIT,
        -2 * LIMIT <= circle_center.x <= 2 * LIMIT,
        -2 * LIMIT <= circle_center.y <= 2 * LIMIT,
    ensures
        r == dist_spec(line_start, line_dist, circle_center),
        -8 * LIMIT <= r.x <= 8 * LIMIT,
        -8 * LIMIT <= r.y <= 8 * LIMIT,
{
    let closest_point = closest_point_of_line_to_circle(line_start, line_dist, circle_center);
    Vector2 { x: closest_point.x - circle_center.x, y: closest_point.y - circle_center.y }
}

/// Length of `distance_line_circle`.
pub fn dist_line_circle(line_start: Point2, line_dist: Vector2, circle_center: Point2) -> (r: i64)
    requires
        -2 * LIMIT <= line_start.x <= 2 * LIMIT,
        -2 * LIMIT <= line_start.y <= 2 * LIMIT,
        -4 * LIMIT <= line_dist.x <= 4 * LIMIT,
        -4 * LIMIT <= line_dist.y <= 4 * LIMIT,
        -2 * LIMIT <= circle_center.x <= 2 * LIMIT,
        -2 * LIMIT <= circle_center.y <= 2 * LIMIT,
    ensures
        r == dist_spec(line_start, line_dist, circle_center).norm_spec(),
{
    distance_line_circle(line_start, line_dist, circle_center).norm()
}

} // verus!

verus! {

/// Half the frame width, in pixels.
pub const HALF_WIDTH: i64 = 160;

/// Half the frame height, in pixels.
pub const HALF_HEIGHT: i32 = 120;

/// Largest tangent of half the field of view, in `ONE` units (a field of
/// view just short of 180 degrees).
pub const MAX_TAN: i64 = 0x100_0000;

/// The projection parameters that rendering reads from the field of view:
/// the tangent of half the horizontal field of view (in `ONE` units), and
/// the screen height in pixels of a wall one cell high at distance one.
#[derive(Debug, Clone, Copy, PartialEq, Eq, Structural)]
pub struct Fov {
    pub tan_half_fov: i64,
    pub height_coefficient: i64,
}

impl Fov {
    pub open spec fn wf(&self) -> bool {
        &&& 0 < self.tan_half_fov <= MAX_TAN
        &&& 0 <= self.height_coefficient <= i32::MAX
    }

    pub fn new(tan_half_fov: i64, height_coefficient: i64) -> (f: Fov)
        ensures
            f == (Fov { tan_half_fov, height_coefficient }),
    {
        Fov { tan_half_fov, height_coefficient }
    }
}

/// The ray of screen column `x`: the view direction `dir` turned towards
/// its right-hand perpendicular by the column's share of the half field of
/// view, `tan * (x - HALF_WIDTH) / HALF_WIDTH` (rounded down).
pub open spec fn column_ray_spec(dir: Vector2, tan: i64, x: int) -> Vector2 {
    let k = HALF_WIDTH * ONE;
    Vector2 {
        x: (dir.x + (-dir.y) * tan * (x - HALF_WIDTH) / k) as i64,
        y: (dir.y + dir.x * tan * (x - HALF_WIDTH) / k) as i64,
    }
}

pub fn column_ray(dir: Vector2, tan: i64, x: u32) -> (r: Vector2)
    requires
        -ONE <= dir.x <= ONE,
        -ONE <= dir.y <= ONE,
        0 < tan <= MAX_TAN,
        x <= WIDTH,
    ensures
        r == column_ray_spec(dir, tan, x as int),
        -2 * MAX_TAN <= r.x <= 2 * MAX_TAN,
        -2 * MAX_TAN <= r.y <= 2 * MAX_TAN,
{
    let k = HALF_WIDTH * ONE;
    let off = x as i64 - HALF_WIDTH;
    assert(-ONE * MAX_TAN * HALF_WIDTH <= (-dir.y) * tan * off <= ONE * MAX_TAN * HALF_WIDTH) by (nonlinear_arith)
        requires
            -ONE <= dir.y <= ONE,
            0 < tan <= MAX_TAN,
            -HALF_WIDTH <= off <= HALF_WIDTH,
    ;
    assert(-ONE * MAX_TAN * HALF_WIDTH <= dir.x * tan * off <= ONE * MAX_TAN * HALF_WIDTH) by (nonlinear_arith)
        requires
            -ONE <= dir.x <= ONE,
            0 < tan <= MAX_TAN,
            -HALF_WIDTH <= off <= HALF_WIDTH,
    ;
    assert(-ONE * MAX_TAN <= (-dir.y) * tan <= ONE * MAX_TAN && -ONE * MAX_TAN <= dir.x * tan <= ONE * MAX_TAN)
        by (nonlinear_arith)
        requires
            -ONE <= dir.x <= ONE,
            -ONE <= dir.y <= ONE,
            0 < tan <= MAX_TAN,
    ;
    let ax = (-dir.y) * tan * off;
    let ay = dir.x * tan * off;
    assert(-MAX_TAN <= ax / k <= MAX_TAN && -MAX_TAN <= ay / k <= MAX_TAN) by (nonlinear_arith)
        requires
            -ONE * MAX_TAN * HALF_WIDTH <= ax <= ONE * MAX_TAN * HALF_WIDTH,
            -ONE * MAX_TAN * HALF_WIDTH <= ay <= ONE * MAX_TAN * HALF_WIDTH,
            k == HALF_WIDTH * ONE,
    ;
    Vector2 {
        x: dir.x + ax.checked_div_euclid(k).unwrap(),
        y: dir.y + ay.checked_div_euclid(k).unwrap(),
    }
}

/// The distance `dist` travelled along `ray` measured along the view
/// direction `dir` instead: `dist * cos` of the angle between them, with the
/// cosine as `(ray . dir) / sqrt((ray . ray) (dir . dir))`, rounded down;
/// `dist` itself for a zero vector.
pub open spec fn fisheye_spec(dist: int, ray: Vector2, dir: Vector2) -> int {
    let k = sqrt_spec(ray.dot_spec(ray) * dir.dot_spec(dir));
    if k == 0 {
        dist
    } else {
        dist * ray.dot_spec(dir) / k
    }
}

pub fn fisheye_corrected(dist: i64, ray: Vector2, dir: Vector2) -> (r: i64)
    requires
        0 <= dist <= 0x10_0000_0000_0000,
        -2 * MAX_TAN <= ray.x <= 2 * MAX_TAN,
        -2 * MAX_TAN <= ray.y <= 2 * MAX_TAN,
        -ONE <= dir.x <= ONE,
        -ONE <= dir.y <= ONE,
    ensures
        r == fisheye_spec(dist as int, ray, dir),
{
    assert(0 <= ray.x * ray.x <= 4 * MAX_TAN * MAX_TAN && 0 <= ray.y * ray.y <= 4 * MAX_TAN * MAX_TAN) by (nonlinear_arith)
        requires
            -2 * MAX_TAN <= ray.x <= 2 * MAX_TAN,
            -2 * MAX_TAN <= ray.y <= 2 * MAX_TAN,
    ;
    assert(0 <= dir.x * dir.x <= ONE * ONE && 0 <= dir.y * dir.y <= ONE * ONE) by (nonlinear_arith)
        requires
            -ONE <= dir.x <= ONE,
            -ONE <= dir.y <= ONE,
    ;
    let rr: i128 = ray.x as i128 * ray.x as i128 + ray.y as i128 * ray.y as i128;
    let dd: i128 = dir.x as i128 * dir.x as i128 + dir.y as i128 * dir.y as i128;
    assert(0 <= rr * dd <= 16 * MAX_TAN * MAX_TAN * ONE * ONE) by (nonlinear_arith)
        requires
            0 <= rr <= 8 * MAX_TAN * MAX_TAN,
            0 <= dd <= 2 * ONE * ONE,
    ;
    let k = isqrt((rr * dd) as u128);
    if k == 0 {
        return dist;
    }
    assert(-2 * MAX_TAN * ONE <= ray.x * dir.x <= 2 * MAX_TAN * ONE && -2 * MAX_TAN * ONE <= ray.y
        * dir.y <= 2 * MAX_TAN * ONE) by (nonlinear_arith)
        requires
            -2 * MAX_TAN <= ray.x <= 2 * MAX_TAN,
            -2 * MAX_TAN <= ray.y <= 2 * MAX_TAN,
            -ONE <= dir.x <= ONE,
            -ONE <= dir.y <= ONE,
    ;
    let rd: i128 = ray.x as i128 * dir.x as i128 + ray.y as i128 * dir.y as i128;
    assert(-0x10_0000_0000_0000 * 4 * MAX_TAN * ONE <= dist * rd <= 0x10_0000_0000_0000 * 4 * MAX_TAN * ONE)
        by (nonlinear_arith)
        requires
            0 <= dist <= 0x10_0000_0000_0000,
            -4 * MAX_TAN * ONE <= rd <= 4 * MAX_TAN * ONE,
    ;
    proof {
        let a = ray.x as int;
        let b = ray.y as int;
        let c = dir.x as int;
        let d = dir.y as int;
        let ac = a * c;
        let bd = b * d;
        let ad = a * d;
        let bc = b * c;
        let aa = a * a;
        let bb = b * b;
        let cc = c * c;
        let dd2 = d * d;
        assert((aa + bb) * (cc + dd2) == aa * cc + aa * dd2 + bb * cc + bb * dd2) by (nonlinear_arith);
        assert(aa * cc == ac * ac) by (nonlinear_arith)
            requires
                aa == a * a,
                cc == c * c,
                ac == a * c,
        ;
        assert(aa * dd2 == ad * ad) by (nonlinear_arith)
            requires
                aa == a * a,
                dd2 == d * d,
                ad == a * d,
        ;
        assert(bb * cc == bc * bc) by (nonlinear_arith)
            requires
                bb == b * b,
                cc == c * c,
                bc == b * c,
        ;
        assert(bb * dd2 == bd * bd) by (nonlinear_arith)
            requires
                bb == b * b,
                dd2 == d * d,
                bd == b * d,
        ;
        assert((ac + bd) * (ac + bd) == ac * ac + 2 * (ac * bd) + bd * bd) by (nonlinear_arith);
        assert((ad - bc) * (ad - bc) == ad * ad - 2 * (ad * bc) + bc * bc) by (nonlinear_arith);
        assert(ac * bd == ad * bc) by (nonlinear_arith)
            requires
                ac == a * c,
                bd == b * d,
                ad == a * d,
                bc == b * c,
        ;
        assert(0 <= (ad - bc) * (ad - bc)) by (nonlinear_arith);
        assert(rr == a * a + b * b && dd == c * c + d * d && rd == ac + bd);
        assert(rd * rd <= rr * dd);
        assert(-k <= rd <= k) by (nonlinear_arith)
            requires
                rd * rd <= rr * dd,
                rr * dd < (k + 1) * (k + 1),
                k >= 0,
        ;
        assert(-dist <= dist * rd / (k as int) <= dist) by (nonlinear_arith)
            requires
                -k <= rd <= k,
                k >= 1,
                dist >= 0,
        ;
    }
    let num = dist as i128 * rd;
    assert(-0x10_0000_0000_0000 * 4 * MAX_TAN * ONE <= (num as int) / (k as int) <= 0x10_0000_0000_0000 * 4 * MAX_TAN * ONE)
        by (nonlinear_arith)
        requires
            -0x10_0000_0000_0000 * 4 * MAX_TAN * ONE <= num <= 0x10_0000_0000_0000 * 4 * MAX_TAN * ONE,
            k >= 1,
    ;
    let q = num.checked_div_euclid(k as i128).unwrap();
    q as i64
}

/// For the middle column the ray is the view direction itself, which needs
/// no correction.
pub proof fn lemma_center_column(dir: Vector2, tan: i64, dist: int)
    requires
        !dir.is_zero(),
    ensures
        column_ray_spec(dir, tan, HALF_WIDTH as int) == dir,
        fisheye_spec(dist, dir, dir) == dist,
{
    let d = dir.dot_spec(dir);
    assert(d > 0) by (nonlinear_arith)
        requires
            d == dir.x * dir.x + dir.y * dir.y,
            dir.x != 0 || dir.y != 0,
    ;
    lemma_sqrt_of_square(d);
    lemma_sqrt_unique(d * d, d, sqrt_spec(d * d));
    assert(dist * d / d == dist) by (nonlinear_arith)
        requires
            d > 0,
    ;
}

} // verus!

verus! {

/// The colour above a wall strip.
pub open spec fn sky() -> TColour {
    TColour { r: 0, g: 0, b: 255, a: 255 }
}

/// The colour below a wall strip.
pub open spec fn ground() -> TColour {
    TColour { r: 255, g: 0, b: 0, a: 255 }
}

/// The colour of row `y` of a column whose wall occupies rows `top` to
/// `bot`: sky above, ground below, else the texture's slice at `u`,
/// stretched over the window.
pub open spec fn strip_colour(t: Texture, u: i64, top: int, bot: int, y: int) -> TColour {
    let over_ground = y <= bot;
    let below_ceiling = top <= y;
    if over_ground && !below_ceiling {
        sky()
    } else if !over_ground && below_ceiling {
        ground()
    } else {
        let v = if bot == top {
            0
        } else {
            (y - top) * ONE / (bot - top)
        };
        t.pixel_f_spec(u, v as i64)
    }
}

/// `buf` after rows `0 .. n` of column `x` are painted by `strip_colour`.
pub open spec fn strip_spec(buf: Seq<u8>, t: Texture, u: i64, top: int, bot: int, x: int, n: nat) -> Seq<u8>
    decreases n,
{
    if n == 0 {
        buf
    } else {
        let y = n - 1;
        paint_pixel(strip_spec(buf, t, u, top, bot, x, (n - 1) as nat), x, y, strip_colour(t, u, top, bot, y))
    }
}

/// Paints column `x` with a wall strip on rows `top` to `bot`.
fn paint_strip(frame: &mut Frame, t: &Texture, u: i64, top: i32, bot: i32, x: u32)
    requires
        t.wf(),
        top <= bot,
    ensures
        final(frame).buffer@ == strip_spec(old(frame).buffer@, *t, u, top as int, bot as int, x as int, HEIGHT as nat),
{
    let mut y: i32 = 0;
    while y < HEIGHT as i32
        invariant
            t.wf(),
            top <= bot,
            0 <= y <= HEIGHT,
            frame.buffer@ == strip_spec(old(frame).buffer@, *t, u, top as int, bot as int, x as int, y as nat),
        decreases HEIGHT - y,
    {
        let over_ground = y <= bot;
        let below_ceiling = top <= y;
        let c = if over_ground && !below_ceiling {
            Colour::new(0x00, 0x00, 0xff).alpha(0xff)
        } else if !over_ground && below_ceiling {
            Colour::new(0xff, 0x00, 0x00).alpha(0xff)
        } else {
            let v: i64 = if bot == top {
                0
            } else {
                assert(0 <= (y - top) * ONE <= (bot - top) * ONE) by (nonlinear_arith)
                    requires
                        top <= y <= bot,
                ;
                assert(0 <= ((y - top) * ONE) / ((bot - top) as int) <= ONE) by (nonlinear_arith)
                    requires
                        0 <= (y - top) * ONE <= (bot - top) * ONE,
                        bot - top > 0,
                ;
                ((y as i64 - top as i64) * ONE) / (bot as i64 - top as i64)
            };
            t.get_pixel_f(u, v)
        };
        frame.draw_rgba(x, y as u32, c);
        y = y + 1;
    }
}

/// How far a sprite is from `p`.
pub open spec fn depth(t: Thing, p: Point2) -> int {
    Vector2 { x: (t.pos.x - p.x) as i64, y: (t.pos.y - p.y) as i64 }.norm_spec()
}

/// The first index from `i` whose sprite is nearer to `p` than `d`.
pub open spec fn first_nearer(s: Seq<Thing>, d: int, p: Point2, i: int) -> int
    decreases s.len() - i,
{
    if i < 0 || i >= s.len() {
        s.len() as int
    } else if depth(s[i], p) < d {
        i
    } else {
        first_nearer(s, d, p, i + 1)
    }
}

/// The sprites of `s` ordered farthest from `p` first, each inserted after
/// those at least as far.
pub open spec fn depth_sort(s: Seq<Thing>, p: Point2) -> Seq<Thing>
    decreases s.len(),
{
    if s.len() == 0 {
        s
    } else {
        let sorted = depth_sort(s.drop_last(), p);
        let t = s.last();
        let i = first_nearer(sorted, depth(t, p), p, 0);
        sorted.take(i).push(t).add(sorted.skip(i))
    }
}

/// `buf` after the first `n` sprites of `ts` draw their slices for column
/// `x` and the ray segment from `p` along `dv`.
pub open spec fn things_spec(
    buf: Seq<u8>,
    x: u32,
    texes: Seq<Texture>,
    ts: Seq<Thing>,
    last_dist: i64,
    p: Point2,
    dv: Vector2,
    height_factor: i64,
    n: nat,
) -> Seq<u8>
    decreases n,
{
    if n == 0 {
        buf
    } else {
        let before = things_spec(buf, x, texes, ts, last_dist, p, dv, height_factor, (n - 1) as nat);
        ts[n - 1].draw_x_spec(before, x, texes, last_dist, p, dv, height_factor)
    }
}

} // verus!

verus! {

fn depth_exec(t: &Thing, p: Point2) -> (d: i64)
    requires
        t.pos.is_bounded(),
        point_in_reach(p),
    ensures
        d == depth(*t, p),
{
    p.vector_to_far(t.pos).norm()
}

/// The sprites ordered farthest from `p` first.
pub fn depth_sorted(ts: &Vec<Thing>, p: Point2) -> (r: Vec<Thing>)
    requires
        point_in_reach(p),
        forall|j: int| 0 <= j < ts.len() ==> (#[trigger] ts@[j]).pos.is_bounded(),
    ensures
        r@ == depth_sort(ts@, p),
{
    let mut sorted: Vec<Thing> = Vec::new();
    let mut k: usize = 0;
    while k < ts.len()
        invariant
            point_in_reach(p),
            k <= ts.len(),
            forall|j: int| 0 <= j < ts.len() ==> (#[trigger] ts@[j]).pos.is_bounded(),
            forall|j: int| 0 <= j < sorted.len() ==> (#[trigger] sorted@[j]).pos.is_bounded(),
            sorted@ == depth_sort(ts@.take(k as int), p),
        decreases ts.len() - k,
    {
        let t = ts[k];
        let d = depth_exec(&t, p);
        let mut i: usize = 0;
        while i < sorted.len() && depth_exec(&sorted[i], p) >= d
            invariant
                point_in_reach(p),
                i <= sorted.len(),
                forall|j: int| 0 <= j < sorted.len() ==> (#[trigger] sorted@[j]).pos.is_bounded(),
                first_nearer(sorted@, d as int, p, 0) == first_nearer(sorted@, d as int, p, i as int),
            decreases sorted.len() - i,
        {
            i = i + 1;
        }
        proof {
            assert(ts@.take(k + 1).drop_last() =~= ts@.take(k as int));
            assert(ts@.take(k + 1).last() == t);
            assert(sorted@.insert(i as int, t) =~= sorted@.take(i as int).push(t).add(sorted@.skip(i as int)));
        }
        sorted.insert(i, t);
        k = k + 1;
    }
    assert(ts@.take(ts.len() as int) =~= ts@);
    sorted
}

/// The scene: the grid, the player's position and view direction (a
/// vector of length `ONE`), the sprites and their textures, the projection
/// parameters, the overlaid gun and whether movement is clipped by walls.
#[derive(Debug, Clone)]
pub struct World {
    pub player_p: Point2,
    pub dir: Vector2,
    pub things: Vec<Thing>,
    pub thing_texes: Vec<Texture>,
    pub map: GridMap,
    pub fov: Fov,
    pub gun: Texture,
    pub clip: bool,
}

impl World {
    pub open spec fn wf(&self) -> bool {
        &&& self.map.wf()
        &&& forall|i: int|
            0 <= i < self.map.textures.len() ==> (#[trigger] self.map.textures[i]).0.wf()
                && self.map.textures[i].1.wf()
        &&& self.player_p.is_bounded()
        &&& -ONE <= self.dir.x <= ONE
        &&& -ONE <= self.dir.y <= ONE
        &&& self.fov.wf()
        &&& self.thing_texes.len() >= 1
        &&& forall|i: int| 0 <= i < self.thing_texes.len() ==> (#[trigger] self.thing_texes[i]).wf()
        &&& forall|i: int|
            0 <= i < self.things.len() ==> (#[trigger] self.things[i]).wf() && self.things[i].tex
                < self.thing_texes.len()
        &&& self.gun.wf()
        &&& self.gun.width <= WIDTH
        &&& self.gun.height_spec() <= HEIGHT
    }

    /// The sprite that stands for the player in other columns' views.
    pub open spec fn player_thing(&self) -> Thing {
        Thing { pos: self.player_p, width: (ONE / 4) as i64, tex: (self.thing_texes.len() - 1) as usize }
    }

    /// A world from its parts, with clipping on; `None` unless the parts
    /// fit together (`wf`).
    #[verifier::loop_isolation(false)]
    pub fn new(
        map: GridMap,
        player_p: Point2,
        dir: Vector2,
        things: Vec<Thing>,
        thing_texes: Vec<Texture>,
        fov: Fov,
        gun: Texture,
    ) -> (w: Option<World>)
        ensures
            w matches Some(w) ==> w.wf() && w == (World {
                player_p,
                dir,
                things,
                thing_texes,
                map,
                fov,
                gun,
                clip: true,
            }),
            (w is Some) <== (World { player_p, dir, things, thing_texes, map, fov, gun, clip: true }).wf(),
    {
        let ghost all = World { player_p, dir, things, thing_texes, map, fov, gun, clip: true };
        assert(all.map == map && all.things == things && all.thing_texes == thing_texes);
        if !map.is_wf() {
            return None;
        }
        let mut i: usize = 0;
        while i < map.textures.len()
            invariant
                i <= map.textures.len(),
                forall|j: int| 0 <= j < i ==> (#[trigger] map.textures[j]).0.wf() && map.textures[j].1.wf(),
            decreases map.textures.len() - i,
        {
            let pair = &map.textures[i];
            if !(pair.0.width > 0 && pair.0.buffer.len() >= pair.0.width as usize && pair.1.width > 0
                && pair.1.buffer.len() >= pair.1.width as usize) {
                assert(!(all.map.textures[i as int].0.wf() && all.map.textures[i as int].1.wf()));
                return None;
            }
            i = i + 1;
        }
        let mut i: usize = 0;
        while i < thing_texes.len()
            invariant
                i <= thing_texes.len(),
                forall|j: int| 0 <= j < i ==> (#[trigger] thing_texes[j]).wf(),
            decreases thing_texes.len() - i,
        {
            if !(thing_texes[i].width > 0 && thing_texes[i].buffer.len() >= thing_texes[i].width as usize) {
                assert(!all.thing_texes[i as int].wf());
                return None;
            }
            i = i + 1;
        }
        let mut i: usize = 0;
        while i < things.len()
            invariant
                i <= things.len(),
                forall|j: int|
                    0 <= j < i ==> (#[trigger] things[j]).wf() && things[j].tex < thing_texes.len(),
            decreases things.len() - i,
        {
            let t = things[i];
            if !(-LIMIT <= t.pos.x && t.pos.x <= LIMIT && -LIMIT <= t.pos.y && t.pos.y <= LIMIT && 0 < t.width
                && t.width <= LIMIT && t.tex < thing_texes.len()) {
                assert(!(all.things[i as int].wf() && all.things[i as int].tex < all.thing_texes.len()));
                return None;
            }
            i = i + 1;
        }
        if !(-LIMIT <= player_p.x && player_p.x <= LIMIT && -LIMIT <= player_p.y && player_p.y <= LIMIT
            && -ONE <= dir.x && dir.x <= ONE && -ONE <= dir.y && dir.y <= ONE && 0 < fov.tan_half_fov
            && fov.tan_half_fov <= MAX_TAN && 0 <= fov.height_coefficient && fov.height_coefficient
            <= i32::MAX as i64 && thing_texes.len() >= 1 && gun.width > 0 && gun.buffer.len() >= gun.width as usize
            && gun.width as u32 <= WIDTH && gun.buffer.len() / gun.width as usize <= HEIGHT as usize) {
            return None;
        }
        Some(World { player_p, dir, things, thing_texes, map, fov, gun, clip: true })
    }

    /// Where a move by `dp` from `p` ends: by the full displacement, less
    /// what the walls clip off when clipping is on.
    pub open spec fn moved_to(&self, dp: Vector2) -> (int, int) {
        let c = if self.clip {
            move_spec(&self.map, self.player_p, dp)
        } else {
            Vector2 { x: 0, y: 0 }
        };
        (self.player_p.x + dp.x - c.x, self.player_p.y + dp.y - c.y)
    }

    /// A move whose cast meets nothing before its destination takes the
    /// player by the whole displacement, clipping on or off.
    pub proof fn lemma_free_step(&self, dp: Vector2)
        requires
            self.wf(),
            forall|i: int|
                0 <= i < cast_spec(&self.map, CastRules::Movement, self.player_p, dp, true, NODE_LIMIT as nat, false).len()
                    ==> (#[trigger] cast_spec(
                    &self.map,
                    CastRules::Movement,
                    self.player_p,
                    dp,
                    true,
                    NODE_LIMIT as nat,
                    false,
                )[i]).cast_type is Destination,
        ensures
            self.moved_to(dp) == (self.player_p.x + dp.x, self.player_p.y + dp.y),
    {
        lemma_free_move(&self.map, self.player_p, dp);
    }

    /// A move inside the map across no solid cell (none in the bounding box
    /// of the cells it starts and ends in) takes the player by the whole
    /// displacement.
    pub proof fn lemma_open_step(&self, dp: Vector2)
        requires
            self.wf(),
            dp.is_bounded(),
            inside(&self.map, self.player_p),
            inside(&self.map, Point2 { x: (self.player_p.x + dp.x) as i64, y: (self.player_p.y + dp.y) as i64 }),
            box_open(
                &self.map,
                CastRules::Movement,
                self.player_p,
                Point2 { x: (self.player_p.x + dp.x) as i64, y: (self.player_p.y + dp.y) as i64 },
            ),
        ensures
            self.moved_to(dp) == (self.player_p.x + dp.x, self.player_p.y + dp.y),
    {
        lemma_open_move(&self.map, self.player_p, dp);
    }

    /// Turns the view to `dir` and moves the player by `dp`, sliding along
    /// the walls it meets when clipping is on; a move that would leave the
    /// coordinate range is not made.
    pub fn update(&mut self, dir: Vector2, dp: Vector2)
        requires
            old(self).wf(),
            -ONE <= dir.x <= ONE,
            -ONE <= dir.y <= ONE,
            dp.is_bounded(),
        ensures
            final(self).wf(),
            final(self).dir == dir,
            ({
                let (x, y) = old(self).moved_to(dp);
                final(self).player_p == if bounded(x) && bounded(y) {
                    Point2 { x: x as i64, y: y as i64 }
                } else {
                    old(self).player_p
                }
            }),
            final(self).map == old(self).map,
            final(self).clip == old(self).clip,
            final(self).things == old(self).things,
    {
        self.dir = dir;
        let orig_p = self.player_p;
        let c = if self.clip {
            self.map.move_ray_cast(orig_p, dp)
        } else {
            Vector2 { x: 0, y: 0 }
        };
        let nx = orig_p.x as i128 + dp.x as i128 - c.x as i128;
        let ny = orig_p.y as i128 + dp.y as i128 - c.y as i128;
        if -LIMIT as i128 <= nx && nx <= LIMIT as i128 && -LIMIT as i128 <= ny && ny <= LIMIT as i128 {
            self.player_p = Point2 { x: nx as i64, y: ny as i64 };
        }
    }
}

} // verus!

verus! {

/// Sorting by depth keeps the sprites it is given.
proof fn lemma_depth_sort_keeps(s: Seq<Thing>, p: Point2, n: int)
    requires
        forall|j: int| 0 <= j < s.len() ==> (#[trigger] s[j]).wf() && s[j].tex < n,
    ensures
        depth_sort(s, p).len() == s.len(),
        forall|j: int|
            0 <= j < depth_sort(s, p).len() ==> (#[trigger] depth_sort(s, p)[j]).wf() && depth_sort(
                s,
                p,
            )[j].tex < n,
    decreases s.len(),
{
    if s.len() > 0 {
        let rest = s.drop_last();
        assert forall|j: int| 0 <= j < rest.len() implies (#[trigger] rest[j]).wf() && rest[j].tex < n by {
            assert(rest[j] == s[j]);
        }
        lemma_depth_sort_keeps(rest, p, n);
        let sorted = depth_sort(rest, p);
        let t = s.last();
        let i = first_nearer(sorted, depth(t, p), p, 0);
        lemma_first_nearer_range(sorted, depth(t, p), p, 0);
        let r = sorted.take(i).push(t).add(sorted.skip(i));
        assert forall|j: int| 0 <= j < r.len() implies (#[trigger] r[j]).wf() && r[j].tex < n by {
            if j < i {
                assert(r[j] == sorted[j]);
            } else if j > i {
                assert(r[j] == sorted[j - 1]);
            }
        }
    }
}

proof fn lemma_first_nearer_range(s: Seq<Thing>, d: int, p: Point2, i: int)
    requires
        0 <= i,
    ensures
        i <= first_nearer(s, d, p, i) <= s.len() || (i > s.len() && first_nearer(s, d, p, i) == s.len()),
        0 <= first_nearer(s, d, p, i) <= s.len(),
    decreases s.len() - i,
{
    if i < s.len() && depth(s[i], p) >= d {
        lemma_first_nearer_range(s, d, p, i + 1);
    }
}

impl World {
    /// `buf` after one surface of column `x` is drawn: its wall strip, then
    /// the slices of the sprites (the player's own among them unless
    /// `with_player` is false), farthest first, for the ray segment that
    /// led to it.
    pub open spec fn record_spec(&self, buf: Seq<u8>, x: u32, ray: Vector2, rec: Surface, with_player: bool) -> Seq<u8> {
        let (dark, u, (p, dv, last_dist), dist, mat) = rec;
        let lh = projected_height(self.fov.height_coefficient as int, fisheye_spec(dist as int, ray, self.dir));
        let half = lh / 2;
        let top = HALF_HEIGHT - half;
        let bot = HALF_HEIGHT + half;
        let pair = self.map.textures[mat.index_spec()];
        let walled = strip_spec(buf, if dark { pair.1 } else { pair.0 }, u, top, bot, x as int, HEIGHT as nat);
        let list = if with_player {
            seq![self.player_thing()].add(self.things@)
        } else {
            self.things@
        };
        let sorted = depth_sort(list, p);
        things_spec(
            walled,
            x,
            self.thing_texes@,
            sorted,
            last_dist,
            p,
            dv,
            (self.fov.height_coefficient / 2) as i64,
            sorted.len(),
        )
    }

    /// `buf` after the last `k` surfaces of `recs` are drawn, farthest first;
    /// the nearest one is drawn without the player's sprite.
    pub open spec fn records_spec(&self, buf: Seq<u8>, x: u32, ray: Vector2, recs: Seq<Surface>, k: nat) -> Seq<u8>
        decreases k,
    {
        if k == 0 || k > recs.len() {
            buf
        } else {
            let i = recs.len() - k;
            self.record_spec(self.records_spec(buf, x, ray, recs, (k - 1) as nat), x, ray, recs[i], i != 0)
        }
    }

    /// `buf` after columns `0 .. n` are drawn.
    pub open spec fn columns_spec(&self, buf: Seq<u8>, n: nat) -> Seq<u8>
        decreases n,
    {
        if n == 0 {
            buf
        } else {
            let x = (n - 1) as u32;
            let before = self.columns_spec(buf, (n - 1) as nat);
            let ray = column_ray_spec(self.dir, self.fov.tan_half_fov, x as int);
            let recs = surfaces(
                cast_spec(&self.map, CastRules::Render, self.player_p, ray, false, NODE_LIMIT as nat, true),
                0,
                self.player_p,
                0,
            );
            self.records_spec(before, x, ray, recs, recs.len())
        }
    }

    /// The frame drawn: every column, then the gun centred at the bottom.
    pub open spec fn draw_spec(&self, buf: Seq<u8>) -> Seq<u8> {
        self.gun.blit_spec(
            self.columns_spec(buf, WIDTH as nat),
            ((WIDTH - self.gun.width) / 2) as u32,
            (HEIGHT - self.gun.height_spec()) as u32,
            self.gun.buffer.len() as nat,
        )
    }

    fn draw_things(&self, frame: &mut Frame, x: u32, sorted: &Vec<Thing>, rec: Surface)
        requires
            self.wf(),
            surface_in_reach(rec),
            forall|j: int|
                0 <= j < sorted.len() ==> (#[trigger] sorted@[j]).wf() && sorted@[j].tex < self.thing_texes.len(),
        ensures
            final(frame).buffer@ == things_spec(
                old(frame).buffer@,
                x,
                self.thing_texes@,
                sorted@,
                rec.2.2,
                rec.2.0,
                rec.2.1,
                (self.fov.height_coefficient / 2) as i64,
                sorted.len() as nat,
            ),
    {
        let (_, _, (p, dv, last_dist), _, _) = rec;
        let mut k: usize = 0;
        while k < sorted.len()
            invariant
                self.wf(),
                surface_in_reach(rec),
                p == rec.2.0 && dv == rec.2.1 && last_dist == rec.2.2,
                forall|j: int|
                    0 <= j < sorted.len() ==> (#[trigger] sorted@[j]).wf() && sorted@[j].tex < self.thing_texes.len(),
                k <= sorted.len(),
                frame.buffer@ == things_spec(
                    old(frame).buffer@,
                    x,
                    self.thing_texes@,
                    sorted@,
                    last_dist,
                    p,
                    dv,
                    (self.fov.height_coefficient / 2) as i64,
                    k as nat,
                ),
            decreases sorted.len() - k,
        {
            let t = sorted[k];
            t.draw_x(frame, x, &self.thing_texes, last_dist, p, dv, self.fov.height_coefficient / 2);
            k = k + 1;
        }
    }

    fn draw_record(&self, frame: &mut Frame, x: u32, ray: Vector2, rec: Surface, with_player: bool)
        requires
            self.wf(),
            surface_in_reach(rec),
            surface_mat_known(&self.map, rec),
            -2 * MAX_TAN <= ray.x <= 2 * MAX_TAN,
            -2 * MAX_TAN <= ray.y <= 2 * MAX_TAN,
        ensures
            final(frame).buffer@ == self.record_spec(old(frame).buffer@, x, ray, rec, with_player),
    {
        let (dark, u, (p, dv, last_dist), dist, mat) = rec;
        let corrected = fisheye_corrected(dist, ray, self.dir);
        let lh = projected_height_exec(self.fov.height_coefficient, corrected);
        let half = lh / 2;
        let top = HALF_HEIGHT - half;
        let bot = HALF_HEIGHT + half;
        let tex = self.map.get_tex(mat, dark);
        paint_strip(frame, tex, u, top, bot, x);
        let mut list: Vec<Thing> = Vec::new();
        if with_player {
            list.push(Thing::new(self.player_p, ONE / 4, self.thing_texes.len() - 1));
        }
        let mut k: usize = 0;
        while k < self.things.len()
            invariant
                k <= self.things.len(),
                list@ == (if with_player {
                    seq![self.player_thing()]
                } else {
                    seq![]
                }).add(self.things@.take(k as int)),
            decreases self.things.len() - k,
        {
            list.push(self.things[k]);
            k = k + 1;
            assert(list@ =~= (if with_player {
                seq![self.player_thing()]
            } else {
                seq![]
            }).add(self.things@.take(k as int)));
        }
        let ghost full = if with_player {
            seq![self.player_thing()].add(self.things@)
        } else {
            self.things@
        };
        assert(self.things@.take(self.things.len() as int) =~= self.things@);
        assert(list@ =~= full);
        assert forall|j: int| 0 <= j < list.len() implies (#[trigger] list@[j]).wf() && list@[j].tex
            < self.thing_texes.len() by {
            if with_player && j == 0 {
            } else if with_player {
                assert(list@[j] == self.things@[j - 1]);
            } else {
                assert(list@[j] == self.things@[j]);
            }
        }
        proof {
            lemma_depth_sort_keeps(list@, p, self.thing_texes.len() as int);
        }
        let sorted = depth_sorted(&list, p);
        self.draw_things(frame, x, &sorted, rec);
    }

    fn draw_column(&self, frame: &mut Frame, x: u32, ray: Vector2, lines: &Vec<Surface>)
        requires
            self.wf(),
            forall|j: int| 0 <= j < lines.len() ==> surface_in_reach(#[trigger] lines@[j]),
            forall|j: int| 0 <= j < lines.len() ==> surface_mat_known(&self.map, #[trigger] lines@[j]),
            -2 * MAX_TAN <= ray.x <= 2 * MAX_TAN,
            -2 * MAX_TAN <= ray.y <= 2 * MAX_TAN,
        ensures
            final(frame).buffer@ == self.records_spec(old(frame).buffer@, x, ray, lines@, lines.len() as nat),
    {
        let n = lines.len();
        let mut k: usize = 0;
        while k < n
            invariant
                self.wf(),
                n == lines.len(),
                forall|j: int| 0 <= j < lines.len() ==> surface_in_reach(#[trigger] lines@[j]),
                forall|j: int| 0 <= j < lines.len() ==> surface_mat_known(&self.map, #[trigger] lines@[j]),
                -2 * MAX_TAN <= ray.x <= 2 * MAX_TAN,
                -2 * MAX_TAN <= ray.y <= 2 * MAX_TAN,
                k <= n,
                frame.buffer@ == self.records_spec(old(frame).buffer@, x, ray, lines@, k as nat),
            decreases n - k,
        {
            let i = n - 1 - k;
            self.draw_record(frame, x, ray, lines[i], i != 0);
            k = k + 1;
        }
    }

    /// Draws the world as the player sees it: for each screen column, the
    /// surfaces its ray meets, farthest first, each as a fisheye-corrected
    /// wall strip followed by the sprite slices along the ray segment before
    /// it; then the gun.
    pub fn draw(&self, frame: &mut Frame)
        requires
            self.wf(),
        ensures
            final(frame).buffer@ == self.draw_spec(old(frame).buffer@),
    {
        let mut x: u32 = 0;
        while x < WIDTH
            invariant
                self.wf(),
                x <= WIDTH,
                frame.buffer@ == self.columns_spec(old(frame).buffer@, x as nat),
            decreases WIDTH - x,
        {
            let ray = column_ray(self.dir, self.fov.tan_half_fov, x);
            let lines = self.map.render_ray_cast(self.player_p, ray);
            self.draw_column(frame, x, ray, &lines);
            x = x + 1;
        }
        let gun_x = (WIDTH - self.gun.width() as u32) / 2;
        let gun_y = HEIGHT - self.gun.height() as u32;
        self.gun.draw_at(frame, gun_x, gun_y);
    }
}

/// The unscaled step for the movement intents: `forwards` along the view
/// direction and `sideways` along its right-hand perpendicular, each `-1`,
/// `0` or `1`.
pub open spec fn intent_spec(dir: Vector2, forwards: i64, sideways: i64) -> Vector2 {
    Vector2 { x: (dir.x * forwards - dir.y * sideways) as i64, y: (dir.y * forwards + dir.x * sideways) as i64 }
}

/// The displacement of one movement tick: the intents' direction scaled to
/// length `len`; no displacement where the intents cancel out.
pub fn step_vector(dir: Vector2, forwards: i64, sideways: i64, len: i64) -> (r: Vector2)
    requires
        -ONE <= dir.x <= ONE,
        -ONE <= dir.y <= ONE,
        -1 <= forwards <= 1,
        -1 <= sideways <= 1,
        -4 * LIMIT <= len <= 4 * LIMIT,
    ensures
        r == intent_spec(dir, forwards, sideways).set_len_spec(len as int),
{
    assert(-ONE <= dir.x * forwards <= ONE && -ONE <= dir.y * sideways <= ONE && -ONE <= dir.y * forwards <= ONE
        && -ONE <= dir.x * sideways <= ONE) by (nonlinear_arith)
        requires
            -ONE <= dir.x <= ONE,
            -ONE <= dir.y <= ONE,
            -1 <= forwards <= 1,
            -1 <= sideways <= 1,
    ;
    let raw = Vector2 { x: dir.x * forwards - dir.y * sideways, y: dir.y * forwards + dir.x * sideways };
    raw.set_len(len)
}

} // verus!
