use vstd::prelude::*;

use super::{dist_spec, distance_line_circle};
use crate::tex::{Frame, Texture};
use crate::vec::{Point2, Vector2, LIMIT, ONE};
use crate::HEIGHT;

verus! {

/// A sprite: a position, the half-width of its billboard and the index of
/// its texture.
#[derive(Debug, Clone, Copy, PartialEq, Eq, Structural)]
pub struct Thing {
    pub pos: Point2,
    pub width: i64,
    pub tex: usize,
}

/// Screen height, clamped to `i32::MAX`, of something `factor` high at
/// distance one cell seen at distance `d`; the clamp too where `d` is not
/// positive.
pub open spec fn projected_height(factor: int, d: int) -> int {
    if d <= 0 || factor * ONE / d > i32::MAX {
        i32::MAX as int
    } else {
        factor * ONE / d
    }
}

pub fn projected_height_exec(factor: i64, d: i64) -> (h: i32)
    requires
        0 <= factor <= i32::MAX,
    ensures
        h == projected_height(factor as int, d as int),
{
    if d <= 0 {
        return i32::MAX;
    }
    let q = (factor * ONE) / d;
    if q > i32::MAX as i64 {
        i32::MAX
    } else {
        q as i32
    }
}

impl Thing {
    pub open spec fn wf(&self) -> bool {
        &&& self.pos.is_bounded()
        &&& 0 < self.width <= LIMIT
    }

    pub fn new(pos: Point2, width: i64, tex: usize) -> (t: Thing)
        ensures
            t == (Thing { pos, width, tex }),
    {
        Thing { pos, width, tex }
    }

    /// The texture coordinate across the billboard at which a ray segment
    /// whose nearest approach to the sprite's centre is `f` away meets it,
    /// seen from `p`: the centre at one half, the edges at zero and one.
    pub open spec fn billboard_u(&self, f: Vector2, p: Point2) -> int {
        let to_thing = Vector2 { x: (self.pos.x - p.x) as i64, y: (self.pos.y - p.y) as i64 };
        let across = Vector2 { x: to_thing.y, y: (-to_thing.x) as i64 }.set_len_spec(self.width * 2);
        ONE / 2 + f.dot_spec(across) / (self.width as int)
    }

    /// `buf` after this sprite's slice for column `x` is drawn, for the ray
    /// segment from `p` along `dist` that starts `last_dist` from the
    /// camera: nothing unless the segment passes within the sprite's
    /// half-width, else the slice at `billboard_u`, from the horizon down,
    /// `projected_height(height_factor, last_dist + |p -> pos|)` rows high.
    pub open spec fn draw_x_spec(
        &self,
        buf: Seq<u8>,
        x: u32,
        texes: Seq<Texture>,
        last_dist: i64,
        p: Point2,
        dist: Vector2,
        height_factor: i64,
    ) -> Seq<u8> {
        let f = dist_spec(p, dist, self.pos);
        if f.norm_spec() <= self.width {
            let to_thing = Vector2 { x: (self.pos.x - p.x) as i64, y: (self.pos.y - p.y) as i64 };
            let h = projected_height(height_factor as int, last_dist + to_thing.norm_spec());
            let t = texes[self.tex as int];
            t.line_spec(
                buf,
                x,
                (HEIGHT / 2) as u32,
                self.billboard_u(f, p) as i64,
                h as u32,
                (if (HEIGHT / 2) + h <= u32::MAX {
                    h
                } else {
                    u32::MAX - (HEIGHT / 2)
                }) as nat,
            )
        } else {
            buf
        }
    }

    /// Draws the slice of this sprite that column `x` sees through the ray
    /// segment from `p` along `dist`.
    pub fn draw_x(
        &self,
        frame: &mut Frame,
        x: u32,
        texes: &Vec<Texture>,
        last_dist: i64,
        p: Point2,
        dist: Vector2,
        height_factor: i64,
    )
        requires
            self.wf(),
            self.tex < texes.len(),
            texes[self.tex as int].wf(),
            -2 * LIMIT <= p.x <= 2 * LIMIT,
            -2 * LIMIT <= p.y <= 2 * LIMIT,
            -4 * LIMIT <= dist.x <= 4 * LIMIT,
            -4 * LIMIT <= dist.y <= 4 * LIMIT,
            0 <= last_dist <= 0x10_0000_0000_0000,
            0 <= height_factor <= i32::MAX,
        ensures
            final(frame).buffer@ == self.draw_x_spec(
                old(frame).buffer@,
                x,
                texes@,
                last_dist,
                p,
                dist,
                height_factor,
            ),
    {
        let f = distance_line_circle(p, dist, self.pos);
        let f_len = f.norm();
        if f_len <= self.width {
            let to_thing = p.vector_to_far(self.pos);
            let across = Vector2 { x: to_thing.y, y: -to_thing.x }.set_len(self.width * 2);
            assert(-LIMIT - 1 <= f.x <= LIMIT + 1 && -LIMIT - 1 <= f.y <= LIMIT + 1);
            assert(-4 * LIMIT * LIMIT - 4 * LIMIT <= f.x * across.x <= 4 * LIMIT * LIMIT + 4 * LIMIT)
                by (nonlinear_arith)
                requires
                    -LIMIT - 1 <= f.x <= LIMIT + 1,
                    -2 * LIMIT <= across.x <= 2 * LIMIT,
            ;
            assert(-4 * LIMIT * LIMIT - 4 * LIMIT <= f.y * across.y <= 4 * LIMIT * LIMIT + 4 * LIMIT)
                by (nonlinear_arith)
                requires
                    -LIMIT - 1 <= f.y <= LIMIT + 1,
                    -2 * LIMIT <= across.y <= 2 * LIMIT,
            ;
            let dot: i128 = f.x as i128 * across.x as i128 + f.y as i128 * across.y as i128;
            assert(-16 * LIMIT * LIMIT <= (dot as int) / (self.width as int) <= 16 * LIMIT * LIMIT) by (nonlinear_arith)
                requires
                    -16 * LIMIT * LIMIT <= dot <= 16 * LIMIT * LIMIT,
                    self.width >= 1,
            ;
            let q = dot.checked_div_euclid(self.width as i128).unwrap();
            let u = #[verifier::truncate] (((ONE / 2) as i128 + q) as i64);
            let d = last_dist + to_thing.norm();
            let h = projected_height_exec(height_factor, d);
            texes[self.tex].draw_line_at(frame, x, HEIGHT / 2, u, h as u32);
        }
    }
}

} // verus!
