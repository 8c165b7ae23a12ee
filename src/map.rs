//! The grid map: material cells, their properties and textures.

use vstd::prelude::*;

use crate::tex::Texture;

pub mod layout;
pub mod mat;
pub mod ray_caster;

pub use mat::Mat;
pub use ray_caster::{ray_cast, CastPoint, CastPointType, CastPoints, CastRules, Side};

use crate::vec::{Point2, Vector2, LIMIT, ONE};
use ray_caster::{
    box_open, inside, lemma_open_cast,
    cast_spec, clip_of, lemma_clip_scan_free, lemma_walk_dest, lemma_walk_shaped, mat_known, point_in_reach, start,
    unreflected_before,
};


verus! {

/// Largest number of cells along either side of a map.
pub const MAX_SIDE: i32 = 0x10_0000;

/// How far a move that meets a wall is pushed back off it: 0.005 of a
/// cell.
pub const PUSH: i64 = 328;

/// What a move must give up, from the clip vector of its cast and the face
/// it was clipped at: with no face, the clip itself; at a face, the clip's
/// part along the face's outward normal, pushed `PUSH` further out, so the
/// rest of the move slides along the wall.
pub open spec fn slide(clip: Vector2, side: Option<Side>) -> Vector2 {
    match side {
        None => clip,
        Some(s) => {
            let n = s.flip_spec().unit_spec();
            let t = clip.proj_spec(n);
            Vector2 { x: (t.x + n.x * PUSH / (ONE as int)) as i64, y: (t.y + n.y * PUSH / (ONE as int)) as i64 }
        },
    }
}

/// Projecting onto a face normal keeps the component along that normal.
pub proof fn lemma_proj_normal(v: Vector2, s: Side)
    ensures
        v.proj_spec(s.unit_spec()) == (if s.is_x_face() {
            Vector2 { x: v.x, y: 0 }
        } else {
            Vector2 { x: 0, y: v.y }
        }),
{
    let n = s.unit_spec();
    let k = ONE * ONE;
    assert(v.x * k / k == v.x) by (nonlinear_arith)
        requires
            k > 0,
    ;
    assert(-v.x * k / k == -v.x) by (nonlinear_arith)
        requires
            k > 0,
    ;
    assert(v.y * k / k == v.y) by (nonlinear_arith)
        requires
            k > 0,
    ;
    assert(-v.y * k / k == -v.y) by (nonlinear_arith)
        requires
            k > 0,
    ;
    match s {
        Side::Right | Side::Left => {
            assert(n.y == 0 && (n.x == ONE || n.x == -ONE));
            assert(n.x * n.x == k && n.y * n.y == 0) by (nonlinear_arith)
                requires
                    n.y == 0,
                    n.x == ONE || n.x == -ONE,
                    k == ONE * ONE,
            ;
            assert((v.x * n.x + v.y * n.y) * n.x == v.x * k) by (nonlinear_arith)
                requires
                    n.y == 0,
                    n.x * n.x == k,
            ;
        },
        Side::Down | Side::Up => {
            assert(n.x == 0 && (n.y == ONE || n.y == -ONE));
            assert(n.y * n.y == k && n.x * n.x == 0) by (nonlinear_arith)
                requires
                    n.x == 0,
                    n.y == ONE || n.y == -ONE,
                    k == ONE * ONE,
            ;
            assert((v.x * n.x + v.y * n.y) * n.y == v.y * k) by (nonlinear_arith)
                requires
                    n.x == 0,
                    n.y * n.y == k,
            ;
        },
    }
}

/// The budget of events that movement and rendering casts share across
/// reflections.
pub const NODE_LIMIT: usize = 8;

/// The part of the move from `p` by `dp` that `move_ray_cast` clips off.
pub open spec fn move_spec(map: &GridMap, p: Point2, dp: Vector2) -> Vector2 {
    let dest = Point2 { x: (p.x + dp.x) as i64, y: (p.y + dp.y) as i64 };
    let (clip, side) = clip_of(
        cast_spec(map, CastRules::Movement, p, dp, true, NODE_LIMIT as nat, false),
        p,
        dest,
    );
    slide(clip, side)
}

/// A move whose cast meets nothing before its destination gives up
/// nothing.
pub proof fn lemma_free_move(map: &GridMap, p: Point2, dp: Vector2)
    requires
        map.wf(),
        forall|i: int|
            0 <= i < cast_spec(map, CastRules::Movement, p, dp, true, NODE_LIMIT as nat, false).len()
                ==> (#[trigger] cast_spec(map, CastRules::Movement, p, dp, true, NODE_LIMIT as nat, false)[i]).cast_type
                is Destination,
    ensures
        move_spec(map, p, dp) == (Vector2 { x: 0, y: 0 }),
{
    let st = start(p, dp, true);
    let s = cast_spec(map, CastRules::Movement, p, dp, true, NODE_LIMIT as nat, false);
    lemma_walk_shaped(map, CastRules::Movement, true, NODE_LIMIT as nat, st);
    lemma_walk_dest(map, CastRules::Movement, true, NODE_LIMIT as nat, st);
    assert(unreflected_before(s, s.len() - 1));
    lemma_clip_scan_free(s, 0, p, None);
}

/// Where along a face, as a fraction of a cell from `0` to `ONE`, a ray
/// crossing it at `p` hit, running so that a texture reads the same way
/// from whichever side the face is seen.
pub open spec fn tex_u(side: Side, p: Point2) -> i64 {
    let one = ONE as int;
    (match side {
        Side::Left => (p.y as int) % one,
        Side::Up => one - (p.x as int) % one,
        Side::Right => one - (p.y as int) % one,
        Side::Down => (p.x as int) % one,
    }) as i64
}

/// What a render ray met at one surface: whether the face is side-lit
/// (dark), the texture coordinate across it, the segment of the ray that
/// led to it (its start, its vector and the distance travelled before it),
/// the distance travelled to the surface, and its material.
pub type Surface = (bool, i64, (Point2, Vector2, i64), i64, Mat);

/// The bounds every surface of a render cast keeps.
pub open spec fn surface_in_reach(sf: Surface) -> bool {
    let (_, _, (p, dv, last_dist), dist, _) = sf;
    &&& point_in_reach(p)
    &&& -4 * LIMIT <= dv.x <= 4 * LIMIT
    &&& -4 * LIMIT <= dv.y <= 4 * LIMIT
    &&& 0 <= last_dist <= 0x10_0000_0000_0000
    &&& 0 <= dist <= 0x10_0000_0000_0000
}

/// The surface's material is a known, non-air one.
pub open spec fn surface_mat_known(map: &GridMap, sf: Surface) -> bool {
    !sf.4.is_air_spec() && sf.4.index_spec() < map.properties.len()
}

/// The surfaces among the events `pts` from index `i` on, with `last` the
/// previous point and `total` the distance travelled to it; voids and
/// destinations are dropped but still count towards the distance.
pub open spec fn surfaces(pts: Seq<CastPoint>, i: int, last: Point2, total: int) -> Seq<Surface>
    decreases pts.len() - i,
{
    if i < 0 || i >= pts.len() {
        seq![]
    } else {
        let cp = pts[i];
        let dv = Vector2 { x: (cp.point.x - last.x) as i64, y: (cp.point.y - last.y) as i64 };
        let t = total + dv.norm_spec();
        let rest = surfaces(pts, i + 1, cp.point, t);
        match cp.cast_type {
            CastPointType::Reflection(m, side) | CastPointType::Pass(m, side)
            | CastPointType::Termination(m, side) => seq![
                (side.is_x_face(), tex_u(side, cp.point), (last, dv, total as i64), t as i64, m),
            ].add(rest),
            _ => rest,
        }
    }
}

/// A move between two points inside the map, where no cell in the
/// bounding box of their cells is solid (the movement rules let every one
/// through), gives up nothing.
pub proof fn lemma_open_move(map: &GridMap, p: Point2, dp: Vector2)
    requires
        map.wf(),
        p.is_bounded(),
        dp.is_bounded(),
        inside(map, p),
        inside(map, Point2 { x: (p.x + dp.x) as i64, y: (p.y + dp.y) as i64 }),
        box_open(map, CastRules::Movement, p, Point2 { x: (p.x + dp.x) as i64, y: (p.y + dp.y) as i64 }),
    ensures
        move_spec(map, p, dp) == (Vector2 { x: 0, y: 0 }),
{
    lemma_open_cast(map, CastRules::Movement, p, dp, NODE_LIMIT as nat, false);
    lemma_free_move(map, p, dp);
}

/// How a material responds to motion and light.
#[derive(Debug, Clone, Copy, PartialEq, Eq, Structural)]
pub struct Properties {
    /// Blocks motion.
    pub solid: bool,
    /// Lets light (and the ray) on after a hit is recorded.
    pub transparent: bool,
    /// Sends the ray on, mirrored.
    pub reflective: bool,
    /// Read from the map description; not consulted by the traversal.
    pub door: bool,
}

/// The properties of air: open, see-through, not a mirror.
pub open spec fn air_properties() -> Properties {
    Properties { solid: false, transparent: true, reflective: false, door: false }
}

/// A rectangular grid of materials, `width` cells per row, row-major, with
/// one pair of (light, dark) textures and one properties entry per non-air
/// material.
#[derive(Debug, Clone)]
pub struct GridMap {
    pub name: String,
    pub textures: Vec<(Texture, Texture)>,
    pub properties: Vec<Properties>,
    pub grid: Vec<Mat>,
    pub width: i32,
}

impl GridMap {
    pub open spec fn height_spec(&self) -> int {
        (self.grid.len() as int) / (self.width as int)
    }

    pub open spec fn wf(&self) -> bool {
        &&& 0 < self.width <= MAX_SIDE
        &&& (self.grid.len() as int) % (self.width as int) == 0
        &&& self.height_spec() <= MAX_SIDE
        &&& self.properties.len() == self.textures.len()
        &&& forall|i: int|
            0 <= i < self.grid.len() && !(#[trigger] self.grid[i]).is_air_spec()
                ==> self.grid[i].index_spec() < self.properties.len()
    }

    /// The material at `(x, y)`, or `None` off the stored rectangle.
    pub open spec fn cell_spec(&self, x: int, y: int) -> Option<Mat> {
        if 0 <= x < self.width && 0 <= y < self.height_spec() {
            Some(self.grid[y * self.width + x])
        } else {
            None
        }
    }

    pub open spec fn props_spec(&self, mat: Mat) -> Properties {
        if mat.is_air_spec() {
            air_properties()
        } else {
            self.properties[mat.index_spec()]
        }
    }

    /// A map from its parts; `None` unless the grid is a rectangle of
    /// `width` columns with at most `MAX_SIDE` cells a side, each material
    /// names an entry of `properties`, and `textures` has one pair per entry.
    pub fn new(
        name: String,
        width: i32,
        grid: Vec<Mat>,
        properties: Vec<Properties>,
        textures: Vec<(Texture, Texture)>,
    ) -> (m: Option<GridMap>)
        ensures
            m is Some <==> {
                &&& 0 < width <= MAX_SIDE
                &&& (grid.len() as int) % (width as int) == 0
                &&& (grid.len() as int) / (width as int) <= MAX_SIDE
                &&& properties.len() == textures.len()
                &&& forall|i: int|
                    0 <= i < grid.len() && !(#[trigger] grid[i]).is_air_spec()
                        ==> grid[i].index_spec() < properties.len()
            },
            m matches Some(m) ==> m.wf() && m.grid@ == grid@ && m.width == width
                && m.properties@ == properties@ && m.name@ == name@,
    {
        let m = GridMap { name, textures, properties, grid, width };
        if m.is_wf() {
            Some(m)
        } else {
            None
        }
    }

    /// Whether the map is well formed.
    pub fn is_wf(&self) -> (b: bool)
        ensures
            b == self.wf(),
    {
        let grid = &self.grid;
        let width = self.width;
        if width <= 0 || width > MAX_SIDE || grid.len() % width as usize != 0
            || grid.len() / width as usize > MAX_SIDE as usize || self.properties.len() != self.textures.len() {
            return false;
        }
        let mut i: usize = 0;
        while i < grid.len()
            invariant
                grid == &self.grid,
                i <= grid.len(),
                forall|j: int|
                    0 <= j < i && !(#[trigger] grid[j]).is_air_spec() ==> grid[j].index_spec()
                        < self.properties.len(),
            decreases grid.len() - i,
        {
            if !grid[i].is_air() && grid[i].index() >= self.properties.len() {
                assert(!grid[i as int].is_air_spec() && grid[i as int].index_spec() >= self.properties.len());
                return false;
            }
            i = i + 1;
        }
        true
    }

    /// The light or dark texture of a non-air material.
    pub fn get_tex(&self, mat: Mat, dark: bool) -> (t: &Texture)
        requires
            self.wf(),
            !mat.is_air_spec(),
            mat.index_spec() < self.properties.len(),
        ensures
            *t == if dark {
                self.textures[mat.index_spec()].1
            } else {
                self.textures[mat.index_spec()].0
            },
    {
        let pair = &self.textures[mat.index()];
        if dark {
            &pair.1
        } else {
            &pair.0
        }
    }

    /// The material at `(x, y)`; `None` for any cell off the grid, negative
    /// coordinates included.
    pub fn get(&self, x: i32, y: i32) -> (m: Option<Mat>)
        requires
            self.wf(),
        ensures
            m == self.cell_spec(x as int, y as int),
    {
        self.cell(x as i64, y as i64)
    }

    pub fn cell(&self, x: i64, y: i64) -> (m: Option<Mat>)
        requires
            self.wf(),
        ensures
            m == self.cell_spec(x as int, y as int),
            m matches Some(c) ==> (c.is_air_spec() || c.index_spec() < self.properties.len()),
    {
        let w = self.width as i64;
        let h = (self.grid.len() / self.width as usize) as i64;
        if 0 <= x && x < w && 0 <= y && y < h {
            assert(y * w + x < self.grid.len()) by (nonlinear_arith)
                requires
                    0 <= x < w,
                    0 <= y < h,
                    h == (self.grid.len() as int) / (w as int),
                    0 < w,
            ;
            assert(0 <= y * w <= 0x100_0000_0000) by (nonlinear_arith)
                requires
                    0 <= y <= 0x10_0000,
                    0 < w <= 0x10_0000,
            ;
            let i = (y * w + x) as usize;
            Some(self.grid[i])
        } else {
            None
        }
    }

    /// The properties of a material: fixed for air, else its table entry.
    pub fn props(&self, mat: &Mat) -> (p: Properties)
        requires
            self.wf(),
            mat.is_air_spec() || mat.index_spec() < self.properties.len(),
        ensures
            p == self.props_spec(*mat),
    {
        if mat.is_air() {
            Properties { solid: false, transparent: true, reflective: false, door: false }
        } else {
            self.properties[mat.index()]
        }
    }
}

impl GridMap {
    /// The vector to clip off a move from `orig_p` by `dp`: nothing where
    /// the move is free, else what lies past the first solid cell, reduced to
    /// its part into the wall and pushed `PUSH` back out.
    pub fn move_ray_cast(&self, orig_p: Point2, dp: Vector2) -> (r: Vector2)
        requires
            self.wf(),
            orig_p.is_bounded(),
            dp.is_bounded(),
        ensures
            r == move_spec(self, orig_p, dp),
    {
        let cast = ray_cast(self, CastRules::Movement, orig_p, dp, true, NODE_LIMIT, false);
        let (clip, side) = cast.clip();
        match side {
            Some(side) => {
                let wall_dir = side.flip().into_unit_vector();
                let to_wall = clip.proj(wall_dir);
                proof {
                    lemma_proj_normal(clip, side.flip_spec());
                }
                assert(-0x2_0000_0000_0000 <= to_wall.x <= 0x2_0000_0000_0000);
                assert(-0x2_0000_0000_0000 <= to_wall.y <= 0x2_0000_0000_0000);
                let px = (wall_dir.x * PUSH).checked_div_euclid(ONE).unwrap();
                let py = (wall_dir.y * PUSH).checked_div_euclid(ONE).unwrap();
                Vector2 { x: to_wall.x + px, y: to_wall.y + py }
            },
            None => clip,
        }
    }
}

impl GridMap {
    /// The surfaces that a ray from `orig_p` along `dp` meets, nearest
    /// first, under the render rules; the first cell is not tested. Drawn in
    /// reverse, nearer see-through surfaces cover farther ones.
    pub fn render_ray_cast(&self, orig_p: Point2, dp: Vector2) -> (r: Vec<Surface>)
        requires
            self.wf(),
            orig_p.is_bounded(),
            dp.is_bounded(),
        ensures
            r@ == surfaces(
                cast_spec(self, CastRules::Render, orig_p, dp, false, NODE_LIMIT as nat, true),
                0,
                orig_p,
                0,
            ),
            forall|j: int| 0 <= j < r.len() ==> surface_in_reach(#[trigger] r@[j]),
            forall|j: int| 0 <= j < r.len() ==> surface_mat_known(self, #[trigger] r@[j]),
    {
        let cast = ray_cast(self, CastRules::Render, orig_p, dp, false, NODE_LIMIT, true);
        let pts = cast.inner;
        let ghost s = pts@;
        let mut out: Vec<Surface> = Vec::new();
        let mut last_point = orig_p;
        let mut total_distance: i64 = 0;
        let mut i: usize = 0;
        while i < pts.len()
            invariant
                s == pts@,
                pts.len() <= NODE_LIMIT + 1,
                i <= pts.len(),
                point_in_reach(last_point),
                forall|j: int| 0 <= j < pts.len() ==> point_in_reach(#[trigger] pts@[j].point),
                0 <= total_distance <= i * 16 * LIMIT,
                forall|j: int| 0 <= j < out.len() ==> surface_in_reach(#[trigger] out@[j]),
                forall|j: int| 0 <= j < out.len() ==> surface_mat_known(self, #[trigger] out@[j]),
                forall|j: int| 0 <= j < pts.len() ==> mat_known(self, #[trigger] pts@[j]),
                out@.add(surfaces(s, i as int, last_point, total_distance as int)) == surfaces(
                    s,
                    0,
                    orig_p,
                    0,
                ),
            decreases pts.len() - i,
        {
            let cp = pts[i];
            let last_dist = total_distance;
            let p = last_point;
            let dist_vect = p.vector_to_far(cp.point);
            total_distance = total_distance + dist_vect.norm();
            last_point = cp.point;
            let ghost before = out@;
            match cp.cast_type {
                CastPointType::Reflection(mat, side) | CastPointType::Pass(mat, side)
                | CastPointType::Termination(mat, side) => {
                    let dark = side == Side::Left || side == Side::Right;
                    let one = ONE;
                    let u = match side {
                        Side::Left => cp.point.y.checked_rem_euclid(one).unwrap(),
                        Side::Up => one - cp.point.x.checked_rem_euclid(one).unwrap(),
                        Side::Right => one - cp.point.y.checked_rem_euclid(one).unwrap(),
                        Side::Down => cp.point.x.checked_rem_euclid(one).unwrap(),
                    };
                    out.push((dark, u, (p, dist_vect, last_dist), total_distance, mat));
                    assert(out@.add(surfaces(s, i + 1, last_point, total_distance as int)) =~= before.add(
                        surfaces(s, i as int, p, last_dist as int),
                    ));
                },
                _ => {},
            }
            i = i + 1;
        }
        out
    }
}

} // verus!
