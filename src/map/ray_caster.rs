//! The DDA traversal: a ray walked cell by cell through the grid, with the
//! events it meets recorded in order.

use vstd::prelude::*;

use super::{GridMap, Mat, Properties};
use crate::vec::{bounded, Point2, Vector2, LIMIT, ONE};

verus! {

/// The face of a cell through which a ray entered it.
#[derive(Debug, Clone, Copy, PartialEq, Eq, Structural)]
pub enum Side {
    /// Entered moving in `-x`.
    Right,
    /// Entered moving in `-y`.
    Down,
    /// Entered moving in `+x`.
    Left,
    /// Entered moving in `+y`.
    Up,
}

/// What a ray recorded at one point.
#[derive(Debug, Clone, Copy, PartialEq, Eq, Structural)]
pub enum CastPointType {
    /// Met a reflective material and went on mirrored.
    Reflection(Mat, Side),
    /// Met a solid, see-through material and went on.
    Pass(Mat, Side),
    /// Left the grid.
    Void(Side),
    /// Met an opaque material and stopped.
    Termination(Mat, Side),
    /// Reached its destination (finite casts only).
    Destination,
}

/// One event of a cast and where it happened.
#[derive(Debug, Clone, Copy, PartialEq, Eq, Structural)]
pub struct CastPoint {
    pub point: Point2,
    pub cast_type: CastPointType,
}

/// The events of a cast in order of travel, with its origin and, for a
/// finite cast, its destination.
#[derive(Debug, Clone)]
pub struct CastPoints {
    pub inner: Vec<CastPoint>,
    pub origin: Point2,
    pub target: Option<Point2>,
}

/// Which predicate set a cast classifies materials with.
#[derive(Debug, Clone, Copy, PartialEq, Eq, Structural)]
pub enum CastRules {
    /// Only solidity matters: solid cells stop the ray.
    Movement,
    /// Opaque cells stop the ray, reflective ones mirror it, and solid
    /// see-through ones are recorded and passed.
    Render,
}

/// How a cast treats the material of a cell it enters.
#[derive(Debug, Clone, Copy, PartialEq, Eq, Structural)]
pub enum Hit {
    /// Nothing is recorded.
    Open,
    /// The cast ends with a termination.
    Stop,
    /// A reflection is recorded and the ray goes on mirrored.
    Mirror,
    /// A pass is recorded and the ray goes on.
    Through,
}

/// The material makes the ray respond at all.
pub open spec fn is_node(rules: CastRules, p: Properties) -> bool {
    match rules {
        CastRules::Movement => p.solid,
        CastRules::Render => p.solid || !p.transparent,
    }
}

/// The material stops the ray.
pub open spec fn is_terminator(rules: CastRules, p: Properties) -> bool {
    match rules {
        CastRules::Movement => p.solid,
        CastRules::Render => !p.transparent,
    }
}

/// The material mirrors the ray.
pub open spec fn is_reflector(rules: CastRules, p: Properties) -> bool {
    match rules {
        CastRules::Movement => false,
        CastRules::Render => p.reflective,
    }
}

/// The material is recorded and passed.
pub open spec fn is_pass_through(rules: CastRules, p: Properties) -> bool {
    match rules {
        CastRules::Movement => !p.solid,
        CastRules::Render => p.transparent,
    }
}

pub open spec fn classify_spec(rules: CastRules, p: Properties) -> Hit {
    if !is_node(rules, p) {
        Hit::Open
    } else if is_terminator(rules, p) {
        Hit::Stop
    } else if is_reflector(rules, p) {
        Hit::Mirror
    } else if is_pass_through(rules, p) {
        Hit::Through
    } else {
        Hit::Open
    }
}

#[verifier::when_used_as_spec(classify_spec)]
pub fn classify(rules: CastRules, p: Properties) -> (h: Hit)
    ensures
        h == classify_spec(rules, p),
{
    let (node, terminator, reflector, pass) = match rules {
        CastRules::Movement => (p.solid, p.solid, false, !p.solid),
        CastRules::Render => (p.solid || !p.transparent, !p.transparent, p.reflective, p.transparent),
    };
    if !node {
        Hit::Open
    } else if terminator {
        Hit::Stop
    } else if reflector {
        Hit::Mirror
    } else if pass {
        Hit::Through
    } else {
        Hit::Open
    }
}

impl Side {
    pub open spec fn along_x_spec(x_positive: bool) -> Side {
        if x_positive {
            Side::Left
        } else {
            Side::Right
        }
    }

    pub open spec fn along_y_spec(y_positive: bool) -> Side {
        if y_positive {
            Side::Up
        } else {
            Side::Down
        }
    }

    /// The face crossed by a ray stepping along `x` in the given sense.
    #[verifier::when_used_as_spec(along_x_spec)]
    pub fn along_x(x_positive: bool) -> (s: Side)
        ensures
            s == Side::along_x_spec(x_positive),
    {
        if x_positive {
            Side::Left
        } else {
            Side::Right
        }
    }

    /// The face crossed by a ray stepping along `y` in the given sense.
    #[verifier::when_used_as_spec(along_y_spec)]
    pub fn along_y(y_positive: bool) -> (s: Side)
        ensures
            s == Side::along_y_spec(y_positive),
    {
        if y_positive {
            Side::Up
        } else {
            Side::Down
        }
    }

    /// The face a ray of direction `d` would cross along its major axis.
    pub open spec fn from_vec_spec(d: Vector2) -> Side {
        if abs(d.x as int) > abs(d.y as int) {
            Side::along_x_spec(d.x >= 0)
        } else {
            Side::along_y_spec(d.y >= 0)
        }
    }

    #[verifier::when_used_as_spec(from_vec_spec)]
    pub fn from_vec(d: Vector2) -> (s: Side)
        ensures
            s == Side::from_vec_spec(d),
    {
        let ax: i128 = if d.x < 0 { -(d.x as i128) } else { d.x as i128 };
        let ay: i128 = if d.y < 0 { -(d.y as i128) } else { d.y as i128 };
        if ax > ay {
            Side::along_x(d.x >= 0)
        } else {
            Side::along_y(d.y >= 0)
        }
    }

    pub open spec fn flip_spec(self) -> Side {
        match self {
            Side::Right => Side::Left,
            Side::Down => Side::Up,
            Side::Left => Side::Right,
            Side::Up => Side::Down,
        }
    }

    /// The opposite face.
    #[verifier::when_used_as_spec(flip_spec)]
    pub fn flip(self) -> (s: Side)
        ensures
            s == self.flip_spec(),
    {
        match self {
            Side::Right => Side::Left,
            Side::Down => Side::Up,
            Side::Left => Side::Right,
            Side::Up => Side::Down,
        }
    }

    pub open spec fn unit_spec(self) -> Vector2 {
        match self {
            Side::Right => Vector2 { x: ONE, y: 0 },
            Side::Down => Vector2 { x: 0, y: ONE },
            Side::Left => Vector2 { x: (-ONE) as i64, y: 0 },
            Side::Up => Vector2 { x: 0, y: (-ONE) as i64 },
        }
    }

    /// The outward unit normal of this face.
    pub fn into_unit_vector(self) -> (v: Vector2)
        ensures
            v == self.unit_spec(),
    {
        match self {
            Side::Right => Vector2::new(ONE, 0),
            Side::Down => Vector2::new(0, ONE),
            Side::Left => Vector2::new(-ONE, 0),
            Side::Up => Vector2::new(0, -ONE),
        }
    }

    /// The face lies across the `x` axis (a vertical grid line).
    pub open spec fn is_x_face(self) -> bool {
        self == Side::Left || self == Side::Right
    }
}

pub open spec fn abs(v: int) -> int {
    if v < 0 {
        -v
    } else {
        v
    }
}

/// `v` taken in the positive or the negative sense.
pub open spec fn signed(positive: bool, v: int) -> int {
    if positive {
        v
    } else {
        -v
    }
}

/// The cell that a ray from coordinate `p` with component `dir` starts in:
/// the cell holding `p`, or, for a ray leaving a grid line backwards, the
/// cell behind that line.
pub open spec fn start_cell(p: int, dir: int) -> int {
    if p % (ONE as int) == 0 && dir < 0 {
        p / (ONE as int) - 1
    } else {
        p / (ONE as int)
    }
}

/// The index of the next grid line ahead of cell `g` in the given sense.
pub open spec fn next_line(g: int, positive: bool) -> int {
    if positive {
        g + 1
    } else {
        g
    }
}

/// Where a traversal stands: the current straight segment (origin `o`,
/// direction `d`, destination `o + d`), the cell `(gx, gy)` it is in, the
/// last point reached and the face crossed to reach it, the fraction
/// `tn / td` of `d` travelled, and whether the current cell is still to be
/// tested.
#[derive(Debug, Clone, Copy, PartialEq, Eq, Structural)]
pub struct Walk {
    pub o: Point2,
    pub d: Vector2,
    pub gx: i64,
    pub gy: i64,
    pub cur: Point2,
    pub side: Side,
    pub tn: i128,
    pub td: i128,
    pub check: bool,
}

/// The state at the start of a segment from `from` along `dist`.
pub open spec fn start(from: Point2, dist: Vector2, check: bool) -> Walk {
    Walk {
        o: from,
        d: dist,
        gx: start_cell(from.x as int, dist.x as int) as i64,
        gy: start_cell(from.y as int, dist.y as int) as i64,
        cur: from,
        side: Side::from_vec_spec(dist),
        tn: 0,
        td: 1,
        check,
    }
}

/// Distance along `x` from the segment origin to the next vertical line.
pub open spec fn ahead_x(st: Walk) -> int {
    abs(next_line(st.gx as int, st.d.x >= 0) * ONE - st.o.x)
}

/// Distance along `y` from the segment origin to the next horizontal line.
pub open spec fn ahead_y(st: Walk) -> int {
    abs(next_line(st.gy as int, st.d.y >= 0) * ONE - st.o.y)
}

/// The next line crossed is vertical: the `x` line is reached no later
/// than the `y` line (ties go to `x`), and a ray with no `x` motion never
/// crosses one.
pub open spec fn steps_x(st: Walk) -> bool {
    st.d.x != 0 && (st.d.y == 0 || ahead_x(st) * abs(st.d.y as int) <= ahead_y(st) * abs(
        st.d.x as int,
    ))
}

/// The state after crossing the next grid line.
pub open spec fn step(st: Walk) -> Walk {
    let xpos = st.d.x >= 0;
    let ypos = st.d.y >= 0;
    let ax = ahead_x(st);
    let ay = ahead_y(st);
    let adx = abs(st.d.x as int);
    let ady = abs(st.d.y as int);
    if steps_x(st) {
        Walk {
            cur: Point2 {
                x: (next_line(st.gx as int, xpos) * ONE) as i64,
                y: (st.o.y + signed(ypos, ax * ady / adx)) as i64,
            },
            gx: (if xpos {
                st.gx + 1
            } else {
                st.gx - 1
            }) as i64,
            side: Side::along_x_spec(xpos),
            tn: ax as i128,
            td: adx as i128,
            check: true,
            ..st
        }
    } else {
        Walk {
            cur: Point2 {
                x: (st.o.x + signed(
                    xpos,
                    if ady == 0 {
                        0
                    } else {
                        ay * adx / ady
                    },
                )) as i64,
                y: (next_line(st.gy as int, ypos) * ONE) as i64,
            },
            gy: (if ypos {
                st.gy + 1
            } else {
                st.gy - 1
            }) as i64,
            side: Side::along_y_spec(ypos),
            tn: (if ady == 0 {
                st.tn as int
            } else {
                ay
            }) as i128,
            td: (if ady == 0 {
                st.td as int
            } else {
                ady
            }) as i128,
            check: true,
            ..st
        }
    }
}

/// The rest of a finite segment from the current point, or the whole
/// direction of an infinite one, mirrored across the face last crossed.
pub open spec fn mirrored(st: Walk, finite: bool) -> Vector2 {
    let rx = if finite {
        st.o.x + st.d.x - st.cur.x
    } else {
        st.d.x as int
    };
    let ry = if finite {
        st.o.y + st.d.y - st.cur.y
    } else {
        st.d.y as int
    };
    if st.side.is_x_face() {
        Vector2 { x: (-rx) as i64, y: ry as i64 }
    } else {
        Vector2 { x: rx as i64, y: (-ry) as i64 }
    }
}

/// The state at the start of the segment that a reflection begins; its first
/// cell, the one in front of the mirror, is not tested again.
pub open spec fn reflect(st: Walk, finite: bool) -> Walk {
    start(st.cur, mirrored(st, finite), false)
}

/// The destination of the current segment.
pub open spec fn dest_of(st: Walk) -> Point2 {
    Point2 { x: (st.o.x + st.d.x) as i64, y: (st.o.y + st.d.y) as i64 }
}

/// A finite segment has been travelled to its end.
pub open spec fn at_dest(st: Walk) -> bool {
    st.d.is_zero() || st.tn >= st.td
}

pub open spec fn clamp(v: int) -> nat {
    if v < 0 {
        0
    } else {
        v as nat
    }
}

/// Cells left before the walk leaves the grid along each axis.
pub open spec fn cells_left(map: &GridMap, st: Walk) -> nat {
    clamp(
        if st.d.x >= 0 {
            map.width - st.gx
        } else {
            st.gx + 1
        },
    ) + clamp(
        if st.d.y >= 0 {
            map.height_spec() - st.gy
        } else {
            st.gy + 1
        },
    )
}

pub open spec fn check_rank(st: Walk) -> nat {
    if st.check {
        0
    } else {
        1
    }
}

/// The events that a walk from `st` records with `budget` events left (none
/// on a malformed map).
pub open spec fn walk(map: &GridMap, rules: CastRules, finite: bool, budget: nat, st: Walk) -> Seq<
    CastPoint,
>
    decreases budget, check_rank(st), cells_left(map, st),
    via walk_decreases
{
    let dest = CastPoint { point: dest_of(st), cast_type: CastPointType::Destination };
    if budget == 0 || !map.wf() {
        seq![]
    } else if finite && at_dest(st) {
        seq![dest]
    } else if !st.check {
        walk(map, rules, finite, budget, step(st))
    } else if st.cur.x < 0 || st.cur.y < 0 || map.cell_spec(st.gx as int, st.gy as int) is None {
        let void = CastPoint { point: st.cur, cast_type: CastPointType::Void(st.side) };
        if finite {
            seq![void, dest]
        } else {
            seq![void]
        }
    } else {
        let m = map.cell_spec(st.gx as int, st.gy as int)->Some_0;
        match classify_spec(rules, map.props_spec(m)) {
            Hit::Stop => seq![
                CastPoint { point: st.cur, cast_type: CastPointType::Termination(m, st.side) },
            ],
            Hit::Mirror => seq![
                CastPoint { point: st.cur, cast_type: CastPointType::Reflection(m, st.side) },
            ].add(walk(map, rules, finite, (budget - 1) as nat, reflect(st, finite))),
            Hit::Through => seq![
                CastPoint { point: st.cur, cast_type: CastPointType::Pass(m, st.side) },
            ].add(walk(map, rules, finite, (budget - 1) as nat, step(st))),
            Hit::Open => walk(map, rules, finite, budget, step(st)),
        }
    }
}

/// Crossing out of a cell on the grid brings the walk one cell nearer to
/// leaving it.
proof fn lemma_step_closer(map: &GridMap, st: Walk)
    requires
        map.wf(),
        map.cell_spec(st.gx as int, st.gy as int) is Some,
    ensures
        cells_left(map, step(st)) < cells_left(map, st),
        step(st).d == st.d,
{
    let n = step(st);
    if steps_x(st) {
        if st.d.x >= 0 {
            assert(n.gx == st.gx + 1);
        } else {
            assert(n.gx == st.gx - 1);
        }
    } else {
        if st.d.y >= 0 {
            assert(n.gy == st.gy + 1);
        } else {
            assert(n.gy == st.gy - 1);
        }
    }
}

#[via_fn]
proof fn walk_decreases(map: &GridMap, rules: CastRules, finite: bool, budget: nat, st: Walk) {
    if budget != 0 && map.wf() && !(finite && at_dest(st)) && st.check && !(st.cur.x < 0 || st.cur.y < 0
        || map.cell_spec(st.gx as int, st.gy as int) is None) {
        lemma_step_closer(map, st);
    }
}

/// The events of a cast from `from` along `dist` with at most `node_limit`
/// events (one more where a finite cast ends in the void and its
/// destination follows).
pub open spec fn cast_spec(
    map: &GridMap,
    rules: CastRules,
    from: Point2,
    dist: Vector2,
    finite: bool,
    node_limit: nat,
    skip_first_check: bool,
) -> Seq<CastPoint> {
    walk(map, rules, finite, node_limit, start(from, dist, !skip_first_check))
}


/// Bound on the cell indices that a walk visits: the cells of origins
/// within `LIMIT`, and one step beyond.
pub const CELL_BOUND: i64 = 0x1000_0002;

/// What a traversal state keeps true: bounded segment, the next grid lines
/// ahead of the origin, the current point between the origin and those
/// lines, and the current point at the fraction `tn / td` of the segment.
#[verifier::opaque]
pub open spec fn walk_ok(st: Walk) -> bool {
    &&& st.o.is_bounded()
    &&& st.d.is_bounded()
    &&& -CELL_BOUND <= st.gx <= CELL_BOUND
    &&& -CELL_BOUND <= st.gy <= CELL_BOUND
    &&& !st.check ==> -CELL_BOUND < st.gx < CELL_BOUND && -CELL_BOUND < st.gy < CELL_BOUND
    &&& (st.d.x >= 0 ==> st.o.x < (st.gx + 1) * ONE && st.o.x <= st.cur.x <= (st.gx + 1) * ONE)
    &&& (st.d.x < 0 ==> st.gx * ONE < st.o.x && st.gx * ONE <= st.cur.x <= st.o.x)
    &&& (st.d.y >= 0 ==> st.o.y < (st.gy + 1) * ONE && st.o.y <= st.cur.y <= (st.gy + 1) * ONE)
    &&& (st.d.y < 0 ==> st.gy * ONE < st.o.y && st.gy * ONE <= st.cur.y <= st.o.y)
    &&& 0 <= st.tn
    &&& 0 < st.td
    &&& !st.d.is_zero() ==> {
        &&& st.cur.x == st.o.x + signed(st.d.x >= 0, (st.tn as int) * abs(st.d.x as int) / (st.td as int))
        &&& st.cur.y == st.o.y + signed(st.d.y >= 0, (st.tn as int) * abs(st.d.y as int) / (st.td as int))
    }
}

proof fn lemma_div_bound(a: int, b: int, c: int, e: int)
    requires
        0 <= a,
        0 <= b,
        0 < c,
        a * b <= e * c,
    ensures
        0 <= a * b / c <= e,
{
    assert(0 <= a * b / c <= e) by (nonlinear_arith)
        requires
            0 <= a,
            0 <= b,
            0 < c,
            a * b <= e * c,
    ;
}

proof fn lemma_div_cancel(a: int, c: int)
    requires
        0 < c,
    ensures
        a * c / c == a,
{
    assert(a * c / c == a) by (nonlinear_arith)
        requires
            0 < c,
    ;
}

proof fn lemma_start_cell(p: int, dir: int)
    requires
        bounded(p),
    ensures
        dir >= 0 ==> start_cell(p, dir) * ONE <= p < (start_cell(p, dir) + 1) * ONE,
        dir < 0 ==> start_cell(p, dir) * ONE < p <= (start_cell(p, dir) + 1) * ONE,
        -CELL_BOUND < start_cell(p, dir) < CELL_BOUND,
{
    let q = p / (ONE as int);
    let r = p % (ONE as int);
    assert(p == q * ONE + r && 0 <= r < ONE) by {
        vstd::arithmetic::div_mod::lemma_fundamental_div_mod(p, ONE as int);
    }
}

proof fn lemma_start_ok(from: Point2, dist: Vector2, check: bool)
    requires
        from.is_bounded(),
        dist.is_bounded(),
    ensures
        walk_ok(start(from, dist, check)),
{
    reveal(walk_ok);
    lemma_start_cell(from.x as int, dist.x as int);
    lemma_start_cell(from.y as int, dist.y as int);
    assert(0 * abs(dist.x as int) / 1 == 0);
    assert(0 * abs(dist.y as int) / 1 == 0);
}

proof fn lemma_step_ok(st: Walk)
    requires
        walk_ok(st),
        -CELL_BOUND < st.gx < CELL_BOUND,
        -CELL_BOUND < st.gy < CELL_BOUND,
    ensures
        walk_ok(step(st)),
{
    reveal(walk_ok);
    let ax = ahead_x(st);
    let ay = ahead_y(st);
    let adx = abs(st.d.x as int);
    let ady = abs(st.d.y as int);
    if steps_x(st) {
        lemma_div_bound(ax, ady, adx, ay);
        lemma_div_cancel(ax, adx);
    } else if ady != 0 {
        if st.d.x != 0 {
            lemma_div_bound(ay, adx, ady, ax);
        } else {
            assert(ay * adx / ady == 0);
        }
        lemma_div_cancel(ay, ady);
    }
}

/// At a mirror on the grid, the current point is within `LIMIT` and the
/// mirrored direction is no longer, component by component, than the
/// segment's direction.
proof fn lemma_mirrored_bounded(map: &GridMap, st: Walk, finite: bool)
    requires
        map.wf(),
        walk_ok(st),
        0 <= st.gx < map.width,
        0 <= st.gy < map.height_spec(),
        finite ==> !at_dest(st),
    ensures
        st.cur.is_bounded(),
        mirrored(st, finite).is_bounded(),
        abs(mirrored(st, finite).x as int) <= abs(st.d.x as int),
        abs(mirrored(st, finite).y as int) <= abs(st.d.y as int),
        st.side.is_x_face() ==> mirrored(st, finite).y == if finite {
            st.o.y + st.d.y - st.cur.y
        } else {
            st.d.y as int
        },
        (finite && st.d.y == 0) ==> st.cur.y == st.o.y,
        (st.side.is_x_face() && st.d.x != 0) ==> (mirrored(st, finite).x > 0 <==> st.d.x < 0)
            && mirrored(st, finite).x != 0,
{
    reveal(walk_ok);
    let adx = abs(st.d.x as int);
    let ady = abs(st.d.y as int);
    if finite {
        assert((st.tn as int) * adx <= adx * (st.td as int)) by (nonlinear_arith)
            requires
                0 <= st.tn < st.td,
                0 <= adx,
        ;
        assert((st.tn as int) * ady <= ady * (st.td as int)) by (nonlinear_arith)
            requires
                0 <= st.tn < st.td,
                0 <= ady,
        ;
        lemma_div_bound(st.tn as int, adx, st.td as int, adx);
        lemma_div_bound(st.tn as int, ady, st.td as int, ady);
        if adx > 0 {
            assert((st.tn as int) * adx / (st.td as int) < adx) by (nonlinear_arith)
                requires
                    0 <= st.tn < st.td,
                    0 < adx,
            ;
        }
        if ady == 0 {
            assert((st.tn as int) * ady / (st.td as int) == 0);
        }
    }
}

proof fn lemma_reflect_ok(map: &GridMap, st: Walk, finite: bool)
    requires
        map.wf(),
        walk_ok(st),
        0 <= st.gx < map.width,
        0 <= st.gy < map.height_spec(),
        finite ==> !at_dest(st),
    ensures
        walk_ok(reflect(st, finite)),
{
    lemma_mirrored_bounded(map, st, finite);
    lemma_start_ok(st.cur, mirrored(st, finite), false);
}

fn start_exec(from: Point2, dist: Vector2, check: bool) -> (st: Walk)
    requires
        from.is_bounded(),
        dist.is_bounded(),
    ensures
        st == start(from, dist, check),
        walk_ok(st),
{
    proof {
        lemma_start_cell(from.x as int, dist.x as int);
        lemma_start_cell(from.y as int, dist.y as int);
    }
    let qx = from.x.checked_div_euclid(ONE).unwrap();
    let rx = from.x.checked_rem_euclid(ONE).unwrap();
    let qy = from.y.checked_div_euclid(ONE).unwrap();
    let ry = from.y.checked_rem_euclid(ONE).unwrap();
    let gx = if rx == 0 && dist.x < 0 {
        qx - 1
    } else {
        qx
    };
    let gy = if ry == 0 && dist.y < 0 {
        qy - 1
    } else {
        qy
    };
    let st = Walk {
        o: from,
        d: dist,
        gx,
        gy,
        cur: from,
        side: Side::from_vec(dist),
        tn: 0,
        td: 1,
        check,
    };
    proof {
        lemma_start_ok(from, dist, check);
    }
    st
}

proof fn lemma_unchecked_cells(st: Walk)
    requires
        walk_ok(st),
        !st.check,
    ensures
        -CELL_BOUND < st.gx < CELL_BOUND,
        -CELL_BOUND < st.gy < CELL_BOUND,
{
    reveal(walk_ok);
}

proof fn lemma_walk_bounded(st: Walk)
    requires
        walk_ok(st),
    ensures
        st.o.is_bounded(),
        st.d.is_bounded(),
{
    reveal(walk_ok);
}

fn abs_exec(v: i64) -> (r: u128)
    ensures
        r == abs(v as int),
{
    if v < 0 {
        (-(v as i128)) as u128
    } else {
        v as u128
    }
}

fn step_exec(st: Walk) -> (r: Walk)
    requires
        walk_ok(st),
        -CELL_BOUND < st.gx < CELL_BOUND,
        -CELL_BOUND < st.gy < CELL_BOUND,
    ensures
        r == step(st),
        walk_ok(r),
{
    reveal(walk_ok);
    let xpos = st.d.x >= 0;
    let ypos = st.d.y >= 0;
    let lx: i64 = if xpos {
        st.gx + 1
    } else {
        st.gx
    };
    let ly: i64 = if ypos {
        st.gy + 1
    } else {
        st.gy
    };
    let ex: i64 = lx * ONE - st.o.x;
    let ey: i64 = ly * ONE - st.o.y;
    let ax = abs_exec(ex);
    let ay = abs_exec(ey);
    let adx = abs_exec(st.d.x);
    let ady = abs_exec(st.d.y);
    assert(ax == ahead_x(st) && ay == ahead_y(st));
    assert(ax * ady <= 0x1000_0000_0000_0000_0000_0000_0000) by (nonlinear_arith)
        requires
            ax <= 0x4000_0000_0000,
            ady <= 0x1000_0000_0000,
    ;
    assert(ay * adx <= 0x1000_0000_0000_0000_0000_0000_0000) by (nonlinear_arith)
        requires
            ay <= 0x4000_0000_0000,
            adx <= 0x1000_0000_0000,
    ;
    let go_x = st.d.x != 0 && (st.d.y == 0 || ax * ady <= ay * adx);
    assert(go_x == steps_x(st));
    if go_x {
        let off = ax * ady / adx;
        proof {
            lemma_div_bound(ax as int, ady as int, adx as int, ay as int);
            lemma_div_cancel(ax as int, adx as int);
        }
        let cy: i64 = if ypos {
            st.o.y + off as i64
        } else {
            st.o.y - off as i64
        };
        let r = Walk {
            cur: Point2 { x: lx * ONE, y: cy },
            gx: if xpos {
                st.gx + 1
            } else {
                st.gx - 1
            },
            side: Side::along_x(xpos),
            tn: ax as i128,
            td: adx as i128,
            check: true,
            ..st
        };
        r
    } else {
        let off: u128 = if ady == 0 {
            0
        } else {
            ay * adx / ady
        };
        proof {
            if ady != 0 {
                if st.d.x != 0 {
                    lemma_div_bound(ay as int, adx as int, ady as int, ax as int);
                } else {
                    assert((ay as int) * (adx as int) / (ady as int) == 0);
                }
                lemma_div_cancel(ay as int, ady as int);
            }
        }
        let cx: i64 = if xpos {
            st.o.x + off as i64
        } else {
            st.o.x - off as i64
        };
        let r = Walk {
            cur: Point2 { x: cx, y: ly * ONE },
            gy: if ypos {
                st.gy + 1
            } else {
                st.gy - 1
            },
            side: Side::along_y(ypos),
            tn: if ady == 0 {
                st.tn
            } else {
                ay as i128
            },
            td: if ady == 0 {
                st.td
            } else {
                ady as i128
            },
            check: true,
            ..st
        };
        r
    }
}

fn reflect_exec(map: &GridMap, st: Walk, finite: bool) -> (r: Walk)
    requires
        map.wf(),
        walk_ok(st),
        0 <= st.gx < map.width,
        0 <= st.gy < map.height_spec(),
        finite ==> !at_dest(st),
    ensures
        r == reflect(st, finite),
        walk_ok(r),
{
    proof {
        lemma_walk_bounded(st);
        lemma_mirrored_bounded(map, st, finite);
        lemma_reflect_ok(map, st, finite);
    }
    let (rx, ry) = if finite {
        (st.o.x + st.d.x - st.cur.x, st.o.y + st.d.y - st.cur.y)
    } else {
        (st.d.x, st.d.y)
    };
    let nd = if st.side == Side::Left || st.side == Side::Right {
        Vector2 { x: -rx, y: ry }
    } else {
        Vector2 { x: rx, y: -ry }
    };
    start_exec(st.cur, nd, false)
}

/// Casts a ray from `from` along `dist` through `map`, recording what it
/// meets under `rules`, at most `node_limit` events shared across
/// reflections. A finite cast ends at `from + dist`; an infinite one ends
/// where the ray stops or leaves the grid. With `skip_first_check` the cell
/// of `from` is not tested.
#[verifier::rlimit(60)]
#[verifier::spinoff_prover]
pub fn ray_cast(
    map: &GridMap,
    rules: CastRules,
    from: Point2,
    dist: Vector2,
    finite: bool,
    node_limit: usize,
    skip_first_check: bool,
) -> (cp: CastPoints)
    requires
        map.wf(),
        from.is_bounded(),
        dist.is_bounded(),
    ensures
        cp.inner@ == cast_spec(map, rules, from, dist, finite, node_limit as nat, skip_first_check),
        cast_shaped(cp.inner@, finite, node_limit as nat),
        forall|i: int|
            0 <= i < cp.inner.len() && unreflected_before(cp.inner@, i) && side_of(
                #[trigger] cp.inner@[i],
            ) is Some ==> crossable(dist, side_of(cp.inner@[i])->Some_0),
        (dist.y == 0 && dist.x != 0) ==> sides_alternate(cp.inner@, dist.x > 0),
        forall|i: int| 0 <= i < cp.inner.len() ==> point_in_reach(#[trigger] cp.inner@[i].point),
        forall|i: int| 0 <= i < cp.inner.len() ==> mat_known(map, #[trigger] cp.inner@[i]),
        cp.origin == from,
        cp.target == (if finite {
            Some(Point2 { x: (from.x + dist.x) as i64, y: (from.y + dist.y) as i64 })
        } else {
            None
        }),
{
    let ghost whole = cast_spec(map, rules, from, dist, finite, node_limit as nat, skip_first_check);
    let mut st = start_exec(from, dist, !skip_first_check);
    let mut points: Vec<CastPoint> = Vec::new();
    let mut done = false;
    while !done
        invariant
            map.wf(),
            walk_ok(st),
            !done ==> points.len() <= node_limit,
            !done ==> points@ + walk(map, rules, finite, (node_limit - points.len()) as nat, st)
                == whole,
            done ==> points@ == whole,
        decreases
            (if done {
                0int
            } else {
                1int
            }),
            node_limit - points.len(),
            check_rank(st),
            cells_left(map, st),
    {
        let ghost budget = (node_limit - points.len()) as nat;
        let ghost before = points@;
        proof {
            lemma_walk_bounded(st);
        }
        let dest = CastPoint {
            point: Point2 { x: st.o.x + st.d.x, y: st.o.y + st.d.y },
            cast_type: CastPointType::Destination,
        };
        if points.len() >= node_limit {
            assert(points@ =~= whole);
            done = true;
        } else if finite && ((st.d.x == 0 && st.d.y == 0) || st.tn >= st.td) {
            points.push(dest);
            assert(points@ =~= whole);
            done = true;
        } else if !st.check {
            proof {
                lemma_unchecked_cells(st);
            }
            st = step_exec(st);
        } else {
            let cell = if st.cur.x < 0 || st.cur.y < 0 {
                None
            } else {
                map.cell(st.gx, st.gy)
            };
            match cell {
                None => {
                    points.push(CastPoint { point: st.cur, cast_type: CastPointType::Void(st.side) });
                    if finite {
                        points.push(dest);
                    }
                    assert(points@ =~= whole);
                    done = true;
                },
                Some(m) => {
                    let p = map.props(&m);
                    match classify(rules, p) {
                        Hit::Stop => {
                            points.push(
                                CastPoint { point: st.cur, cast_type: CastPointType::Termination(m, st.side) },
                            );
                            assert(points@ =~= whole);
                            done = true;
                        },
                        Hit::Mirror => {
                            points.push(
                                CastPoint { point: st.cur, cast_type: CastPointType::Reflection(m, st.side) },
                            );
                            let ghost old_st = st;
                            st = reflect_exec(map, st, finite);
                            assert(points@ + walk(map, rules, finite, (budget - 1) as nat, st) =~= before
                                + walk(map, rules, finite, budget, old_st));
                        },
                        Hit::Through => {
                            points.push(
                                CastPoint { point: st.cur, cast_type: CastPointType::Pass(m, st.side) },
                            );
                            let ghost old_st = st;
                            st = step_exec(st);
                            assert(points@ + walk(map, rules, finite, (budget - 1) as nat, st) =~= before
                                + walk(map, rules, finite, budget, old_st));
                        },
                        Hit::Open => {
                            st = step_exec(st);
                        },
                    }
                },
            }
        }
    }
    let target = if finite {
        Some(Point2 { x: from.x + dist.x, y: from.y + dist.y })
    } else {
        None
    };
    proof {
        let st0 = start(from, dist, !skip_first_check);
        lemma_walk_shaped(map, rules, finite, node_limit as nat, st0);
        lemma_walk_sides(map, rules, finite, node_limit as nat, st0);
        lemma_start_ok(from, dist, !skip_first_check);
        lemma_walk_points(map, rules, finite, node_limit as nat, st0);
        lemma_walk_mats(map, rules, finite, node_limit as nat, st0);
        if dist.y == 0 && dist.x != 0 {
            lemma_walk_axis_x(map, rules, finite, node_limit as nat, st0);
        }
    }
    CastPoints { inner: points, origin: from, target }
}


/// The event ends a cast.
pub open spec fn is_terminal(c: CastPoint) -> bool {
    match c.cast_type {
        CastPointType::Termination(_, _) | CastPointType::Void(_) | CastPointType::Destination => true,
        _ => false,
    }
}

/// The event lets the cast go on.
pub open spec fn is_continuing(c: CastPoint) -> bool {
    match c.cast_type {
        CastPointType::Reflection(_, _) | CastPointType::Pass(_, _) => true,
        _ => false,
    }
}

/// The events form a well-shaped cast for an event budget: each event but
/// the last lets the cast go on, except a void directly followed by the
/// destination of a finite cast; the last ends the cast unless the budget
/// ran out; and only that void-then-destination ending may pass the budget,
/// by one.
pub open spec fn cast_shaped(s: Seq<CastPoint>, finite: bool, budget: nat) -> bool {
    let void_end = finite && s.len() >= 2 && s[s.len() - 2].cast_type is Void
        && s[s.len() - 1].cast_type is Destination;
    &&& s.len() <= budget || (void_end && s.len() == budget + 1)
    &&& forall|i: int|
        0 <= i < s.len() - 1 ==> is_continuing(#[trigger] s[i]) || (void_end && i == s.len() - 2)
    &&& s.len() > 0 ==> is_terminal(s[s.len() - 1]) || s.len() == budget
    &&& budget >= 1 ==> s.len() >= 1
}

/// Every walk on a well-formed map is well shaped for its budget.
#[verifier::spinoff_prover]
pub proof fn lemma_walk_shaped(map: &GridMap, rules: CastRules, finite: bool, budget: nat, st: Walk)
    requires
        map.wf(),
    ensures
        cast_shaped(walk(map, rules, finite, budget, st), finite, budget),
    decreases budget, check_rank(st), cells_left(map, st),
{
    let s = walk(map, rules, finite, budget, st);
    if budget == 0 || (finite && at_dest(st)) {
    } else if !st.check {
        lemma_walk_shaped(map, rules, finite, budget, step(st));
    } else if st.cur.x < 0 || st.cur.y < 0 || map.cell_spec(st.gx as int, st.gy as int) is None {
    } else {
        let m = map.cell_spec(st.gx as int, st.gy as int)->Some_0;
        let head = s[0];
        match classify_spec(rules, map.props_spec(m)) {
            Hit::Stop => {},
            Hit::Mirror => {
                let rest = walk(map, rules, finite, (budget - 1) as nat, reflect(st, finite));
                lemma_walk_shaped(map, rules, finite, (budget - 1) as nat, reflect(st, finite));
                assert(s == seq![head].add(rest));
                assert(forall|i: int| 0 < i < s.len() ==> s[i] == rest[i - 1]);
            },
            Hit::Through => {
                let rest = walk(map, rules, finite, (budget - 1) as nat, step(st));
                lemma_walk_shaped(map, rules, finite, (budget - 1) as nat, step(st));
                assert(s == seq![head].add(rest));
                assert(forall|i: int| 0 < i < s.len() ==> s[i] == rest[i - 1]);
            },
            Hit::Open => {
                lemma_step_closer(map, st);
                lemma_walk_shaped(map, rules, finite, budget, step(st));
            },
        }
    }
}


/// The face recorded with an event, if it has one.
pub open spec fn side_of(c: CastPoint) -> Option<Side> {
    match c.cast_type {
        CastPointType::Reflection(_, s) | CastPointType::Pass(_, s) | CastPointType::Termination(_, s)
        | CastPointType::Void(s) => Some(s),
        CastPointType::Destination => None,
    }
}

/// A ray of direction `d` can enter a cell through face `s`: a vertical
/// line only with `x` motion, crossed in the sense of `d.x`; a horizontal
/// one in the sense of `d.y`, unless the ray moves along `x` alone.
pub open spec fn crossable(d: Vector2, s: Side) -> bool {
    if s.is_x_face() {
        d.x != 0 && s == Side::along_x_spec(d.x >= 0)
    } else {
        (d.y != 0 || d.x == 0) && s == Side::along_y_spec(d.y >= 0)
    }
}

/// No reflection is recorded before index `i`.
pub open spec fn unreflected_before(s: Seq<CastPoint>, i: int) -> bool {
    forall|j: int| 0 <= j < i ==> !(#[trigger] s[j].cast_type is Reflection)
}

/// Until the first reflection, every face a walk records is one its
/// direction crosses.
#[verifier::spinoff_prover]
pub proof fn lemma_walk_sides(map: &GridMap, rules: CastRules, finite: bool, budget: nat, st: Walk)
    requires
        map.wf(),
        crossable(st.d, st.side),
    ensures
        ({
            let s = walk(map, rules, finite, budget, st);
            forall|i: int|
                0 <= i < s.len() && unreflected_before(s, i) && side_of(#[trigger] s[i]) is Some
                    ==> crossable(st.d, side_of(s[i])->Some_0)
        }),
    decreases budget, check_rank(st), cells_left(map, st),
{
    let s = walk(map, rules, finite, budget, st);
    if budget == 0 || (finite && at_dest(st)) {
    } else if !st.check {
        lemma_walk_sides(map, rules, finite, budget, step(st));
    } else if st.cur.x < 0 || st.cur.y < 0 || map.cell_spec(st.gx as int, st.gy as int) is None {
    } else {
        let m = map.cell_spec(st.gx as int, st.gy as int)->Some_0;
        let head = s[0];
        match classify_spec(rules, map.props_spec(m)) {
            Hit::Stop => {},
            Hit::Mirror => {
                assert forall|i: int| 0 < i < s.len() implies !unreflected_before(s, i) by {
                    assert(s[0].cast_type is Reflection);
                }
            },
            Hit::Through => {
                let rest = walk(map, rules, finite, (budget - 1) as nat, step(st));
                lemma_walk_sides(map, rules, finite, (budget - 1) as nat, step(st));
                assert(s == seq![head].add(rest));
                assert forall|i: int|
                    0 < i < s.len() && unreflected_before(s, i) && side_of(#[trigger] s[i]) is Some
                        implies crossable(st.d, side_of(s[i])->Some_0) by {
                    assert(s[i] == rest[i - 1]);
                    assert(unreflected_before(rest, i - 1)) by {
                        assert forall|j: int| 0 <= j < i - 1 implies !(#[trigger] rest[j].cast_type is Reflection) by {
                            assert(rest[j] == s[j + 1]);
                        }
                    }
                }
            },
            Hit::Open => {
                lemma_step_closer(map, st);
                lemma_walk_sides(map, rules, finite, budget, step(st));
            },
        }
    }
}


/// Both coordinates of `p` are within `2 * LIMIT`.
pub open spec fn point_in_reach(p: Point2) -> bool {
    -2 * LIMIT <= p.x <= 2 * LIMIT && -2 * LIMIT <= p.y <= 2 * LIMIT
}

proof fn lemma_walk_ok_reach(st: Walk)
    requires
        walk_ok(st),
    ensures
        point_in_reach(st.cur),
        point_in_reach(dest_of(st)),
{
    reveal(walk_ok);
}

/// Every point that a walk records is within reach.
#[verifier::spinoff_prover]
pub proof fn lemma_walk_points(map: &GridMap, rules: CastRules, finite: bool, budget: nat, st: Walk)
    requires
        map.wf(),
        walk_ok(st),
    ensures
        ({
            let s = walk(map, rules, finite, budget, st);
            forall|i: int| 0 <= i < s.len() ==> point_in_reach(#[trigger] s[i].point)
        }),
    decreases budget, check_rank(st), cells_left(map, st),
{
    let s = walk(map, rules, finite, budget, st);
    lemma_walk_ok_reach(st);
    if budget == 0 || (finite && at_dest(st)) {
    } else if !st.check {
        lemma_unchecked_cells(st);
        lemma_step_ok(st);
        lemma_walk_points(map, rules, finite, budget, step(st));
    } else if st.cur.x < 0 || st.cur.y < 0 || map.cell_spec(st.gx as int, st.gy as int) is None {
    } else {
        let m = map.cell_spec(st.gx as int, st.gy as int)->Some_0;
        match classify_spec(rules, map.props_spec(m)) {
            Hit::Stop => {},
            Hit::Mirror => {
                lemma_reflect_ok(map, st, finite);
                lemma_walk_points(map, rules, finite, (budget - 1) as nat, reflect(st, finite));
                let rest = walk(map, rules, finite, (budget - 1) as nat, reflect(st, finite));
                assert(forall|i: int| 0 < i < s.len() ==> s[i] == rest[i - 1]);
            },
            Hit::Through => {
                lemma_step_ok(st);
                lemma_walk_points(map, rules, finite, (budget - 1) as nat, step(st));
                let rest = walk(map, rules, finite, (budget - 1) as nat, step(st));
                assert(forall|i: int| 0 < i < s.len() ==> s[i] == rest[i - 1]);
            },
            Hit::Open => {
                lemma_step_closer(map, st);
                lemma_step_ok(st);
                lemma_walk_points(map, rules, finite, budget, step(st));
            },
        }
    }
}

/// The number of reflections among the first `i` events.
pub open spec fn reflections_before(s: Seq<CastPoint>, i: int) -> nat
    decreases i,
{
    if i <= 0 {
        0
    } else {
        reflections_before(s, i - 1) + if s[i - 1].cast_type is Reflection {
            1nat
        } else {
            0nat
        }
    }
}

proof fn lemma_reflections_shift(head: CastPoint, rest: Seq<CastPoint>, i: int)
    requires
        0 <= i <= rest.len(),
    ensures
        reflections_before(seq![head].add(rest), i + 1) == reflections_before(rest, i) + if head.cast_type is Reflection {
            1nat
        } else {
            0nat
        },
    decreases i,
{
    let s = seq![head].add(rest);
    assert(s[0] == head);
    assert(reflections_before(s, 0) == 0);
    assert(reflections_before(rest, 0) == 0);
    if i > 0 {
        lemma_reflections_shift(head, rest, i - 1);
        assert(s[i] == rest[i - 1]);
        assert(reflections_before(s, i + 1) == reflections_before(s, i) + if s[i].cast_type is Reflection {
            1nat
        } else {
            0nat
        });
        assert(reflections_before(rest, i) == reflections_before(rest, i - 1) + if rest[i - 1].cast_type is Reflection {
            1nat
        } else {
            0nat
        });
    } else {
        assert(reflections_before(s, 1) == reflections_before(s, 0) + if s[0].cast_type is Reflection {
            1nat
        } else {
            0nat
        });
    }
}

/// Each event's face is the one that a ray moving along `x` in the sense
/// `positive` enters, reversed once for each reflection before it.
pub open spec fn sides_alternate(s: Seq<CastPoint>, positive: bool) -> bool {
    forall|i: int|
        0 <= i < s.len() && side_of(#[trigger] s[i]) is Some ==> side_of(s[i])->Some_0
            == Side::along_x_spec(positive == (reflections_before(s, i) % 2 == 0))
}

#[verifier::spinoff_prover]
proof fn lemma_alternate_at(head: CastPoint, rest: Seq<CastPoint>, positive: bool, i: int)
    requires
        0 < i <= rest.len(),
        side_of(rest[i - 1]) is Some,
        sides_alternate(
            rest,
            if head.cast_type is Reflection {
                !positive
            } else {
                positive
            },
        ),
    ensures
        side_of(seq![head].add(rest)[i])->Some_0 == Side::along_x_spec(
            positive == (reflections_before(seq![head].add(rest), i) % 2 == 0),
        ),
{
    let s = seq![head].add(rest);
    assert(s[i] == rest[i - 1]);
    lemma_reflections_shift(head, rest, i - 1);
    let k = reflections_before(rest, i - 1);
    assert(side_of(rest[i - 1]) is Some);
    if head.cast_type is Reflection {
        assert(reflections_before(s, i) == k + 1);
        assert(((k + 1) % 2 == 0) == !(k % 2 == 0));
    } else {
        assert(reflections_before(s, i) == k);
    }
}

#[verifier::spinoff_prover]
proof fn lemma_alternate_cons(head: CastPoint, rest: Seq<CastPoint>, positive: bool)
    requires
        side_of(head) is Some ==> side_of(head)->Some_0 == Side::along_x_spec(positive),
        sides_alternate(
            rest,
            if head.cast_type is Reflection {
                !positive
            } else {
                positive
            },
        ),
    ensures
        sides_alternate(seq![head].add(rest), positive),
{
    let s = seq![head].add(rest);
    assert(s[0] == head);
    assert(reflections_before(s, 0) == 0);
    assert forall|i: int|
        0 <= i < s.len() && side_of(#[trigger] s[i]) is Some implies side_of(s[i])->Some_0
            == Side::along_x_spec(positive == (reflections_before(s, i) % 2 == 0)) by {
        if i > 0 {
            assert(s[i] == rest[i - 1]);
            lemma_alternate_at(head, rest, positive, i);
        }
    }
}

/// A walk along `x` alone keeps to `x` faces, and each reflection turns it
/// round.
#[verifier::spinoff_prover]
pub proof fn lemma_walk_axis_x(map: &GridMap, rules: CastRules, finite: bool, budget: nat, st: Walk)
    requires
        map.wf(),
        walk_ok(st),
        st.d.y == 0,
        st.d.x != 0,
        st.side == Side::along_x_spec(st.d.x > 0),
    ensures
        sides_alternate(walk(map, rules, finite, budget, st), st.d.x > 0),
    decreases budget, check_rank(st), cells_left(map, st),
{
    let s = walk(map, rules, finite, budget, st);
    let pos = st.d.x > 0;
    let dest = CastPoint { point: dest_of(st), cast_type: CastPointType::Destination };
    let empty = Seq::<CastPoint>::empty();
    if budget == 0 || (finite && at_dest(st)) {
        lemma_alternate_cons(dest, empty, pos);
        assert(seq![dest] == seq![dest].add(empty));
    } else if !st.check {
        lemma_unchecked_cells(st);
        lemma_step_ok(st);
        lemma_walk_axis_x(map, rules, finite, budget, step(st));
    } else if st.cur.x < 0 || st.cur.y < 0 || map.cell_spec(st.gx as int, st.gy as int) is None {
        let void = CastPoint { point: st.cur, cast_type: CastPointType::Void(st.side) };
        lemma_alternate_cons(dest, empty, pos);
        assert(seq![dest] == seq![dest].add(empty));
        lemma_alternate_cons(void, seq![dest], pos);
        assert(seq![void, dest] == seq![void].add(seq![dest]));
        lemma_alternate_cons(void, empty, pos);
        assert(seq![void] == seq![void].add(empty));
    } else {
        let m = map.cell_spec(st.gx as int, st.gy as int)->Some_0;
        let head = s[0];
        match classify_spec(rules, map.props_spec(m)) {
            Hit::Stop => {
                lemma_alternate_cons(head, empty, pos);
                assert(s == seq![head].add(empty));
            },
            Hit::Mirror => {
                let n = reflect(st, finite);
                lemma_reflect_ok(map, st, finite);
                lemma_mirrored_bounded(map, st, finite);
                lemma_walk_axis_x(map, rules, finite, (budget - 1) as nat, n);
                let rest = walk(map, rules, finite, (budget - 1) as nat, n);
                lemma_alternate_cons(head, rest, pos);
            },
            Hit::Through => {
                lemma_step_ok(st);
                lemma_walk_axis_x(map, rules, finite, (budget - 1) as nat, step(st));
                let rest = walk(map, rules, finite, (budget - 1) as nat, step(st));
                lemma_alternate_cons(head, rest, pos);
            },
            Hit::Open => {
                lemma_step_closer(map, st);
                lemma_step_ok(st);
                lemma_walk_axis_x(map, rules, finite, budget, step(st));
            },
        }
    }
}

/// Until the first reflection, a recorded destination is the end of the
/// walk's current segment.
#[verifier::spinoff_prover]
pub proof fn lemma_walk_dest(map: &GridMap, rules: CastRules, finite: bool, budget: nat, st: Walk)
    requires
        map.wf(),
    ensures
        ({
            let s = walk(map, rules, finite, budget, st);
            forall|i: int|
                0 <= i < s.len() && unreflected_before(s, i) && (#[trigger] s[i]).cast_type
                    is Destination ==> s[i].point == dest_of(st)
        }),
    decreases budget, check_rank(st), cells_left(map, st),
{
    let s = walk(map, rules, finite, budget, st);
    if budget == 0 || (finite && at_dest(st)) {
    } else if !st.check {
        lemma_walk_dest(map, rules, finite, budget, step(st));
    } else if st.cur.x < 0 || st.cur.y < 0 || map.cell_spec(st.gx as int, st.gy as int) is None {
    } else {
        let m = map.cell_spec(st.gx as int, st.gy as int)->Some_0;
        let head = s[0];
        match classify_spec(rules, map.props_spec(m)) {
            Hit::Stop => {},
            Hit::Mirror => {
                assert forall|i: int| 0 < i < s.len() implies !unreflected_before(s, i) by {
                    assert(s[0].cast_type is Reflection);
                }
            },
            Hit::Through => {
                let rest = walk(map, rules, finite, (budget - 1) as nat, step(st));
                lemma_walk_dest(map, rules, finite, (budget - 1) as nat, step(st));
                assert(s == seq![head].add(rest));
                assert forall|i: int|
                    0 < i < s.len() && unreflected_before(s, i) && (#[trigger] s[i]).cast_type
                        is Destination implies s[i].point == dest_of(st) by {
                    assert(s[i] == rest[i - 1]);
                    assert(unreflected_before(rest, i - 1)) by {
                        assert forall|j: int| 0 <= j < i - 1 implies !(#[trigger] rest[j].cast_type is Reflection) by {
                            assert(rest[j] == s[j + 1]);
                        }
                    }
                }
            },
            Hit::Open => {
                lemma_step_closer(map, st);
                lemma_walk_dest(map, rules, finite, budget, step(st));
            },
        }
    }
}

/// Scanning a finite cast from index `i` for what a move must give up:
/// the last point reached up to and including the first recorded material,
/// and the face of that material, of a void passed on the way, or none
/// where the scan ended at the destination.
pub open spec fn clip_scan(pts: Seq<CastPoint>, i: int, point: Point2, side: Option<Side>) -> (
    Point2,
    Option<Side>,
)
    decreases pts.len() - i,
{
    if i < 0 || i >= pts.len() {
        (point, side)
    } else {
        let c = pts[i];
        match c.cast_type {
            CastPointType::Reflection(_, s) | CastPointType::Pass(_, s) | CastPointType::Termination(
                _,
                s,
            ) => (c.point, Some(s)),
            CastPointType::Void(s) => clip_scan(pts, i + 1, c.point, Some(s)),
            CastPointType::Destination => clip_scan(pts, i + 1, c.point, None),
        }
    }
}

/// The clip vector of the events `pts` of a finite cast from `origin` to
/// `target`, and the face it was clipped at.
pub open spec fn clip_of(pts: Seq<CastPoint>, origin: Point2, target: Point2) -> (Vector2, Option<Side>) {
    let (p, side) = clip_scan(pts, 0, origin, None);
    (Vector2 { x: (target.x - p.x) as i64, y: (target.y - p.y) as i64 }, side)
}

/// A scan over destinations alone ends at the last of them, with no face.
pub proof fn lemma_clip_scan_free(pts: Seq<CastPoint>, i: int, point: Point2, side: Option<Side>)
    requires
        0 <= i < pts.len(),
        forall|j: int| 0 <= j < pts.len() ==> (#[trigger] pts[j]).cast_type is Destination,
    ensures
        clip_scan(pts, i, point, side) == (pts[pts.len() - 1].point, None::<Side>),
    decreases pts.len() - i,
{
    if i + 1 < pts.len() {
        lemma_clip_scan_free(pts, i + 1, pts[i].point, None);
    } else {
        assert(clip_scan(pts, i + 1, pts[i].point, None) == (pts[i].point, None::<Side>));
    }
}

proof fn lemma_clip_scan_reach(pts: Seq<CastPoint>, i: int, point: Point2, side: Option<Side>)
    requires
        point_in_reach(point),
        forall|j: int| 0 <= j < pts.len() ==> point_in_reach(#[trigger] pts[j].point),
    ensures
        point_in_reach(clip_scan(pts, i, point, side).0),
    decreases pts.len() - i,
{
    if 0 <= i < pts.len() {
        match pts[i].cast_type {
            CastPointType::Void(s) => lemma_clip_scan_reach(pts, i + 1, pts[i].point, Some(s)),
            CastPointType::Destination => lemma_clip_scan_reach(pts, i + 1, pts[i].point, None),
            _ => {},
        }
    }
}

impl CastPoints {
    /// The clip vector `target - point` and its face, with `(point, face)`
    /// from `clip_scan` started at the origin.
    pub open spec fn clip_spec(&self) -> (Vector2, Option<Side>) {
        clip_of(self.inner@, self.origin, self.target->Some_0)
    }

    /// The part of a finite cast's displacement that lies past the first
    /// material it met, and the face of that material.
    pub fn clip(&self) -> (r: (Vector2, Option<Side>))
        requires
            self.target is Some,
            point_in_reach(self.target->Some_0),
            point_in_reach(self.origin),
            forall|j: int| 0 <= j < self.inner.len() ==> point_in_reach(#[trigger] self.inner@[j].point),
        ensures
            r == self.clip_spec(),
            -6 * LIMIT <= r.0.x <= 6 * LIMIT,
            -6 * LIMIT <= r.0.y <= 6 * LIMIT,
    {
        let target = match self.target {
            Some(t) => t,
            None => self.origin,
        };
        let mut point = self.origin;
        let mut side: Option<Side> = None;
        let mut i: usize = 0;
        let mut done = false;
        proof {
            lemma_clip_scan_reach(self.inner@, 0, self.origin, None);
        }
        while i < self.inner.len() && !done
            invariant
                i <= self.inner.len(),
                point_in_reach(point),
                forall|j: int| 0 <= j < self.inner.len() ==> point_in_reach(#[trigger] self.inner@[j].point),
                done ==> clip_scan(self.inner@, 0, self.origin, None) == (point, side),
                !done ==> clip_scan(self.inner@, 0, self.origin, None) == clip_scan(
                    self.inner@,
                    i as int,
                    point,
                    side,
                ),
            decreases self.inner.len() - i,
        {
            let cp = self.inner[i];
            point = cp.point;
            match cp.cast_type {
                CastPointType::Reflection(_, s) | CastPointType::Pass(_, s) | CastPointType::Termination(
                    _,
                    s,
                ) => {
                    side = Some(s);
                    done = true;
                },
                CastPointType::Void(s) => {
                    side = Some(s);
                },
                CastPointType::Destination => {
                    side = None;
                },
            }
            i = i + 1;
        }
        (Vector2 { x: target.x - point.x, y: target.y - point.y }, side)
    }
}

/// The current point lies in the current cell, on the side the walk
/// entered it from, and neither next grid line is behind it in time.
#[verifier::opaque]
pub open spec fn walk_tracks(st: Walk) -> bool {
    &&& (st.d.x >= 0 ==> st.gx * ONE <= st.cur.x)
    &&& (st.d.x < 0 ==> st.cur.x <= (st.gx + 1) * ONE)
    &&& (st.d.y >= 0 ==> st.gy * ONE <= st.cur.y)
    &&& (st.d.y < 0 ==> st.cur.y <= (st.gy + 1) * ONE)
    &&& ahead_x(st) * st.td >= st.tn * abs(st.d.x as int)
    &&& ahead_y(st) * st.td >= st.tn * abs(st.d.y as int)
}

/// Of two fractions, the larger scales to the larger floor.
proof fn lemma_floor_mono(a: int, b: int, c: int, d: int, k: int)
    requires
        b > 0,
        d > 0,
        k >= 0,
        a >= 0,
        c >= 0,
        a * d >= c * b,
    ensures
        a * k / b >= c * k / d,
{
    let q = c * k / d;
    assert(q * d <= c * k) by (nonlinear_arith)
        requires
            q == c * k / d,
            d > 0,
    ;
    assert(q * d * b <= c * k * b) by (nonlinear_arith)
        requires
            q * d <= c * k,
            b > 0,
    ;
    assert(c * k * b <= a * d * k) by (nonlinear_arith)
        requires
            a * d >= c * b,
            k >= 0,
    ;
    assert(q * b <= a * k) by (nonlinear_arith)
        requires
            q * d * b <= a * d * k,
            d > 0,
    ;
    assert(q <= a * k / b) by (nonlinear_arith)
        requires
            q * b <= a * k,
            b > 0,
    ;
}

proof fn lemma_start_tracks(from: Point2, dist: Vector2, check: bool)
    requires
        from.is_bounded(),
    ensures
        walk_tracks(start(from, dist, check)),
{
    reveal(walk_tracks);
    lemma_start_cell(from.x as int, dist.x as int);
    lemma_start_cell(from.y as int, dist.y as int);
}

#[verifier::spinoff_prover]
proof fn lemma_step_tracks(st: Walk)
    requires
        walk_ok(st),
        walk_tracks(st),
        !st.d.is_zero(),
        -CELL_BOUND < st.gx < CELL_BOUND,
        -CELL_BOUND < st.gy < CELL_BOUND,
    ensures
        walk_tracks(step(st)),
{
    reveal(walk_ok);
    reveal(walk_tracks);
    let n = step(st);
    let ax = ahead_x(st);
    let ay = ahead_y(st);
    let adx = abs(st.d.x as int);
    let ady = abs(st.d.y as int);
    let tn = st.tn as int;
    let td = st.td as int;
    assert(ax * ady >= 0 && ay * adx >= 0) by (nonlinear_arith)
        requires
            ax >= 0,
            ay >= 0,
            adx >= 0,
            ady >= 0,
    ;
    if steps_x(st) {
        if st.d.y == 0 {
            assert(ady == 0);
            assert(ax * ady == 0) by (nonlinear_arith)
                requires
                    ady == 0,
            ;
        }
        lemma_div_bound(ax, ady, adx, ay);
        lemma_div_cancel(ax, adx);
        lemma_floor_mono(ax, adx, tn, td, ady);
        assert(ahead_x(n) == ax + ONE);
        assert(ahead_y(n) == ay);
        assert((ax + ONE) * adx >= ax * adx) by (nonlinear_arith)
            requires
                adx > 0,
                ax >= 0,
        ;
    } else {
        assert(ady > 0);
        if st.d.x == 0 {
            assert(adx == 0);
            assert(ay * adx == 0) by (nonlinear_arith)
                requires
                    adx == 0,
            ;
        }
        lemma_div_bound(ay, adx, ady, ax);
        lemma_div_cancel(ay, ady);
        lemma_floor_mono(ay, ady, tn, td, adx);
        assert(ahead_y(n) == ay + ONE);
        assert(ahead_x(n) == ax);
        assert((ay + ONE) * ady >= ay * ady) by (nonlinear_arith)
            requires
                ady > 0,
                ay >= 0,
        ;
        if st.d.x == 0 {
            assert(ay * adx / ady == 0);
            assert(tn * adx / td == 0);
        }
    }
}

/// Every cell of the map is air.
pub open spec fn all_air(map: &GridMap) -> bool {
    forall|i: int| 0 <= i < map.grid.len() ==> (#[trigger] map.grid[i]).is_air_spec()
}

/// `p` lies within the map's rectangle.
pub open spec fn inside(map: &GridMap, p: Point2) -> bool {
    0 <= p.x < map.width * ONE && 0 <= p.y < map.height_spec() * ONE
}

#[verifier::spinoff_prover]
pub open spec fn min_int(a: int, b: int) -> int {
    if a < b {
        a
    } else {
        b
    }
}

pub open spec fn max_int(a: int, b: int) -> int {
    if a < b {
        b
    } else {
        a
    }
}

/// Every cell on the grid within the bounding box of the cells of `a` and
/// `b` lets a cast under `rules` through without recording anything.
pub open spec fn box_open(map: &GridMap, rules: CastRules, a: Point2, b: Point2) -> bool {
    let one = ONE as int;
    let (ax, ay, bx, by) = (a.x as int, a.y as int, b.x as int, b.y as int);
    forall|x: int, y: int|
        min_int(ax / one, bx / one) <= x <= max_int(ax / one, bx / one) && min_int(ay / one, by / one) <= y
            <= max_int(ay / one, by / one) && (#[trigger] map.cell_spec(x, y)) is Some
            ==> classify_spec(rules, map.props_spec(map.cell_spec(x, y)->Some_0)) == Hit::Open
}

#[verifier::spinoff_prover]
proof fn lemma_open_walk(map: &GridMap, rules: CastRules, budget: nat, st: Walk)
    requires
        map.wf(),
        box_open(map, rules, st.o, dest_of(st)),
        walk_ok(st),
        walk_tracks(st),
        budget >= 1,
        inside(map, st.o),
        inside(map, dest_of(st)),
    ensures
        walk(map, rules, true, budget, st) == seq![
            CastPoint { point: dest_of(st), cast_type: CastPointType::Destination },
        ],
    decreases check_rank(st), cells_left(map, st),
{
    if at_dest(st) {
        return;
    }
    if !st.check {
        lemma_unchecked_cells(st);
        lemma_step_ok(st);
        lemma_step_tracks(st);
        lemma_open_walk(map, rules, budget, step(st));
        return;
    }
    reveal(walk_ok);
    reveal(walk_tracks);
    let adx = abs(st.d.x as int);
    let ady = abs(st.d.y as int);
    let tn = st.tn as int;
    let td = st.td as int;
    let w = map.width as int;
    let h = map.height_spec();
    assert(tn * adx <= adx * td && tn * ady <= ady * td) by (nonlinear_arith)
        requires
            0 <= tn < td,
            adx >= 0,
            ady >= 0,
    ;
    lemma_div_bound(tn, adx, td, adx);
    lemma_div_bound(tn, ady, td, ady);
    if adx > 0 {
        assert(tn * adx / td < adx) by (nonlinear_arith)
            requires
                0 <= tn < td,
                adx > 0,
        ;
    }
    if ady > 0 {
        assert(tn * ady / td < ady) by (nonlinear_arith)
            requires
                0 <= tn < td,
                ady > 0,
        ;
    }
    if adx == 0 {
        assert(tn * adx / td == 0);
    }
    if ady == 0 {
        assert(tn * ady / td == 0);
    }
    assert(0 <= st.gx < w && 0 <= st.gy < h);
    let one = ONE as int;
    let dest = dest_of(st);
    vstd::arithmetic::div_mod::lemma_fundamental_div_mod(st.o.x as int, one);
    vstd::arithmetic::div_mod::lemma_fundamental_div_mod(st.o.y as int, one);
    vstd::arithmetic::div_mod::lemma_fundamental_div_mod(dest.x as int, one);
    vstd::arithmetic::div_mod::lemma_fundamental_div_mod(dest.y as int, one);
    assert(min_int((st.o.x as int) / one, (dest.x as int) / one) <= st.gx <= max_int(
        (st.o.x as int) / one,
        (dest.x as int) / one,
    ));
    assert(min_int((st.o.y as int) / one, (dest.y as int) / one) <= st.gy <= max_int(
        (st.o.y as int) / one,
        (dest.y as int) / one,
    ));
    assert(map.cell_spec(st.gx as int, st.gy as int) is Some);
    lemma_step_closer(map, st);
    lemma_step_ok(st);
    lemma_step_tracks(st);
    lemma_open_walk(map, rules, budget, step(st));
}

/// A finite cast between two points inside the map, where every cell in
/// the bounding box of their cells lets it through, records its
/// destination and nothing else.
pub proof fn lemma_open_cast(
    map: &GridMap,
    rules: CastRules,
    from: Point2,
    dist: Vector2,
    node_limit: nat,
    skip_first_check: bool,
)
    requires
        map.wf(),
        from.is_bounded(),
        dist.is_bounded(),
        node_limit >= 1,
        inside(map, from),
        inside(map, Point2 { x: (from.x + dist.x) as i64, y: (from.y + dist.y) as i64 }),
        box_open(map, rules, from, Point2 { x: (from.x + dist.x) as i64, y: (from.y + dist.y) as i64 }),
    ensures
        cast_spec(map, rules, from, dist, true, node_limit, skip_first_check) == seq![
            CastPoint {
                point: Point2 { x: (from.x + dist.x) as i64, y: (from.y + dist.y) as i64 },
                cast_type: CastPointType::Destination,
            },
        ],
{
    let st = start(from, dist, !skip_first_check);
    lemma_start_ok(from, dist, !skip_first_check);
    lemma_start_tracks(from, dist, !skip_first_check);
    lemma_open_walk(map, rules, node_limit, st);
}

/// A finite cast through a map of air alone, between two points inside
/// it, records its destination and nothing else.
pub proof fn lemma_empty_map_cast(
    map: &GridMap,
    rules: CastRules,
    from: Point2,
    dist: Vector2,
    node_limit: nat,
    skip_first_check: bool,
)
    requires
        map.wf(),
        all_air(map),
        from.is_bounded(),
        dist.is_bounded(),
        node_limit >= 1,
        inside(map, from),
        inside(map, Point2 { x: (from.x + dist.x) as i64, y: (from.y + dist.y) as i64 }),
    ensures
        cast_spec(map, rules, from, dist, true, node_limit, skip_first_check) == seq![
            CastPoint {
                point: Point2 { x: (from.x + dist.x) as i64, y: (from.y + dist.y) as i64 },
                cast_type: CastPointType::Destination,
            },
        ],
{
    let dest = Point2 { x: (from.x + dist.x) as i64, y: (from.y + dist.y) as i64 };
    assert forall|x: int, y: int|
        #![trigger map.cell_spec(x, y)]
        map.cell_spec(x, y) is Some implies classify_spec(
            rules,
            map.props_spec(map.cell_spec(x, y)->Some_0),
        ) == Hit::Open by {
        let w = map.width as int;
        assert(0 <= y * w + x < map.grid.len()) by (nonlinear_arith)
            requires
                0 <= x < w,
                0 <= y < map.height_spec(),
                map.height_spec() == (map.grid.len() as int) / w,
                w > 0,
        ;
        assert(map.grid[y * w + x].is_air_spec());
    }
    assert(box_open(map, rules, from, dest));
    lemma_open_cast(map, rules, from, dist, node_limit, skip_first_check);
}

/// The material an event records, if it records one.
pub open spec fn mat_of(c: CastPoint) -> Option<Mat> {
    match c.cast_type {
        CastPointType::Reflection(m, _) | CastPointType::Pass(m, _) | CastPointType::Termination(m, _) => Some(m),
        _ => None,
    }
}

/// A recorded material is never air and always has properties.
pub open spec fn mat_known(map: &GridMap, c: CastPoint) -> bool {
    mat_of(c) matches Some(m) ==> !m.is_air_spec() && m.index_spec() < map.properties.len()
}

/// Every material that a walk records is a known, non-air one.
#[verifier::spinoff_prover]
pub proof fn lemma_walk_mats(map: &GridMap, rules: CastRules, finite: bool, budget: nat, st: Walk)
    requires
        map.wf(),
    ensures
        ({
            let s = walk(map, rules, finite, budget, st);
            forall|i: int| 0 <= i < s.len() ==> mat_known(map, #[trigger] s[i])
        }),
    decreases budget, check_rank(st), cells_left(map, st),
{
    let s = walk(map, rules, finite, budget, st);
    if budget == 0 || !map.wf() {
    } else if finite && at_dest(st) {
        assert(s.len() == 1 && mat_known(map, s[0]));
    } else if !st.check {
        lemma_walk_mats(map, rules, finite, budget, step(st));
        assert(s == walk(map, rules, finite, budget, step(st)));
    } else if st.cur.x < 0 || st.cur.y < 0 || map.cell_spec(st.gx as int, st.gy as int) is None {
        assert(mat_known(map, s[0]));
        assert(s.len() >= 1);
        if finite {
            assert(s.len() == 2 && mat_known(map, s[1]));
        } else {
            assert(s.len() == 1);
        }
    } else {
        let m = map.cell_spec(st.gx as int, st.gy as int)->Some_0;
        let w = map.width as int;
        assert(0 <= st.gy * w + st.gx < map.grid.len()) by (nonlinear_arith)
            requires
                0 <= st.gx < w,
                0 <= st.gy < map.height_spec(),
                map.height_spec() == (map.grid.len() as int) / w,
                w > 0,
        ;
        assert(m == map.grid[st.gy * w + st.gx]);
        assert(m.is_air_spec() || m.index_spec() < map.properties.len());
        if classify_spec(rules, map.props_spec(m)) != Hit::Open {
            assert(!m.is_air_spec());
            assert(mat_known(map, s[0]));
        }
        match classify_spec(rules, map.props_spec(m)) {
            Hit::Stop => {
                assert(s.len() == 1);
            },
            Hit::Mirror => {
                lemma_walk_mats(map, rules, finite, (budget - 1) as nat, reflect(st, finite));
                let rest = walk(map, rules, finite, (budget - 1) as nat, reflect(st, finite));
                assert forall|i: int| 0 <= i < s.len() implies mat_known(map, #[trigger] s[i]) by {
                    if i > 0 {
                        assert(s[i] == rest[i - 1]);
                        assert(mat_known(map, rest[i - 1]));
                    }
                }
            },
            Hit::Through => {
                lemma_walk_mats(map, rules, finite, (budget - 1) as nat, step(st));
                let rest = walk(map, rules, finite, (budget - 1) as nat, step(st));
                assert forall|i: int| 0 <= i < s.len() implies mat_known(map, #[trigger] s[i]) by {
                    if i > 0 {
                        assert(s[i] == rest[i - 1]);
                        assert(mat_known(map, rest[i - 1]));
                    }
                }
            },
            Hit::Open => {
                lemma_step_closer(map, st);
                lemma_walk_mats(map, rules, finite, budget, step(st));
                assert(s == walk(map, rules, finite, budget, step(st)));
            },
        }
    }
}

/// The open cells from `g0` up to (not including) `x_mirror` along row
/// `gy`, and a mirror at `x_mirror`.
pub open spec fn mirror_ahead(map: &GridMap, rules: CastRules, gy: int, g0: int, x_mirror: int, m: Mat) -> bool {
    &&& g0 < x_mirror
    &&& forall|gx: int|
        g0 <= gx < x_mirror ==> (#[trigger] map.cell_spec(gx, gy)) is Some && classify_spec(
            rules,
            map.props_spec(map.cell_spec(gx, gy)->Some_0),
        ) == Hit::Open
    &&& map.cell_spec(x_mirror, gy) == Some(m)
    &&& classify_spec(rules, map.props_spec(m)) == Hit::Mirror
}

/// The remaining travel of a horizontal ray reflected at `q`, reversed.
pub open spec fn reflected_travel(from: Point2, dist: Vector2, finite: bool, q: Point2) -> Vector2 {
    let rx = if finite {
        from.x + dist.x - q.x
    } else {
        dist.x as int
    };
    Vector2 { x: (-rx) as i64, y: 0 }
}

#[verifier::spinoff_prover]
proof fn lemma_walk_mirror_steps(
    map: &GridMap,
    rules: CastRules,
    finite: bool,
    budget: nat,
    st: Walk,
    x_mirror: int,
    m: Mat,
)
    requires
        map.wf(),
        budget >= 1,
        st.d.x > 0,
        st.d.y == 0,
        st.check,
        st.o.is_bounded(),
        st.d.is_bounded(),
        st.o.x >= 0,
        st.o.y >= 0,
        st.cur.y == st.o.y,
        st.gy == (st.o.y as int) / (ONE as int),
        mirror_ahead(map, rules, st.gy as int, (st.o.x as int) / (ONE as int), x_mirror, m),
        (st.o.x as int) / (ONE as int) <= st.gx <= x_mirror,
        st.gx == (st.o.x as int) / (ONE as int) ==> st.cur == st.o && st.tn == 0 && st.td == 1,
        st.gx > (st.o.x as int) / (ONE as int) ==> st.cur.x == st.gx * ONE && st.side == Side::Left && st.td
            == st.d.x && st.tn == st.gx * ONE - st.o.x,
        finite ==> x_mirror * ONE < st.o.x + st.d.x,
    ensures
        ({
            let q = Point2 { x: (x_mirror * ONE) as i64, y: st.o.y };
            walk(map, rules, finite, budget, st) == seq![
                CastPoint { point: q, cast_type: CastPointType::Reflection(m, Side::Left) },
            ].add(
                walk(
                    map,
                    rules,
                    finite,
                    (budget - 1) as nat,
                    start(q, reflected_travel(st.o, st.d, finite, q), false),
                ),
            )
        }),
    decreases x_mirror - st.gx,
{
    let one = ONE as int;
    vstd::arithmetic::div_mod::lemma_fundamental_div_mod(st.o.x as int, one);
    assert(st.cur.x >= 0);
    assert(!(finite && at_dest(st)));
    assert(map.cell_spec(st.gx as int, st.gy as int) is Some);
    if st.gx < x_mirror {
        let n = step(st);
        assert(steps_x(st));
        assert(ahead_x(st) == (st.gx + 1) * ONE - st.o.x);
        assert(abs(st.d.y as int) == 0);
        assert(ahead_x(st) * abs(st.d.y as int) == 0) by (nonlinear_arith)
            requires
                abs(st.d.y as int) == 0,
        ;
        assert(n.gx == st.gx + 1 && n.cur.x == (st.gx + 1) * ONE && n.cur.y == st.o.y);
        lemma_walk_mirror_steps(map, rules, finite, budget, n, x_mirror, m);
    } else {
        let q = Point2 { x: (x_mirror * ONE) as i64, y: st.o.y };
        assert(st.cur == q);
        assert(mirrored(st, finite) == reflected_travel(st.o, st.d, finite, q));
    }
}

/// A ray along `+x` meeting open cells and then a mirror records the
/// reflection at the mirror's left face, then goes on exactly as a cast
/// from that point along the remaining travel with its `x` reversed (its
/// `y` still zero), whose first cell is the one in front of the mirror and
/// is not tested again.
pub proof fn lemma_mirror_reflects(
    map: &GridMap,
    rules: CastRules,
    from: Point2,
    dist: Vector2,
    finite: bool,
    node_limit: nat,
    x_mirror: int,
    m: Mat,
)
    requires
        map.wf(),
        from.is_bounded(),
        dist.is_bounded(),
        dist.x > 0,
        dist.y == 0,
        node_limit >= 1,
        from.x >= 0,
        from.y >= 0,
        mirror_ahead(map, rules, (from.y as int) / (ONE as int), (from.x as int) / (ONE as int), x_mirror, m),
        finite ==> x_mirror * ONE < from.x + dist.x,
    ensures
        ({
            let s = cast_spec(map, rules, from, dist, finite, node_limit, false);
            let q = Point2 { x: (x_mirror * ONE) as i64, y: from.y };
            &&& s.len() >= 1
            &&& s[0] == CastPoint { point: q, cast_type: CastPointType::Reflection(m, Side::Left) }
            &&& s.subrange(1, s.len() as int) == cast_spec(
                map,
                rules,
                q,
                reflected_travel(from, dist, finite, q),
                finite,
                (node_limit - 1) as nat,
                true,
            )
        }),
{
    let st0 = start(from, dist, true);
    lemma_start_cell(from.x as int, dist.x as int);
    lemma_start_cell(from.y as int, dist.y as int);
    lemma_walk_mirror_steps(map, rules, finite, node_limit, st0, x_mirror, m);
    let s = cast_spec(map, rules, from, dist, finite, node_limit, false);
    let q = Point2 { x: (x_mirror * ONE) as i64, y: from.y };
    let rest = walk(map, rules, finite, (node_limit - 1) as nat, start(q, reflected_travel(from, dist, finite, q), false));
    assert(s.subrange(1, s.len() as int) =~= rest);
}

} // verus!
