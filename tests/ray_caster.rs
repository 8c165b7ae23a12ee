use ulvestein::map::{ray_cast, CastPointType, CastRules, GridMap, Mat, Properties, Side};
use ulvestein::tex::Texture;
use ulvestein::vec::{Point2, Vector2, ONE};

const WALL: Properties = Properties { solid: true, transparent: false, reflective: false, door: false };
const MIRROR: Properties = Properties { solid: true, transparent: true, reflective: true, door: false };
const GLASS: Properties = Properties { solid: true, transparent: true, reflective: false, door: false };

fn tex() -> Texture {
    Texture::from_rgba(1, &vec![9, 9, 9, 255]).unwrap()
}

/// `#` wall, `m` mirror, `g` glass, anything else air.
fn map_of(rows: &[&str]) -> GridMap {
    let width = rows[0].len() as i32;
    let mut grid = Vec::new();
    for row in rows {
        for c in row.chars() {
            grid.push(match c {
                '#' => Mat::from_len(1),
                'm' => Mat::from_len(2),
                'g' => Mat::from_len(3),
                _ => Mat::air(),
            });
        }
    }
    let textures = vec![(tex(), tex()), (tex(), tex()), (tex(), tex())];
    GridMap::new("test".to_string(), width, grid, vec![WALL, MIRROR, GLASS], textures).unwrap()
}

fn pt(x2: i64, y2: i64) -> Point2 {
    // coordinates in half cells
    Point2::new(x2 * ONE / 2, y2 * ONE / 2)
}

#[test]
fn map_lookup_is_bounded() {
    let m = map_of(&["#.", ".#"]);
    assert_eq!(m.get(0, 0), Some(Mat::from_len(1)));
    assert_eq!(m.get(1, 0), Some(Mat::air()));
    assert_eq!(m.get(2, 0), None);
    assert_eq!(m.get(-1, 0), None);
    assert_eq!(m.get(0, -1), None);
    assert_eq!(m.get(0, 2), None);
}

#[test]
fn malformed_maps_are_refused() {
    let t = || (tex(), tex());
    assert!(GridMap::new("x".to_string(), 2, vec![Mat::air(); 3], vec![WALL], vec![t()]).is_none());
    assert!(GridMap::new("x".to_string(), 0, vec![], vec![WALL], vec![t()]).is_none());
    assert!(GridMap::new("x".to_string(), 1, vec![Mat::from_len(2)], vec![WALL], vec![t()]).is_none());
    assert!(GridMap::new("x".to_string(), 1, vec![Mat::from_len(1)], vec![WALL], vec![]).is_none());
}

#[test]
fn empty_map_finite_cast_reaches_destination() {
    let m = map_of(&["........"; 8]);
    let c = ray_cast(&m, CastRules::Render, pt(3, 3), Vector2::new(3 * ONE, 2 * ONE), true, 8, false);
    assert_eq!(c.inner.len(), 1);
    assert_eq!(c.inner[0].cast_type, CastPointType::Destination);
    assert_eq!(c.inner[0].point, pt(9, 7));
    assert_eq!(c.target, Some(pt(9, 7)));
}

#[test]
fn finite_cast_into_wall_terminates() {
    let m = map_of(&["#####", "#...#", "#####"]);
    let c = ray_cast(&m, CastRules::Movement, pt(3, 3), Vector2::new(4 * ONE, 0), true, 8, false);
    assert_eq!(c.inner.len(), 1);
    assert_eq!(c.inner[0].cast_type, CastPointType::Termination(Mat::from_len(1), Side::Left));
    assert_eq!(c.inner[0].point, pt(8, 3));
}

#[test]
fn moving_minus_y_enters_through_down_face() {
    let m = map_of(&["#####", "#...#", "#...#", "#...#", "#####"]);
    let c = ray_cast(&m, CastRules::Render, pt(5, 5), Vector2::new(0, -ONE), false, 8, false);
    assert_eq!(c.inner.len(), 1);
    assert_eq!(c.inner[0].cast_type, CastPointType::Termination(Mat::from_len(1), Side::Down));
    assert_eq!(c.inner[0].point, pt(5, 2));
    let c = ray_cast(&m, CastRules::Render, pt(5, 5), Vector2::new(-ONE, 0), false, 8, false);
    assert_eq!(c.inner[0].cast_type, CastPointType::Termination(Mat::from_len(1), Side::Right));
    let c = ray_cast(&m, CastRules::Render, pt(5, 5), Vector2::new(0, ONE), false, 8, false);
    assert_eq!(c.inner[0].cast_type, CastPointType::Termination(Mat::from_len(1), Side::Up));
}

#[test]
fn mirror_sends_ray_back() {
    let m = map_of(&["######", "#...m#", "######"]);
    let c = ray_cast(&m, CastRules::Render, pt(3, 3), Vector2::new(ONE, 0), false, 8, false);
    assert_eq!(c.inner.len(), 2);
    assert_eq!(c.inner[0].cast_type, CastPointType::Reflection(Mat::from_len(2), Side::Left));
    assert_eq!(c.inner[0].point, pt(8, 3));
    assert_eq!(c.inner[1].cast_type, CastPointType::Termination(Mat::from_len(1), Side::Right));
    assert_eq!(c.inner[1].point, pt(2, 3));
}

#[test]
fn movement_ignores_mirror_material_properties_but_stops() {
    let m = map_of(&["######", "#...m#", "######"]);
    let c = ray_cast(&m, CastRules::Movement, pt(3, 3), Vector2::new(ONE, 0), false, 8, false);
    assert_eq!(c.inner.len(), 1);
    assert_eq!(c.inner[0].cast_type, CastPointType::Termination(Mat::from_len(2), Side::Left));
}

#[test]
fn glass_is_passed_and_recorded() {
    let m = map_of(&["######", "#.g..#", "######"]);
    let c = ray_cast(&m, CastRules::Render, pt(3, 3), Vector2::new(ONE, 0), false, 8, false);
    assert_eq!(c.inner.len(), 2);
    assert_eq!(c.inner[0].cast_type, CastPointType::Pass(Mat::from_len(3), Side::Left));
    assert_eq!(c.inner[1].cast_type, CastPointType::Termination(Mat::from_len(1), Side::Left));
    assert_eq!(c.inner[1].point, pt(10, 3));
}

#[test]
fn node_budget_bounds_the_events() {
    let m = map_of(&["gggggg#"]);
    let c = ray_cast(&m, CastRules::Render, pt(1, 1), Vector2::new(ONE, 0), false, 2, false);
    assert_eq!(c.inner.len(), 2);
    assert!(c.inner.iter().all(|p| matches!(p.cast_type, CastPointType::Pass(_, Side::Left))));
    let c = ray_cast(&m, CastRules::Render, pt(1, 1), Vector2::new(ONE, 0), false, 0, false);
    assert!(c.inner.is_empty());
}

#[test]
fn leaving_the_grid_is_void() {
    let m = map_of(&["...", "..."]);
    let c = ray_cast(&m, CastRules::Render, pt(1, 1), Vector2::new(ONE, 0), false, 8, false);
    assert_eq!(c.inner.len(), 1);
    assert_eq!(c.inner[0].cast_type, CastPointType::Void(Side::Left));
    assert_eq!(c.inner[0].point, pt(6, 1));
    // a finite cast past the edge gets its destination after the void
    let c = ray_cast(&m, CastRules::Render, pt(1, 1), Vector2::new(5 * ONE, 0), true, 8, false);
    assert_eq!(c.inner.len(), 2);
    assert_eq!(c.inner[0].cast_type, CastPointType::Void(Side::Left));
    assert_eq!(c.inner[1].cast_type, CastPointType::Destination);
    assert_eq!(c.inner[1].point, pt(11, 1));
    // a negative origin is void at once
    let c = ray_cast(&m, CastRules::Render, pt(-1, 1), Vector2::new(ONE, 0), false, 8, false);
    assert_eq!(c.inner[0].cast_type, CastPointType::Void(Side::Left));
    assert_eq!(c.inner[0].point, pt(-1, 1));
}

#[test]
fn clip_of_blocked_and_free_casts() {
    let m = map_of(&["#####", "#.###", "#####"]);
    let c = ray_cast(&m, CastRules::Movement, pt(3, 3), Vector2::new(ONE, 0), true, 8, false);
    assert_eq!(c.clip(), (Vector2::new(ONE / 2, 0), Some(Side::Left)));
    let c = ray_cast(&m, CastRules::Movement, pt(3, 3), Vector2::new(ONE / 4, 0), true, 8, false);
    assert_eq!(c.clip(), (Vector2::new(0, 0), None));
}

#[test]
fn move_ray_cast_slides_and_pushes() {
    let m = map_of(&["#####", "#.###", "#.###", "#####"]);
    assert_eq!(m.move_ray_cast(pt(3, 3), Vector2::new(ONE / 4, ONE / 4)), Vector2::new(0, 0));
    assert_eq!(m.move_ray_cast(pt(3, 3), Vector2::new(ONE, 0)), Vector2::new(ONE / 2 + 328, 0));
    // a diagonal move keeps its motion along the wall
    assert_eq!(m.move_ray_cast(pt(3, 3), Vector2::new(ONE, ONE / 2)), Vector2::new(ONE / 2 + 328, 0));
}

#[test]
fn side_helpers() {
    assert_eq!(Side::Left.flip(), Side::Right);
    assert_eq!(Side::Up.flip(), Side::Down);
    assert_eq!(Side::Right.into_unit_vector(), Vector2::new(ONE, 0));
    assert_eq!(Side::Up.into_unit_vector(), Vector2::new(0, -ONE));
}

#[test]
fn render_cast_records_surfaces() {
    let m = map_of(&["######", "#.g..#", "######"]);
    let r = m.render_ray_cast(pt(3, 3), Vector2::new(ONE, 0));
    assert_eq!(r.len(), 2);
    let (dark, u, (p, dv, last), dist, mat) = r[0];
    assert!(dark);
    assert_eq!(u, ONE / 2);
    assert_eq!((p, dv, last), (pt(3, 3), Vector2::new(ONE / 2, 0), 0));
    assert_eq!(dist, ONE / 2);
    assert_eq!(mat, Mat::from_len(3));
    let (_, _, (p, _, last), dist, mat) = r[1];
    assert_eq!((p, last, dist, mat), (pt(4, 3), ONE / 2, 7 * ONE / 2, Mat::from_len(1)));
    // a downward hit is light, with u taken along x
    let m = map_of(&["###", "#.#", "#.#", "###"]);
    let r = m.render_ray_cast(Point2::new(ONE + ONE / 4, ONE + ONE / 2), Vector2::new(0, ONE));
    assert_eq!(r.len(), 1);
    assert!(!r[0].0);
    assert_eq!(r[0].1, ONE - ONE / 4);
}

#[test]
fn exact_corner_crossing_prefers_x() {
    let m = map_of(&[".#.", "#..", "..."]);
    let c = ray_cast(&m, CastRules::Render, pt(1, 1), Vector2::new(ONE, ONE), false, 8, false);
    assert_eq!(c.inner.len(), 1);
    assert_eq!(c.inner[0].cast_type, CastPointType::Termination(Mat::from_len(1), Side::Left));
    assert_eq!(c.inner[0].point, pt(2, 2));
}

#[test]
fn origin_on_a_grid_line_moving_back() {
    let m = map_of(&["#...#"]);
    let c = ray_cast(&m, CastRules::Render, Point2::new(2 * ONE, ONE / 2), Vector2::new(-ONE, 0), false, 8, false);
    assert_eq!(c.inner.len(), 1);
    assert_eq!(c.inner[0].cast_type, CastPointType::Termination(Mat::from_len(1), Side::Right));
    assert_eq!(c.inner[0].point, Point2::new(ONE, ONE / 2));
}
