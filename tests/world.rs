use ulvestein::map::{ray_cast, CastPointType, CastRules, GridMap, Mat, Properties, Side};
use ulvestein::tex::{Frame, Texture};
use ulvestein::vec::{Point2, Vector2, ONE};
use ulvestein::world::thing::Thing;
use ulvestein::world::{
    closest_point_of_line_to_circle, column_ray, depth_sorted, dist_line_circle, distance_line_circle,
    fisheye_corrected, step_vector, Fov, World,
};
use ulvestein::{HEIGHT, WIDTH};

const WALL: Properties = Properties { solid: true, transparent: false, reflective: false, door: false };

fn tex(c: [u8; 4]) -> Texture {
    Texture::from_rgba(1, &c.to_vec()).unwrap()
}

/// A square grid of side `n` bordered by walls.
fn bordered(n: usize) -> GridMap {
    let mut grid = Vec::new();
    for y in 0..n {
        for x in 0..n {
            let edge = x == 0 || y == 0 || x == n - 1 || y == n - 1;
            grid.push(if edge { Mat::from_len(1) } else { Mat::air() });
        }
    }
    let wall = tex([9, 9, 9, 255]);
    GridMap::new("square".to_string(), n as i32, grid, vec![WALL], vec![(wall.clone(), wall)]).unwrap()
}

/// tan(32.5 degrees) in `ONE` units: half of a 65 degree field of view.
const TAN_HALF_65: i64 = 41750;

#[test]
fn center_column_needs_no_correction() {
    let dir = Vector2::new(ONE, 0);
    assert_eq!(column_ray(dir, TAN_HALF_65, 160), dir);
    assert_eq!(fisheye_corrected(557056, dir, dir), 557056);
    let diag = Vector2::new(46341, 46341);
    assert_eq!(column_ray(diag, TAN_HALF_65, 160), diag);
    assert_eq!(fisheye_corrected(1000, diag, diag), 1000);
}

#[test]
fn edge_columns_turn_by_the_half_fov() {
    let dir = Vector2::new(ONE, 0);
    assert_eq!(column_ray(dir, TAN_HALF_65, 0), Vector2::new(ONE, -TAN_HALF_65));
    assert_eq!(column_ray(dir, TAN_HALF_65, 320), Vector2::new(ONE, TAN_HALF_65));
    // a ray at 45 degrees to the view sees cos 45 of the distance
    assert_eq!(fisheye_corrected(1000, Vector2::new(ONE, ONE), dir), 707);
}

#[test]
fn sixteen_square_center_column_hits_east_wall() {
    let map = bordered(16);
    let player = Point2::new(6 * ONE + ONE / 2, 6 * ONE + ONE / 2);
    let dir = Vector2::new(ONE, 0);
    let ray = column_ray(dir, TAN_HALF_65, 160);
    let cast = ray_cast(&map, CastRules::Render, player, ray, false, 8, true);
    assert_eq!(cast.inner.len(), 1);
    assert_eq!(cast.inner[0].cast_type, CastPointType::Termination(Mat::from_len(1), Side::Left));
    assert_eq!(cast.inner[0].point, Point2::new(15 * ONE, 6 * ONE + ONE / 2));
    let surfaces = map.render_ray_cast(player, ray);
    assert_eq!(surfaces.len(), 1);
    let dist = surfaces[0].3;
    assert_eq!(dist, 15 * ONE - (6 * ONE + ONE / 2));
    assert_eq!(fisheye_corrected(dist, ray, dir), dist);
}

#[test]
fn closest_point_on_segment() {
    let s = Point2::new(0, 0);
    let d = Vector2::new(10 * ONE, 0);
    assert_eq!(closest_point_of_line_to_circle(s, d, Point2::new(-ONE, ONE)), s);
    assert_eq!(closest_point_of_line_to_circle(s, d, Point2::new(3 * ONE, ONE)), Point2::new(3 * ONE, 0));
    assert_eq!(closest_point_of_line_to_circle(s, d, Point2::new(12 * ONE, 0)), Point2::new(10 * ONE, 0));
    assert_eq!(distance_line_circle(s, d, Point2::new(3 * ONE, ONE)), Vector2::new(0, -ONE));
    assert_eq!(dist_line_circle(s, d, Point2::new(3 * ONE, 2 * ONE)), 2 * ONE);
    // a zero segment is its start
    assert_eq!(closest_point_of_line_to_circle(s, Vector2::new(0, 0), Point2::new(ONE, ONE)), s);
}

#[test]
fn sprites_sort_farthest_first() {
    let p = Point2::new(0, 0);
    let near = Thing::new(Point2::new(ONE, 0), ONE / 4, 0);
    let far = Thing::new(Point2::new(5 * ONE, 0), ONE / 4, 0);
    let mid = Thing::new(Point2::new(0, 3 * ONE), ONE / 4, 0);
    let sorted = depth_sorted(&vec![near, far, mid], p);
    assert_eq!(sorted, vec![far, mid, near]);
    // equal depths keep their order
    let twin = Thing::new(Point2::new(0, ONE), ONE / 4, 1);
    assert_eq!(depth_sorted(&vec![near, twin], p), vec![near, twin]);
}

fn world() -> World {
    let map = bordered(16);
    let clear = tex([0, 0, 0, 0]);
    World::new(
        map,
        Point2::new(6 * ONE + ONE / 2, 6 * ONE + ONE / 2),
        Vector2::new(ONE, 0),
        vec![],
        vec![clear.clone()],
        Fov::new(TAN_HALF_65, 298),
        clear,
    )
    .unwrap()
}

#[test]
fn world_new_checks_its_parts() {
    let map = bordered(4);
    let clear = tex([0, 0, 0, 0]);
    let p = Point2::new(ONE + ONE / 2, ONE + ONE / 2);
    let dir = Vector2::new(ONE, 0);
    assert!(World::new(map.clone(), p, dir, vec![], vec![], Fov::new(TAN_HALF_65, 298), clear.clone()).is_none());
    let bad_thing = Thing::new(p, ONE / 4, 3);
    assert!(World::new(map.clone(), p, dir, vec![bad_thing], vec![clear.clone()], Fov::new(TAN_HALF_65, 298), clear.clone())
        .is_none());
    assert!(World::new(map, p, dir, vec![], vec![clear.clone()], Fov::new(0, 298), clear).is_none());
}

#[test]
fn world_draws_center_column() {
    let w = world();
    let mut frame = Frame::new(vec![0u8; (WIDTH * HEIGHT * 4) as usize]);
    w.draw(&mut frame);
    let buf = frame.into_buffer();
    let at = |x: usize, y: usize| (y * WIDTH as usize + x) * 4;
    // 298 px for a one-cell wall at one cell, seen at 8.5 cells: 35 rows
    assert_eq!(&buf[at(160, 0)..at(160, 0) + 4], &[0, 0, 255, 255]);
    assert_eq!(&buf[at(160, 102)..at(160, 102) + 4], &[0, 0, 255, 255]);
    assert_eq!(&buf[at(160, 103)..at(160, 103) + 4], &[9, 9, 9, 255]);
    assert_eq!(&buf[at(160, 120)..at(160, 120) + 4], &[9, 9, 9, 255]);
    assert_eq!(&buf[at(160, 137)..at(160, 137) + 4], &[9, 9, 9, 255]);
    assert_eq!(&buf[at(160, 138)..at(160, 138) + 4], &[255, 0, 0, 255]);
    assert_eq!(&buf[at(160, 239)..at(160, 239) + 4], &[255, 0, 0, 255]);
}

#[test]
fn world_update_clips_and_moves() {
    let mut w = world();
    // free move: the full displacement
    w.update(Vector2::new(ONE, 0), Vector2::new(ONE, 0));
    assert_eq!(w.player_p, Point2::new(7 * ONE + ONE / 2, 6 * ONE + ONE / 2));
    // into the east wall: stopped just short of it
    w.update(Vector2::new(ONE, 0), Vector2::new(8 * ONE, 0));
    assert_eq!(w.player_p, Point2::new(15 * ONE - 328, 6 * ONE + ONE / 2));
    // without clipping, the wall does not stop the player
    w.clip = false;
    w.update(Vector2::new(0, ONE), Vector2::new(ONE, 0));
    assert_eq!(w.player_p, Point2::new(16 * ONE - 328, 6 * ONE + ONE / 2));
    assert_eq!(w.dir, Vector2::new(0, ONE));
}

#[test]
fn step_vectors_follow_intents() {
    let dir = Vector2::new(ONE, 0);
    assert_eq!(step_vector(dir, 1, 0, ONE / 2), Vector2::new(ONE / 2, 0));
    assert_eq!(step_vector(dir, -1, 0, ONE / 2), Vector2::new(-ONE / 2, 0));
    // sideways to the right is the view direction's right-hand perpendicular
    assert_eq!(step_vector(dir, 0, 1, ONE / 2), Vector2::new(0, ONE / 2));
    // diagonal intents keep the step length: 0.5 / sqrt(2) per axis, rounded down
    assert_eq!(step_vector(dir, 1, 1, ONE / 2), Vector2::new(23170, 23170));
    // no intent, no step
    assert_eq!(step_vector(dir, 0, 0, ONE / 2), Vector2::new(0, 0));
}
