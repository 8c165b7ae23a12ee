use ulvestein::map::layout::{build_grid, default_legend, read_definition, read_properties, Cell, MapError};
use ulvestein::map::{Mat, Properties, Side};
use ulvestein::vec::{Point2, ONE};
use ulvestein::world::thing::Thing;

fn words(ws: &[&str]) -> Vec<Vec<char>> {
    ws.iter().map(|w| w.chars().collect()).collect()
}

fn rows(rs: &[&str]) -> Vec<Vec<char>> {
    words(rs)
}

#[test]
fn property_words() {
    let base = Properties { solid: true, transparent: false, reflective: false, door: false };
    assert_eq!(read_properties(&words(&[])), Ok((base, false)));
    assert_eq!(
        read_properties(&words(&["reflective"])),
        Ok((Properties { transparent: true, reflective: true, ..base }, false))
    );
    assert_eq!(
        read_properties(&words(&["walkthrough", "seethrough", "door"])),
        Ok((Properties { solid: false, transparent: true, reflective: false, door: true }, false))
    );
    assert_eq!(
        read_properties(&words(&["nonsolid", "solid", "transparent", "opaque"])),
        Ok((base, false))
    );
    assert_eq!(read_properties(&words(&["thing"])), Ok((base, true)));
    assert_eq!(read_properties(&words(&["solid", "shiny", "door"])), Err(MapError::UnknownProperty(1)));
}

fn legend() -> Vec<(char, Cell)> {
    let mut l = default_legend();
    l.push(('#', Cell::Material(Mat::from_len(1))));
    l.push(('b', Cell::Sprite(ONE / 4, 0)));
    l
}

#[test]
fn grid_rows_build_a_layout() {
    let layout = build_grid(&rows(&["####", "#>b#", "####"]), &legend()).unwrap();
    assert_eq!(layout.width, 4);
    assert_eq!(layout.grid.len(), 12);
    assert_eq!(layout.grid[0], Mat::from_len(1));
    assert_eq!(layout.grid[5], Mat::air());
    assert_eq!(layout.grid[6], Mat::air());
    assert_eq!(layout.player, (1, 1, Side::Right));
    assert_eq!(layout.things, vec![Thing::new(Point2::new(2 * ONE + ONE / 2, ONE + ONE / 2), ONE / 4, 0)]);
}

#[test]
fn more_than_one_player_marker_is_refused() {
    assert_eq!(build_grid(&rows(&["#^#", "#v#"]), &legend()).err(), Some(MapError::ManyPlayers));
    assert_eq!(build_grid(&rows(&[">>"]), &default_legend()).err(), Some(MapError::ManyPlayers));
    let layout = build_grid(&rows(&["#^#", "# #"]), &legend()).unwrap();
    assert_eq!(layout.player, (1, 0, Side::Up));
}

#[test]
fn definition_lines() {
    let d = read_definition(&words(&["m", "reflective", "tex/m.png", "tex/m_dark.png"])).unwrap();
    assert_eq!(d.symbol, 'm');
    assert_eq!(d.properties, Properties { solid: true, transparent: true, reflective: true, door: false });
    assert!(!d.thing);
    assert_eq!(d.texture, "tex/m.png".chars().collect::<Vec<_>>());
    assert_eq!(d.texture_dark, "tex/m_dark.png".chars().collect::<Vec<_>>());
    let d = read_definition(&words(&["b", "thing", "0.25", "tex/barrel.png"])).unwrap();
    assert!(d.thing);
    assert_eq!(d.texture, vec!['0', '.', '2', '5']);
    let d = read_definition(&words(&["#w", "a", "b"])).unwrap();
    assert_eq!(d.symbol, '#');
    assert_eq!(read_definition(&words(&["#", "a"])).err(), Some(MapError::ShortDefinition));
    assert_eq!(read_definition(&words(&["", "a", "b"])).err(), Some(MapError::ShortDefinition));
    assert_eq!(
        read_definition(&words(&["#", "solid", "glossy", "a", "b"])).err(),
        Some(MapError::UnknownProperty(2))
    );
}

#[test]
fn grid_errors() {
    let l = legend();
    assert_eq!(build_grid(&rows(&[]), &l).err(), Some(MapError::EmptyGrid));
    assert_eq!(build_grid(&rows(&[""]), &l).err(), Some(MapError::EmptyGrid));
    assert_eq!(build_grid(&rows(&["###", "#>", "###"]), &l).err(), Some(MapError::RaggedRow(1)));
    assert_eq!(build_grid(&rows(&["###", "#>x"]), &l).err(), Some(MapError::UnknownCell('x')));
    assert_eq!(build_grid(&rows(&["###", "# #"]), &l).err(), Some(MapError::NoPlayer));
}
