use ulvestein::tex::{
    coords_to_index, find_texture, index_to_coords, u8_frac_mul, Colour, Frame, TColour, Texture,
};
use ulvestein::{HEIGHT, WIDTH};

#[test]
fn test() {
    let (x, y) = index_to_coords(124);
    assert_eq!(index_to_coords(124), index_to_coords(coords_to_index(x, y)));
    assert_eq!(124, coords_to_index(x, y));
}

#[test]
fn index_round_trip_corners() {
    for &(x, y) in &[(0, 0), (WIDTH - 1, 0), (0, HEIGHT - 1), (WIDTH - 1, HEIGHT - 1), (17, 33)] {
        assert_eq!(index_to_coords(coords_to_index(x, y)), (x, y));
    }
    assert_eq!(coords_to_index(5, 2), 2 * 320 + 5);
    assert_eq!(index_to_coords(321), (1, 1));
}

#[test]
fn frac_mul_values() {
    assert_eq!(u8_frac_mul(255, 255), 255);
    assert_eq!(u8_frac_mul(255, 0), 0);
    assert_eq!(u8_frac_mul(100, 128), 50);
    assert_eq!(Colour::new(200, 100, 50).scale(128), Colour::new(100, 50, 25));
}

#[test]
fn colour_arrays() {
    assert_eq!(Colour::new(1, 2, 3).array(), [1, 2, 3, 255]);
    assert_eq!(TColour::new(1, 2, 3, 4).array(), [1, 2, 3, 4]);
    assert_eq!(Colour::new(1, 2, 3).alpha(9), TColour::new(1, 2, 3, 9));
    assert_eq!(TColour::new(1, 2, 3, 4).rgb(), Colour::new(1, 2, 3));
}

#[test]
fn blending_rules() {
    let top = TColour::new(200, 0, 100, 128);
    // over a transparent pixel or as an opaque one, the top colour stays
    assert_eq!(top.on(TColour::new(9, 9, 9, 0)), top);
    let opaque = TColour::new(1, 2, 3, 255);
    assert_eq!(opaque.on(TColour::new(9, 9, 9, 128)), opaque);
    // half over an opaque pixel: each channel mixes
    let under = TColour::new(0, 254, 100, 255);
    let mixed = top.on(under);
    assert_eq!(mixed, TColour::new(100, 126, 99, 255));
}

#[test]
fn frame_writes_and_ignores_out_of_bounds() {
    let mut frame = Frame::new(vec![0u8; (WIDTH * HEIGHT * 4) as usize]);
    frame.draw_rgb(2, 1, Colour::new(10, 20, 30));
    let i = (WIDTH as usize + 2) * 4;
    assert_eq!(&frame.buffer[i..i + 4], &[10, 20, 30, 255]);
    let before = frame.buffer.clone();
    frame.draw_rgb(WIDTH, 0, Colour::new(1, 1, 1));
    frame.draw_rgb(0, HEIGHT, Colour::new(1, 1, 1));
    assert_eq!(frame.buffer, before);
    // a transparent pixel leaves the frame alone
    frame.draw_rgba(2, 1, TColour::new(255, 255, 255, 0));
    assert_eq!(&frame.buffer[i..i + 4], &[10, 20, 30, 255]);
    // a half-transparent one blends with what is there
    frame.draw_rgba(2, 1, TColour::new(200, 200, 200, 128));
    assert_eq!(&frame.buffer[i..i + 4], &[104, 109, 114, 255]);
}

#[test]
fn texture_from_rgba_and_sampling() {
    assert!(Texture::from_rgba(0, &vec![0; 8]).is_none());
    assert!(Texture::from_rgba(3, &vec![0; 8]).is_none());
    let bytes: Vec<u8> = (0..16u8).collect();
    let t = Texture::from_rgba(2, &bytes).unwrap();
    assert_eq!(t.width(), 2);
    assert_eq!(t.height(), 2);
    let one = ulvestein::vec::ONE;
    assert_eq!(t.get_pixel_f(0, 0), TColour::new(0, 1, 2, 3));
    assert_eq!(t.get_pixel_f(one / 2, 0), TColour::new(4, 5, 6, 7));
    assert_eq!(t.get_pixel_f(0, one / 2), TColour::new(8, 9, 10, 11));
    // coordinates wrap around
    assert_eq!(t.get_pixel_f(one + one / 2, -one / 2), TColour::new(12, 13, 14, 15));
}

#[test]
fn texture_draw_at_and_line() {
    let bytes = vec![1, 2, 3, 255, 4, 5, 6, 255, 7, 8, 9, 255, 10, 11, 12, 255];
    let t = Texture::from_rgba(2, &bytes).unwrap();
    let mut frame = Frame::new(vec![0u8; (WIDTH * HEIGHT * 4) as usize]);
    t.draw_at(&mut frame, 10, 20);
    let at = |x: usize, y: usize| (y * WIDTH as usize + x) * 4;
    assert_eq!(&frame.buffer[at(11, 21)..at(11, 21) + 4], &[10, 11, 12, 255]);
    let mut frame = Frame::new(vec![0u8; (WIDTH * HEIGHT * 4) as usize]);
    t.draw_line_at(&mut frame, 3, 5, 0, 4);
    assert_eq!(&frame.buffer[at(3, 5)..at(3, 5) + 4], &[1, 2, 3, 255]);
    assert_eq!(&frame.buffer[at(3, 7)..at(3, 7) + 4], &[7, 8, 9, 255]);
    assert_eq!(&frame.buffer[at(3, 9)..at(3, 9) + 4], &[0, 0, 0, 0]);
}

#[test]
fn find_texture_by_content() {
    let a = Texture::from_rgba(1, &vec![1, 2, 3, 4]).unwrap();
    let b = Texture::from_rgba(1, &vec![5, 6, 7, 8]).unwrap();
    let a2 = Texture::from_rgba(1, &vec![1, 2, 3, 4]).unwrap();
    let wide = Texture::from_rgba(2, &vec![1, 2, 3, 4, 1, 2, 3, 4]).unwrap();
    let texes = vec![b.clone(), a.clone()];
    assert_eq!(find_texture(&texes, &a2), Some(1));
    assert_eq!(find_texture(&texes, &wide), None);
    assert_eq!(find_texture(&vec![], &a), None);
    assert!(a.same_as(&a2) && !a.same_as(&b));
}
