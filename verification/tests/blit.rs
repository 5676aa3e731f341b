//! Behavior of the raster blit engine on small synthetic bitmaps.

use snake::bmp::BitmapView;
use snake::game::Game;
use snake::graphics::{bitmap_drawable, Color, Graphics, RotDirection};
use snake::random::Random;

/// Builds an uncompressed 24-bit bitmap buffer: a 24-byte header (pixel
/// data offset at byte 10, 16-bit width at 18, 16-bit height at 22)
/// followed by the pixel rows, bottom row first, three bytes per pixel in
/// B,G,R order, each row padded with `width % 4` zero bytes.  `pixels`
/// lists the rows in storage order, each pixel as (red, green, blue).
fn make_bmp(width: usize, height: usize, pixels: &[(u8, u8, u8)]) -> Vec<u8> {
    assert_eq!(pixels.len(), width * height);
    let mut buf = vec![0u8; 24];
    buf[10] = 24;
    buf[18] = (width & 0xff) as u8;
    buf[19] = (width >> 8) as u8;
    buf[22] = (height & 0xff) as u8;
    buf[23] = (height >> 8) as u8;
    let padding = width % 4;
    for r in 0..height {
        for c in 0..width {
            let (red, green, blue) = pixels[r * width + c];
            buf.push(blue);
            buf.push(green);
            buf.push(red);
        }
        for _ in 0..padding {
            buf.push(0);
        }
    }
    buf
}

fn fresh_canvas() -> Graphics {
    Graphics::new(20, 20)
}

const CLEAR: Color = Color { red: 0, green: 0, blue: 0, alpha: 0 };

#[test]
fn header_fields_parsed() {
    let pic = make_bmp(6, 2, &[(1, 2, 3); 12]);
    let v = BitmapView::from_bytes(&pic);
    assert_eq!(v.pixel_data_offset, 24);
    assert_eq!(v.width, 6);
    assert_eq!(v.height, 2);
    assert_eq!(v.row_padding, 2);
}

#[test]
fn row_padding_follows_width_remainder() {
    for w in 1..9usize {
        let pic = make_bmp(w, 1, &vec![(9, 9, 9); w]);
        let v = BitmapView::from_bytes(&pic);
        assert_eq!(v.row_padding as usize, w % 4);
        assert_eq!(pic.len(), 24 + 3 * w + w % 4);
    }
}

#[test]
fn drawable_check_rejects_malformed_buffers() {
    let good = make_bmp(3, 2, &[(9, 9, 9); 6]);
    assert!(bitmap_drawable(&good, 10, 10));
    // Too short for the header.
    assert!(!bitmap_drawable(&good[..20].to_vec(), 10, 10));
    // Pixel data truncated.
    let short = good[..good.len() - 4].to_vec();
    assert!(!bitmap_drawable(&short, 10, 10));
    // A zero-sized rectangle cannot be drawn.
    let mut flat = good.clone();
    flat[22] = 0;
    assert!(!bitmap_drawable(&flat, 10, 10));
}

#[test]
fn rotate0_places_unique_color() {
    // A 3x2 bitmap with one uniquely identifiable color at source pixel
    // (c, r) = (1, 0), the middle of the bottom stored row.
    let mut px = vec![(10, 10, 10); 6];
    px[1] = (200, 30, 40);
    let pic = make_bmp(3, 2, &px);
    let mut g = fresh_canvas();
    g.print_bmp_at_with_rotaion(&pic, 5, 7, RotDirection::R0);
    // (x0 + c, y0 + H - 1 - r) = (5 + 1, 7 + 2 - 1 - 0)
    assert_eq!(g.layer_1.get_pixel(6, 8), Color::rgb(200, 30, 40));
    assert_eq!(g.layer_1.get_pixel(5, 8), Color::rgb(10, 10, 10));
    // Outside the 3x2 destination box nothing changes.
    assert_eq!(g.layer_1.get_pixel(4, 8), CLEAR);
    assert_eq!(g.layer_1.get_pixel(6, 9), CLEAR);
}

#[test]
fn rotate180_places_unique_color() {
    let mut px = vec![(10, 10, 10); 6];
    px[1] = (200, 30, 40);
    let pic = make_bmp(3, 2, &px);
    let mut g = fresh_canvas();
    g.print_bmp_at_with_rotaion(&pic, 5, 7, RotDirection::R180);
    // (x0 + W - 1 - c, y0 + r) = (5 + 3 - 1 - 1, 7 + 0)
    assert_eq!(g.layer_1.get_pixel(6, 7), Color::rgb(200, 30, 40));
    assert_eq!(g.layer_1.get_pixel(5, 7), Color::rgb(10, 10, 10));
    assert_eq!(g.layer_1.get_pixel(8, 7), CLEAR);
}

// A 2x3 bitmap with six distinct colors, stored bottom row first:
// row 0: (c=0) red 1, (c=1) red 2; row 1: red 3, red 4; row 2: red 5, red 6.
fn asymmetric_2x3() -> Vec<u8> {
    make_bmp(
        2,
        3,
        &[
            (1, 0, 0),
            (2, 0, 0),
            (3, 0, 0),
            (4, 0, 0),
            (5, 0, 0),
            (6, 0, 0),
        ],
    )
}

fn red_at(g: &mut Graphics, x: usize, y: usize) -> u8 {
    g.layer_1.get_pixel(x, y).red
}

#[test]
fn rotate90_transposes_all_pixels() {
    let pic = asymmetric_2x3();
    let mut g = fresh_canvas();
    g.print_bmp_at_with_rotaion(&pic, 4, 9, RotDirection::R90);
    // Source (c, r) lands at (x + r, y + c): the 2x3 box becomes 3x2.
    assert_eq!(red_at(&mut g, 4, 9), 1); // (0,0)
    assert_eq!(red_at(&mut g, 4, 10), 2); // (1,0)
    assert_eq!(red_at(&mut g, 5, 9), 3); // (0,1)
    assert_eq!(red_at(&mut g, 5, 10), 4); // (1,1)
    assert_eq!(red_at(&mut g, 6, 9), 5); // (0,2)
    assert_eq!(red_at(&mut g, 6, 10), 6); // (1,2)
    // The box is H x W = 3 x 2: nothing outside it is touched.
    assert_eq!(g.layer_1.get_pixel(7, 9), CLEAR);
    assert_eq!(g.layer_1.get_pixel(4, 11), CLEAR);
}

#[test]
fn rotate270_transposes_all_pixels() {
    let pic = asymmetric_2x3();
    let mut g = fresh_canvas();
    g.print_bmp_at_with_rotaion(&pic, 4, 9, RotDirection::R270);
    // Source (c, r) lands at (x + H - 1 - r, y + W - 1 - c).
    assert_eq!(red_at(&mut g, 6, 10), 1); // (0,0)
    assert_eq!(red_at(&mut g, 6, 9), 2); // (1,0)
    assert_eq!(red_at(&mut g, 5, 10), 3); // (0,1)
    assert_eq!(red_at(&mut g, 5, 9), 4); // (1,1)
    assert_eq!(red_at(&mut g, 4, 10), 5); // (0,2)
    assert_eq!(red_at(&mut g, 4, 9), 6); // (1,2)
    assert_eq!(g.layer_1.get_pixel(7, 9), CLEAR);
    assert_eq!(g.layer_1.get_pixel(4, 11), CLEAR);
}

#[test]
fn color_key_skips_near_white() {
    // A pixel with channel values (250, 250, 250) is treated as
    // background by the rotating draw and left unwritten.
    let mut px = vec![(50, 60, 70); 4];
    px[0] = (250, 250, 250);
    let pic = make_bmp(2, 2, &px);
    let mut g = fresh_canvas();
    g.print_bmp_at_with_rotaion(&pic, 3, 3, RotDirection::R0);
    // Source (0, 0) maps to (3, 4): skipped, so still the clear color.
    assert_eq!(g.layer_1.get_pixel(3, 4), CLEAR);
    assert_eq!(g.layer_1.get_pixel(4, 4), Color::rgb(50, 60, 70));
}

#[test]
fn color_key_disabled_draws_near_white() {
    // The downward draw has no color key: the same near-white pixel is
    // written.
    let mut px = vec![(50, 60, 70); 4];
    px[0] = (250, 250, 250);
    let pic = make_bmp(2, 2, &px);
    let mut g = fresh_canvas();
    g.print_bmp_at_downwards(&pic, 3, 3);
    // The downward draw also places source (c, r) at (x + c, y + H - 1 - r).
    assert_eq!(g.layer_1.get_pixel(3, 4), Color::rgb(250, 250, 250));
    assert_eq!(g.layer_1.get_pixel(4, 4), Color::rgb(50, 60, 70));
}

#[test]
fn draw_controls_the_color_key() {
    let mut px = vec![(50, 60, 70); 4];
    px[0] = (250, 250, 250);
    let pic = make_bmp(2, 2, &px);
    let mut g = fresh_canvas();
    // With transparency off, the near-white pixel is written like any
    // other, here under a quarter turn: source (0, 0) lands at (x, y).
    g.draw(&pic, 3, 3, RotDirection::R90, false);
    assert_eq!(g.layer_1.get_pixel(3, 3), Color::rgb(250, 250, 250));
    let mut g = fresh_canvas();
    g.draw(&pic, 3, 3, RotDirection::R90, true);
    assert_eq!(g.layer_1.get_pixel(3, 3), CLEAR);
}

#[test]
fn right_edge_clips_without_panic() {
    // An 8x2 bitmap drawn at x = 16 on a 20-wide surface: the last four
    // columns fall off the right edge and are ignored.
    let px: Vec<(u8, u8, u8)> = (0..16).map(|i| (i as u8 + 1, 0, 0)).collect();
    let pic = make_bmp(8, 2, &px);
    let mut g = fresh_canvas();
    g.print_bmp_at_with_rotaion(&pic, 16, 0, RotDirection::R0);
    // Columns 16..20 carry source columns 0..4 of the top stored row.
    assert_eq!(red_at(&mut g, 16, 0), 9);
    assert_eq!(red_at(&mut g, 19, 0), 12);
    assert_eq!(red_at(&mut g, 16, 1), 1);
    assert_eq!(red_at(&mut g, 19, 1), 4);
    // Every pixel outside the on-surface part of the box is untouched.
    for y in 2..20 {
        for x in 0..20 {
            assert_eq!(g.layer_1.get_pixel(x, y), CLEAR);
        }
    }
    for x in 0..16 {
        assert_eq!(g.layer_1.get_pixel(x, 0), CLEAR);
        assert_eq!(g.layer_1.get_pixel(x, 1), CLEAR);
    }
}

#[test]
fn red_square_end_to_end() {
    // A 4x4 all-red bitmap drawn unrotated at (10, 10) on a 20x20 canvas
    // colors exactly the box (10..14) x (10..14) and nothing else.
    let pic = make_bmp(4, 4, &[(255, 0, 0); 16]);
    let mut g = fresh_canvas();
    g.print_bmp_at_with_rotaion(&pic, 10, 10, RotDirection::R0);
    for y in 0..20 {
        for x in 0..20 {
            let expected = if (10..14).contains(&x) && (10..14).contains(&y) {
                Color::rgb(255, 0, 0)
            } else {
                CLEAR
            };
            assert_eq!(g.layer_1.get_pixel(x, y), expected);
        }
    }
}

#[test]
fn draw_game_picks_mouth_by_apple_position() {
    let open = make_bmp(2, 2, &[(200, 1, 1); 4]);
    let closed = make_bmp(2, 2, &[(100, 1, 1); 4]);
    let apple = make_bmp(2, 2, &[(1, 200, 1); 4]);

    let mut game = Game::new(Graphics::new(480, 272), Random::new(vec![]));
    game.reset();
    // The head faces right at (25, 10) and the apple sits far away: the
    // mouth stays closed.  The head box is drawn half-turned at
    // (250, 100), the apple box unrotated at (10, 100).
    game.draw_game(&open, &closed, &apple);
    assert_eq!(game.graphics.layer_1.get_pixel(250, 100).red, 100);
    assert_eq!(game.graphics.layer_1.get_pixel(10, 100).green, 200);

    // With the apple straight ahead of the head the mouth opens.
    game.apple_position = (26, 10);
    game.draw_game(&open, &closed, &apple);
    assert_eq!(game.graphics.layer_1.get_pixel(250, 100).red, 200);
}

#[test]
fn pause_screen_composes_on_second_layer() {
    let left = make_bmp(1, 1, &[(10, 20, 80)]);
    let right = make_bmp(1, 1, &[(11, 21, 81)]);
    let pause = make_bmp(1, 1, &[(12, 22, 82)]);
    let resume = make_bmp(1, 1, &[(13, 23, 83)]);
    let new_game = make_bmp(1, 1, &[(14, 24, 84)]);
    let mut g = Graphics::new(480, 272);
    g.print_pause_screen(&left, &right, &pause, &resume, &new_game);
    assert_eq!(g.layer_2.get_pixel(98, 20), Color::rgba(10, 20, 80, 30));
    assert_eq!(g.layer_2.get_pixel(300, 20), Color::rgba(11, 21, 81, 31));
    assert_eq!(g.layer_2.get_pixel(198, 55), Color::rgba(12, 22, 82, 32));
    assert_eq!(g.layer_2.get_pixel(198, 145), Color::rgba(13, 23, 83, 33));
    assert_eq!(g.layer_2.get_pixel(186, 198), Color::rgba(14, 24, 84, 34));
    assert_eq!(g.layer_1.get_pixel(98, 20), CLEAR);
}

#[test]
fn restart_screen_composes_on_second_layer() {
    let left = make_bmp(1, 1, &[(10, 20, 80)]);
    let right = make_bmp(1, 1, &[(11, 21, 81)]);
    let game_over = make_bmp(1, 1, &[(12, 22, 82)]);
    let new_game = make_bmp(1, 1, &[(14, 24, 84)]);
    let mut g = Graphics::new(480, 272);
    g.print_restart_screen(&left, &right, &game_over, &new_game);
    assert_eq!(g.layer_2.get_pixel(68, 20), Color::rgba(10, 20, 80, 30));
    assert_eq!(g.layer_2.get_pixel(320, 20), Color::rgba(11, 21, 81, 31));
    assert_eq!(g.layer_2.get_pixel(158, 55), Color::rgba(12, 22, 82, 32));
    assert_eq!(g.layer_2.get_pixel(186, 198), Color::rgba(14, 24, 84, 34));
}

#[test]
fn background_blink_restores_snake_color() {
    let mut g = Graphics::new(8, 8);
    let snake_color = Color::rgba(0xb0, 0x77, 0x08, 255);
    assert_eq!(g.background_color, snake_color);
    g.background_color = Color::rgb(1, 2, 3);
    g.background_blink();
    assert_eq!(g.background_color, snake_color);
}

#[test]
fn layer2_draw_dims_alpha_and_keys() {
    let mut px = vec![(80, 90, 100); 4];
    px[3] = (250, 250, 250);
    let pic = make_bmp(2, 2, &px);
    let mut g = fresh_canvas();
    g.print_bmp_at_layer2(&pic, 0, 0);
    // Drawn pixels carry alpha = blue - 50; the near-white one is skipped.
    assert_eq!(g.layer_2.get_pixel(0, 1), Color::rgba(80, 90, 100, 50));
    assert_eq!(g.layer_2.get_pixel(1, 0), CLEAR);
    // The first layer is untouched by the second-layer draw.
    assert_eq!(g.layer_1.get_pixel(0, 1), CLEAR);
}
