use maze_raycaster::framebuffer::Framebuffer;
use maze_raycaster::hud::{draw_char, draw_fps, draw_fps_bar, draw_text, glyph_of, GLYPH_ADVANCE, HUD_COLOR};

const F: [[u8; 5]; 7] = [
    [1, 1, 1, 1, 1],
    [1, 0, 0, 0, 0],
    [1, 1, 1, 1, 0],
    [1, 0, 0, 0, 0],
    [1, 0, 0, 0, 0],
    [1, 0, 0, 0, 0],
    [1, 0, 0, 0, 0],
];

const P: [[u8; 5]; 7] = [
    [1, 1, 1, 1, 0],
    [1, 0, 0, 0, 1],
    [1, 1, 1, 1, 0],
    [1, 0, 0, 0, 0],
    [1, 0, 0, 0, 0],
    [1, 0, 0, 0, 0],
    [1, 0, 0, 0, 0],
];

const S: [[u8; 5]; 7] = [
    [1, 1, 1, 1, 1],
    [1, 0, 0, 0, 0],
    [1, 1, 1, 1, 1],
    [0, 0, 0, 0, 1],
    [1, 1, 1, 1, 1],
    [0, 0, 0, 0, 1],
    [1, 1, 1, 1, 1],
];

const ZERO: [[u8; 5]; 7] = [
    [1, 1, 1, 1, 1],
    [1, 0, 0, 0, 1],
    [1, 0, 0, 0, 1],
    [1, 0, 0, 0, 1],
    [1, 1, 1, 1, 1],
    [1, 0, 0, 0, 1],
    [1, 1, 1, 1, 1],
];

fn pixel(fb: &Framebuffer, x: usize, y: usize) -> u32 {
    fb.buffer()[y * fb.width() + x]
}

fn lit(glyphs: &[(usize, usize, &[[u8; 5]; 7])], x: usize, y: usize) -> bool {
    glyphs.iter().any(|&(gx, gy, m)| {
        x >= gx && x < gx + 5 && y >= gy && y < gy + 7 && m[y - gy][x - gx] == 1
    })
}

fn assert_glyphs(fb: &Framebuffer, glyphs: &[(usize, usize, &[[u8; 5]; 7])], color: u32, rest: u32) {
    for y in 0..fb.height() {
        for x in 0..fb.width() {
            let expected = if lit(glyphs, x, y) { color } else { rest };
            assert_eq!(pixel(fb, x, y), expected, "pixel ({}, {})", x, y);
        }
    }
}

#[test]
fn font_has_four_characters() {
    assert_eq!(glyph_of('F'), Some(F));
    assert_eq!(glyph_of('P'), Some(P));
    assert_eq!(glyph_of('S'), Some(S));
    assert_eq!(glyph_of('0'), Some(ZERO));
    assert_eq!(glyph_of('f'), None);
    assert_eq!(glyph_of('1'), None);
    assert_eq!(glyph_of(' '), None);
    assert_eq!(GLYPH_ADVANCE, 6);
    assert_eq!(HUD_COLOR, 0xFFFFFF);
}

#[test]
fn draw_char_paints_the_set_pixels_only() {
    let mut fb = Framebuffer::new(12, 12);
    fb.set_background_color(0x222222);
    fb.clear();
    draw_char(&mut fb, 2, 3, &S, 0x00FF00);
    assert_glyphs(&fb, &[(2, 3, &S)], 0x00FF00, 0x222222);
    fb.point(0, 0);
    assert_eq!(pixel(&fb, 0, 0), 0x00FF00);
}

#[test]
fn draw_char_is_clipped_to_the_canvas() {
    let mut fb = Framebuffer::new(4, 4);
    draw_char(&mut fb, 2, 1, &F, 0xABCDEF);
    assert_eq!(pixel(&fb, 2, 1), 0xABCDEF);
    assert_eq!(pixel(&fb, 3, 1), 0xABCDEF);
    assert_eq!(pixel(&fb, 2, 2), 0xABCDEF);
    assert_eq!(pixel(&fb, 3, 2), 0);
    assert_eq!(pixel(&fb, 2, 3), 0xABCDEF);
    assert_eq!(pixel(&fb, 3, 3), 0xABCDEF);
    assert_eq!(fb.buffer().iter().filter(|&&p| p != 0).count(), 5);
    draw_char(&mut fb, 40, 40, &F, 0x111111);
    assert_eq!(fb.buffer().iter().filter(|&&p| p == 0x111111).count(), 0);
}

#[test]
fn draw_text_advances_six_pixels_per_character() {
    let mut fb = Framebuffer::new(40, 12);
    draw_text(&mut fb, 3, 2, "FPS0", 0xFF00FF);
    assert_glyphs(&fb, &[(3, 2, &F), (9, 2, &P), (15, 2, &S), (21, 2, &ZERO)], 0xFF00FF, 0);
}

#[test]
fn draw_text_skips_unknown_characters_without_leaving_room() {
    let mut fb = Framebuffer::new(40, 12);
    draw_text(&mut fb, 1, 1, "xF? P\u{e9}S", 0x0000FF);
    assert_glyphs(&fb, &[(1, 1, &F), (7, 1, &P), (13, 1, &S)], 0x0000FF, 0);
}

#[test]
fn draw_text_without_known_characters_changes_nothing() {
    let mut fb = Framebuffer::new(20, 10);
    fb.set_current_color(0x123456);
    draw_text(&mut fb, 1, 1, "hello", 0x0000FF);
    draw_text(&mut fb, 1, 1, "", 0x0000FF);
    assert!(fb.buffer().iter().all(|&p| p == 0));
    fb.point(0, 0);
    assert_eq!(pixel(&fb, 0, 0), 0x123456);
    draw_text(&mut fb, 1, 1, "0", 0x0000FF);
    fb.point(19, 9);
    assert_eq!(pixel(&fb, 19, 9), 0x0000FF);
}

fn assert_bar(fps: usize, length: usize) {
    let mut fb = Framebuffer::new(200, 50);
    fb.set_current_color(0x00FF00);
    draw_fps_bar(&mut fb, fps);
    for y in 0..50 {
        for x in 0..200 {
            let inside = x >= 80 && x < 80 + length && (30..35).contains(&y);
            assert_eq!(pixel(&fb, x, y), if inside { 0xFFFFFF } else { 0 }, "pixel ({}, {})", x, y);
        }
    }
    fb.point(0, 0);
    assert_eq!(pixel(&fb, 0, 0), 0xFFFFFF);
}

#[test]
fn fps_bar_is_two_pixels_per_frame() {
    assert_bar(0, 0);
    assert_bar(1, 2);
    assert_bar(15, 30);
    assert_bar(29, 58);
}

#[test]
fn fps_bar_is_full_at_thirty_frames() {
    assert_bar(30, 60);
    assert_bar(31, 60);
    assert_bar(1000, 60);
    assert_bar(usize::MAX, 60);
}

#[test]
fn fps_bar_fits_the_narrowest_screen() {
    let mut fb = Framebuffer::new(120, 40);
    draw_fps_bar(&mut fb, 30);
    for y in 0..40 {
        for x in 0..120 {
            let inside = x < 60 && (30..35).contains(&y);
            assert_eq!(pixel(&fb, x, y), if inside { 0xFFFFFF } else { 0 });
        }
    }
}

#[test]
fn draw_fps_writes_the_label_over_the_bar() {
    let mut fb = Framebuffer::new(200, 50);
    fb.set_background_color(0x1A1A1A);
    fb.clear();
    draw_fps(&mut fb, 15);
    let glyphs: [(usize, usize, &[[u8; 5]; 7]); 3] = [(140, 10, &F), (146, 10, &P), (152, 10, &S)];
    for y in 0..50 {
        for x in 0..200 {
            let bar = x >= 80 && x < 110 && (30..35).contains(&y);
            let expected = if bar || lit(&glyphs, x, y) { 0xFFFFFF } else { 0x1A1A1A };
            assert_eq!(pixel(&fb, x, y), expected, "pixel ({}, {})", x, y);
        }
    }
}
