use risc_core::render::{blit_damage, grey_pixels, lerp, BLACK, WHITE};
use risc_core::risc::{ByteAddr, Risc, DEFAULT_DISPLAY_START};

#[test]
fn lerp_endpoints_and_midpoint() {
    assert_eq!(lerp(0x00_00_00, 0x10_20_40, 0), 0x00_00_00); // t=0 -> a
    assert_eq!(lerp(0x00_00_00, 0x10_20_40, 256), 0x10_20_40); // t=256 -> b
    assert_eq!(lerp(0, 0xFF_FF_FF, 128), 0x7F_7F_7F); // half
}

#[test]
fn lerp_blends_each_channel_on_its_own() {
    assert_eq!(lerp(0x00_FF_00, 0xFF_00_FF, 64), 0x3F_BF_3F);
}

#[test]
fn blit_paints_the_damaged_pixels_bottom_up() {
    let mut r = Risc::new();
    let (w, h) = (r.fb_width() as usize * 32, r.fb_height() as usize);
    let mut texture = vec![0u32; w * h];
    blit_damage(&mut texture, &mut r, BLACK, WHITE);
    // The whole (blank) screen was damaged at start: everything black.
    assert!(texture.iter().all(|&p| p == BLACK));
    // Pixel 0 of framebuffer word 0 is the bottom-left pixel.
    r.store_word(ByteAddr(DEFAULT_DISPLAY_START), 0x0000_0001);
    blit_damage(&mut texture, &mut r, BLACK, WHITE);
    assert_eq!(texture[(h - 1) * w], WHITE);
    assert_eq!(texture[(h - 1) * w + 1], BLACK);
    assert_eq!(texture.iter().filter(|&&p| p == WHITE).count(), 1);
}

#[test]
fn grey_pixels_lists_the_top_line_first() {
    // Two words per line, two lines; line 1 (the top) comes out first.
    let fb = [0x0000_0001u32, 0x8000_0000, 0x0000_0003, 0x0000_0000];
    let px = grey_pixels(&fb, 2, 2);
    assert_eq!(px.len(), 2 * 2 * 32);
    // Top line: word 2 has bits 0 and 1 set, word 3 is clear.
    assert_eq!(&px[0..3], &[255, 255, 0]);
    assert!(px[32..64].iter().all(|&p| p == 0));
    // Bottom line: bit 0 of word 0, bit 31 of word 1.
    assert_eq!(px[64], 255);
    assert!(px[65..127].iter().all(|&p| p == 0));
    assert_eq!(px[127], 255);
}
