use risc_core::headless::{
    advance, fnv1a, framebuffer_hash, run_frames, state_hash, watch_boot, FNV_OFFSET,
};
use risc_core::risc::Risc;

#[test]
fn fnv1a_of_nothing_is_the_offset_basis() {
    assert_eq!(fnv1a(&[]), FNV_OFFSET);
    assert_eq!(fnv1a(&[]), 0xcbf2_9ce4_8422_2325);
}

#[test]
fn fnv1a_hashes_words_as_little_endian_bytes() {
    // FNV-1a of the bytes 61 00 00 00 (the word 0x61).
    let mut h: u64 = 0xcbf2_9ce4_8422_2325;
    for b in [0x61u8, 0, 0, 0] {
        h ^= b as u64;
        h = h.wrapping_mul(0x0000_0100_0000_01b3);
    }
    assert_eq!(fnv1a(&[0x61]), h);
    assert_ne!(fnv1a(&[0x61]), fnv1a(&[0x6100_0000]));
}

#[test]
fn hashes_see_the_screen_and_the_cpu() {
    let mut a = Risc::new();
    let b = Risc::new();
    assert_eq!(framebuffer_hash(&a), framebuffer_hash(&b));
    assert_eq!(state_hash(&a), state_hash(&b));
    a.store_word(risc_core::risc::ByteAddr(risc_core::risc::DEFAULT_DISPLAY_START), 1);
    assert_ne!(framebuffer_hash(&a), framebuffer_hash(&b));
    a.cosim_step();
    assert_ne!(state_hash(&a), state_hash(&b));
}

#[test]
fn runs_are_reproducible() {
    let mut a = Risc::new();
    let mut b = Risc::new();
    run_frames(&mut a, 3);
    let mut frame = 0;
    advance(&mut b, &mut frame, 3, 16, 416_666);
    assert_eq!(frame, 3);
    assert_eq!(state_hash(&a), state_hash(&b));
    assert_eq!(framebuffer_hash(&a), framebuffer_hash(&b));
}

#[test]
fn a_still_screen_settles_at_the_second_sample() {
    // The all-zero ROM never touches the screen: the second sample (frame 2)
    // matches the first, and nothing changes after.
    let mut r = Risc::new();
    assert_eq!(watch_boot(&mut r, 10, 2), Some(2));
    let mut r = Risc::new();
    assert_eq!(watch_boot(&mut r, 10, 0), None); // never sampled
    let mut r = Risc::new();
    assert_eq!(watch_boot(&mut r, 1, 1), None); // one sample only
}
