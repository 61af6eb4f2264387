//! Framebuffer rendering: the 1-bit framebuffer expanded into 32-bit pixels,
//! only where it changed, and the blend of two pixels a bilinear scale uses.
use vstd::prelude::*;

use crate::risc::{empty_damage, Damage, MachineState, Risc};

verus! {

/// The "off" colour (`0x00RRGGBB`).
pub const BLACK: u32 = 0x0065_7B83;

/// The "on" colour (`0x00RRGGBB`).
pub const WHITE: u32 = 0x00FD_F6E3;

/// Channel `k` (0 blue, 1 green, 2 red) of a `0x00RRGGBB` pixel.
pub open spec fn channel(x: u32, k: u32) -> u32 {
    if k == 0 {
        x & 0xFF
    } else if k == 1 {
        (x >> 8) & 0xFF
    } else {
        (x >> 16) & 0xFF
    }
}

/// A channel blended with weight `t` out of 256: `a` at 0, `b` at 256.
pub open spec fn mix(a: u32, b: u32, t: u32) -> u32 {
    ((a * (256 - t) + b * t) / 256) as u32
}

/// The blend of two pixels, channel by channel.
pub open spec fn lerp_spec(a: u32, b: u32, t: u32) -> u32 {
    mix(channel(a, 0), channel(b, 0), t) | (mix(channel(a, 1), channel(b, 1), t) << 8) | (mix(
        channel(a, 2),
        channel(b, 2),
        t,
    ) << 16)
}

/// Linearly interpolate the three 8-bit channels of two `0x00RRGGBB` pixels;
/// `t` is a weight out of 256 (`a` at 0, `b` at 256).
pub fn lerp(a: u32, b: u32, t: u32) -> (p: u32)
    requires
        t <= 256,
    ensures
        p == lerp_spec(a, b, t),
{
    let s = 256 - t;
    let a0 = a & 0xFF;
    let b0 = b & 0xFF;
    let a1 = (a >> 8u32) & 0xFF;
    let b1 = (b >> 8u32) & 0xFF;
    let a2 = (a >> 16u32) & 0xFF;
    let b2 = (b >> 16u32) & 0xFF;
    assert(a0 <= 255 && b0 <= 255 && a1 <= 255 && b1 <= 255 && a2 <= 255 && b2 <= 255) by (bit_vector)
        requires
            a0 == a & 0xFF,
            b0 == b & 0xFF,
            a1 == (a >> 8u32) & 0xFF,
            b1 == (b >> 8u32) & 0xFF,
            a2 == (a >> 16u32) & 0xFF,
            b2 == (b >> 16u32) & 0xFF;
    assert(a0 * s + b0 * t <= 255 * 256 && a1 * s + b1 * t <= 255 * 256 && a2 * s + b2 * t <= 255 * 256)
        by (nonlinear_arith)
        requires
            a0 <= 255,
            b0 <= 255,
            a1 <= 255,
            b1 <= 255,
            a2 <= 255,
            b2 <= 255,
            s + t == 256;
    let v0 = a0 * s + b0 * t;
    let v1 = a1 * s + b1 * t;
    let v2 = a2 * s + b2 * t;
    let m0 = v0 >> 8u32;
    let m1 = v1 >> 8u32;
    let m2 = v2 >> 8u32;
    assert(m0 == v0 / 256 && m1 == v1 / 256 && m2 == v2 / 256) by (bit_vector)
        requires
            m0 == v0 >> 8u32,
            m1 == v1 >> 8u32,
            m2 == v2 >> 8u32;
    assert(channel(a, 0) == a0 && channel(b, 0) == b0 && channel(a, 1) == a1 && channel(b, 1) == b1
        && channel(a, 2) == a2 && channel(b, 2) == b2);
    m0 | (m1 << 8u32) | (m2 << 16u32)
}

/// Texture row of framebuffer line `line` (the framebuffer is bottom-up).
pub open spec fn texture_row(line: int, height: int) -> int {
    height - 1 - line
}

/// `tex` with the 32 pixels from `base` on set from the bits of `word`,
/// least significant first.
pub open spec fn paint_word(tex: Seq<u32>, base: int, word: u32, black: u32, white: u32) -> Seq<u32> {
    Seq::new(
        tex.len(),
        |p: int|
            if base <= p < base + 32 {
                if (word >> ((p - base) as u32)) & 1 != 0 {
                    white
                } else {
                    black
                }
            } else {
                tex[p]
            },
    )
}

/// `tex` with framebuffer words `x1..end` of line `line` painted.
pub open spec fn paint_line(
    tex: Seq<u32>,
    fb: Seq<u32>,
    width: int,
    height: int,
    line: int,
    x1: int,
    end: int,
    black: u32,
    white: u32,
) -> Seq<u32>
    decreases end - x1,
{
    if end <= x1 {
        tex
    } else {
        let col = end - 1;
        paint_word(
            paint_line(tex, fb, width, height, line, x1, col, black, white),
            texture_row(line, height) * (width * 32) + col * 32,
            fb[line * width + col],
            black,
            white,
        )
    }
}

/// `tex` with lines `d.y1..end` of the damage rectangle painted.
pub open spec fn paint_lines(
    tex: Seq<u32>,
    fb: Seq<u32>,
    d: Damage,
    width: int,
    height: int,
    end: int,
    black: u32,
    white: u32,
) -> Seq<u32>
    decreases end - d.y1,
{
    if end <= d.y1 {
        tex
    } else {
        paint_line(
            paint_lines(tex, fb, d, width, height, end - 1, black, white),
            fb,
            width,
            height,
            end - 1,
            d.x1 as int,
            d.x2 + 1,
            black,
            white,
        )
    }
}

/// The texture after refreshing the damage rectangle `d` of framebuffer `fb`
/// (`width` words by `height` lines): each damaged word becomes 32 pixels,
/// least significant bit leftmost, on the texture row its line flips to.
pub open spec fn blit_spec(
    tex: Seq<u32>,
    fb: Seq<u32>,
    d: Damage,
    width: int,
    height: int,
    black: u32,
    white: u32,
) -> Seq<u32> {
    if d.y1 > d.y2 {
        tex
    } else {
        paint_lines(tex, fb, d, width, height, d.y2 + 1, black, white)
    }
}

/// A damage rectangle with no columns paints nothing.
proof fn lemma_no_columns_paint_nothing(
    tex: Seq<u32>,
    fb: Seq<u32>,
    d: Damage,
    width: int,
    height: int,
    end: int,
    black: u32,
    white: u32,
)
    requires
        d.x1 > d.x2,
    ensures
        paint_lines(tex, fb, d, width, height, end, black, white) == tex,
    decreases end - d.y1,
{
    if end > d.y1 {
        lemma_no_columns_paint_nothing(tex, fb, d, width, height, end - 1, black, white);
    }
}

/// The framebuffer words of a machine, from the display start.
pub open spec fn fb_words(s: MachineState) -> Seq<u32> {
    s.ram.subrange((s.display_start / 4) as int, s.ram.len() as int)
}

/// Refresh the native-resolution `texture` from the framebuffer's damaged
/// region, and take the damage.
pub fn blit_damage(texture: &mut [u32], risc: &mut Risc, black: u32, white: u32)
    requires
        old(risc).wf(),
        old(risc)@.fb_height >= 1 || old(risc)@.damage.x1 > old(risc)@.damage.x2 || old(risc)@.damage.y1
            > old(risc)@.damage.y2,
        old(texture)@.len() >= old(risc)@.fb_width * 32 * old(risc)@.fb_height,
    ensures
        final(risc).wf(),
        final(risc)@ == (MachineState { damage: empty_damage(old(risc)@), ..old(risc)@ }),
        final(texture)@ == blit_spec(
            old(texture)@,
            fb_words(old(risc)@),
            old(risc)@.damage,
            old(risc)@.fb_width as int,
            old(risc)@.fb_height as int,
            black,
            white,
        ),
{
    let tlen = texture.len();
    let damage = risc.framebuffer_damage();
    if damage.y1 > damage.y2 {
        return;
    }
    let fb_width = risc.fb_width();
    let fb_height = risc.fb_height();
    if fb_height < 1 {
        proof {
            lemma_no_columns_paint_nothing(
                texture@,
                fb_words(old(risc)@),
                damage,
                fb_width as int,
                fb_height as int,
                damage.y2 + 1,
                black,
                white,
            );
        }
        return;
    }
    let fb = risc.framebuffer();
    let flen = fb.len();
    let ghost s = old(risc)@;
    let ghost fbs = fb@;
    proof {
        assert(fb_width * fb_height <= fb@.len()) by {
            vstd::arithmetic::div_mod::lemma_div_is_ordered((s.mem_size - s.display_start) as int, s.mem_size as int, 4);
        }
        assert(fb_width * 32 <= fb_width * 32 * fb_height) by (nonlinear_arith)
            requires fb_width >= 1, fb_height >= 1;
    }
    let w = fb_width as usize;
    let h = fb_height as usize;
    let tex_w = w * 32;
    let ghost t0 = texture@;
    let mut line = damage.y1 as usize;
    let y2 = damage.y2 as usize;
    let x1 = damage.x1 as usize;
    let x2 = damage.x2 as usize;
    while line <= y2
        invariant
            0 <= x1 <= x2 < w,
            x1 as int == damage.x1,
            x2 as int == damage.x2,
            y2 as int == damage.y2,
            line >= damage.y1,
            y2 < h,
            line <= y2 + 1,
            w * h <= fb@.len(),
            flen == fb@.len(),
            tlen == texture@.len(),
            fbs == fb@,
            w * 32 * h <= texture@.len(),
            tex_w == w * 32,
            texture@.len() == t0.len(),
            texture@ == paint_lines(t0, fbs, damage, w as int, h as int, line as int, black, white),
        decreases y2 + 1 - line,
    {
        proof {
            assert(line * w <= w * h) by (nonlinear_arith)
                requires line < h;
            assert((h - 1 - line) * (w * 32) <= w * 32 * h) by (nonlinear_arith)
                requires line < h;
        }
        let src_row = line * w;
        let dst_row = (h - 1 - line) * tex_w;
        let ghost before = texture@;
        let mut col = x1;
        while col <= x2
            invariant
                0 <= x1 <= col <= x2 + 1,
                x2 < w,
                line < h,
                w * h <= fb@.len(),
                flen == fb@.len(),
                tlen == texture@.len(),
                fbs == fb@,
                w * 32 * h <= texture@.len(),
                texture@.len() == t0.len(),
                tex_w == w * 32,
                src_row == line * w,
                dst_row == (h - 1 - line) * tex_w,
                texture@ == paint_line(before, fbs, w as int, h as int, line as int, x1 as int, col as int, black, white),
            decreases x2 + 1 - col,
        {
            proof {
                assert(line * w + col < w * h) by (nonlinear_arith)
                    requires line < h, col < w;
                assert((h - 1 - line) * (w * 32) + col * 32 + 32 <= w * 32 * h) by (nonlinear_arith)
                    requires line < h, col < w;
            }
            let mut pixels = fb[src_row + col];
            let ghost word = pixels;
            let base = dst_row + col * 32;
            let ghost partial = texture@;
            assert(word >> 0u32 == word) by (bit_vector);
            let mut i: usize = 0;
            while i < 32
                invariant
                    i <= 32,
                    base + 32 <= texture@.len(),
                    texture@.len() == partial.len(),
                    pixels == word >> (i as u32),
                    forall|p: int|
                        0 <= p < texture@.len() ==> texture@[p] == if base <= p < base + i {
                            if (word >> ((p - base) as u32)) & 1 != 0 {
                                white
                            } else {
                                black
                            }
                        } else {
                            partial[p]
                        },
                decreases 32 - i,
            {
                texture[base + i] = if pixels & 1 != 0 { white } else { black };
                let ghost p0 = pixels;
                pixels = pixels >> 1u32;
                assert(pixels == word >> ((i + 1) as u32)) by (bit_vector)
                    requires p0 == word >> (i as u32), pixels == p0 >> 1u32, i < 32;
                i = i + 1;
            }
            assert(texture@ =~= paint_word(partial, base as int, word, black, white));
            col = col + 1;
        }
        line = line + 1;
    }
}

/// The grey levels of a framebuffer word's 32 pixels, leftmost (bit 0) first:
/// 255 for a set bit, 0 for a clear one.
pub open spec fn word_grey(w: u32) -> Seq<u8> {
    Seq::new(32, |b: int| if (w >> (b as u32)) & 1 != 0 { 255u8 } else { 0u8 })
}

/// The grey levels of the first `n` words of framebuffer line `y` (`wwords`
/// words to a line).
pub open spec fn line_grey(fb: Seq<u32>, wwords: int, y: int, n: int) -> Seq<u8>
    decreases n,
{
    if n <= 0 { Seq::empty() } else { line_grey(fb, wwords, y, n - 1) + word_grey(fb[y * wwords + n - 1]) }
}

/// The grey levels of the top `k` lines of an `h`-line framebuffer, top line
/// first (the framebuffer keeps its lines bottom up).
pub open spec fn screen_grey(fb: Seq<u32>, wwords: int, h: int, k: int) -> Seq<u8>
    decreases k,
{
    if k <= 0 {
        Seq::empty()
    } else {
        screen_grey(fb, wwords, h, k - 1) + line_grey(fb, wwords, h - k, wwords)
    }
}

/// The pixels of a binary greymap of the framebuffer: `wwords` words by `h`
/// lines, top line first, each bit a pixel (see [`screen_grey`]).
pub fn grey_pixels(fb: &[u32], wwords: usize, h: usize) -> (out: Vec<u8>)
    requires
        wwords * h <= fb@.len(),
    ensures
        out@ == screen_grey(fb@, wwords as int, h as int, h as int),
{
    let len = fb.len();
    let mut out: Vec<u8> = Vec::new();
    let mut k: usize = 0;
    while k < h
        invariant
            k <= h,
            len == fb@.len(),
            wwords * h <= fb@.len(),
            out@ == screen_grey(fb@, wwords as int, h as int, k as int),
        decreases h - k,
    {
        let y = h - 1 - k;
        let ghost before = out@;
        let mut xw: usize = 0;
        while xw < wwords
            invariant
                k < h,
                y == h - 1 - k,
                len == fb@.len(),
                wwords * h <= fb@.len(),
                xw <= wwords,
                out@ == before + line_grey(fb@, wwords as int, y as int, xw as int),
            decreases wwords - xw,
        {
            assert(y * wwords + xw < wwords * h) by (nonlinear_arith)
                requires
                    y < h,
                    xw < wwords,
            ;
            assert(y * wwords <= y * wwords + xw);
            let idx = y * wwords + xw;
            let word = fb[idx];
            let ghost mid = out@;
            let mut b: u32 = 0;
            while b < 32
                invariant
                    b <= 32,
                    out@ == mid + word_grey(word).subrange(0, b as int),
                decreases 32 - b,
            {
                out.push(if (word >> b) & 1 != 0 { 255 } else { 0 });
                b = b + 1;
                assert(word_grey(word).subrange(0, b as int) =~= word_grey(word).subrange(0, b - 1).push(
                    word_grey(word)[b - 1],
                ));
            }
            assert(word_grey(word).subrange(0, 32) =~= word_grey(word));
            xw = xw + 1;
            assert(out@ =~= before + line_grey(fb@, wwords as int, y as int, xw as int));
        }
        k = k + 1;
        assert(out@ =~= screen_grey(fb@, wwords as int, h as int, k as int));
    }
    out
}

} // verus!
