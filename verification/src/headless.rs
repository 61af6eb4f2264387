//! Deterministic headless driving and state hashing: a synthetic 60 Hz clock
//! (not wall time) makes a boot reproducible byte for byte.
use vstd::prelude::*;

use crate::risc::{frame_start, run_steps, state_vector, MachineState, Risc};

verus! {

/// The FPGA system clock the emulator models.
pub const CPU_HZ: u32 = 25_000_000;

/// Frames per second the clock is paced at.
pub const FPS: u32 = 60;

/// Milliseconds per frame.
pub const FRAME_MS: u32 = 16;

/// Instructions per frame.
pub const FRAME_CYCLES: u32 = 416_666;

/// `n` frames from `s`, counted from frame `start`: frame `k` sets the clock to
/// `k * ms` milliseconds (wrapping) and runs `cycles` instructions; `devs[i]`
/// holds the device values of the `i`-th of these frames.
pub open spec fn frames_spec(s: MachineState, devs: Seq<Seq<u32>>, start: u32, n: nat, ms: u32, cycles: u32) -> MachineState
    decreases n,
{
    if n == 0 {
        s
    } else {
        let p = frames_spec(s, devs, start, (n - 1) as nat, ms, cycles);
        let tick = vstd::wrapping::u32_specs::wrapping_mul((start + n - 1) as u32, ms);
        run_steps(frame_start(MachineState { current_tick: tick, ..p }), devs[n - 1], cycles as nat)
    }
}

/// Device values beyond the frames run do not matter.
proof fn lemma_frames_push(s: MachineState, devs: Seq<Seq<u32>>, start: u32, n: nat, ms: u32, cycles: u32, x: Seq<u32>)
    requires
        devs.len() >= n,
    ensures
        frames_spec(s, devs.push(x), start, n, ms, cycles) == frames_spec(s, devs, start, n, ms, cycles),
    decreases n,
{
    if n > 0 {
        lemma_frames_push(s, devs, start, (n - 1) as nat, ms, cycles, x);
        assert(devs.push(x)[n - 1] == devs[n - 1]);
    }
}

/// Run `n` frames of the synthetic clock from frame `*frame` on, each setting
/// the clock to `frame * frame_ms` and running `cycles` instructions, and count
/// them in `*frame`.
pub fn advance(risc: &mut Risc, frame: &mut u32, n: u32, frame_ms: u32, cycles: u32)
    requires
        old(risc).wf(),
        *old(frame) + n <= u32::MAX,
    ensures
        final(risc).wf(),
        *final(frame) == *old(frame) + n,
        exists|devs: Seq<Seq<u32>>|
            final(risc)@ == frames_spec(old(risc)@, devs, *old(frame), n as nat, frame_ms, cycles),
{
    let ghost s0 = risc@;
    let ghost f0 = *frame;
    let ghost mut devs: Seq<Seq<u32>> = Seq::empty();
    let mut k: u32 = 0;
    while k < n
        invariant
            risc.wf(),
            k <= n,
            f0 + n <= u32::MAX,
            *frame == f0 + k,
            devs.len() == k,
            risc@ == frames_spec(s0, devs, f0, k as nat, frame_ms, cycles),
        decreases n - k,
    {
        let ghost p = risc@;
        risc.set_time(frame.wrapping_mul(frame_ms));
        risc.run(cycles);
        proof {
            let tick = vstd::wrapping::u32_specs::wrapping_mul(*frame, frame_ms);
            let start = frame_start(MachineState { current_tick: tick, ..p });
            let d = choose|d: Seq<u32>| risc@ == run_steps(start, d, cycles as nat);
            lemma_frames_push(s0, devs, f0, k as nat, frame_ms, cycles, d);
            devs = devs.push(d);
        }
        *frame = *frame + 1;
        k = k + 1;
    }
}

/// Advance `risc` by `frames` frames of the synthetic 60 Hz clock, starting
/// the clock at zero.
pub fn run_frames(risc: &mut Risc, frames: u32)
    requires
        old(risc).wf(),
    ensures
        final(risc).wf(),
        exists|devs: Seq<Seq<u32>>|
            final(risc)@ == frames_spec(old(risc)@, devs, 0, frames as nat, FRAME_MS, FRAME_CYCLES),
{
    let mut frame: u32 = 0;
    advance(risc, &mut frame, frames, 1000 / FPS, CPU_HZ / FPS);
}

/// The FNV-1a offset basis and prime.
pub const FNV_OFFSET: u64 = 0xcbf2_9ce4_8422_2325;

pub const FNV_PRIME: u64 = 0x0000_0100_0000_01b3;

/// One FNV-1a step on a byte.
pub open spec fn fnv_byte(h: u64, b: u8) -> u64 {
    vstd::wrapping::u64_specs::wrapping_mul(h ^ (b as u64), FNV_PRIME)
}

/// FNV-1a over the four little-endian bytes of a word.
pub open spec fn fnv_word(h: u64, w: u32) -> u64 {
    fnv_byte(fnv_byte(fnv_byte(fnv_byte(h, (w & 0xFF) as u8), ((w >> 8) & 0xFF) as u8), ((w >> 16) & 0xFF) as u8), ((w >> 24) & 0xFF) as u8)
}

/// FNV-1a over a stream of words, each hashed as its little-endian bytes.
pub open spec fn fnv_spec(words: Seq<u32>) -> u64
    decreases words.len(),
{
    if words.len() == 0 {
        FNV_OFFSET
    } else {
        fnv_word(fnv_spec(words.drop_last()), words.last())
    }
}

/// FNV-1a over a stream of words (hashed as little-endian bytes).
pub fn fnv1a(words: &[u32]) -> (h: u64)
    ensures
        h == fnv_spec(words@),
{
    let mut h: u64 = FNV_OFFSET;
    let mut i: usize = 0;
    while i < words.len()
        invariant
            i <= words@.len(),
            h == fnv_spec(words@.subrange(0, i as int)),
        decreases words@.len() - i,
    {
        let w = words[i];
        let b0 = (w & 0xFF) as u8;
        let b1 = ((w >> 8u32) & 0xFF) as u8;
        let b2 = ((w >> 16u32) & 0xFF) as u8;
        let b3 = ((w >> 24u32) & 0xFF) as u8;
        h = (h ^ (b0 as u64)).wrapping_mul(FNV_PRIME);
        h = (h ^ (b1 as u64)).wrapping_mul(FNV_PRIME);
        h = (h ^ (b2 as u64)).wrapping_mul(FNV_PRIME);
        h = (h ^ (b3 as u64)).wrapping_mul(FNV_PRIME);
        i = i + 1;
        assert(words@.subrange(0, i as int).drop_last() =~= words@.subrange(0, i - 1));
    }
    assert(words@.subrange(0, words@.len() as int) =~= words@);
    h
}

/// FNV-1a of the visible framebuffer of `s`.
pub open spec fn fb_hash_spec(s: MachineState) -> u64 {
    fnv_spec(s.ram.subrange((s.display_start / 4) as int, (s.display_start / 4) + s.fb_width * s.fb_height))
}

/// FNV-1a of the visible framebuffer (`fb_width * fb_height` words).
pub fn framebuffer_hash(risc: &Risc) -> (h: u64)
    requires
        risc.wf(),
    ensures
        h == fb_hash_spec(risc@),
{
    let fb = risc.framebuffer();
    proof {
        let s = risc@;
        assert(s.fb_width * s.fb_height <= fb@.len()) by {
            vstd::arithmetic::div_mod::lemma_div_is_ordered((s.mem_size - s.display_start) as int, s.mem_size as int, 4);
        }
        assert(s.fb_width * s.fb_height <= 0x1000_0000) by (nonlinear_arith)
            requires s.fb_width * s.fb_height <= fb@.len(), fb@.len() <= s.mem_size / 4, s.mem_size <= 0x4000_0000;
    }
    let words = (risc.fb_width() * risc.fb_height()) as usize;
    let (visible, _) = fb.split_at(words);
    assert(visible@ =~= risc@.ram.subrange(
        (risc@.display_start / 4) as int,
        (risc@.display_start / 4) + risc@.fb_width * risc@.fb_height,
    ));
    fnv1a(visible)
}

/// FNV-1a of the architectural CPU state (PC, R0..R15, H, flags).
pub fn state_hash(risc: &Risc) -> (h: u64)
    ensures
        h == fnv_spec(state_vector(risc@)),
{
    let st = risc.cosim_dump_state();
    fnv1a(&st)
}

/// What watching a boot for a still screen has seen after `n` frames of the
/// 60 Hz clock from `s`: the last sampled framebuffer hash, and the frame from
/// which every sample has matched it. The screen is sampled after each frame
/// whose number is a multiple of `sample` (never when `sample` is 0); a sample
/// equal to the one before settles the screen at that frame, if it is not
/// settled already, and a different one unsettles it.
pub open spec fn settle_spec(s: MachineState, devs: Seq<Seq<u32>>, n: nat, sample: u32) -> (Option<u64>, Option<u32>)
    decreases n,
{
    if n == 0 {
        (None, None)
    } else {
        let prior = settle_spec(s, devs, (n - 1) as nat, sample);
        let f = (n - 1) as u32;
        if sample != 0 && f % sample == 0 {
            let h = fb_hash_spec(frames_spec(s, devs, 0, n, FRAME_MS, FRAME_CYCLES));
            if prior.0 == Some(h) {
                (prior.0, if prior.1 is Some { prior.1 } else { Some(f) })
            } else {
                (Some(h), None)
            }
        } else {
            prior
        }
    }
}

proof fn lemma_settle_push(s: MachineState, devs: Seq<Seq<u32>>, n: nat, sample: u32, x: Seq<u32>)
    requires
        devs.len() >= n,
    ensures
        settle_spec(s, devs.push(x), n, sample) == settle_spec(s, devs, n, sample),
    decreases n,
{
    if n > 0 {
        lemma_settle_push(s, devs, (n - 1) as nat, sample, x);
        lemma_frames_push(s, devs, 0, n, FRAME_MS, FRAME_CYCLES, x);
    }
}

/// Boot for `frames` frames of the 60 Hz clock from zero, watching the screen
/// every `sample` frames; return the frame from which it stopped changing, or
/// `None` if it never settled.
pub fn watch_boot(risc: &mut Risc, frames: u32, sample: u32) -> (settled: Option<u32>)
    requires
        old(risc).wf(),
    ensures
        final(risc).wf(),
        exists|devs: Seq<Seq<u32>>|
            final(risc)@ == frames_spec(old(risc)@, devs, 0, frames as nat, FRAME_MS, FRAME_CYCLES)
                && settled == settle_spec(old(risc)@, devs, frames as nat, sample).1,
{
    let ghost s0 = risc@;
    let ghost mut devs: Seq<Seq<u32>> = Seq::empty();
    let mut prev_hash: Option<u64> = None;
    let mut settled_at: Option<u32> = None;
    let mut frame: u32 = 0;
    while frame < frames
        invariant
            risc.wf(),
            frame <= frames,
            devs.len() == frame,
            risc@ == frames_spec(s0, devs, 0, frame as nat, FRAME_MS, FRAME_CYCLES),
            (prev_hash, settled_at) == settle_spec(s0, devs, frame as nat, sample),
        decreases frames - frame,
    {
        let ghost p = risc@;
        risc.set_time(frame.wrapping_mul(1000 / FPS));
        risc.run(CPU_HZ / FPS);
        proof {
            let tick = vstd::wrapping::u32_specs::wrapping_mul(frame, FRAME_MS);
            let start = frame_start(MachineState { current_tick: tick, ..p });
            let d = choose|d: Seq<u32>| risc@ == run_steps(start, d, FRAME_CYCLES as nat);
            lemma_frames_push(s0, devs, 0, frame as nat, FRAME_MS, FRAME_CYCLES, d);
            lemma_settle_push(s0, devs, frame as nat, sample, d);
            devs = devs.push(d);
        }
        if sample != 0 && frame % sample == 0 {
            let h = framebuffer_hash(risc);
            if prev_hash == Some(h) {
                if settled_at.is_none() {
                    settled_at = Some(frame);
                }
            } else {
                prev_hash = Some(h);
                settled_at = None;
            }
        }
        frame = frame + 1;
    }
    settled_at
}

} // verus!
