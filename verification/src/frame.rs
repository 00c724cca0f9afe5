//! What a frame computes beside its triangles: the sound, the backdrop and the turn of
//! the table.

use crate::raster::Srgb;
use crate::single::F32;
use vstd::prelude::*;

verus! {

/// How loud the sound plays: the bits of 0.
pub const VOLUME_BITS: u32 = 0;

/// A full turn: the bits of 2 pi.
pub const TAU_BITS: u32 = 0x40c9_0fdb;

/// The bits of 255.
pub const CHANNEL_BITS: u32 = 0x437f_0000;

/// The bits of 50.
pub const DRIFT_BITS: u32 = 0x4248_0000;

/// A raw sample as the platform plays it: the sample over the greatest sample, times
/// the volume.
pub open spec fn audio_sample_spec(raw: i16, volume: F32) -> F32 {
    F32::from_int_spec(raw as int).div_spec(F32::from_int_spec(0x7fff)).mul_spec(volume)
}

/// A raw sample as the platform plays it.
pub fn audio_sample(raw: i16, volume: F32) -> (r: F32)
    ensures
        r == audio_sample_spec(raw, volume),
{
    F32::from_i16(raw).div(F32::from_i16(i16::MAX)).mul(volume)
}

/// Where sample `k` of a run is read: the run starts at `cursor`, or at the beginning
/// where the cursor is at the end, and goes round.
pub open spec fn sample_place(cursor: int, len: int, k: int) -> int {
    if cursor >= len {
        k % len
    } else {
        (cursor + k) % len
    }
}

/// The next `count` samples of a recording that goes round, from the cursor on, each at
/// the volume of the platform; the cursor moves past them. Where samples are asked for,
/// the recording holds some; where none is asked for, nothing is read and the cursor
/// stays.
pub fn audio(recording: &Vec<i16>, play_cursor: &mut usize, count: usize) -> (r: Vec<F32>)
    requires
        count > 0 ==> recording.len() > 0,
    ensures
        r@.len() == count,
        forall|k: int|
            0 <= k < count ==> r@[k] == audio_sample_spec(
                #[trigger] recording[sample_place(*old(play_cursor) as int, recording.len() as int, k)],
                F32 { bits: VOLUME_BITS },
            ),
        count == 0 ==> *final(play_cursor) == *old(play_cursor),
        count > 0 ==> *final(play_cursor) == sample_place(
            *old(play_cursor) as int,
            recording.len() as int,
            count - 1,
        ) + 1,
{
    let ghost start = *play_cursor as int;
    let ghost len = recording.len() as int;
    let mut out: Vec<F32> = Vec::new();
    let mut k: usize = 0;
    while k < count
        invariant
            k <= count,
            len == recording.len(),
            count > 0 ==> len > 0,
            start >= 0,
            out@.len() == k,
            forall|j: int|
                0 <= j < k ==> out@[j] == audio_sample_spec(
                    #[trigger] recording[sample_place(start, len, j)],
                    F32 { bits: VOLUME_BITS },
                ),
            k == 0 ==> *play_cursor == start,
            k > 0 ==> *play_cursor == sample_place(start, len, k - 1) + 1,
        decreases count - k,
    {
        if *play_cursor >= recording.len() {
            *play_cursor = 0;
        }
        proof {
            lemma_place_follows(start, len, k as int);
        }
        out.push(audio_sample(recording[*play_cursor], F32 { bits: VOLUME_BITS }));
        *play_cursor = *play_cursor + 1;
        k = k + 1;
    }
    out
}

/// A place is in the recording, and the next place is the next sample or the first.
proof fn lemma_place_follows(cursor: int, len: int, k: int)
    requires
        len > 0,
        cursor >= 0,
        k >= 0,
    ensures
        0 <= sample_place(cursor, len, k) < len,
        k == 0 ==> sample_place(cursor, len, 0) == if cursor >= len {
            0
        } else {
            cursor
        },
        k > 0 ==> sample_place(cursor, len, k) == if sample_place(cursor, len, k - 1) + 1 >= len {
            0
        } else {
            sample_place(cursor, len, k - 1) + 1
        },
{
    let base = if cursor >= len {
        0
    } else {
        cursor
    };
    vstd::arithmetic::div_mod::lemma_mod_bound(base + k, len);
    if k == 0 {
        vstd::arithmetic::div_mod::lemma_small_mod(base as nat, len as nat);
    } else {
        vstd::arithmetic::div_mod::lemma_mod_bound(base + k - 1, len);
        vstd::arithmetic::div_mod::lemma_fundamental_div_mod(base + k - 1, len);
        vstd::arithmetic::div_mod::lemma_fundamental_div_mod(base + k, len);
        let q = (base + k - 1) / len;
        let r = (base + k - 1) % len;
        assert((q + 1) * len == len * q + len && q * len == len * q) by (nonlinear_arith);
        if r + 1 >= len {
            vstd::arithmetic::div_mod::lemma_fundamental_div_mod_converse(base + k, len, q + 1, 0);
        } else {
            vstd::arithmetic::div_mod::lemma_fundamental_div_mod_converse(base + k, len, q, r + 1);
        }
    }
}

/// The drift of the backdrop after `delta` seconds: `(bg + delta * 50) % 255`.
pub open spec fn advance_background_spec(bg: F32, delta: F32) -> F32 {
    bg.add_spec(delta.mul_spec(F32 { bits: DRIFT_BITS })).rem_spec(F32 { bits: CHANNEL_BITS })
}

/// The drift of the backdrop after `delta` seconds.
pub fn advance_background(bg: F32, delta: F32) -> (r: F32)
    ensures
        r == advance_background_spec(bg, delta),
{
    bg.add(delta.mul(F32 { bits: DRIFT_BITS })).rem(F32 { bits: CHANNEL_BITS })
}

/// One channel of the backdrop at one coordinate: `(at + bg) % 255`, as a byte.
pub open spec fn background_channel_spec(at: usize, bg: F32) -> u8 {
    F32::from_nat_spec(at as nat).add_spec(bg).rem_spec(F32 { bits: CHANNEL_BITS }).to_u8_spec()
}

/// The colour of the backdrop at pixel `(x, y)`: red from x, blue from y, no green.
pub fn background_color(x: usize, y: usize, bg: F32) -> (r: Srgb)
    ensures
        r == (Srgb { r: background_channel_spec(x, bg), g: 0, b: background_channel_spec(y, bg), a: 255 }),
{
    let channel = F32 { bits: CHANNEL_BITS };
    Srgb {
        r: F32::from_usize(x).add(bg).rem(channel).to_u8(),
        g: 0,
        b: F32::from_usize(y).add(bg).rem(channel).to_u8(),
        a: 255,
    }
}

/// The turn of the table after `delta` seconds: `(turn + delta) % 2 pi`.
pub open spec fn advance_rotation_spec(turn: F32, delta: F32) -> F32 {
    turn.add_spec(delta).rem_spec(F32 { bits: TAU_BITS })
}

/// The turn of the table after `delta` seconds.
pub fn advance_rotation(turn: F32, delta: F32) -> (r: F32)
    ensures
        r == advance_rotation_spec(turn, delta),
{
    turn.add(delta).rem(F32 { bits: TAU_BITS })
}

} // verus!
