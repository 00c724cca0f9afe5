//! The files that the renderer is fed, as bytes: raw images and raw sound.
//!
//! Nothing here opens a file: the caller reads the bytes and hands them over.

use crate::raster::Srgb;
use vstd::prelude::*;

verus! {

/// A little-endian word of four bytes at `at`.
pub open spec fn word_at(s: Seq<u8>, at: int) -> nat {
    (s[at] + s[at + 1] * 0x100 + s[at + 2] * 0x1_0000 + s[at + 3] * 0x100_0000) as nat
}

/// Whether bytes are an image: a width and a height, each a little-endian word, and
/// then four bytes for each of `width * height` pixels.
pub open spec fn is_image(s: Seq<u8>) -> bool {
    &&& s.len() >= 8
    &&& s.len() % 4 == 0
    &&& word_at(s, 0) * word_at(s, 4) == (s.len() - 8) / 4
}

/// Pixel `i` of an image: red, green, blue and alpha, a byte each.
pub open spec fn pixel_at(s: Seq<u8>, i: int) -> Srgb {
    Srgb { r: s[8 + 4 * i], g: s[8 + 4 * i + 1], b: s[8 + 4 * i + 2], a: s[8 + 4 * i + 3] }
}

fn read_word(bytes: &[u8], at: usize) -> (r: u32)
    requires
        at + 4 <= bytes.len(),
    ensures
        r == word_at(bytes@, at as int),
{
    (bytes[at] as u32) + (bytes[at + 1] as u32) * 0x100 + (bytes[at + 2] as u32) * 0x1_0000 + (bytes[at
        + 3] as u32) * 0x100_0000
}

/// Reads an image: its width, its height and its pixels row by row, or nothing where
/// the bytes are no image.
pub fn parse_image(bytes: &[u8]) -> (r: Option<(usize, usize, Vec<Srgb>)>)
    ensures
        r is Some <==> is_image(bytes@),
        match r {
            Some((width, height, pixels)) => {
                &&& width == word_at(bytes@, 0)
                &&& height == word_at(bytes@, 4)
                &&& pixels@.len() == (bytes@.len() - 8) / 4
                &&& forall|i: int| 0 <= i < pixels@.len() ==> pixels@[i] == #[trigger] pixel_at(bytes@, i)
            },
            None => true,
        },
{
    let len: usize = bytes.len();
    if len < 8 || len % 4 != 0 {
        return None;
    }
    let width: u32 = read_word(bytes, 0);
    let height: u32 = read_word(bytes, 4);
    let count: usize = (len - 8) / 4;
    assert((width as u64) * (height as u64) <= 0xffff_ffff_0000_0000) by (nonlinear_arith)
        requires
            width <= 0xffff_ffff,
            height <= 0xffff_ffff,
    ;
    if (width as u64) * (height as u64) != count as u64 {
        return None;
    }
    let mut pixels: Vec<Srgb> = Vec::new();
    let mut i: usize = 0;
    while i < count
        invariant
            i <= count,
            count == (bytes@.len() - 8) / 4,
            len == bytes@.len(),
            bytes@.len() >= 8,
            bytes@.len() % 4 == 0,
            pixels@.len() == i,
            forall|k: int| 0 <= k < i ==> pixels@[k] == #[trigger] pixel_at(bytes@, k),
        decreases count - i,
    {
        let at: usize = 8 + 4 * i;
        pixels.push(Srgb { r: bytes[at], g: bytes[at + 1], b: bytes[at + 2], a: bytes[at + 3] });
        i = i + 1;
    }
    Some((width as usize, height as usize, pixels))
}

/// Sample `i` of raw sound: two bytes, the low one first, as a signed number.
pub open spec fn sample_at(s: Seq<u8>, i: int) -> int {
    let raw = s[2 * i] + s[2 * i + 1] * 0x100;
    if raw >= 0x8000 {
        raw - 0x1_0000
    } else {
        raw
    }
}

/// Reads raw sound: signed samples of two bytes each, the low byte first, or nothing
/// where the number of bytes is odd.
pub fn parse_audio(bytes: &[u8]) -> (r: Option<Vec<i16>>)
    ensures
        r is Some <==> bytes@.len() % 2 == 0,
        match r {
            Some(samples) => {
                &&& samples@.len() == bytes@.len() / 2
                &&& forall|i: int| 0 <= i < samples@.len() ==> samples@[i] == #[trigger] sample_at(bytes@, i)
            },
            None => true,
        },
{
    let len: usize = bytes.len();
    if len % 2 != 0 {
        return None;
    }
    let count: usize = len / 2;
    let mut samples: Vec<i16> = Vec::new();
    let mut i: usize = 0;
    while i < count
        invariant
            i <= count,
            count == bytes@.len() / 2,
            len == bytes@.len(),
            bytes@.len() % 2 == 0,
            samples@.len() == i,
            forall|k: int| 0 <= k < i ==> samples@[k] == #[trigger] sample_at(bytes@, k),
        decreases count - i,
    {
        let raw: i32 = (bytes[2 * i] as i32) + (bytes[2 * i + 1] as i32) * 0x100;
        let sample: i16 = if raw >= 0x8000 {
            (raw - 0x1_0000) as i16
        } else {
            raw as i16
        };
        samples.push(sample);
        i = i + 1;
    }
    Some(samples)
}

} // verus!
