//! The pixel-map encoder: clamp, quantize and serialize a framebuffer.
//!
//! The output is the binary pixel-map format: the header `P6`, the
//! width and height in decimal, the maximum channel value 255, then one
//! byte per channel in row-major order. A channel is clamped to the
//! unit interval, scaled by 255 and truncated.

use vstd::prelude::*;

verus! {

use crate::fixed::{SCALE, clamp01, clamp01_spec, tdiv};
use crate::vec3::{V3, Vec3f};

/// The byte one channel quantizes to: clamp to [0, 1], scale by 255,
/// truncate.
pub open spec fn channel_byte(c: int) -> int {
    tdiv(255 * clamp01_spec(c), SCALE as int)
}

/// The three bytes of one pixel: red, green, blue.
pub open spec fn pixel_bytes(v: V3) -> Seq<u8> {
    seq![channel_byte(v.x) as u8, channel_byte(v.y) as u8, channel_byte(v.z) as u8]
}

/// The bytes of a framebuffer, pixel after pixel.
pub open spec fn pixels_bytes(fb: Seq<Vec3f>) -> Seq<u8>
    decreases fb.len(),
{
    if fb.len() == 0 {
        Seq::empty()
    } else {
        pixels_bytes(fb.drop_last()) + pixel_bytes(fb.last()@)
    }
}

/// The decimal digits of `n`, most significant first, as their bytes.
pub open spec fn dec_rep(n: nat) -> Seq<u8>
    decreases n,
{
    if n < 10 {
        seq![(48 + n) as u8]
    } else {
        dec_rep(n / 10) + seq![(48 + (n % 10)) as u8]
    }
}

/// The fixed-format header: `P6`, the two sides in decimal, and the
/// maximum channel value 255, with their separators.
pub open spec fn header_bytes(w: nat, h: nat) -> Seq<u8> {
    seq![80u8, 54u8, 10u8] + dec_rep(w) + seq![32u8] + dec_rep(h) + seq![
        10u8,
        50u8,
        53u8,
        53u8,
        10u8,
    ]
}

/// The whole encoded image: the header, then every pixel's bytes.
pub open spec fn ppm_bytes(w: nat, h: nat, fb: Seq<Vec3f>) -> Seq<u8> {
    header_bytes(w, h) + pixels_bytes(fb)
}

/// Quantize one channel to its byte.
pub fn channel_byte_of(c: i64) -> (r: u8)
    ensures
        r as int == channel_byte(c as int),
{
    let cl = clamp01(c);
    let v = (255 * cl) / SCALE;
    v as u8
}

/// Append the decimal digits of `n`.
fn push_decimal(out: &mut Vec<u8>, n: u64)
    ensures
        final(out)@ == old(out)@ + dec_rep(n as nat),
    decreases n,
{
    if n >= 10 {
        let ghost before = out@;
        push_decimal(out, n / 10);
        out.push(48 + (n % 10) as u8);
        proof {
            assert(out@ =~= before + dec_rep(n as nat));
        }
    } else {
        out.push(48 + n as u8);
        proof {
            assert(out@ =~= old(out)@ + dec_rep(n as nat));
        }
    }
}

/// Encode a framebuffer of the given sides: the fixed-format header,
/// then each pixel's three quantized channel bytes in storage order.
pub fn encode_ppm(fb: &Vec<Vec3f>, width: usize, height: usize) -> (out: Vec<u8>)
    ensures
        out@ == ppm_bytes(width as nat, height as nat, fb@),
{
    let ghost w = width as nat;
    let ghost h = height as nat;
    let mut out: Vec<u8> = Vec::new();
    out.push(80);
    out.push(54);
    out.push(10);
    proof {
        assert(out@ =~= seq![80u8, 54u8, 10u8]);
    }
    push_decimal(&mut out, width as u64);
    out.push(32);
    proof {
        assert(out@ =~= seq![80u8, 54u8, 10u8] + dec_rep(w) + seq![32u8]);
    }
    push_decimal(&mut out, height as u64);
    out.push(10);
    out.push(50);
    out.push(53);
    out.push(53);
    out.push(10);
    proof {
        assert(out@ =~= header_bytes(w, h));
    }
    let ghost header = out@;
    let mut k: usize = 0;
    while k < fb.len()
        invariant
            k <= fb@.len(),
            header == header_bytes(w, h),
            out@ == header + pixels_bytes(fb@.take(k as int)),
        decreases fb@.len() - k,
    {
        let v = &fb[k];
        let ghost before = out@;
        out.push(channel_byte_of(v.0));
        out.push(channel_byte_of(v.1));
        out.push(channel_byte_of(v.2));
        proof {
            assert(fb@.take(k + 1).drop_last() =~= fb@.take(k as int));
            assert(fb@.take(k + 1).last() == fb@[k as int]);
            assert(out@ =~= header + pixels_bytes(fb@.take(k + 1)));
        }
        k = k + 1;
    }
    proof {
        assert(fb@.take(fb@.len() as int) =~= fb@);
    }
    out
}

} // verus!
