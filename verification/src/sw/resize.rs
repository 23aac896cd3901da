//! Bilinear `Resize` with the `half_pixel` coordinate transform.
//!
//! The accelerator has no resize primitive, so this runs on the CPU.
//!
//! # Coordinate transform
//!
//! ```text
//! src = (dst + 0.5) * (src_extent / dst_extent) - 0.5
//! i0  = clamp(floor(src), 0, extent-1);  i1 = clamp(i0 + 1, 0, extent-1)
//! f   = clamp(src - i0, 0, 1)
//! out = (1-fx)(1-fy) p00 + fx(1-fy) p01 + (1-fx)fy p10 + fx fy p11
//! ```
//!
//! The caller evaluates `src` for every output column and row and hands it
//! over as a [`Sample`]: its floor, and its distance from that floor in Q15.
//! Everything from there on is integer arithmetic and happens here.
//!
//! # Quantisation
//!
//! Input and output are taken to share one quantisation, so interpolation runs
//! directly on the raw codes. That is an assumption about the schedule: a
//! resize that changes scale would need a requantisation that is not here.
//!
//! # Arithmetic
//!
//! Row and column weights are Q15. Combined they are Q30, so an output code is
//! four multiplies and a single rounding.

use vstd::prelude::*;

use crate::sw::depth::copy_run;
use crate::sw::MAX_RESIZE_EXTENT;

verus! {

/// One in Q15.
pub const Q15_ONE: i64 = 0x8000;

/// One in Q30.
pub const Q30_ONE: i64 = 0x4000_0000;

/// One half in Q30.
pub const Q30_HALF: i64 = 0x2000_0000;

/// Where an output position falls on an input axis: the floor of the source
/// coordinate, and its distance from that floor in Q15.
#[derive(Clone, Copy, Debug, PartialEq, Eq)]
pub struct Sample {
    pub floor: i32,
    pub frac: i32,
}

/// The two input positions that an output position is interpolated from, and
/// the Q15 weight of the second.
#[derive(Clone, Copy, Debug, PartialEq, Eq)]
pub struct Tap {
    pub i0: u32,
    pub i1: u32,
    pub weight: i64,
}

/// `x`, held between `low` and `high`.
pub open spec fn clamp(x: int, low: int, high: int) -> int {
    if x < low {
        low
    } else if x > high {
        high
    } else {
        x
    }
}

/// The tap of a sample on an axis of `extent` positions. Outside the span
/// between the first and the last position the edge is repeated.
pub open spec fn tap_of(sample: Sample, extent: int) -> Tap {
    let i0 = clamp(sample.floor as int, 0, extent - 1);
    Tap {
        i0: i0 as u32,
        i1: clamp(i0 + 1, 0, extent - 1) as u32,
        weight: (if 0 <= sample.floor < extent - 1 {
            clamp(sample.frac as int, 0, Q15_ONE as int)
        } else {
            0
        }) as i64,
    }
}

/// The number that a byte stands for.
pub open spec fn code_value(byte: u8, is_signed: bool) -> int {
    if is_signed && byte >= 128 {
        byte - 256
    } else {
        byte as int
    }
}

/// The byte that stands for a number.
pub open spec fn code_byte(value: int) -> u8 {
    (if value < 0 {
        value + 256
    } else {
        value
    }) as u8
}

/// The weighted sum of four corner values, in Q30.
pub open spec fn weighted_sum(tl: int, tr: int, bl: int, br: int, wx: int, wy: int) -> int {
    ((Q15_ONE - wx) * (Q15_ONE - wy)) * tl + (wx * (Q15_ONE - wy)) * tr + ((Q15_ONE - wx) * wy) * bl
        + (wx * wy) * br
}

/// A Q30 number rounded to the nearest integer, ties away from zero.
pub open spec fn round_q30(acc: int) -> int {
    if acc >= 0 {
        (acc + Q30_HALF) / (Q30_ONE as int)
    } else {
        -((-acc + Q30_HALF) / (Q30_ONE as int))
    }
}

/// Four corner values, interpolated.
pub open spec fn blend(tl: int, tr: int, bl: int, br: int, wx: int, wy: int) -> int {
    round_q30(weighted_sum(tl, tr, bl, br, wx, wy))
}

/// The code at `(y, x, c)` of a tensor `width` wide with `channels` channels.
pub open spec fn code_at(
    input: Seq<u8>,
    width: int,
    channels: int,
    is_signed: bool,
    y: int,
    x: int,
    c: int,
) -> int {
    code_value(input[(y * width + x) * channels + c], is_signed)
}

/// The interpolated code of channel `c` at the given column and row taps.
pub open spec fn interpolated(
    input: Seq<u8>,
    width: int,
    channels: int,
    is_signed: bool,
    tx: Tap,
    ty: Tap,
    c: int,
) -> int {
    blend(
        code_at(input, width, channels, is_signed, ty.i0 as int, tx.i0 as int, c),
        code_at(input, width, channels, is_signed, ty.i0 as int, tx.i1 as int, c),
        code_at(input, width, channels, is_signed, ty.i1 as int, tx.i0 as int, c),
        code_at(input, width, channels, is_signed, ty.i1 as int, tx.i1 as int, c),
        tx.weight as int,
        ty.weight as int,
    )
}

/// The shape of a resize.
#[derive(Clone, Copy, Debug, PartialEq, Eq)]
pub struct ResizeShape {
    pub in_h: u32,
    pub in_w: u32,
    pub in_c: u32,
    pub out_h: u32,
    pub out_w: u32,
    pub is_signed: bool,
}

impl ResizeShape {
    /// Whether some extent is zero, so that there is nothing to interpolate.
    pub open spec fn is_void(self) -> bool {
        self.in_h == 0 || self.in_w == 0 || self.in_c == 0 || self.out_h == 0 || self.out_w == 0
    }

    /// Whether the source is a single pixel, which is copied and not
    /// interpolated.
    pub open spec fn is_single(self) -> bool {
        self.in_h == 1 && self.in_w == 1
    }

    /// Whether there is more to interpolate than the operator handles.
    pub open spec fn is_oversized(self) -> bool {
        !self.is_single() && (self.out_w > MAX_RESIZE_EXTENT || self.out_h > MAX_RESIZE_EXTENT)
    }
}

/// `input` resized: byte `(y, x, c)` of the result interpolates channel `c`
/// of the input around row sample `ys[y]` and column sample `xs[x]`. A resize
/// with a zero extent writes nothing.
pub open spec fn resized(
    input: Seq<u8>,
    shape: ResizeShape,
    xs: Seq<Sample>,
    ys: Seq<Sample>,
) -> Seq<u8> {
    if shape.is_void() {
        Seq::empty()
    } else {
        Seq::new(
            (shape.out_h * shape.out_w * shape.in_c) as nat,
            |i: int|
                {
                    let c = i % (shape.in_c as int);
                    let pixel = i / (shape.in_c as int);
                    let x = pixel % (shape.out_w as int);
                    let y = pixel / (shape.out_w as int);
                    code_byte(
                        interpolated(
                            input,
                            shape.in_w as int,
                            shape.in_c as int,
                            shape.is_signed,
                            tap_of(xs[x], shape.in_w as int),
                            tap_of(ys[y], shape.in_h as int),
                            c,
                        ),
                    )
                },
        )
    }
}

/// The four corner weights are never negative and sum to one.
pub proof fn law_weights_sum_to_one(wx: int, wy: int)
    requires
        0 <= wx <= Q15_ONE,
        0 <= wy <= Q15_ONE,
    ensures
        0 <= (Q15_ONE - wx) * (Q15_ONE - wy) <= Q30_ONE,
        0 <= wx * (Q15_ONE - wy) <= Q30_ONE,
        0 <= (Q15_ONE - wx) * wy <= Q30_ONE,
        0 <= wx * wy <= Q30_ONE,
        (Q15_ONE - wx) * (Q15_ONE - wy) + wx * (Q15_ONE - wy) + (Q15_ONE - wx) * wy + wx * wy
            == Q30_ONE,
{
    let q: int = Q15_ONE as int;
    let ix = q - wx;
    let iy = q - wy;
    assert(ix * iy + wx * iy + ix * wy + wx * wy == (ix + wx) * (iy + wy)) by (nonlinear_arith);
    assert((ix + wx) * (iy + wy) == 0x4000_0000) by (nonlinear_arith)
        requires
            ix + wx == 0x8000,
            iy + wy == 0x8000,
    ;
    assert(0 <= ix * iy && 0 <= wx * iy && 0 <= ix * wy && 0 <= wx * wy) by (nonlinear_arith)
        requires
            ix >= 0,
            iy >= 0,
            wx >= 0,
            wy >= 0,
    ;
}

/// The weighted sum of corners between `low` and `high` lies between them.
proof fn lemma_weighted_sum_bounds(
    tl: int,
    tr: int,
    bl: int,
    br: int,
    wx: int,
    wy: int,
    low: int,
    high: int,
)
    requires
        0 <= wx <= Q15_ONE,
        0 <= wy <= Q15_ONE,
        low <= tl <= high,
        low <= tr <= high,
        low <= bl <= high,
        low <= br <= high,
    ensures
        low * Q30_ONE <= weighted_sum(tl, tr, bl, br, wx, wy) <= high * Q30_ONE,
{
    law_weights_sum_to_one(wx, wy);
    let a = (Q15_ONE - wx) * (Q15_ONE - wy);
    let b = wx * (Q15_ONE - wy);
    let c = (Q15_ONE - wx) * wy;
    let d = wx * wy;
    lemma_scaled_bounds(a, tl, low, high);
    lemma_scaled_bounds(b, tr, low, high);
    lemma_scaled_bounds(c, bl, low, high);
    lemma_scaled_bounds(d, br, low, high);
    assert(a * low + b * low + c * low + d * low == low * (a + b + c + d)) by (nonlinear_arith);
    assert(a * high + b * high + c * high + d * high == high * (a + b + c + d))
        by (nonlinear_arith);
}

proof fn lemma_scaled_bounds(w: int, v: int, low: int, high: int)
    requires
        w >= 0,
        low <= v <= high,
    ensures
        w * low <= w * v <= w * high,
{
    assert(w * low <= w * v <= w * high) by (nonlinear_arith)
        requires
            w >= 0,
            low <= v <= high,
    ;
}

/// Rounding goes to a nearest integer, and of two equally near ones to the
/// one farther from zero.
pub proof fn law_rounds_to_nearest(acc: int)
    ensures
        -Q30_HALF <= round_q30(acc) * Q30_ONE - acc <= Q30_HALF,
        acc > 0 ==> round_q30(acc) * Q30_ONE - acc > -Q30_HALF,
        acc < 0 ==> round_q30(acc) * Q30_ONE - acc < Q30_HALF,
{
}

/// An interpolated value lies between the smallest and the largest corner.
pub proof fn law_blend_stays_between_corners(
    tl: int,
    tr: int,
    bl: int,
    br: int,
    wx: int,
    wy: int,
    low: int,
    high: int,
)
    requires
        0 <= wx <= Q15_ONE,
        0 <= wy <= Q15_ONE,
        low <= tl <= high,
        low <= tr <= high,
        low <= bl <= high,
        low <= br <= high,
    ensures
        low <= blend(tl, tr, bl, br, wx, wy) <= high,
{
    lemma_weighted_sum_bounds(tl, tr, bl, br, wx, wy, low, high);
    let acc = weighted_sum(tl, tr, bl, br, wx, wy);
    law_rounds_to_nearest(acc);
}

/// Interpolating between equal corners gives that value back.
pub proof fn law_flat_corners_blend_to_themselves(v: int, wx: int, wy: int)
    requires
        0 <= wx <= Q15_ONE,
        0 <= wy <= Q15_ONE,
    ensures
        blend(v, v, v, v, wx, wy) == v,
{
    law_blend_stays_between_corners(v, v, v, v, wx, wy, v, v);
}

/// A byte's number leads back to the byte.
pub proof fn law_code_round_trip(byte: u8, is_signed: bool)
    ensures
        code_byte(code_value(byte, is_signed)) == byte,
        is_signed ==> -128 <= code_value(byte, is_signed) <= 127,
        !is_signed ==> 0 <= code_value(byte, is_signed) <= 255,
{
}

/// The tap of `sample` on an axis of `extent` positions.
fn tap(sample: &Sample, extent: u32) -> (t: Tap)
    requires
        extent > 0,
    ensures
        t == tap_of(*sample, extent as int),
        t.i0 < extent,
        t.i1 < extent,
        0 <= t.weight <= Q15_ONE,
{
    let last: u32 = extent - 1;
    if sample.floor < 0 {
        return Tap { i0: 0, i1: if last > 0 { 1 } else { 0 }, weight: 0 };
    }
    let i0: u32 = sample.floor as u32;
    if i0 >= last {
        return Tap { i0: last, i1: last, weight: 0 };
    }
    let weight: i64 = if sample.frac < 0 {
        0
    } else if sample.frac as i64 > Q15_ONE {
        Q15_ONE
    } else {
        sample.frac as i64
    };
    Tap { i0, i1: i0 + 1, weight }
}

/// The number that a byte stands for.
fn decode(byte: u8, is_signed: bool) -> (value: i64)
    ensures
        value == code_value(byte, is_signed),
        -128 <= value <= 255,
{
    if is_signed && byte >= 128 {
        byte as i64 - 256
    } else {
        byte as i64
    }
}

/// Four corner codes, interpolated.
fn interpolate(
    tl: u8,
    tr: u8,
    bl: u8,
    br: u8,
    wx: i64,
    wy: i64,
    is_signed: bool,
) -> (byte: u8)
    requires
        0 <= wx <= Q15_ONE,
        0 <= wy <= Q15_ONE,
    ensures
        byte == code_byte(
            blend(
                code_value(tl, is_signed),
                code_value(tr, is_signed),
                code_value(bl, is_signed),
                code_value(br, is_signed),
                wx as int,
                wy as int,
            ),
        ),
{
    let s_tl: i64 = decode(tl, is_signed);
    let s_tr: i64 = decode(tr, is_signed);
    let s_bl: i64 = decode(bl, is_signed);
    let s_br: i64 = decode(br, is_signed);
    let ghost low: int = if is_signed { -128 } else { 0 };
    let ghost high: int = if is_signed { 127 } else { 255 };
    proof {
        law_weights_sum_to_one(wx as int, wy as int);
        let a = (Q15_ONE - wx) * (Q15_ONE - wy);
        let b = wx * (Q15_ONE - wy);
        let c = (Q15_ONE - wx) * wy;
        let d = wx * wy;
        lemma_product_fits(a, s_tl as int);
        lemma_product_fits(b, s_tr as int);
        lemma_product_fits(c, s_bl as int);
        lemma_product_fits(d, s_br as int);
        law_blend_stays_between_corners(
            s_tl as int,
            s_tr as int,
            s_bl as int,
            s_br as int,
            wx as int,
            wy as int,
            low,
            high,
        );
    }
    let w_tl: i64 = (Q15_ONE - wx) * (Q15_ONE - wy);
    let w_tr: i64 = wx * (Q15_ONE - wy);
    let w_bl: i64 = (Q15_ONE - wx) * wy;
    let w_br: i64 = wx * wy;
    let acc: i64 = w_tl * s_tl + w_tr * s_tr + w_bl * s_bl + w_br * s_br;
    // The weights sum to one, so the rounded value is a code and needs no
    // clamping.
    if acc >= 0 {
        ((acc + Q30_HALF) as u64 / Q30_ONE as u64) as u8
    } else {
        let magnitude: u64 = (-acc + Q30_HALF) as u64 / Q30_ONE as u64;
        if magnitude == 0 {
            0
        } else {
            (256 - magnitude) as u8
        }
    }
}

proof fn lemma_product_fits(w: int, v: int)
    requires
        0 <= w <= Q30_ONE,
        -128 <= v <= 255,
    ensures
        -128 * Q30_ONE <= w * v <= 255 * Q30_ONE,
{
    assert(-128 * 0x4000_0000 <= w * v <= 255 * 0x4000_0000) by (nonlinear_arith)
        requires
            0 <= w <= 0x4000_0000,
            -128 <= v <= 255,
    ;
}

/// An in-range row, column and channel make an in-range byte index.
proof fn lemma_code_index(y: int, x: int, c: int, height: int, width: int, channels: int)
    requires
        0 <= y < height,
        0 <= x < width,
        0 <= c < channels,
    ensures
        0 <= y * width,
        0 <= y * width + x < height * width,
        0 <= (y * width + x) * channels,
        0 <= (y * width + x) * channels + c < height * width * channels,
{
    let p = y * width + x;
    assert(0 <= y * width && 0 <= p < height * width) by (nonlinear_arith)
        requires
            p == y * width + x,
            0 <= y < height,
            0 <= x < width,
    ;
    let n = height * width;
    assert(0 <= p * channels && 0 <= p * channels + c < n * channels) by (nonlinear_arith)
        requires
            0 <= p < n,
            0 <= c < channels,
    ;
}

/// A byte index divides back into its pixel and its channel, and the pixel
/// into its row and its column.
proof fn lemma_index_parts(y: int, x: int, c: int, width: int, channels: int)
    requires
        0 <= x < width,
        0 <= c < channels,
    ensures
        ((y * width + x) * channels + c) % channels == c,
        ((y * width + x) * channels + c) / channels == y * width + x,
        (y * width + x) % width == x,
        (y * width + x) / width == y,
{
    vstd::arithmetic::div_mod::lemma_fundamental_div_mod_converse(
        (y * width + x) * channels + c,
        channels,
        y * width + x,
        c,
    );
    vstd::arithmetic::div_mod::lemma_fundamental_div_mod_converse(y * width + x, width, y, x);
}

/// Writes the interpolated codes of one output pixel to `out` at `at`.
fn write_pixel(out: &mut [u8], at: usize, input: &[u8], shape: &ResizeShape, tx: &Tap, ty: &Tap)
    requires
        at + shape.in_c <= old(out)@.len(),
        input@.len() == shape.in_h * shape.in_w * shape.in_c,
        tx.i0 < shape.in_w,
        tx.i1 < shape.in_w,
        ty.i0 < shape.in_h,
        ty.i1 < shape.in_h,
        0 <= tx.weight <= Q15_ONE,
        0 <= ty.weight <= Q15_ONE,
    ensures
        final(out)@.len() == old(out)@.len(),
        forall|i: int|
            0 <= i < old(out)@.len() ==> #[trigger] final(out)@[i] == (if at <= i < at
                + shape.in_c {
                code_byte(
                    interpolated(
                        input@,
                        shape.in_w as int,
                        shape.in_c as int,
                        shape.is_signed,
                        *tx,
                        *ty,
                        i - at,
                    ),
                )
            } else {
                old(out)@[i]
            }),
{
    assert(input@.len() == input.len());
    assert(out@.len() == out.len());
    let mut c: usize = 0;
    while c < shape.in_c as usize
        invariant
            c <= shape.in_c,
            at + shape.in_c <= out@.len() <= usize::MAX,
            out@.len() == old(out)@.len(),
            input@.len() == shape.in_h * shape.in_w * shape.in_c,
            input@.len() <= usize::MAX,
            tx.i0 < shape.in_w,
            tx.i1 < shape.in_w,
            ty.i0 < shape.in_h,
            ty.i1 < shape.in_h,
            0 <= tx.weight <= Q15_ONE,
            0 <= ty.weight <= Q15_ONE,
            forall|i: int|
                0 <= i < out@.len() ==> #[trigger] out@[i] == (if at <= i < at + c {
                    code_byte(
                        interpolated(
                            input@,
                            shape.in_w as int,
                            shape.in_c as int,
                            shape.is_signed,
                            *tx,
                            *ty,
                            i - at,
                        ),
                    )
                } else {
                    old(out)@[i]
                }),
        decreases shape.in_c - c,
    {
        let width: usize = shape.in_w as usize;
        let channels: usize = shape.in_c as usize;
        proof {
            let h = shape.in_h as int;
            let w = width as int;
            let n = channels as int;
            lemma_code_index(ty.i0 as int, tx.i0 as int, c as int, h, w, n);
            lemma_code_index(ty.i0 as int, tx.i1 as int, c as int, h, w, n);
            lemma_code_index(ty.i1 as int, tx.i0 as int, c as int, h, w, n);
            lemma_code_index(ty.i1 as int, tx.i1 as int, c as int, h, w, n);
            assert(h * w <= h * w * n) by (nonlinear_arith)
                requires
                    h * w >= 0,
                    n > 0,
            ;
        }
        let top: usize = ty.i0 as usize * width;
        let bottom: usize = ty.i1 as usize * width;
        let tl: u8 = input[(top + tx.i0 as usize) * channels + c];
        let tr: u8 = input[(top + tx.i1 as usize) * channels + c];
        let bl: u8 = input[(bottom + tx.i0 as usize) * channels + c];
        let br: u8 = input[(bottom + tx.i1 as usize) * channels + c];
        out[at + c] = interpolate(tl, tr, bl, br, tx.weight, ty.weight, shape.is_signed);
        c = c + 1;
    }
}

/// Resizes `input`, an `(in_h, in_w, in_c)` tensor of one-byte codes, into
/// `output`.
///
/// `xs` and `ys` hold a sample for every output column and row. A source of a
/// single pixel needs none: every output pixel is a copy of it. Where an
/// extent is zero, or the output is oversized, nothing is written;
/// [`crate::sw::run`] refuses an oversized operator before it gets here.
pub fn resize_linear_hp(
    input: &[u8],
    shape: &ResizeShape,
    xs: &[Sample],
    ys: &[Sample],
    output: &mut [u8],
)
    requires
        shape.is_void() || shape.is_oversized() || {
            &&& input@.len() == shape.in_h * shape.in_w * shape.in_c
            &&& old(output)@.len() == shape.out_h * shape.out_w * shape.in_c
            &&& shape.is_single() || (xs@.len() == shape.out_w && ys@.len() == shape.out_h)
        },
    ensures
        final(output)@ == if shape.is_void() || shape.is_oversized() {
            old(output)@
        } else {
            resized(input@, *shape, xs@, ys@)
        },
{
    if shape.in_h == 0 || shape.in_w == 0 || shape.out_h == 0 || shape.out_w == 0 || shape.in_c
        == 0 {
        return ;
    }
    let single: bool = shape.in_h == 1 && shape.in_w == 1;
    if !single && (shape.out_w as usize > MAX_RESIZE_EXTENT || shape.out_h as usize
        > MAX_RESIZE_EXTENT) {
        return ;
    }
    let ghost expected = resized(input@, *shape, xs@, ys@);
    let ghost channels = shape.in_c as int;
    let ghost width = shape.out_w as int;
    proof {
        assert(output@.len() == output.len());
        assert(0 * width * channels == 0) by (nonlinear_arith);
        if single {
            assert(shape.in_h * shape.in_w * shape.in_c == channels) by (nonlinear_arith)
                requires
                    shape.in_h == 1,
                    shape.in_w == 1,
                    channels == shape.in_c,
            ;
            law_single_pixel_is_copied(input@, *shape, xs@, ys@);
        }
    }
    let mut at: usize = 0;
    let mut y: u32 = 0;
    while y < shape.out_h
        invariant
            y <= shape.out_h,
            !shape.is_void(),
            single == shape.is_single(),
            input@.len() == shape.in_h * shape.in_w * shape.in_c,
            single || (xs@.len() == shape.out_w && ys@.len() == shape.out_h),
            single ==> input@.len() == channels && forall|i: int|
                0 <= i < expected.len() ==> #[trigger] expected[i] == input@[i % channels],
            channels == shape.in_c,
            width == shape.out_w,
            expected == resized(input@, *shape, xs@, ys@),
            expected.len() == shape.out_h * shape.out_w * channels,
            output@.len() == expected.len(),
            output@.len() <= usize::MAX,
            at == y * width * channels,
            forall|i: int| 0 <= i < at ==> #[trigger] output@[i] == expected[i],
        decreases shape.out_h - y,
    {
        let ty: Tap = if single {
            Tap { i0: 0, i1: 0, weight: 0 }
        } else {
            tap(&ys[y as usize], shape.in_h)
        };
        let mut x: u32 = 0;
        while x < shape.out_w
            invariant
                x <= shape.out_w,
                y < shape.out_h,
                !shape.is_void(),
                single == shape.is_single(),
                input@.len() == shape.in_h * shape.in_w * shape.in_c,
                single || (xs@.len() == shape.out_w && ys@.len() == shape.out_h),
                single ==> input@.len() == channels && forall|i: int|
                    0 <= i < expected.len() ==> #[trigger] expected[i] == input@[i % channels],
                !single ==> {
                    &&& ty == tap_of(ys@[y as int], shape.in_h as int)
                    &&& ty.i0 < shape.in_h
                    &&& ty.i1 < shape.in_h
                    &&& 0 <= ty.weight <= Q15_ONE
                },
                channels == shape.in_c,
                width == shape.out_w,
                expected == resized(input@, *shape, xs@, ys@),
                expected.len() == shape.out_h * shape.out_w * channels,
                output@.len() == expected.len(),
                output@.len() <= usize::MAX,
                at == (y * width + x) * channels,
                forall|i: int| 0 <= i < at ==> #[trigger] output@[i] == expected[i],
            decreases shape.out_w - x,
        {
            proof {
                lemma_next_pixel(y as int, x as int, shape.out_h as int, width, channels);
            }
            let ghost before = output@;
            if single {
                copy_run(output, at, input, 0, shape.in_c as usize);
            } else {
                let tx: Tap = tap(&xs[x as usize], shape.in_w);
                write_pixel(output, at, input, shape, &tx, &ty);
            }
            proof {
                assert forall|i: int| 0 <= i < at + channels implies #[trigger] output@[i]
                    == expected[i] by {
                    if i < at {
                        assert(output@[i] == before[i]);
                    } else {
                        let c = i - at;
                        lemma_code_index(
                            y as int,
                            x as int,
                            c,
                            shape.out_h as int,
                            width,
                            channels,
                        );
                        lemma_index_parts(y as int, x as int, c, width, channels);
                    }
                }
            }
            at = at + shape.in_c as usize;
            x = x + 1;
        }
        proof {
            assert(y * width + width == (y + 1) * width) by (nonlinear_arith);
        }
        y = y + 1;
    }
    assert(output@ =~= expected);
}

/// The bytes up to the end of pixel `(y, x)` end inside the tensor.
proof fn lemma_next_pixel(y: int, x: int, height: int, width: int, channels: int)
    requires
        0 <= y < height,
        0 <= x < width,
        0 < channels,
    ensures
        0 <= (y * width + x) * channels,
        (y * width + x + 1) * channels == (y * width + x) * channels + channels,
        (y * width + x + 1) * channels <= height * width * channels,
{
    lemma_code_index(y, x, channels - 1, height, width, channels);
    let p = y * width + x;
    assert((p + 1) * channels == p * channels + channels) by (nonlinear_arith);
}

/// Interpolation from a source of a single pixel copies that pixel to every
/// output pixel, whatever the samples are.
pub proof fn law_single_pixel_is_copied(
    input: Seq<u8>,
    shape: ResizeShape,
    xs: Seq<Sample>,
    ys: Seq<Sample>,
)
    requires
        !shape.is_void(),
        shape.in_h == 1,
        shape.in_w == 1,
        input.len() == shape.in_c,
    ensures
        resized(input, shape, xs, ys).len() == shape.out_h * shape.out_w * shape.in_c,
        forall|i: int|
            0 <= i < shape.out_h * shape.out_w * shape.in_c ==> #[trigger] resized(
                input,
                shape,
                xs,
                ys,
            )[i] == input[i % (shape.in_c as int)],
{
    let out = resized(input, shape, xs, ys);
    let channels = shape.in_c as int;
    let size = shape.out_h * shape.out_w * shape.in_c;
    assert(size >= 0) by (nonlinear_arith)
        requires
            size == shape.out_h * shape.out_w * shape.in_c,
    ;
    assert forall|i: int| 0 <= i < size implies #[trigger] out[i] == input[i % channels] by {
        let c = i % channels;
        let pixel = i / channels;
        let tx = tap_of(xs[pixel % (shape.out_w as int)], 1);
        let ty = tap_of(ys[pixel / (shape.out_w as int)], 1);
        assert(0 <= c < channels);
        assert(tx.i0 == 0 && tx.i1 == 0 && ty.i0 == 0 && ty.i1 == 0);
        assert((0 * 1 + 0) * channels + c == c) by (nonlinear_arith);
        law_flat_corners_blend_to_themselves(code_value(input[c], shape.is_signed), 0, 0);
        law_code_round_trip(input[c], shape.is_signed);
    }
}

/// Every code of a resize is the weighted sum of the four input codes around
/// its source position, rounded to the nearest integer, ties away from zero.
///
/// The source position lies `fx` to the right of column `x0`, in 32768ths, and
/// `fy` below row `y0`; outside the span between the first and the last
/// position the edge is repeated, without a fraction. The four corners weigh
/// `(1-fx)(1-fy)`, `fx(1-fy)`, `(1-fx)fy` and `fx fy`, for signed and for
/// unsigned codes alike.
pub proof fn law_resize_rounds_the_weighted_neighbours(
    input: Seq<u8>,
    shape: ResizeShape,
    xs: Seq<Sample>,
    ys: Seq<Sample>,
    y: int,
    x: int,
    c: int,
)
    requires
        input.len() == shape.in_h * shape.in_w * shape.in_c,
        shape.in_h > 0,
        shape.in_w > 0,
        0 <= y < shape.out_h,
        0 <= x < shape.out_w,
        0 <= c < shape.in_c,
    ensures
        ({
            let code = |byte: u8| if shape.is_signed && byte >= 128 { byte - 256 } else { byte as int };
            let at = |i: int, j: int| code(input[(i * shape.in_w + j) * shape.in_c + c]);
            let (sx, sy) = (xs[x], ys[y]);
            let last_x = shape.in_w - 1;
            let last_y = shape.in_h - 1;
            let x0 = if sx.floor < 0 { 0 } else if sx.floor > last_x { last_x } else { sx.floor as int };
            let y0 = if sy.floor < 0 { 0 } else if sy.floor > last_y { last_y } else { sy.floor as int };
            let x1 = if x0 < last_x { x0 + 1 } else { x0 };
            let y1 = if y0 < last_y { y0 + 1 } else { y0 };
            let fx = if sx.floor < 0 || sx.floor >= last_x || sx.frac < 0 { 0 }
                else if sx.frac > 32768 { 32768 } else { sx.frac as int };
            let fy = if sy.floor < 0 || sy.floor >= last_y || sy.frac < 0 { 0 }
                else if sy.frac > 32768 { 32768 } else { sy.frac as int };
            let sum = ((32768 - fx) * (32768 - fy)) * at(y0, x0) + (fx * (32768 - fy)) * at(y0, x1)
                + ((32768 - fx) * fy) * at(y1, x0) + (fx * fy) * at(y1, x1);
            let out = resized(input, shape, xs, ys);
            let result = code(out[(y * shape.out_w + x) * shape.in_c + c]);
            &&& out.len() == shape.out_h * shape.out_w * shape.in_c
            &&& 0 <= (y * shape.out_w + x) * shape.in_c + c < out.len()
            &&& -0x2000_0000 <= 0x4000_0000 * result - sum <= 0x2000_0000
            &&& sum > 0 ==> 0x4000_0000 * result - sum > -0x2000_0000
            &&& sum < 0 ==> 0x4000_0000 * result - sum < 0x2000_0000
        }),
{
    let w = shape.in_w as int;
    let n = shape.in_c as int;
    let signed = shape.is_signed;
    lemma_code_index(y, x, c, shape.out_h as int, shape.out_w as int, n);
    lemma_index_parts(y, x, c, shape.out_w as int, n);
    let tx = tap_of(xs[x], w);
    let ty = tap_of(ys[y], shape.in_h as int);
    let tl = code_at(input, w, n, signed, ty.i0 as int, tx.i0 as int, c);
    let tr = code_at(input, w, n, signed, ty.i0 as int, tx.i1 as int, c);
    let bl = code_at(input, w, n, signed, ty.i1 as int, tx.i0 as int, c);
    let br = code_at(input, w, n, signed, ty.i1 as int, tx.i1 as int, c);
    let wx = tx.weight as int;
    let wy = ty.weight as int;
    if signed {
        law_blend_stays_between_corners(tl, tr, bl, br, wx, wy, -128, 127);
    } else {
        law_blend_stays_between_corners(tl, tr, bl, br, wx, wy, 0, 255);
    }
    law_rounds_to_nearest(weighted_sum(tl, tr, bl, br, wx, wy));
    let v = blend(tl, tr, bl, br, wx, wy);
    let out = resized(input, shape, xs, ys);
    assert(out[(y * shape.out_w + x) * n + c] == code_byte(v));
    assert(code_value(code_byte(v), signed) == v);
}

/// A resize is void where an extent is zero, and oversized where it would
/// interpolate more than 512 rows or columns. Copying a single pixel is no
/// interpolation.
pub proof fn law_shapes_are_judged_by_their_extents(shape: ResizeShape)
    ensures
        shape.is_void() <==> !(shape.in_h >= 1 && shape.in_w >= 1 && shape.in_c >= 1
            && shape.out_h >= 1 && shape.out_w >= 1),
        shape.is_oversized() <==> (shape.out_h > 512 || shape.out_w > 512) && (shape.in_h != 1
            || shape.in_w != 1),
        shape.is_single() <==> shape.in_h == 1 && shape.in_w == 1,
{
}

/// Rows and columns are treated alike: resizing the transposed image, with row
/// and column samples exchanged, gives the transposed result.
pub proof fn law_resize_commutes_with_transposition(
    image: Seq<u8>,
    flipped: Seq<u8>,
    shape: ResizeShape,
    xs: Seq<Sample>,
    ys: Seq<Sample>,
    y: int,
    x: int,
    c: int,
)
    requires
        image.len() == shape.in_h * shape.in_w * shape.in_c,
        flipped.len() == image.len(),
        shape.in_h > 0,
        shape.in_w > 0,
        forall|i: int, j: int, k: int|
            0 <= i < shape.in_h && 0 <= j < shape.in_w && 0 <= k < shape.in_c ==> #[trigger] image[(i
                * shape.in_w + j) * shape.in_c + k] == flipped[(j * shape.in_h + i) * shape.in_c
                + k],
        0 <= y < shape.out_h,
        0 <= x < shape.out_w,
        0 <= c < shape.in_c,
    ensures
        resized(image, shape, xs, ys)[(y * shape.out_w + x) * shape.in_c + c] == resized(
            flipped,
            ResizeShape {
                in_h: shape.in_w,
                in_w: shape.in_h,
                in_c: shape.in_c,
                out_h: shape.out_w,
                out_w: shape.out_h,
                is_signed: shape.is_signed,
            },
            ys,
            xs,
        )[(x * shape.out_h + y) * shape.in_c + c],
{
    let h = shape.in_h as int;
    let w = shape.in_w as int;
    let n = shape.in_c as int;
    let signed = shape.is_signed;
    lemma_code_index(y, x, c, shape.out_h as int, shape.out_w as int, n);
    lemma_index_parts(y, x, c, shape.out_w as int, n);
    lemma_code_index(x, y, c, shape.out_w as int, shape.out_h as int, n);
    lemma_index_parts(x, y, c, shape.out_h as int, n);
    let tx = tap_of(xs[x], w);
    let ty = tap_of(ys[y], h);
    let (x0, x1) = (tx.i0 as int, tx.i1 as int);
    let (y0, y1) = (ty.i0 as int, ty.i1 as int);
    assert(image[(y0 * w + x0) * n + c] == flipped[(x0 * h + y0) * n + c]);
    assert(image[(y0 * w + x1) * n + c] == flipped[(x1 * h + y0) * n + c]);
    assert(image[(y1 * w + x0) * n + c] == flipped[(x0 * h + y1) * n + c]);
    assert(image[(y1 * w + x1) * n + c] == flipped[(x1 * h + y1) * n + c]);
    let tl = code_at(image, w, n, signed, y0, x0, c);
    let tr = code_at(image, w, n, signed, y0, x1, c);
    let bl = code_at(image, w, n, signed, y1, x0, c);
    let br = code_at(image, w, n, signed, y1, x1, c);
    let wx = tx.weight as int;
    let wy = ty.weight as int;
    let q: int = Q15_ONE as int;
    assert(weighted_sum(tl, tr, bl, br, wx, wy) == weighted_sum(tl, bl, tr, br, wy, wx)) by {
        assert((q - wx) * (q - wy) == (q - wy) * (q - wx)) by (nonlinear_arith);
        assert(wx * (q - wy) == (q - wy) * wx) by (nonlinear_arith);
        assert((q - wx) * wy == wy * (q - wx)) by (nonlinear_arith);
        assert(wx * wy == wy * wx) by (nonlinear_arith);
    }
    assert(interpolated(image, w, n, signed, tx, ty, c) == interpolated(
        flipped,
        h,
        n,
        signed,
        ty,
        tx,
        c,
    ));
}

/// A resize stays in range, channel by channel: if every code of channel `c`
/// of the input lies between `low` and `high`, so does every code of channel
/// `c` of the result.
pub proof fn law_resize_stays_in_channel_range(
    input: Seq<u8>,
    shape: ResizeShape,
    xs: Seq<Sample>,
    ys: Seq<Sample>,
    c: int,
    low: int,
    high: int,
)
    requires
        !shape.is_void(),
        input.len() == shape.in_h * shape.in_w * shape.in_c,
        0 <= c < shape.in_c,
        forall|y: int, x: int|
            0 <= y < shape.in_h && 0 <= x < shape.in_w ==> low <= #[trigger] code_at(
                input,
                shape.in_w as int,
                shape.in_c as int,
                shape.is_signed,
                y,
                x,
                c,
            ) <= high,
    ensures
        forall|y: int, x: int|
            0 <= y < shape.out_h && 0 <= x < shape.out_w ==> low <= #[trigger] code_at(
                resized(input, shape, xs, ys),
                shape.out_w as int,
                shape.in_c as int,
                shape.is_signed,
                y,
                x,
                c,
            ) <= high,
{
    let out = resized(input, shape, xs, ys);
    let w = shape.in_w as int;
    let n = shape.in_c as int;
    let signed = shape.is_signed;
    assert forall|y: int, x: int| 0 <= y < shape.out_h && 0 <= x < shape.out_w implies low
        <= #[trigger] code_at(out, shape.out_w as int, n, signed, y, x, c) <= high by {
        lemma_code_index(y, x, c, shape.out_h as int, shape.out_w as int, n);
        lemma_index_parts(y, x, c, shape.out_w as int, n);
        let tx = tap_of(xs[x], w);
        let ty = tap_of(ys[y], shape.in_h as int);
        let tl = code_at(input, w, n, signed, ty.i0 as int, tx.i0 as int, c);
        let tr = code_at(input, w, n, signed, ty.i0 as int, tx.i1 as int, c);
        let bl = code_at(input, w, n, signed, ty.i1 as int, tx.i0 as int, c);
        let br = code_at(input, w, n, signed, ty.i1 as int, tx.i1 as int, c);
        let wx = tx.weight as int;
        let wy = ty.weight as int;
        law_blend_stays_between_corners(tl, tr, bl, br, wx, wy, low, high);
        if signed {
            law_blend_stays_between_corners(tl, tr, bl, br, wx, wy, -128, 127);
        } else {
            law_blend_stays_between_corners(tl, tr, bl, br, wx, wy, 0, 255);
        }
        let v = blend(tl, tr, bl, br, wx, wy);
        assert(out[(y * shape.out_w + x) * n + c] == code_byte(v));
        assert(code_value(code_byte(v), signed) == v);
    }
}

/// A resize whose samples fall exactly on the input positions gives the input
/// back.
pub proof fn law_resize_to_same_size_is_identity(
    input: Seq<u8>,
    shape: ResizeShape,
    xs: Seq<Sample>,
    ys: Seq<Sample>,
)
    requires
        !shape.is_void(),
        shape.out_h == shape.in_h,
        shape.out_w == shape.in_w,
        input.len() == shape.in_h * shape.in_w * shape.in_c,
        xs.len() == shape.out_w,
        ys.len() == shape.out_h,
        forall|x: int| 0 <= x < xs.len() ==> (#[trigger] xs[x]).floor == x && xs[x].frac == 0,
        forall|y: int| 0 <= y < ys.len() ==> (#[trigger] ys[y]).floor == y && ys[y].frac == 0,
    ensures
        resized(input, shape, xs, ys) == input,
{
    let out = resized(input, shape, xs, ys);
    let channels = shape.in_c as int;
    let width = shape.in_w as int;
    let height = shape.in_h as int;
    assert forall|i: int| 0 <= i < input.len() implies #[trigger] out[i] == input[i] by {
        let c = i % channels;
        let pixel = i / channels;
        let x = pixel % width;
        let y = pixel / width;
        vstd::arithmetic::div_mod::lemma_fundamental_div_mod(i, channels);
        vstd::arithmetic::div_mod::lemma_fundamental_div_mod(pixel, width);
        assert(0 <= c < channels && 0 <= x < width);
        assert(pixel >= 0 && pixel < height * width) by (nonlinear_arith)
            requires
                i == channels * pixel + c,
                0 <= c,
                c < channels,
                0 <= i,
                i < (height * width) * channels,
        ;
        assert(y >= 0 && y < height) by (nonlinear_arith)
            requires
                pixel == width * y + x,
                0 <= x,
                x < width,
                0 <= pixel,
                pixel < height * width,
        ;
        assert((y * width + x) * channels + c == i) by (nonlinear_arith)
            requires
                pixel == width * y + x,
                i == channels * pixel + c,
        ;
        let tx = tap_of(xs[x], width);
        let ty = tap_of(ys[y], height);
        assert(tx.i0 == x && ty.i0 == y && tx.weight == 0 && ty.weight == 0);
        let v = code_value(input[i], shape.is_signed);
        let tr = code_at(input, width, channels, shape.is_signed, y, tx.i1 as int, c);
        let bl = code_at(input, width, channels, shape.is_signed, ty.i1 as int, x, c);
        let br = code_at(input, width, channels, shape.is_signed, ty.i1 as int, tx.i1 as int, c);
        assert(weighted_sum(v, tr, bl, br, 0, 0) == Q30_ONE * v) by {
            assert(((0x8000 - 0) * (0x8000 - 0)) * v + (0 * (0x8000 - 0)) * tr + ((0x8000 - 0) * 0)
                * bl + (0int * 0) * br == 0x4000_0000 * v) by (nonlinear_arith);
        }
        law_rounds_to_nearest(Q30_ONE * v);
        law_code_round_trip(input[i], shape.is_signed);
    }
    assert(out =~= input);
}

} // verus!
