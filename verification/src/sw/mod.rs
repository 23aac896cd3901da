//! CPU-side operators interleaved between hardware epochs.
//!
//! An operator reads one tensor and writes another, both in the activation
//! arena. [`plan`] checks an operator and says which bytes it reads and which
//! it writes; [`run`] computes the bytes to write from the bytes read.

pub mod depth;
pub mod resize;

use vstd::prelude::*;

use crate::error::SwError;
use crate::ir::{Region, SwOp};
use crate::sw::depth::{depth_to_space, space_to_depth};
use crate::sw::resize::{resize_linear_hp, ResizeShape, Sample};

verus! {

/// Largest output extent the resize operator handles in either axis.
pub const MAX_RESIZE_EXTENT: usize = 512;

/// The bytes an operator reads and the bytes it writes.
#[derive(Clone, Copy, Debug, PartialEq, Eq)]
pub struct Transfer {
    pub source: Region,
    pub target: Region,
}

/// Why an operator's arguments are refused, if they are.
pub open spec fn fault(op: SwOp) -> Option<SwError> {
    match op {
        SwOp::SpaceToDepth { in_h, in_w, bs_h, bs_w, elem_bytes, .. } => if in_h % bs_h != 0 || in_w
            % bs_w != 0 {
            Some(SwError::S2dNotDivisible)
        } else if elem_bytes != 1 && elem_bytes != 2 {
            Some(SwError::UnsupportedElemBytes { got: elem_bytes })
        } else {
            None
        },
        SwOp::DepthToSpace { in_c, bs_h, bs_w, elem_bytes, .. } => if in_c as int % (bs_h * bs_w)
            != 0 {
            Some(SwError::D2sNotDivisible)
        } else if elem_bytes != 1 && elem_bytes != 2 {
            Some(SwError::UnsupportedElemBytes { got: elem_bytes })
        } else {
            None
        },
        SwOp::ResizeLinearHp { out_h, out_w, .. } => {
            let extent = if out_w > out_h {
                out_w
            } else {
                out_h
            };
            if extent > MAX_RESIZE_EXTENT {
                Some(SwError::ResizeTooLarge { extent })
            } else {
                None
            }
        },
    }
}

/// The shape of a resize operator.
pub open spec fn resize_shape(op: SwOp) -> ResizeShape
    recommends
        op is ResizeLinearHp,
{
    ResizeShape {
        in_h: op->ResizeLinearHp_in_h,
        in_w: op->ResizeLinearHp_in_w,
        in_c: op->ResizeLinearHp_in_c,
        out_h: op->ResizeLinearHp_out_h,
        out_w: op->ResizeLinearHp_out_w,
        is_signed: op->ResizeLinearHp_is_signed,
    }
}

/// Byte count of the tensor that an operator reads. A resize with a zero
/// extent reads nothing.
pub open spec fn source_bytes(op: SwOp) -> int {
    match op {
        SwOp::SpaceToDepth { in_h, in_w, in_c, elem_bytes, .. } => in_h * in_w * (in_c
            * elem_bytes),
        SwOp::DepthToSpace { in_h, in_w, in_c, elem_bytes, .. } => in_h * in_w * (in_c
            * elem_bytes),
        SwOp::ResizeLinearHp { in_h, in_w, in_c, .. } => if resize_shape(op).is_void() {
            0
        } else {
            in_h * in_w * in_c
        },
    }
}

/// Byte count of the tensor that an operator writes. A resize with a zero
/// extent writes nothing.
pub open spec fn target_bytes(op: SwOp) -> int {
    match op {
        SwOp::SpaceToDepth { .. } => source_bytes(op),
        SwOp::DepthToSpace { .. } => source_bytes(op),
        SwOp::ResizeLinearHp { out_h, out_w, in_c, .. } => if resize_shape(op).is_void() {
            0
        } else {
            out_h * out_w * in_c
        },
    }
}

/// Where the tensor that an operator reads starts.
pub open spec fn source_addr(op: SwOp) -> u32 {
    match op {
        SwOp::SpaceToDepth { in_addr, .. } => in_addr,
        SwOp::DepthToSpace { in_addr, .. } => in_addr,
        SwOp::ResizeLinearHp { in_addr, .. } => in_addr,
    }
}

/// Where the tensor that an operator writes starts.
pub open spec fn target_addr(op: SwOp) -> u32 {
    match op {
        SwOp::SpaceToDepth { out_addr, .. } => out_addr,
        SwOp::DepthToSpace { out_addr, .. } => out_addr,
        SwOp::ResizeLinearHp { out_addr, .. } => out_addr,
    }
}

/// Whether an operator's extents can be divided by its block size, as far as
/// its check does so: a block has at least one pixel, though its width is not
/// looked at where its height is refused, and its area is a 32-bit number
/// where the channel count is divided by it.
pub open spec fn has_block(op: SwOp) -> bool {
    match op {
        SwOp::SpaceToDepth { in_h, bs_h, bs_w, .. } => bs_h > 0 && (in_h % bs_h != 0 || bs_w > 0),
        SwOp::DepthToSpace { bs_h, bs_w, .. } => bs_h > 0 && bs_w > 0 && bs_h * bs_w <= u32::MAX,
        SwOp::ResizeLinearHp { .. } => true,
    }
}

/// Whether both tensors of an operator lie in the 32-bit address space.
pub open spec fn addressable(op: SwOp) -> bool {
    &&& source_bytes(op) <= u32::MAX
    &&& target_bytes(op) <= u32::MAX
    &&& source_addr(op) + source_bytes(op) <= 0x1_0000_0000
    &&& target_addr(op) + target_bytes(op) <= 0x1_0000_0000
}

/// Whether an operator is one that a schedule can hold: its block size can be
/// divided by, and unless it is refused its tensors lie in the address space.
pub open spec fn well_shaped(op: SwOp) -> bool {
    has_block(op) && (fault(op) is None ==> addressable(op))
}

/// The transfer that an operator makes.
pub open spec fn transfer_of(op: SwOp) -> Transfer {
    Transfer {
        source: Region { base: source_addr(op), len: source_bytes(op) as u32 },
        target: Region { base: target_addr(op), len: target_bytes(op) as u32 },
    }
}

/// What an operator does to the bytes it reads.
pub open spec fn output_of(
    op: SwOp,
    input: Seq<u8>,
    xs: Seq<Sample>,
    ys: Seq<Sample>,
) -> Seq<u8> {
    match op {
        SwOp::SpaceToDepth { in_w, in_c, bs_h, bs_w, elem_bytes, .. } => depth::space_to_depth_of(
            input,
            in_w as int,
            in_c as int,
            bs_h as int,
            bs_w as int,
            elem_bytes as int,
        ),
        SwOp::DepthToSpace { in_w, in_c, bs_h, bs_w, elem_bytes, .. } => depth::depth_to_space_of(
            input,
            in_w as int,
            in_c as int,
            bs_h as int,
            bs_w as int,
            elem_bytes as int,
        ),
        SwOp::ResizeLinearHp { .. } => resize::resized(input, resize_shape(op), xs, ys),
    }
}

/// Whether `xs` and `ys` hold the samples that an operator interpolates at. A
/// resize from a single pixel needs none, and the other operators none either.
pub open spec fn sampled_for(op: SwOp, xs: Seq<Sample>, ys: Seq<Sample>) -> bool {
    match op {
        SwOp::ResizeLinearHp { out_h, out_w, .. } => resize_shape(op).is_void() || resize_shape(
            op,
        ).is_single() || (xs.len() == out_w && ys.len() == out_h),
        _ => true,
    }
}

/// Byte count of an `(h, w, c)` tensor of `elem_bytes`-byte elements.
fn tensor_bytes(h: u32, w: u32, c: u32, elem_bytes: u32) -> (size: u128)
    ensures
        size == h * w * (c * elem_bytes),
{
    proof {
        assert(h * w <= 0xFFFF_FFFF * 0xFFFF_FFFF) by (nonlinear_arith)
            requires
                h <= 0xFFFF_FFFF,
                w <= 0xFFFF_FFFF,
        ;
        assert(c * elem_bytes <= 0xFFFF_FFFF * 0xFFFF_FFFF) by (nonlinear_arith)
            requires
                c <= 0xFFFF_FFFF,
                elem_bytes <= 0xFFFF_FFFF,
        ;
        let a = h * w;
        let b = c * elem_bytes;
        assert(a >= 0 && b >= 0 && a * b <= 0xFFFF_FFFE_0000_0001 * 0xFFFF_FFFE_0000_0001)
            by (nonlinear_arith)
            requires
                a == h * w,
                b == c * elem_bytes,
                a <= 0xFFFF_FFFF * 0xFFFF_FFFF,
                b <= 0xFFFF_FFFF * 0xFFFF_FFFF,
        ;
    }
    (h as u128 * w as u128) * (c as u128 * elem_bytes as u128)
}

/// Why `op` is refused, if it is.
fn check(op: &SwOp) -> (found: Option<SwError>)
    requires
        has_block(*op),
    ensures
        found == fault(*op),
{
    match *op {
        SwOp::SpaceToDepth { in_h, in_w, bs_h, bs_w, elem_bytes, .. } => {
            if in_h % bs_h != 0 || in_w % bs_w != 0 {
                Some(SwError::S2dNotDivisible)
            } else if elem_bytes != 1 && elem_bytes != 2 {
                Some(SwError::UnsupportedElemBytes { got: elem_bytes })
            } else {
                None
            }
        },
        SwOp::DepthToSpace { in_c, bs_h, bs_w, elem_bytes, .. } => {
            assert(bs_h * bs_w > 0) by (nonlinear_arith)
                requires
                    bs_h > 0,
                    bs_w > 0,
            ;
            if in_c % (bs_h * bs_w) != 0 {
                Some(SwError::D2sNotDivisible)
            } else if elem_bytes != 1 && elem_bytes != 2 {
                Some(SwError::UnsupportedElemBytes { got: elem_bytes })
            } else {
                None
            }
        },
        SwOp::ResizeLinearHp { out_h, out_w, .. } => {
            let extent: u32 = if out_w > out_h {
                out_w
            } else {
                out_h
            };
            if extent as usize > MAX_RESIZE_EXTENT {
                Some(SwError::ResizeTooLarge { extent })
            } else {
                None
            }
        },
    }
}

/// Byte counts of the tensors that `op` reads and writes.
fn sizes(op: &SwOp) -> (both: (u128, u128))
    ensures
        both.0 == source_bytes(*op),
        both.1 == target_bytes(*op),
{
    match *op {
        SwOp::SpaceToDepth { in_h, in_w, in_c, elem_bytes, .. } => {
            let size: u128 = tensor_bytes(in_h, in_w, in_c, elem_bytes);
            (size, size)
        },
        SwOp::DepthToSpace { in_h, in_w, in_c, elem_bytes, .. } => {
            let size: u128 = tensor_bytes(in_h, in_w, in_c, elem_bytes);
            (size, size)
        },
        SwOp::ResizeLinearHp { in_h, in_w, in_c, out_h, out_w, .. } => {
            if in_h == 0 || in_w == 0 || in_c == 0 || out_h == 0 || out_w == 0 {
                (0, 0)
            } else {
                (tensor_bytes(in_h, in_w, in_c, 1), tensor_bytes(out_h, out_w, in_c, 1))
            }
        },
    }
}

/// Whether `op` is one that a schedule can hold; see [`well_shaped`].
pub fn is_well_shaped(op: &SwOp) -> (well: bool)
    ensures
        well == well_shaped(*op),
{
    let divisible: bool = match *op {
        SwOp::SpaceToDepth { in_h, bs_h, bs_w, .. } => bs_h > 0 && (in_h % bs_h != 0 || bs_w > 0),
        SwOp::DepthToSpace { bs_h, bs_w, .. } => {
            assert(bs_h * bs_w <= 0xFFFF_FFFF * 0xFFFF_FFFF) by (nonlinear_arith)
                requires
                    bs_h <= 0xFFFF_FFFF,
                    bs_w <= 0xFFFF_FFFF,
            ;
            bs_h > 0 && bs_w > 0 && bs_h as u64 * bs_w as u64 <= u32::MAX as u64
        },
        SwOp::ResizeLinearHp { .. } => true,
    };
    if !divisible {
        return false;
    }
    if check(op).is_some() {
        return true;
    }
    let (source, target): (u128, u128) = sizes(op);
    let (in_addr, out_addr): (u32, u32) = match *op {
        SwOp::SpaceToDepth { in_addr, out_addr, .. } => (in_addr, out_addr),
        SwOp::DepthToSpace { in_addr, out_addr, .. } => (in_addr, out_addr),
        SwOp::ResizeLinearHp { in_addr, out_addr, .. } => (in_addr, out_addr),
    };
    let limit: u128 = u32::MAX as u128;
    source <= limit && target <= limit && in_addr as u128 + source <= limit + 1 && out_addr as u128
        + target <= limit + 1
}

/// Check an operator and say which bytes it reads and which it writes.
pub fn plan(op: &SwOp) -> (result: Result<Transfer, SwError>)
    requires
        well_shaped(*op),
    ensures
        result == match fault(*op) {
            Some(cause) => Err::<Transfer, SwError>(cause),
            None => Ok(transfer_of(*op)),
        },
{
    if let Some(cause) = check(op) {
        return Err(cause);
    }
    let (source, target): (u128, u128) = sizes(op);
    let (in_addr, out_addr): (u32, u32) = match *op {
        SwOp::SpaceToDepth { in_addr, out_addr, .. } => (in_addr, out_addr),
        SwOp::DepthToSpace { in_addr, out_addr, .. } => (in_addr, out_addr),
        SwOp::ResizeLinearHp { in_addr, out_addr, .. } => (in_addr, out_addr),
    };
    Ok(
        Transfer {
            source: Region::new(in_addr, source as u32),
            target: Region::new(out_addr, target as u32),
        },
    )
}

/// Execute one software operator: compute the bytes it writes, `output`, from
/// the bytes it reads, `input`.
pub fn run(op: &SwOp, input: &[u8], xs: &[Sample], ys: &[Sample], output: &mut [u8]) -> (result:
    Result<(), SwError>)
    requires
        has_block(*op),
        fault(*op) is None ==> {
            &&& input@.len() == source_bytes(*op)
            &&& old(output)@.len() == target_bytes(*op)
            &&& sampled_for(*op, xs@, ys@)
        },
    ensures
        match fault(*op) {
            Some(cause) => {
                &&& result == Err::<(), SwError>(cause)
                &&& final(output)@ == old(output)@
            },
            None => {
                &&& result is Ok
                &&& final(output)@ == output_of(*op, input@, xs@, ys@)
            },
        },
{
    if let Some(cause) = check(op) {
        return Err(cause);
    }
    match *op {
        SwOp::SpaceToDepth { in_h, in_w, in_c, bs_h, bs_w, elem_bytes, .. } => {
            if elem_bytes == 1 {
                space_to_depth::<1>(input, in_h, in_w, in_c, output, bs_h, bs_w);
            } else {
                space_to_depth::<2>(input, in_h, in_w, in_c, output, bs_h, bs_w);
            }
        },
        SwOp::DepthToSpace { in_h, in_w, in_c, bs_h, bs_w, elem_bytes, .. } => {
            if elem_bytes == 1 {
                depth_to_space::<1>(input, in_h, in_w, in_c, output, bs_h, bs_w);
            } else {
                depth_to_space::<2>(input, in_h, in_w, in_c, output, bs_h, bs_w);
            }
        },
        SwOp::ResizeLinearHp { in_h, in_w, in_c, out_h, out_w, is_signed, .. } => {
            let shape = ResizeShape { in_h, in_w, in_c, out_h, out_w, is_signed };
            resize_linear_hp(input, &shape, xs, ys, output);
        },
    }
    Ok(())
}

/// `SpaceToDepth`, of either element width, moves every byte of input element
/// `(oh*bs_h + hb, ow*bs_w + wb, c)` to output element
/// `(oh, ow, (hb*bs_w + wb)*in_c + c)`, over the operator's own shape.
pub proof fn law_space_to_depth_operator_moves_elements(
    op: SwOp,
    input: Seq<u8>,
    xs: Seq<Sample>,
    ys: Seq<Sample>,
    oh: int,
    ow: int,
    hb: int,
    wb: int,
    c: int,
    byte: int,
)
    requires
        op matches SwOp::SpaceToDepth { in_h, in_w, in_c, bs_h, bs_w, elem_bytes, .. } && {
            &&& bs_h > 0 && bs_w > 0
            &&& in_h % bs_h == 0 && in_w % bs_w == 0
            &&& input.len() == in_h * in_w * (in_c * elem_bytes)
            &&& 0 <= oh < in_h / bs_h
            &&& 0 <= ow < in_w / bs_w
            &&& 0 <= hb < bs_h
            &&& 0 <= wb < bs_w
            &&& 0 <= c < in_c
            &&& 0 <= byte < elem_bytes
        },
    ensures
        op matches SwOp::SpaceToDepth { in_h, in_w, in_c, bs_h, bs_w, elem_bytes, .. } && {
            let out = output_of(op, input, xs, ys);
            let from = (((oh * bs_h + hb) * in_w + (ow * bs_w + wb)) * in_c + c) * elem_bytes
                + byte;
            let to = ((oh * (in_w / bs_w) + ow) * (in_c * bs_h * bs_w) + ((hb * bs_w + wb) * in_c
                + c)) * elem_bytes + byte;
            &&& out.len() == input.len()
            &&& 0 <= from < input.len()
            &&& 0 <= to < out.len()
            &&& out[to] == input[from]
        },
{
    if let SwOp::SpaceToDepth { in_h, in_w, in_c, bs_h, bs_w, elem_bytes, .. } = op {
        let grid_h = in_h as int / bs_h as int;
        let grid_w = in_w as int / bs_w as int;
        vstd::arithmetic::div_mod::lemma_fundamental_div_mod(in_h as int, bs_h as int);
        vstd::arithmetic::div_mod::lemma_fundamental_div_mod(in_w as int, bs_w as int);
        assert(bs_h * grid_h == grid_h * bs_h) by (nonlinear_arith);
        assert(bs_w * grid_w == grid_w * bs_w) by (nonlinear_arith);
        depth::law_space_to_depth_moves_elements(
            input,
            grid_h,
            grid_w,
            in_c as int,
            bs_h as int,
            bs_w as int,
            elem_bytes as int,
            oh,
            ow,
            hb,
            wb,
            c,
            byte,
        );
        assert((hb * bs_w + wb) * in_c == hb * bs_w * in_c + wb * in_c) by (nonlinear_arith);
    }
}

/// `DepthToSpace`, of either element width, moves every byte of input element
/// `(ih, iw, (hb*bs_w + wb)*max_c + oc)` to output element
/// `(ih*bs_h + hb, iw*bs_w + wb, oc)`, over the operator's own shape, with
/// `max_c` a `bs_h * bs_w`-th of its channels.
pub proof fn law_depth_to_space_operator_moves_elements(
    op: SwOp,
    input: Seq<u8>,
    xs: Seq<Sample>,
    ys: Seq<Sample>,
    max_c: int,
    ih: int,
    iw: int,
    hb: int,
    wb: int,
    oc: int,
    byte: int,
)
    requires
        op matches SwOp::DepthToSpace { in_h, in_w, in_c, bs_h, bs_w, elem_bytes, .. } && {
            &&& bs_h > 0 && bs_w > 0
            &&& in_c == max_c * (bs_h * bs_w)
            &&& input.len() == in_h * in_w * (in_c * elem_bytes)
            &&& 0 <= ih < in_h
            &&& 0 <= iw < in_w
            &&& 0 <= hb < bs_h
            &&& 0 <= wb < bs_w
            &&& 0 <= oc < max_c
            &&& 0 <= byte < elem_bytes
        },
    ensures
        op matches SwOp::DepthToSpace { in_h, in_w, in_c, bs_h, bs_w, elem_bytes, .. } && {
            let out = output_of(op, input, xs, ys);
            let from = ((ih * in_w + iw) * in_c + ((hb * bs_w + wb) * max_c + oc)) * elem_bytes
                + byte;
            let to = (((ih * bs_h + hb) * (in_w * bs_w) + (iw * bs_w + wb)) * max_c + oc)
                * elem_bytes + byte;
            &&& out.len() == input.len()
            &&& 0 <= from < input.len()
            &&& 0 <= to < out.len()
            &&& out[to] == input[from]
        },
{
    if let SwOp::DepthToSpace { in_h, in_w, in_c, bs_h, bs_w, elem_bytes, .. } = op {
        depth::law_depth_to_space_moves_elements(
            input,
            in_h as int,
            in_w as int,
            max_c,
            bs_h as int,
            bs_w as int,
            elem_bytes as int,
            ih,
            iw,
            hb,
            wb,
            oc,
            byte,
        );
        assert((hb * bs_w + wb) * max_c == hb * bs_w * max_c + wb * max_c) by (nonlinear_arith);
    }
}

/// `DepthToSpace` undoes `SpaceToDepth`: the operator over the deep tensor
/// with the same block and element width gives the full image back, and the
/// other way round.
pub proof fn law_depth_operators_undo_each_other(
    deepen: SwOp,
    flatten: SwOp,
    tensor: Seq<u8>,
    xs: Seq<Sample>,
    ys: Seq<Sample>,
)
    requires
        deepen matches SwOp::SpaceToDepth { in_h, in_w, in_c, bs_h, bs_w, elem_bytes, .. } && {
            &&& bs_h > 0 && bs_w > 0 && elem_bytes > 0
            &&& in_h % bs_h == 0 && in_w % bs_w == 0
            &&& tensor.len() == in_h * in_w * (in_c * elem_bytes)
            &&& flatten matches SwOp::DepthToSpace {
                in_h: deep_h,
                in_w: deep_w,
                in_c: deep_c,
                bs_h: tile_h,
                bs_w: tile_w,
                elem_bytes: width,
                ..
            }
            &&& deep_h == in_h / bs_h && deep_w == in_w / bs_w && deep_c == in_c * (bs_h * bs_w)
            &&& tile_h == bs_h && tile_w == bs_w && width == elem_bytes
        },
    ensures
        output_of(flatten, output_of(deepen, tensor, xs, ys), xs, ys) == tensor,
        output_of(deepen, output_of(flatten, tensor, xs, ys), xs, ys) == tensor,
{
    if let SwOp::SpaceToDepth { in_h, in_w, in_c, bs_h, bs_w, elem_bytes, .. } = deepen {
        let grid_h = in_h as int / bs_h as int;
        let grid_w = in_w as int / bs_w as int;
        vstd::arithmetic::div_mod::lemma_fundamental_div_mod(in_h as int, bs_h as int);
        vstd::arithmetic::div_mod::lemma_fundamental_div_mod(in_w as int, bs_w as int);
        assert(bs_h * grid_h == grid_h * bs_h) by (nonlinear_arith);
        assert(bs_w * grid_w == grid_w * bs_w) by (nonlinear_arith);
        depth::law_depth_operators_are_inverse(
            tensor,
            grid_h,
            grid_w,
            in_c as int,
            bs_h as int,
            bs_w as int,
            elem_bytes as int,
        );
    }
}

/// The resize operator resizes by its own shape. Where no extent is zero, the
/// result has `out_h * out_w * in_c` bytes, each of which
/// [`resize::law_resize_rounds_the_weighted_neighbours`] describes. From a
/// single pixel, every output pixel is a copy of it.
pub proof fn law_resize_operator_resizes_its_own_shape(
    op: SwOp,
    input: Seq<u8>,
    xs: Seq<Sample>,
    ys: Seq<Sample>,
)
    requires
        op is ResizeLinearHp,
    ensures
        op matches SwOp::ResizeLinearHp { in_h, in_w, in_c, out_h, out_w, is_signed, .. } && {
            let out = output_of(op, input, xs, ys);
            &&& out == resize::resized(
                input,
                ResizeShape { in_h, in_w, in_c, out_h, out_w, is_signed },
                xs,
                ys,
            )
            &&& in_h == 0 || in_w == 0 || in_c == 0 || out_h == 0 || out_w == 0 ==> out.len() == 0
            &&& in_h > 0 && in_w > 0 && in_c > 0 ==> out.len() == out_h * out_w * in_c
            &&& in_h == 1 && in_w == 1 && input.len() == in_c ==> forall|i: int|
                0 <= i < out.len() ==> #[trigger] out[i] == input[i % (in_c as int)]
        },
{
    if let SwOp::ResizeLinearHp { in_h, in_w, in_c, out_h, out_w, is_signed, .. } = op {
        let shape = ResizeShape { in_h, in_w, in_c, out_h, out_w, is_signed };
        let size = out_h * out_w * in_c;
        assert(size >= 0) by (nonlinear_arith)
            requires
                size == out_h * out_w * in_c,
        ;
        assert(out_h == 0 || out_w == 0 ==> size == 0) by (nonlinear_arith)
            requires
                size == out_h * out_w * in_c,
        ;
        if !shape.is_void() && in_h == 1 && in_w == 1 && input.len() == in_c {
            resize::law_single_pixel_is_copied(input, shape, xs, ys);
        }
    }
}

/// Which operators are refused, and why. `SpaceToDepth` wants whole blocks in
/// both directions, `DepthToSpace` wants its channels to be a whole number of
/// blocks, both want elements of one or two bytes, in that order; a resize
/// wants no extent of its output to be over 512.
pub proof fn law_operators_are_refused_for_their_shape(op: SwOp)
    requires
        has_block(op),
    ensures
        match op {
            SwOp::SpaceToDepth { in_h, in_w, bs_h, bs_w, elem_bytes, .. } => {
                let whole = in_h % bs_h == 0 && in_w % bs_w == 0;
                match fault(op) {
                    None => whole && 1 <= elem_bytes <= 2,
                    Some(SwError::S2dNotDivisible) => !whole,
                    Some(SwError::UnsupportedElemBytes { got }) => {
                        whole && got == elem_bytes && !(1 <= got <= 2)
                    },
                    Some(_) => false,
                }
            },
            SwOp::DepthToSpace { in_c, bs_h, bs_w, elem_bytes, .. } => {
                let whole = exists|max_c: int| in_c == #[trigger] (max_c * (bs_h * bs_w));
                match fault(op) {
                    None => whole && 1 <= elem_bytes <= 2,
                    Some(SwError::D2sNotDivisible) => !whole,
                    Some(SwError::UnsupportedElemBytes { got }) => {
                        whole && got == elem_bytes && !(1 <= got <= 2)
                    },
                    Some(_) => false,
                }
            },
            SwOp::ResizeLinearHp { out_h, out_w, .. } => match fault(op) {
                None => out_h <= 512 && out_w <= 512,
                Some(SwError::ResizeTooLarge { extent }) => {
                    &&& extent > 512
                    &&& extent >= out_h && extent >= out_w
                    &&& extent == out_h || extent == out_w
                },
                Some(_) => false,
            },
        },
{
    if let SwOp::DepthToSpace { in_c, bs_h, bs_w, .. } = op {
        let area = bs_h * bs_w;
        assert(area > 0) by (nonlinear_arith)
            requires
                area == bs_h * bs_w,
                bs_h > 0,
                bs_w > 0,
        ;
        vstd::arithmetic::div_mod::lemma_fundamental_div_mod(in_c as int, area);
        let q = in_c as int / area;
        assert(area * q == q * area) by (nonlinear_arith);
        if in_c as int % area == 0 {
            assert(in_c == q * (bs_h * bs_w));
        }
        assert forall|max_c: int| in_c == #[trigger] (max_c * (bs_h * bs_w)) implies in_c as int
            % area == 0 by {
            vstd::arithmetic::div_mod::lemma_mod_multiples_basic(max_c, area);
        }
    }
}

/// An operator reads its whole input tensor and writes its whole output
/// tensor, at the addresses it names, and nothing else. A resize with a zero
/// extent reads and writes nothing.
pub proof fn law_operators_read_and_write_their_tensors(op: SwOp)
    requires
        fault(op) is None,
        well_shaped(op),
    ensures
        ({
            let Transfer { source, target } = transfer_of(op);
            match op {
                SwOp::SpaceToDepth { in_addr, in_h, in_w, in_c, out_addr, elem_bytes, .. } => {
                    &&& source.base == in_addr && target.base == out_addr
                    &&& source.len == in_h * in_w * (in_c * elem_bytes)
                    &&& target.len == source.len
                },
                SwOp::DepthToSpace { in_addr, in_h, in_w, in_c, out_addr, elem_bytes, .. } => {
                    &&& source.base == in_addr && target.base == out_addr
                    &&& source.len == in_h * in_w * (in_c * elem_bytes)
                    &&& target.len == source.len
                },
                SwOp::ResizeLinearHp { in_addr, in_h, in_w, in_c, out_addr, out_h, out_w, .. } => {
                    &&& source.base == in_addr && target.base == out_addr
                    &&& if in_h == 0 || in_w == 0 || in_c == 0 || out_h == 0 || out_w == 0 {
                        source.len == 0 && target.len == 0
                    } else {
                        source.len == in_h * in_w * in_c && target.len == out_h * out_w * in_c
                    }
                },
            }
        }),
{
    match op {
        SwOp::SpaceToDepth { in_h, in_w, in_c, elem_bytes, .. } => {
            lemma_size_is_natural(
                in_h as int,
                in_w as int,
                in_c * elem_bytes,
                in_c as int,
                elem_bytes as int,
            );
        },
        SwOp::DepthToSpace { in_h, in_w, in_c, elem_bytes, .. } => {
            lemma_size_is_natural(
                in_h as int,
                in_w as int,
                in_c * elem_bytes,
                in_c as int,
                elem_bytes as int,
            );
        },
        SwOp::ResizeLinearHp { in_h, in_w, in_c, out_h, out_w, .. } => {
            lemma_size_is_natural(in_h as int, in_w as int, in_c as int, in_c as int, 1);
            lemma_size_is_natural(out_h as int, out_w as int, in_c as int, in_c as int, 1);
        },
    }
}

proof fn lemma_size_is_natural(h: int, w: int, pixel: int, c: int, elem_bytes: int)
    requires
        h >= 0,
        w >= 0,
        c >= 0,
        elem_bytes >= 0,
        pixel == c * elem_bytes,
    ensures
        h * w * pixel >= 0,
{
    let n = h * w;
    assert(n >= 0 && pixel >= 0 && n * pixel >= 0) by (nonlinear_arith)
        requires
            n == h * w,
            pixel == c * elem_bytes,
            h >= 0,
            w >= 0,
            c >= 0,
            elem_bytes >= 0,
    ;
}

/// Which operators a schedule can hold: those whose check divides by nothing
/// that is zero or over 32 bits and which, unless they are refused, read and
/// write inside the 32-bit address space.
pub proof fn law_well_shaped_operators_stay_in_the_address_space(op: SwOp)
    ensures
        match op {
            SwOp::SpaceToDepth {
                in_addr,
                in_h,
                in_w,
                in_c,
                out_addr,
                bs_h,
                bs_w,
                elem_bytes,
            } => {
                let size = in_h * in_w * (in_c * elem_bytes);
                let refused = in_h % bs_h != 0 || in_w % bs_w != 0 || !(1 <= elem_bytes <= 2);
                well_shaped(op) <==> {
                    &&& bs_h > 0
                    &&& bs_w > 0 || in_h % bs_h != 0
                    &&& refused || (size <= 0xFFFF_FFFF && in_addr + size <= 0x1_0000_0000
                        && out_addr + size <= 0x1_0000_0000)
                }
            },
            SwOp::DepthToSpace {
                in_addr,
                in_h,
                in_w,
                in_c,
                out_addr,
                bs_h,
                bs_w,
                elem_bytes,
            } => {
                let size = in_h * in_w * (in_c * elem_bytes);
                let refused = in_c as int % (bs_h * bs_w) != 0 || !(1 <= elem_bytes <= 2);
                well_shaped(op) <==> {
                    &&& bs_h > 0
                    &&& bs_w > 0
                    &&& bs_h * bs_w <= 0xFFFF_FFFF
                    &&& refused || (size <= 0xFFFF_FFFF && in_addr + size <= 0x1_0000_0000
                        && out_addr + size <= 0x1_0000_0000)
                }
            },
            SwOp::ResizeLinearHp { in_addr, in_h, in_w, in_c, out_addr, out_h, out_w, .. } => {
                let size = in_h * in_w * in_c;
                let out_size = out_h * out_w * in_c;
                well_shaped(op) <==> {
                    ||| out_h > 512
                    ||| out_w > 512
                    ||| in_h == 0 || in_w == 0 || in_c == 0 || out_h == 0 || out_w == 0
                    ||| size <= 0xFFFF_FFFF && out_size <= 0xFFFF_FFFF && in_addr + size
                        <= 0x1_0000_0000 && out_addr + out_size <= 0x1_0000_0000
                }
            },
        },
{
}

} // verus!
