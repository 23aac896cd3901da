//! `SpaceToDepth` and `DepthToSpace`.
//!
//! The accelerator cannot perform dilated convolution directly. The compiler
//! rewrites each dilated convolution as `SpaceToDepth`, a dense convolution
//! and `DepthToSpace`; the two rearrangements are pure data movement and run
//! on the CPU.
//!
//! Tensors are NHWC: element `(h, w, c)` of an `(H, W, C)` tensor of
//! `elem_bytes`-byte elements sits at byte `((h * W + w) * C + c) * elem_bytes`.
//!
//! Both operators move whole runs of channels. A run has two positions: its
//! place in raster order over the full image, and its place in block order,
//! where the image is cut into `bs_h` by `bs_w` blocks, the blocks are taken
//! in raster order, and the runs inside a block are taken in raster order.
//! `SpaceToDepth` takes runs from raster order to block order,
//! `DepthToSpace` takes them back.

use vstd::prelude::*;

verus! {

/// The byte at which element `(h, w, c)` of an NHWC tensor starts.
pub open spec fn nhwc(width: int, channels: int, elem_bytes: int, h: int, w: int, c: int) -> int {
    ((h * width + w) * channels + c) * elem_bytes
}

/// The raster position of the run that is `k`-th in block order, where the
/// image is `grid_w` blocks wide.
pub open spec fn raster_of_block(grid_w: int, bs_h: int, bs_w: int, k: int) -> int {
    let wb = k % bs_w;
    let hb = (k / bs_w) % bs_h;
    let block = (k / bs_w) / bs_h;
    let h = (block / grid_w) * bs_h + hb;
    let w = (block % grid_w) * bs_w + wb;
    h * (grid_w * bs_w) + w
}

/// The block-order position of the run that is `k`-th in raster order.
pub open spec fn block_of_raster(grid_w: int, bs_h: int, bs_w: int, k: int) -> int {
    let h = k / (grid_w * bs_w);
    let w = k % (grid_w * bs_w);
    let block = (h / bs_h) * grid_w + w / bs_w;
    (block * bs_h + h % bs_h) * bs_w + w % bs_w
}

/// `input`, an `(in_h, in_w, in_c)` tensor, with its runs in block order.
pub open spec fn space_to_depth_of(
    input: Seq<u8>,
    in_w: int,
    in_c: int,
    bs_h: int,
    bs_w: int,
    elem_bytes: int,
) -> Seq<u8> {
    let run = in_c * elem_bytes;
    Seq::new(
        input.len(),
        |i: int| input[raster_of_block(in_w / bs_w, bs_h, bs_w, i / run) * run + i % run],
    )
}

/// `input`, an `(in_h, in_w, in_c)` tensor whose channels are blocks of runs,
/// with those runs in raster order.
pub open spec fn depth_to_space_of(
    input: Seq<u8>,
    in_w: int,
    in_c: int,
    bs_h: int,
    bs_w: int,
    elem_bytes: int,
) -> Seq<u8> {
    let run = in_c / (bs_h * bs_w) * elem_bytes;
    Seq::new(
        input.len(),
        |i: int| input[block_of_raster(in_w, bs_h, bs_w, i / run) * run + i % run],
    )
}

proof fn lemma_compose(q: int, d: int, r: int)
    requires
        0 <= r < d,
    ensures
        (q * d + r) / d == q,
        (q * d + r) % d == r,
{
    vstd::arithmetic::div_mod::lemma_fundamental_div_mod_converse(q * d + r, d, q, r);
}

proof fn lemma_split(x: int, d: int)
    requires
        d > 0,
        x >= 0,
    ensures
        x == (x / d) * d + x % d,
        0 <= x % d < d,
        x / d >= 0,
{
    vstd::arithmetic::div_mod::lemma_fundamental_div_mod(x, d);
    assert(d * (x / d) == (x / d) * d) by (nonlinear_arith);
    assert(x / d >= 0) by (nonlinear_arith)
        requires
            d > 0,
            x >= 0,
    ;
    assert(0 <= x % d < d) by (nonlinear_arith)
        requires
            d > 0,
    ;
}

/// A position below `rows * d` has a row below `rows`.
proof fn lemma_row_bound(x: int, d: int, rows: int)
    requires
        d > 0,
        0 <= x < rows * d,
    ensures
        0 <= x / d < rows,
{
    lemma_split(x, d);
    assert(x / d < rows) by (nonlinear_arith)
        requires
            x == (x / d) * d + x % d,
            0 <= x % d,
            d > 0,
            x < rows * d,
    ;
}

/// A row below `rows` and a column below `d` make a position below `rows * d`.
proof fn lemma_position_bound(row: int, d: int, col: int, rows: int)
    requires
        0 <= col < d,
        0 <= row < rows,
    ensures
        0 <= row * d + col < rows * d,
{
    assert(0 <= row * d + col < rows * d) by (nonlinear_arith)
        requires
            0 <= col < d,
            0 <= row < rows,
    ;
}

/// Block order and raster order over an image of `grid_h` by `grid_w` blocks
/// hold the same runs: each order's position leads back to the other's.
pub proof fn law_block_and_raster_order_are_inverse(
    grid_h: int,
    grid_w: int,
    bs_h: int,
    bs_w: int,
    k: int,
)
    requires
        grid_h > 0,
        grid_w > 0,
        bs_h > 0,
        bs_w > 0,
        0 <= k < (grid_h * bs_h) * (grid_w * bs_w),
    ensures
        0 <= raster_of_block(grid_w, bs_h, bs_w, k) < (grid_h * bs_h) * (grid_w * bs_w),
        block_of_raster(grid_w, bs_h, bs_w, raster_of_block(grid_w, bs_h, bs_w, k)) == k,
        0 <= block_of_raster(grid_w, bs_h, bs_w, k) < (grid_h * bs_h) * (grid_w * bs_w),
        raster_of_block(grid_w, bs_h, bs_w, block_of_raster(grid_w, bs_h, bs_w, k)) == k,
{
    let total = (grid_h * bs_h) * (grid_w * bs_w);
    let row = grid_w * bs_w;
    assert(row > 0) by (nonlinear_arith)
        requires
            row == grid_w * bs_w,
            grid_w > 0,
            bs_w > 0,
    ;
    assert(total == ((grid_h * grid_w) * bs_h) * bs_w) by (nonlinear_arith)
        requires
            total == (grid_h * bs_h) * (grid_w * bs_w),
    ;
    // From block order to raster order and back.
    {
        lemma_split(k, bs_w);
        lemma_row_bound(k, bs_w, (grid_h * grid_w) * bs_h);
        let kw = k / bs_w;
        let wb = k % bs_w;
        lemma_split(kw, bs_h);
        lemma_row_bound(kw, bs_h, grid_h * grid_w);
        let block = kw / bs_h;
        let hb = kw % bs_h;
        lemma_split(block, grid_w);
        lemma_row_bound(block, grid_w, grid_h);
        let oh = block / grid_w;
        let ow = block % grid_w;
        let h = oh * bs_h + hb;
        let w = ow * bs_w + wb;
        lemma_position_bound(oh, bs_h, hb, grid_h);
        lemma_position_bound(ow, bs_w, wb, grid_w);
        lemma_position_bound(h, row, w, grid_h * bs_h);
        lemma_compose(h, row, w);
        lemma_compose(oh, bs_h, hb);
        lemma_compose(ow, bs_w, wb);
        assert(raster_of_block(grid_w, bs_h, bs_w, k) == h * row + w);
    }
    // From raster order to block order and back.
    {
        lemma_split(k, row);
        lemma_row_bound(k, row, grid_h * bs_h);
        let h = k / row;
        let w = k % row;
        lemma_split(h, bs_h);
        lemma_row_bound(h, bs_h, grid_h);
        lemma_split(w, bs_w);
        lemma_row_bound(w, bs_w, grid_w);
        let oh = h / bs_h;
        let hb = h % bs_h;
        let ow = w / bs_w;
        let wb = w % bs_w;
        let block = oh * grid_w + ow;
        let kw = block * bs_h + hb;
        lemma_position_bound(oh, grid_w, ow, grid_h);
        lemma_position_bound(block, bs_h, hb, grid_h * grid_w);
        lemma_position_bound(kw, bs_w, wb, (grid_h * grid_w) * bs_h);
        lemma_compose(kw, bs_w, wb);
        lemma_compose(block, bs_h, hb);
        lemma_compose(oh, grid_w, ow);
        assert(block_of_raster(grid_w, bs_h, bs_w, k) == kw * bs_w + wb);
    }
}

/// Copies the `run` bytes of `input` at `from` to `out` at `at`.
pub(crate) fn copy_run(out: &mut [u8], at: usize, input: &[u8], from: usize, run: usize)
    requires
        from + run <= input@.len(),
        at + run <= old(out)@.len(),
    ensures
        final(out)@.len() == old(out)@.len(),
        forall|i: int|
            0 <= i < old(out)@.len() ==> #[trigger] final(out)@[i] == (if at <= i < at + run {
                input@[from + i - at]
            } else {
                old(out)@[i]
            }),
{
    assert(input@.len() == input.len());
    assert(out@.len() == out.len());
    let mut t: usize = 0;
    while t < run
        invariant
            t <= run,
            from + run <= input@.len() <= usize::MAX,
            at + run <= out@.len() <= usize::MAX,
            out@.len() == old(out)@.len(),
            forall|i: int|
                0 <= i < out@.len() ==> #[trigger] out@[i] == (if at <= i < at + t {
                    input@[from + i - at]
                } else {
                    old(out)@[i]
                }),
        decreases run - t,
    {
        out[at + t] = input[from + t];
        t = t + 1;
    }
}

/// The byte count of a non-empty tensor bounds its run count, its row count
/// and the length of one run.
proof fn lemma_counts_fit(rows: int, cols: int, run: int)
    requires
        rows > 0,
        cols > 0,
        run > 0,
    ensures
        0 < rows * cols <= rows * cols * run,
        rows <= rows * cols,
        cols <= rows * cols,
        run <= rows * cols * run,
{
    assert(0 < rows * cols && rows <= rows * cols && cols <= rows * cols) by (nonlinear_arith)
        requires
            rows > 0,
            cols > 0,
    ;
    let n = rows * cols;
    assert(n <= n * run && run <= n * run) by (nonlinear_arith)
        requires
            n > 0,
            run > 0,
    ;
}

/// `SpaceToDepth`, depth-column-row block interleave:
///
/// ```text
/// output[oh, ow, hb*bs_w*C + wb*C + c] = input[oh*bs_h + hb, ow*bs_w + wb, c]
/// ```
pub fn space_to_depth<const B: usize>(
    input: &[u8],
    in_h: u32,
    in_w: u32,
    in_c: u32,
    output: &mut [u8],
    bs_h: u32,
    bs_w: u32,
)
    requires
        B > 0,
        bs_h > 0,
        bs_w > 0,
        in_h % bs_h == 0,
        in_w % bs_w == 0,
        input@.len() == in_h * in_w * (in_c * B),
        old(output)@.len() == input@.len(),
    ensures
        final(output)@ == space_to_depth_of(
            input@,
            in_w as int,
            in_c as int,
            bs_h as int,
            bs_w as int,
            B as int,
        ),
{
    let ghost expected = space_to_depth_of(
        input@,
        in_w as int,
        in_c as int,
        bs_h as int,
        bs_w as int,
        B as int,
    );
    assert(input@.len() == input.len());
    if in_h == 0 || in_w == 0 || in_c == 0 {
        proof {
            assert(in_h * in_w * (in_c * B) == 0) by (nonlinear_arith)
                requires
                    in_h == 0 || in_w == 0 || in_c == 0,
            ;
            assert(output@ =~= expected);
        }
        return ;
    }
    let ghost grid_h = in_h as int / bs_h as int;
    let ghost grid_w = in_w as int / bs_w as int;
    proof {
        assert(in_c * B > 0) by (nonlinear_arith)
            requires
                in_c > 0,
                B > 0,
        ;
        lemma_counts_fit(in_h as int, in_w as int, in_c * B);
        lemma_split(in_h as int, bs_h as int);
        lemma_split(in_w as int, bs_w as int);
        assert(grid_h > 0 && grid_w > 0) by (nonlinear_arith)
            requires
                in_h == grid_h * bs_h,
                in_w == grid_w * bs_w,
                in_h > 0,
                in_w > 0,
                bs_h > 0,
                bs_w > 0,
        ;
    }
    let run: usize = in_c as usize * B;
    let width: usize = in_w as usize;
    let count: usize = in_h as usize * width;
    let tile_h: usize = bs_h as usize;
    let tile_w: usize = bs_w as usize;
    let tiles_across: usize = width / tile_w;
    let mut k: usize = 0;
    while k < count
        invariant
            k <= count,
            run > 0,
            tile_h == bs_h,
            tile_w == bs_w,
            tile_h > 0,
            tile_w > 0,
            width == in_w,
            tiles_across == grid_w,
            grid_h > 0,
            grid_w > 0,
            grid_w == in_w as int / bs_w as int,
            in_h == grid_h * bs_h,
            in_w == grid_w * bs_w,
            count == in_h * in_w,
            run == in_c * B,
            input@.len() == count * run,
            input@.len() <= usize::MAX,
            expected == space_to_depth_of(
                input@,
                in_w as int,
                in_c as int,
                bs_h as int,
                bs_w as int,
                B as int,
            ),
            output@.len() == input@.len(),
            forall|i: int| 0 <= i < k * run ==> #[trigger] output@[i] == expected[i],
        decreases count - k,
    {
        let wb: usize = k % tile_w;
        let kw: usize = k / tile_w;
        let hb: usize = kw % tile_h;
        let block: usize = kw / tile_h;
        let oh: usize = block / tiles_across;
        let ow: usize = block % tiles_across;
        let ghost source = raster_of_block(grid_w, bs_h as int, bs_w as int, k as int);
        proof {
            law_block_and_raster_order_are_inverse(
                grid_h,
                grid_w,
                bs_h as int,
                bs_w as int,
                k as int,
            );
            lemma_raster_parts_fit(grid_h, grid_w, bs_h as int, bs_w as int, k as int);
            lemma_position_bound(source, run as int, run - 1, count as int);
            assert(source * run >= 0) by (nonlinear_arith)
                requires
                    source >= 0,
                    run > 0,
            ;
        }
        let h: usize = oh * tile_h + hb;
        let w: usize = ow * tile_w + wb;
        let from: usize = (h * width + w) * run;
        assert(from == source * run);
        let ghost before = output@;
        proof {
            assert((k + 1) * run == k * run + run) by (nonlinear_arith);
            assert(0 <= k * run && k * run + run <= count * run) by (nonlinear_arith)
                requires
                    0 <= k,
                    k + 1 <= count,
                    run > 0,
            ;
        }
        copy_run(output, k * run, input, from, run);
        proof {
            assert forall|i: int| 0 <= i < (k + 1) * run implies #[trigger] output@[i]
                == expected[i] by {
                if i < k * run {
                    assert(output@[i] == before[i]);
                } else {
                    let t = i - k * run;
                    lemma_compose(k as int, run as int, t);
                    assert(i / run as int == k && i % run as int == t);
                    assert(output@[i] == input@[from + t]);
                }
            }
        }
        k = k + 1;
    }
    assert(output@ =~= expected);
}

/// The parts from which a raster position is put together stay below it.
proof fn lemma_raster_parts_fit(grid_h: int, grid_w: int, bs_h: int, bs_w: int, k: int)
    requires
        grid_h > 0,
        grid_w > 0,
        bs_h > 0,
        bs_w > 0,
        0 <= k < (grid_h * bs_h) * (grid_w * bs_w),
    ensures
        ({
            let kw = k / bs_w;
            let block = kw / bs_h;
            let h = (block / grid_w) * bs_h + kw % bs_h;
            let w = (block % grid_w) * bs_w + k % bs_w;
            let total = (grid_h * bs_h) * (grid_w * bs_w);
            &&& 0 <= kw
            &&& 0 <= block
            &&& 0 <= (block / grid_w) * bs_h <= h < grid_h * bs_h
            &&& 0 <= (block % grid_w) * bs_w <= w < grid_w * bs_w
            &&& 0 <= h * (grid_w * bs_w) < total
        }),
{
    let total = (grid_h * bs_h) * (grid_w * bs_w);
    assert(total == ((grid_h * grid_w) * bs_h) * bs_w) by (nonlinear_arith)
        requires
            total == (grid_h * bs_h) * (grid_w * bs_w),
    ;
    lemma_split(k, bs_w);
    lemma_row_bound(k, bs_w, (grid_h * grid_w) * bs_h);
    let kw = k / bs_w;
    lemma_split(kw, bs_h);
    lemma_row_bound(kw, bs_h, grid_h * grid_w);
    let block = kw / bs_h;
    lemma_split(block, grid_w);
    lemma_row_bound(block, grid_w, grid_h);
    lemma_position_bound(block / grid_w, bs_h, kw % bs_h, grid_h);
    lemma_position_bound(block % grid_w, bs_w, k % bs_w, grid_w);
    lemma_position_bound(block / grid_w, bs_h, 0, grid_h);
    lemma_position_bound(block % grid_w, bs_w, 0, grid_w);
    let h = (block / grid_w) * bs_h + kw % bs_h;
    let w = (block % grid_w) * bs_w + k % bs_w;
    lemma_position_bound(h, grid_w * bs_w, 0, grid_h * bs_h);
}

/// `DepthToSpace`, depth-column-row mode, the inverse of [`space_to_depth`]:
///
/// ```text
/// output[ih*bs_h + hb, iw*bs_w + wb, oc] = input[ih, iw, hb*bs_w*max_c + wb*max_c + oc]
/// ```
///
/// with `max_c = in_c / (bs_h * bs_w)`.
pub fn depth_to_space<const B: usize>(
    input: &[u8],
    in_h: u32,
    in_w: u32,
    in_c: u32,
    output: &mut [u8],
    bs_h: u32,
    bs_w: u32,
)
    requires
        B > 0,
        bs_h > 0,
        bs_w > 0,
        bs_h * bs_w <= u32::MAX,
        in_c as int % (bs_h * bs_w) == 0,
        input@.len() == in_h * in_w * (in_c * B),
        old(output)@.len() == input@.len(),
    ensures
        final(output)@ == depth_to_space_of(
            input@,
            in_w as int,
            in_c as int,
            bs_h as int,
            bs_w as int,
            B as int,
        ),
{
    let ghost expected = depth_to_space_of(
        input@,
        in_w as int,
        in_c as int,
        bs_h as int,
        bs_w as int,
        B as int,
    );
    assert(input@.len() == input.len());
    if in_h == 0 || in_w == 0 || in_c == 0 {
        proof {
            assert(in_h * in_w * (in_c * B) == 0) by (nonlinear_arith)
                requires
                    in_h == 0 || in_w == 0 || in_c == 0,
            ;
            assert(output@ =~= expected);
        }
        return ;
    }
    let ghost total = in_h * in_w * (in_c * B);
    proof {
        assert(bs_h * bs_w > 0) by (nonlinear_arith)
            requires
                bs_h > 0,
                bs_w > 0,
        ;
    }
    let max_c: u32 = in_c / (bs_h * bs_w);
    proof {
        let area = bs_h * bs_w;
        lemma_split(in_c as int, area);
        assert(max_c > 0) by (nonlinear_arith)
            requires
                in_c == max_c * area,
                in_c > 0,
                area > 0,
        ;
        assert(max_c * B > 0 && max_c * B <= in_c * B) by (nonlinear_arith)
            requires
                max_c > 0,
                B > 0,
                in_c == max_c * area,
                area > 0,
        ;
        let full_h = in_h * bs_h;
        let full_w = in_w * bs_w;
        assert(full_h > 0 && full_w > 0) by (nonlinear_arith)
            requires
                full_h == in_h * bs_h,
                full_w == in_w * bs_w,
                in_h > 0,
                in_w > 0,
                bs_h > 0,
                bs_w > 0,
        ;
        assert(full_h * full_w * (max_c * B) == total) by (nonlinear_arith)
            requires
                total == in_h * in_w * (in_c * B),
                in_c == max_c * area,
                area == bs_h * bs_w,
                full_h == in_h * bs_h,
                full_w == in_w * bs_w,
        ;
        lemma_counts_fit(full_h, full_w, max_c * B);
    }
    let run: usize = max_c as usize * B;
    let tile_h: usize = bs_h as usize;
    let tile_w: usize = bs_w as usize;
    let tiles_across: usize = in_w as usize;
    let width: usize = tiles_across * tile_w;
    let count: usize = (in_h as usize * tile_h) * width;
    let mut k: usize = 0;
    while k < count
        invariant
            k <= count,
            run > 0,
            tile_h == bs_h,
            tile_w == bs_w,
            tile_h > 0,
            tile_w > 0,
            tiles_across == in_w,
            width == in_w * bs_w,
            width > 0,
            in_h > 0,
            in_w > 0,
            count == (in_h * bs_h) * (in_w * bs_w),
            run == in_c as int / (bs_h * bs_w) * B,
            input@.len() == count * run,
            count <= count * run,
            input@.len() <= usize::MAX,
            expected == depth_to_space_of(
                input@,
                in_w as int,
                in_c as int,
                bs_h as int,
                bs_w as int,
                B as int,
            ),
            output@.len() == input@.len(),
            forall|i: int| 0 <= i < k * run ==> #[trigger] output@[i] == expected[i],
        decreases count - k,
    {
        let h: usize = k / width;
        let w: usize = k % width;
        let ghost source = block_of_raster(in_w as int, bs_h as int, bs_w as int, k as int);
        proof {
            law_block_and_raster_order_are_inverse(
                in_h as int,
                in_w as int,
                bs_h as int,
                bs_w as int,
                k as int,
            );
            lemma_block_parts_fit(in_h as int, in_w as int, bs_h as int, bs_w as int, k as int);
            lemma_position_bound(source, run as int, run - 1, count as int);
            assert(source * run >= 0) by (nonlinear_arith)
                requires
                    source >= 0,
                    run > 0,
            ;
        }
        let block: usize = (h / tile_h) * tiles_across + w / tile_w;
        let from: usize = ((block * tile_h + h % tile_h) * tile_w + w % tile_w) * run;
        assert(from == source * run);
        let ghost before = output@;
        proof {
            assert((k + 1) * run == k * run + run) by (nonlinear_arith);
            assert(0 <= k * run && k * run + run <= count * run) by (nonlinear_arith)
                requires
                    0 <= k,
                    k + 1 <= count,
                    run > 0,
            ;
        }
        copy_run(output, k * run, input, from, run);
        proof {
            assert forall|i: int| 0 <= i < (k + 1) * run implies #[trigger] output@[i]
                == expected[i] by {
                if i < k * run {
                    assert(output@[i] == before[i]);
                } else {
                    let t = i - k * run;
                    lemma_compose(k as int, run as int, t);
                    assert(i / run as int == k && i % run as int == t);
                    assert(output@[i] == input@[from + t]);
                }
            }
        }
        k = k + 1;
    }
    assert(output@ =~= expected);
}

/// The parts from which a block-order position is put together stay below it.
proof fn lemma_block_parts_fit(grid_h: int, grid_w: int, bs_h: int, bs_w: int, k: int)
    requires
        grid_h > 0,
        grid_w > 0,
        bs_h > 0,
        bs_w > 0,
        0 <= k < (grid_h * bs_h) * (grid_w * bs_w),
    ensures
        ({
            let h = k / (grid_w * bs_w);
            let w = k % (grid_w * bs_w);
            let block = (h / bs_h) * grid_w + w / bs_w;
            let total = (grid_h * bs_h) * (grid_w * bs_w);
            &&& 0 <= h
            &&& 0 <= w
            &&& 0 <= (h / bs_h) * grid_w <= block < total
            &&& 0 <= block * bs_h <= block * bs_h + h % bs_h < total
            &&& 0 <= (block * bs_h + h % bs_h) * bs_w < total
        }),
{
    let row = grid_w * bs_w;
    let total = (grid_h * bs_h) * row;
    assert(row > 0) by (nonlinear_arith)
        requires
            row == grid_w * bs_w,
            grid_w > 0,
            bs_w > 0,
    ;
    assert(total == ((grid_h * grid_w) * bs_h) * bs_w) by (nonlinear_arith)
        requires
            total == (grid_h * bs_h) * row,
            row == grid_w * bs_w,
    ;
    lemma_split(k, row);
    lemma_row_bound(k, row, grid_h * bs_h);
    let h = k / row;
    let w = k % row;
    lemma_split(h, bs_h);
    lemma_row_bound(h, bs_h, grid_h);
    lemma_split(w, bs_w);
    lemma_row_bound(w, bs_w, grid_w);
    let block = (h / bs_h) * grid_w + w / bs_w;
    let kw = block * bs_h + h % bs_h;
    let blocks = grid_h * grid_w;
    lemma_position_bound(h / bs_h, grid_w, w / bs_w, grid_h);
    lemma_position_bound(h / bs_h, grid_w, 0, grid_h);
    lemma_position_bound(block, bs_h, h % bs_h, blocks);
    lemma_position_bound(block, bs_h, 0, blocks);
    lemma_position_bound(kw, bs_w, 0, blocks * bs_h);
    assert(blocks <= blocks * bs_h && blocks * bs_h <= (blocks * bs_h) * bs_w) by (nonlinear_arith)
        requires
            blocks > block,
            block >= 0,
            bs_h > 0,
            bs_w > 0,
    ;
}

/// A run index below the run count, with an offset inside the run, is a byte
/// of the tensor that divides back into the two.
proof fn lemma_run_byte(k: int, count: int, run: int, t: int)
    requires
        0 <= k < count,
        0 <= t < run,
    ensures
        0 <= k * run + t < count * run,
        (k * run + t) / run == k,
        (k * run + t) % run == t,
{
    lemma_position_bound(k, run, t, count);
    lemma_compose(k, run, t);
}

/// A channel index inside a block, counted in elements and in runs.
proof fn lemma_block_channel(
    block: int,
    bs_h: int,
    bs_w: int,
    hb: int,
    wb: int,
    channels: int,
    c: int,
    elem_bytes: int,
    byte: int,
)
    ensures
        (block * (channels * bs_h * bs_w) + (hb * bs_w * channels + wb * channels + c)) * elem_bytes
            + byte == ((block * bs_h + hb) * bs_w + wb) * (channels * elem_bytes) + (c * elem_bytes
            + byte),
        channels * bs_h * bs_w == channels * (bs_h * bs_w),
{
    let m = bs_w * channels;
    let kw = block * bs_h + hb;
    let k = kw * bs_w + wb;
    assert(hb * bs_w * channels == hb * m) by (nonlinear_arith)
        requires
            m == bs_w * channels,
    ;
    assert(channels * bs_h * bs_w == bs_h * m) by (nonlinear_arith)
        requires
            m == bs_w * channels,
    ;
    assert(block * (bs_h * m) == (block * bs_h) * m) by (nonlinear_arith);
    assert(kw * m == (block * bs_h) * m + hb * m) by (nonlinear_arith)
        requires
            kw == block * bs_h + hb,
    ;
    assert((kw * bs_w) * channels == kw * m) by (nonlinear_arith)
        requires
            m == bs_w * channels,
    ;
    assert(k * channels == (kw * bs_w) * channels + wb * channels) by (nonlinear_arith)
        requires
            k == kw * bs_w + wb,
    ;
    assert((k * channels + c) * elem_bytes == k * (channels * elem_bytes) + c * elem_bytes)
        by (nonlinear_arith);
    assert(channels * bs_h * bs_w == channels * (bs_h * bs_w)) by (nonlinear_arith);
}

/// `SpaceToDepth` moves every byte of element `(oh*bs_h + hb, ow*bs_w + wb, c)`
/// to element `(oh, ow, hb*bs_w*in_c + wb*in_c + c)`.
pub proof fn law_space_to_depth_moves_elements(
    input: Seq<u8>,
    grid_h: int,
    grid_w: int,
    in_c: int,
    bs_h: int,
    bs_w: int,
    elem_bytes: int,
    oh: int,
    ow: int,
    hb: int,
    wb: int,
    c: int,
    byte: int,
)
    requires
        bs_h > 0,
        bs_w > 0,
        input.len() == (grid_h * bs_h) * (grid_w * bs_w) * (in_c * elem_bytes),
        0 <= oh < grid_h,
        0 <= ow < grid_w,
        0 <= hb < bs_h,
        0 <= wb < bs_w,
        0 <= c < in_c,
        0 <= byte < elem_bytes,
    ensures
        ({
            let in_w = grid_w * bs_w;
            let out_c = in_c * bs_h * bs_w;
            let oc = hb * bs_w * in_c + wb * in_c + c;
            let to = nhwc(grid_w, out_c, elem_bytes, oh, ow, oc) + byte;
            let from = nhwc(in_w, in_c, elem_bytes, oh * bs_h + hb, ow * bs_w + wb, c) + byte;
            &&& 0 <= to < input.len()
            &&& 0 <= from < input.len()
            &&& space_to_depth_of(input, in_w, in_c, bs_h, bs_w, elem_bytes)[to] == input[from]
        }),
{
    let in_w = grid_w * bs_w;
    let out_c = in_c * bs_h * bs_w;
    let oc = hb * bs_w * in_c + wb * in_c + c;
    let to = nhwc(grid_w, out_c, elem_bytes, oh, ow, oc) + byte;
    let from = nhwc(in_w, in_c, elem_bytes, oh * bs_h + hb, ow * bs_w + wb, c) + byte;
    let run = in_c * elem_bytes;
    let t = c * elem_bytes + byte;
    lemma_position_bound(c, elem_bytes, byte, in_c);
    let block = oh * grid_w + ow;
    let kw = block * bs_h + hb;
    let k = kw * bs_w + wb;
    let h = oh * bs_h + hb;
    let w = ow * bs_w + wb;
    let r = h * in_w + w;
    lemma_tile_positions(grid_h, grid_w, bs_h, bs_w, oh, ow, hb, wb);
    let count = (grid_h * bs_h) * in_w;
    lemma_run_byte(k, count, run, t);
    lemma_run_byte(r, count, run, t);
    lemma_compose(grid_w, bs_w, 0);
    lemma_block_channel(block, bs_h, bs_w, hb, wb, in_c, c, elem_bytes, byte);
    assert(to == k * run + t);
    assert(from == r * run + t) by (nonlinear_arith)
        requires
            from == (r * in_c + c) * elem_bytes + byte,
            run == in_c * elem_bytes,
            t == c * elem_bytes + byte,
    ;
    assert(input.len() == count * run);
}

/// The run of block `(oh, ow)` at `(hb, wb)` inside the block has one position
/// in each order, and the two lead to each other.
proof fn lemma_tile_positions(
    grid_h: int,
    grid_w: int,
    bs_h: int,
    bs_w: int,
    oh: int,
    ow: int,
    hb: int,
    wb: int,
)
    requires
        0 <= oh < grid_h,
        0 <= ow < grid_w,
        0 <= hb < bs_h,
        0 <= wb < bs_w,
    ensures
        ({
            let k = ((oh * grid_w + ow) * bs_h + hb) * bs_w + wb;
            let r = (oh * bs_h + hb) * (grid_w * bs_w) + (ow * bs_w + wb);
            let count = (grid_h * bs_h) * (grid_w * bs_w);
            &&& 0 <= k < count
            &&& 0 <= r < count
            &&& raster_of_block(grid_w, bs_h, bs_w, k) == r
            &&& block_of_raster(grid_w, bs_h, bs_w, r) == k
        }),
{
    let row = grid_w * bs_w;
    let count = (grid_h * bs_h) * row;
    assert(count == ((grid_h * grid_w) * bs_h) * bs_w) by (nonlinear_arith)
        requires
            count == (grid_h * bs_h) * row,
            row == grid_w * bs_w,
    ;
    let block = oh * grid_w + ow;
    let kw = block * bs_h + hb;
    let h = oh * bs_h + hb;
    let w = ow * bs_w + wb;
    lemma_position_bound(oh, grid_w, ow, grid_h);
    lemma_position_bound(block, bs_h, hb, grid_h * grid_w);
    lemma_position_bound(kw, bs_w, wb, (grid_h * grid_w) * bs_h);
    lemma_position_bound(oh, bs_h, hb, grid_h);
    lemma_position_bound(ow, bs_w, wb, grid_w);
    lemma_position_bound(h, row, w, grid_h * bs_h);
    lemma_compose(kw, bs_w, wb);
    lemma_compose(block, bs_h, hb);
    lemma_compose(oh, grid_w, ow);
    lemma_compose(h, row, w);
    lemma_compose(oh, bs_h, hb);
    lemma_compose(ow, bs_w, wb);
}

/// `DepthToSpace` moves every byte of element
/// `(ih, iw, hb*bs_w*max_c + wb*max_c + oc)` to element
/// `(ih*bs_h + hb, iw*bs_w + wb, oc)`.
pub proof fn law_depth_to_space_moves_elements(
    input: Seq<u8>,
    in_h: int,
    in_w: int,
    max_c: int,
    bs_h: int,
    bs_w: int,
    elem_bytes: int,
    ih: int,
    iw: int,
    hb: int,
    wb: int,
    oc: int,
    byte: int,
)
    requires
        bs_h > 0,
        bs_w > 0,
        input.len() == in_h * in_w * ((max_c * (bs_h * bs_w)) * elem_bytes),
        0 <= ih < in_h,
        0 <= iw < in_w,
        0 <= hb < bs_h,
        0 <= wb < bs_w,
        0 <= oc < max_c,
        0 <= byte < elem_bytes,
    ensures
        ({
            let in_c = max_c * (bs_h * bs_w);
            let ic = hb * bs_w * max_c + wb * max_c + oc;
            let from = nhwc(in_w, in_c, elem_bytes, ih, iw, ic) + byte;
            let to = nhwc(in_w * bs_w, max_c, elem_bytes, ih * bs_h + hb, iw * bs_w + wb, oc)
                + byte;
            &&& 0 <= to < input.len()
            &&& 0 <= from < input.len()
            &&& depth_to_space_of(input, in_w, in_c, bs_h, bs_w, elem_bytes)[to] == input[from]
        }),
{
    let area = bs_h * bs_w;
    let in_c = max_c * area;
    let ic = hb * bs_w * max_c + wb * max_c + oc;
    let out_w = in_w * bs_w;
    let from = nhwc(in_w, in_c, elem_bytes, ih, iw, ic) + byte;
    let to = nhwc(out_w, max_c, elem_bytes, ih * bs_h + hb, iw * bs_w + wb, oc) + byte;
    let run = max_c * elem_bytes;
    let t = oc * elem_bytes + byte;
    lemma_position_bound(oc, elem_bytes, byte, max_c);
    let block = ih * in_w + iw;
    let kw = block * bs_h + hb;
    let k = kw * bs_w + wb;
    let r = (ih * bs_h + hb) * out_w + (iw * bs_w + wb);
    lemma_tile_positions(in_h, in_w, bs_h, bs_w, ih, iw, hb, wb);
    let count = (in_h * bs_h) * out_w;
    lemma_run_byte(k, count, run, t);
    lemma_run_byte(r, count, run, t);
    assert(area > 0) by (nonlinear_arith)
        requires
            area == bs_h * bs_w,
            bs_h > 0,
            bs_w > 0,
    ;
    lemma_compose(max_c, area, 0);
    lemma_block_channel(block, bs_h, bs_w, hb, wb, max_c, oc, elem_bytes, byte);
    assert(from == k * run + t);
    assert(to == r * run + t) by (nonlinear_arith)
        requires
            to == (r * max_c + oc) * elem_bytes + byte,
            run == max_c * elem_bytes,
            t == oc * elem_bytes + byte,
    ;
    assert(input.len() == count * run) by (nonlinear_arith)
        requires
            input.len() == in_h * in_w * (in_c * elem_bytes),
            in_c == max_c * area,
            area == bs_h * bs_w,
            count == (in_h * bs_h) * out_w,
            out_w == in_w * bs_w,
            run == max_c * elem_bytes,
    ;
}

/// `DepthToSpace` undoes `SpaceToDepth`, and `SpaceToDepth` undoes
/// `DepthToSpace`: over an image of `grid_h` by `grid_w` blocks of
/// `channels`-element runs, either one after the other gives the tensor back.
pub proof fn law_depth_operators_are_inverse(
    tensor: Seq<u8>,
    grid_h: int,
    grid_w: int,
    channels: int,
    bs_h: int,
    bs_w: int,
    elem_bytes: int,
)
    requires
        grid_h >= 0,
        grid_w >= 0,
        channels >= 0,
        bs_h > 0,
        bs_w > 0,
        elem_bytes > 0,
        tensor.len() == (grid_h * bs_h) * (grid_w * bs_w) * (channels * elem_bytes),
    ensures
        ({
            let full_w = grid_w * bs_w;
            let deep_c = channels * (bs_h * bs_w);
            let deep = space_to_depth_of(tensor, full_w, channels, bs_h, bs_w, elem_bytes);
            let wide = depth_to_space_of(tensor, grid_w, deep_c, bs_h, bs_w, elem_bytes);
            &&& depth_to_space_of(deep, grid_w, deep_c, bs_h, bs_w, elem_bytes) == tensor
            &&& space_to_depth_of(wide, full_w, channels, bs_h, bs_w, elem_bytes) == tensor
        }),
{
    let full_w = grid_w * bs_w;
    let area = bs_h * bs_w;
    let deep_c = channels * area;
    let deep = space_to_depth_of(tensor, full_w, channels, bs_h, bs_w, elem_bytes);
    let wide = depth_to_space_of(tensor, grid_w, deep_c, bs_h, bs_w, elem_bytes);
    let back = depth_to_space_of(deep, grid_w, deep_c, bs_h, bs_w, elem_bytes);
    let forth = space_to_depth_of(wide, full_w, channels, bs_h, bs_w, elem_bytes);
    let run = channels * elem_bytes;
    let count = (grid_h * bs_h) * full_w;
    assert(area > 0) by (nonlinear_arith)
        requires
            area == bs_h * bs_w,
            bs_h > 0,
            bs_w > 0,
    ;
    lemma_compose(channels, area, 0);
    lemma_compose(grid_w, bs_w, 0);
    assert forall|i: int| 0 <= i < tensor.len() implies back[i] == tensor[i] && forth[i]
        == tensor[i] by {
        assert(grid_h > 0 && grid_w > 0 && channels > 0) by (nonlinear_arith)
            requires
                grid_h >= 0,
                grid_w >= 0,
                channels >= 0,
                tensor.len() > 0,
                tensor.len() == (grid_h * bs_h) * (grid_w * bs_w) * (channels * elem_bytes),
        ;
        assert(run > 0) by (nonlinear_arith)
            requires
                run == channels * elem_bytes,
                channels > 0,
                elem_bytes > 0,
        ;
        let k = i / run;
        let t = i % run;
        lemma_split(i, run);
        lemma_row_bound(i, run, count);
        law_block_and_raster_order_are_inverse(grid_h, grid_w, bs_h, bs_w, k);
        let b = block_of_raster(grid_w, bs_h, bs_w, k);
        let r = raster_of_block(grid_w, bs_h, bs_w, k);
        lemma_run_byte(b, count, run, t);
        lemma_run_byte(r, count, run, t);
        assert(back[i] == deep[b * run + t]);
        assert(deep[b * run + t] == tensor[k * run + t]);
        assert(forth[i] == wide[r * run + t]);
        assert(wide[r * run + t] == tensor[k * run + t]);
    }
    assert(back =~= tensor);
    assert(forth =~= tensor);
}

} // verus!
