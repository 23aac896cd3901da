use npu_runtime::error::SwError;
use npu_runtime::ir::{Region, SwOp};
use npu_runtime::sw::resize::{resize_linear_hp, ResizeShape, Sample};
use npu_runtime::sw::{self, is_well_shaped, plan, Transfer};

fn s2d(in_h: u32, in_w: u32, in_c: u32, bs_h: u32, bs_w: u32, elem_bytes: u32) -> SwOp {
    SwOp::SpaceToDepth { in_addr: 0x1000, in_h, in_w, in_c, out_addr: 0x8000, bs_h, bs_w, elem_bytes }
}

fn d2s(in_h: u32, in_w: u32, in_c: u32, bs_h: u32, bs_w: u32, elem_bytes: u32) -> SwOp {
    SwOp::DepthToSpace { in_addr: 0x8000, in_h, in_w, in_c, out_addr: 0x1000, bs_h, bs_w, elem_bytes }
}

fn resize(in_h: u32, in_w: u32, in_c: u32, out_h: u32, out_w: u32, is_signed: bool) -> SwOp {
    SwOp::ResizeLinearHp { in_addr: 0x1000, in_h, in_w, in_c, out_addr: 0x8000, out_h, out_w, is_signed }
}

fn samples(from: u32, to: u32) -> Vec<Sample> {
    let scale = from as f32 / to as f32;
    (0..to)
        .map(|k| {
            let s = (k as f32 + 0.5) * scale - 0.5;
            let floor = s.floor();
            Sample { floor: floor as i32, frac: ((s - floor) * 32768.0 + 0.5) as i32 }
        })
        .collect()
}

fn run(op: &SwOp, input: &[u8], xs: &[Sample], ys: &[Sample]) -> Result<Vec<u8>, SwError> {
    let size = plan(op).map_or(0, |transfer| transfer.target.len as usize);
    let mut output = vec![0xA5u8; size];
    sw::run(op, input, xs, ys, &mut output).map(|_| output)
}

fn signed(values: &[i8]) -> Vec<u8> {
    values.iter().map(|v| *v as u8).collect()
}

#[test]
fn space_to_depth_interleaves_blocks() {
    // 2 x 4 pixels of one byte, 2 x 2 blocks.
    let input = [0u8, 1, 2, 3, 4, 5, 6, 7];
    let out = run(&s2d(2, 4, 1, 2, 2, 1), &input, &[], &[]).unwrap();
    assert_eq!(out, vec![0, 1, 4, 5, 2, 3, 6, 7]);
}

#[test]
fn space_to_depth_keeps_channels_and_wide_elements_together() {
    // 2 x 2 pixels, two channels of two bytes, 2 x 1 blocks.
    let input: Vec<u8> = (0..16).collect();
    let out = run(&s2d(2, 2, 2, 2, 1, 2), &input, &[], &[]).unwrap();
    assert_eq!(out, vec![0, 1, 2, 3, 8, 9, 10, 11, 4, 5, 6, 7, 12, 13, 14, 15]);
}

#[test]
fn depth_to_space_spreads_blocks() {
    let input = [0u8, 1, 4, 5, 2, 3, 6, 7];
    let out = run(&d2s(1, 2, 4, 2, 2, 1), &input, &[], &[]).unwrap();
    assert_eq!(out, vec![0, 1, 2, 3, 4, 5, 6, 7]);
}

#[test]
fn space_to_depth_moves_each_element_to_its_place() {
    let (in_h, in_w, in_c, bs_h, bs_w) = (4usize, 6, 3, 2, 3);
    let input: Vec<u8> = (0..(in_h * in_w * in_c) as u8).collect();
    let out = run(&s2d(4, 6, 3, 2, 3, 1), &input, &[], &[]).unwrap();
    let (grid_w, out_c) = (in_w / bs_w, in_c * bs_h * bs_w);
    for oh in 0..in_h / bs_h {
        for ow in 0..grid_w {
            for hb in 0..bs_h {
                for wb in 0..bs_w {
                    for c in 0..in_c {
                        let oc = hb * bs_w * in_c + wb * in_c + c;
                        let to = (oh * grid_w + ow) * out_c + oc;
                        let from = ((oh * bs_h + hb) * in_w + ow * bs_w + wb) * in_c + c;
                        assert_eq!(out[to], input[from]);
                    }
                }
            }
        }
    }
}

#[test]
fn depth_operators_undo_each_other() {
    for elem_bytes in 1..3u32 {
        let input: Vec<u8> = (0..4 * 6 * 2 * elem_bytes).map(|k| (k * 7 % 256) as u8).collect();
        let deep = run(&s2d(4, 6, 2, 2, 3, elem_bytes), &input, &[], &[]).unwrap();
        assert_ne!(deep, input);
        assert_eq!(run(&d2s(2, 2, 12, 2, 3, elem_bytes), &deep, &[], &[]), Ok(input.clone()));
        let wide = run(&d2s(2, 2, 12, 2, 3, elem_bytes), &input, &[], &[]).unwrap();
        assert_eq!(run(&s2d(4, 6, 2, 2, 3, elem_bytes), &wide, &[], &[]), Ok(input));
    }
}

#[test]
fn empty_tensors_stay_empty() {
    assert_eq!(run(&s2d(4, 4, 0, 2, 2, 1), &[], &[], &[]), Ok(vec![]));
    assert_eq!(run(&d2s(0, 4, 4, 2, 2, 1), &[], &[], &[]), Ok(vec![]));
}

#[test]
fn indivisible_shapes_are_refused() {
    assert_eq!(plan(&s2d(3, 4, 1, 2, 2, 1)), Err(SwError::S2dNotDivisible));
    assert_eq!(run(&s2d(4, 3, 1, 2, 2, 1), &[], &[], &[]), Err(SwError::S2dNotDivisible));
    assert_eq!(plan(&d2s(1, 1, 6, 2, 2, 1)), Err(SwError::D2sNotDivisible));
    assert_eq!(run(&d2s(1, 1, 6, 2, 2, 1), &[], &[], &[]), Err(SwError::D2sNotDivisible));
    // Divisibility is judged before the element width.
    assert_eq!(plan(&s2d(3, 4, 1, 2, 2, 4)), Err(SwError::S2dNotDivisible));
}

#[test]
fn other_element_widths_are_refused() {
    assert_eq!(plan(&s2d(2, 2, 1, 2, 2, 4)), Err(SwError::UnsupportedElemBytes { got: 4 }));
    assert_eq!(
        run(&d2s(1, 1, 4, 2, 2, 0), &[], &[], &[]),
        Err(SwError::UnsupportedElemBytes { got: 0 })
    );
}

#[test]
fn plan_gives_both_spans() {
    assert_eq!(
        plan(&s2d(4, 6, 3, 2, 3, 2)),
        Ok(Transfer {
            source: Region { base: 0x1000, len: 144 },
            target: Region { base: 0x8000, len: 144 },
        })
    );
    assert_eq!(
        plan(&resize(2, 3, 4, 5, 6, true)),
        Ok(Transfer {
            source: Region { base: 0x1000, len: 24 },
            target: Region { base: 0x8000, len: 120 },
        })
    );
    assert_eq!(
        plan(&resize(0, 3, 4, 5, 6, true)),
        Ok(Transfer {
            source: Region { base: 0x1000, len: 0 },
            target: Region { base: 0x8000, len: 0 },
        })
    );
}

#[test]
fn shapes_that_no_schedule_can_hold_are_told_apart() {
    assert!(is_well_shaped(&s2d(2, 2, 1, 2, 2, 1)));
    assert!(!is_well_shaped(&s2d(2, 2, 1, 0, 2, 1)));
    assert!(!is_well_shaped(&d2s(2, 2, 1, 0x1_0000, 0x1_0000, 1)));
    assert!(!is_well_shaped(&s2d(0x1_0000, 0x1_0000, 1, 2, 2, 1)));
    assert!(is_well_shaped(&s2d(0x1_0001, 0x1_0000, 1, 2, 2, 1)));
}

#[test]
fn resize_interpolates_and_rounds_half_away_from_zero() {
    let op = resize(1, 2, 1, 1, 4, false);
    let out = run(&op, &[0, 10], &samples(2, 4), &samples(1, 1)).unwrap();
    assert_eq!(out, vec![0, 3, 8, 10]);
    let op = resize(1, 2, 1, 1, 4, true);
    let out = run(&op, &signed(&[0, -10]), &samples(2, 4), &samples(1, 1)).unwrap();
    assert_eq!(out, signed(&[0, -3, -8, -10]));
}

#[test]
fn resize_mixes_four_corners_per_channel() {
    // 2 x 2 pixels of two channels, sampled in the middle.
    let input = [0u8, 100, 40, 60, 80, 20, 120, 0];
    let middle = [Sample { floor: 0, frac: 0x4000 }];
    let out = run(&resize(2, 2, 2, 1, 1, false), &input, &middle, &middle).unwrap();
    assert_eq!(out, vec![60, 45]);
    // A quarter across, three quarters down: 0*3/16 + 40*1/16 + 80*9/16 + 120*3/16.
    let xs = [Sample { floor: 0, frac: 0x2000 }];
    let ys = [Sample { floor: 0, frac: 0x6000 }];
    let out = run(&resize(2, 2, 2, 1, 1, false), &input, &xs, &ys).unwrap();
    assert_eq!(out, vec![70, 34]);
}

#[test]
fn flat_images_stay_flat() {
    for v in [-128i8, -100, -1, 0, 1, 127] {
        let input = signed(&[v; 6]);
        let out = run(&resize(2, 3, 1, 5, 7, true), &input, &samples(3, 7), &samples(2, 5)).unwrap();
        assert_eq!(out, signed(&[v; 35]));
    }
}

#[test]
fn interpolated_codes_stay_between_their_corners() {
    let input = signed(&[-7, 5, 9, -2]);
    let out = run(&resize(2, 2, 1, 8, 8, true), &input, &samples(2, 8), &samples(2, 8)).unwrap();
    assert_eq!(out.len(), 64);
    for b in out {
        assert!((-7..=9).contains(&(b as i8)));
    }
}

#[test]
fn single_pixel_is_copied_and_needs_no_samples() {
    let input = [200u8, 7, 0];
    let out = run(&resize(1, 1, 3, 2, 3, true), &input, &[], &[]).unwrap();
    assert_eq!(out, [200u8, 7, 0].repeat(6));
    let out = run(&resize(1, 1, 3, 2, 3, true), &input, &samples(1, 3), &samples(1, 2)).unwrap();
    assert_eq!(out, [200u8, 7, 0].repeat(6));
}

#[test]
fn resize_to_the_same_size_is_the_identity() {
    let input: Vec<u8> = (0..24).map(|k| (k * 37 % 256) as u8).collect();
    for is_signed in [false, true] {
        let op = resize(3, 4, 2, 3, 4, is_signed);
        assert_eq!(run(&op, &input, &samples(4, 4), &samples(3, 3)), Ok(input.clone()));
    }
}

#[test]
fn samples_outside_the_input_repeat_its_edge() {
    let input = [10u8, 20, 30];
    let xs = [
        Sample { floor: -5, frac: 9 },
        Sample { floor: 2, frac: 0x4000 },
        Sample { floor: 9, frac: 0x4000 },
        Sample { floor: 0, frac: 0x9000 },
        Sample { floor: 1, frac: -4 },
    ];
    let ys = [Sample { floor: 0, frac: 0 }];
    let out = run(&resize(1, 3, 1, 1, 5, false), &input, &xs, &ys).unwrap();
    assert_eq!(out, vec![10, 30, 30, 20, 20]);
}

#[test]
fn zero_extents_write_nothing() {
    assert_eq!(run(&resize(0, 3, 1, 2, 2, true), &[], &[], &[]), Ok(vec![]));
    assert_eq!(run(&resize(2, 2, 0, 2, 2, true), &[], &[], &[]), Ok(vec![]));
}

#[test]
fn oversized_resize_is_refused() {
    assert_eq!(
        plan(&resize(2, 2, 1, 513, 4, true)),
        Err(SwError::ResizeTooLarge { extent: 513 })
    );
    assert_eq!(
        run(&resize(2, 2, 1, 4, 600, true), &[], &[], &[]),
        Err(SwError::ResizeTooLarge { extent: 600 })
    );
    assert!(plan(&resize(2, 2, 1, 512, 512, true)).is_ok());
}

#[test]
fn resize_by_shape_agrees_with_the_operator() {
    let shape = ResizeShape { in_h: 2, in_w: 2, in_c: 1, out_h: 4, out_w: 4, is_signed: false };
    let input = [0u8, 50, 100, 200];
    let mut direct = vec![0u8; 16];
    resize_linear_hp(&input, &shape, &samples(2, 4), &samples(2, 4), &mut direct);
    let op = resize(2, 2, 1, 4, 4, false);
    assert_eq!(run(&op, &input, &samples(2, 4), &samples(2, 4)), Ok(direct.clone()));
    assert_eq!(direct[0], 0);
    assert_eq!(direct[15], 200);
    // (9*0 + 3*50 + 3*100 + 200) / 16 == 40.625
    assert_eq!(direct[5], 41);
}

#[test]
fn oversized_resize_writes_nothing_unless_it_copies() {
    let wide = ResizeShape { in_h: 2, in_w: 1, in_c: 1, out_h: 1, out_w: 513, is_signed: false };
    let mut out = vec![0xA5u8; 513];
    resize_linear_hp(&[1, 2], &wide, &[], &[], &mut out);
    assert!(out.iter().all(|b| *b == 0xA5));
    let copy = ResizeShape { in_h: 1, in_w: 1, in_c: 2, out_h: 1, out_w: 600, is_signed: true };
    let mut out = vec![0u8; 1200];
    resize_linear_hp(&[7, 0xF9], &copy, &[], &[], &mut out);
    assert!(out.chunks(2).all(|pixel| pixel == [7u8, 0xF9]));
}

#[test]
fn resize_with_a_zero_extent_writes_nothing() {
    let void = ResizeShape { in_h: 2, in_w: 0, in_c: 1, out_h: 2, out_w: 2, is_signed: false };
    let mut out = [1u8, 2, 3, 4];
    resize_linear_hp(&[], &void, &[], &[], &mut out);
    assert_eq!(out, [1, 2, 3, 4]);
}

#[test]
fn refused_operator_leaves_its_output_alone() {
    let mut out = [1u8, 2, 3, 4];
    let refused = sw::run(&s2d(4, 3, 1, 2, 2, 1), &[], &[], &[], &mut out);
    assert_eq!(refused, Err(SwError::S2dNotDivisible));
    assert_eq!(out, [1, 2, 3, 4]);
}

#[test]
fn block_width_is_not_looked_at_where_the_height_is_refused() {
    assert!(is_well_shaped(&s2d(3, 4, 1, 2, 0, 1)));
    assert_eq!(plan(&s2d(3, 4, 1, 2, 0, 1)), Err(SwError::S2dNotDivisible));
    assert!(!is_well_shaped(&s2d(4, 4, 1, 2, 0, 1)));
}

#[test]
fn resize_stays_in_the_range_of_each_channel() {
    let input = signed(&[-100, 3, -90, 7, -95, 5, -91, 4]);
    let out = run(&resize(2, 2, 2, 7, 5, true), &input, &samples(2, 5), &samples(2, 7)).unwrap();
    for pixel in out.chunks(2) {
        assert!((-100..=-90).contains(&(pixel[0] as i8)));
        assert!((3..=7).contains(&(pixel[1] as i8)));
    }
}
