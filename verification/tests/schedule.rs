use npu_runtime::bytes::{read_le32, read_le64};
use npu_runtime::ir::{blob_words, Blob, Epoch, Io, IoBinding, Model, Op, Region, Scores, SwOp};
use npu_runtime::weights::crc32;
use npu_runtime::{
    Command, DeviceConfig, EpochOutcome, Event, HwBlob, InferError, InferenceModel, InitError,
    ManifestLocation, NorWindow, NpuDevice, PrepareConfig, Preparation, Prepared, Program, Reply,
    Request, Stats, SwError, WeightError,
};

const NOR_BASE: u32 = 0x7000_0000;
const SLOT: u32 = NOR_BASE + 0x1000;
const MAGIC: u32 = 0xCA05_7A7A;
const RAM: u32 = 0x9060_0010;
const IO: IoBinding = IoBinding { input: 0x3400_0000, output: 0x3410_0000 };

fn manifest() -> ManifestLocation {
    ManifestLocation { base: NOR_BASE, size: 0x1000, erase_sector: 0x1000 }
}

fn config(len: u32) -> PrepareConfig {
    PrepareConfig {
        io: IO,
        blob_ram: Region::new(RAM, len),
        manifest: manifest(),
        weights_base: SLOT,
        verify_weights_crc: true,
    }
}

fn flash() -> Vec<u8> {
    let mut bytes = vec![0xFFu8; 0x2000];
    for k in 0..0x200 {
        bytes[0x1000 + k] = k as u8;
    }
    let mut entry: Vec<u8> = Vec::new();
    entry.extend_from_slice(b"net\0\0\0\0\0\0\0\0\0\0\0\0\0");
    entry.extend_from_slice(&SLOT.to_le_bytes());
    entry.extend_from_slice(&0x200u32.to_le_bytes());
    entry.extend_from_slice(&crc32(&bytes[0x1000..0x1200]).to_le_bytes());
    entry.extend_from_slice(&0u32.to_le_bytes());
    let mut head: Vec<u8> = Vec::new();
    head.extend_from_slice(b"N6MF");
    head.extend_from_slice(&1u32.to_le_bytes());
    head.extend_from_slice(&1u32.to_le_bytes());
    head.extend_from_slice(&crc32(&entry).to_le_bytes());
    bytes[0..16].copy_from_slice(&head);
    bytes[16..48].copy_from_slice(&entry);
    bytes
}

fn words(data: &[u64]) -> &'static [u64] {
    data.to_vec().leak()
}

fn bare() -> &'static [u64] {
    words(&[0x1234_5678_0000_0000 | MAGIC as u64, 2, 3])
}

fn container(relocs: &[(&'static str, Io)]) -> Op {
    Op::Hw(Epoch { data: words(&[0x55, 1, 2, 3, 4]), relocs: relocs.to_vec().leak() })
}

fn model(ops: Vec<Op>) -> &'static Model {
    Box::leak(Box::new(Model {
        id: "net",
        ops: ops.leak(),
        scores: Scores::UserInt8 { count: 10 },
        input_bytes: 20,
        output_bytes: 10,
    }))
}

fn sw() -> SwOp {
    SwOp::SpaceToDepth {
        in_addr: 0x100,
        in_h: 2,
        in_w: 2,
        in_c: 1,
        out_addr: 0x200,
        bs_h: 2,
        bs_w: 2,
        elem_bytes: 1,
    }
}

fn schedule() -> Vec<Op> {
    vec![
        Op::CacheClean { addr: 1, size: 2 },
        Op::Hw(Epoch { data: bare(), relocs: &[] }),
        container(&[("in", Io::Input), ("out", Io::Output)]),
        Op::Sw(sw()),
        container(&[]),
        Op::CacheInvalidate { addr: 3, size: 4 },
    ]
}

fn prepare<'a>(
    model: &'static Model,
    len: u32,
    store: &'a mut [Prepared],
) -> Result<Preparation<'a>, InitError> {
    let bytes = flash();
    let nor = NorWindow { base: NOR_BASE, bytes: &bytes };
    Program::prepare(model, &config(len), &nor, MAGIC, store)
}

fn load<'a>(start: Result<Preparation<'a>, InitError>, blob: usize) -> Result<Program<'a>, InitError> {
    let mut preparation = start?;
    loop {
        let reply = match preparation.request() {
            Request::Parse { .. } => Reply::Parsed { words: blob },
            Request::Copy { .. } => Reply::Copied,
            Request::Relocate { .. } => Reply::Relocated,
            Request::Publish { .. } => Reply::Published,
            Request::Nothing => return Ok(preparation.finish()),
        };
        preparation = preparation.advance(reply)?;
    }
}

#[test]
fn preparation_asks_for_each_step_in_order() {
    let mut store = [Prepared::EMPTY; 8];
    let p = prepare(model(schedule()), 0x1000, &mut store).unwrap();
    assert_eq!(p.weights().base, SLOT);
    assert_eq!(p.request(), Request::Parse { op: 2 });
    let p = p.advance(Reply::Parsed { words: 3 }).unwrap();
    assert_eq!(p.request(), Request::Copy { op: 2, addr: 0x9060_0040, words: 3 });
    let p = p.advance(Reply::Copied).unwrap();
    assert_eq!(
        p.request(),
        Request::Relocate { op: 2, addr: 0x9060_0040, words: 3, symbol: "in", base: IO.input }
    );
    let p = p.advance(Reply::Relocated).unwrap();
    assert_eq!(
        p.request(),
        Request::Relocate { op: 2, addr: 0x9060_0040, words: 3, symbol: "out", base: IO.output }
    );
    let p = p.advance(Reply::Relocated).unwrap();
    assert_eq!(p.request(), Request::Publish { addr: 0x9060_0040, bytes: 24 });
    let p = p.advance(Reply::Published).unwrap();
    assert_eq!(p.request(), Request::Parse { op: 4 });
    let p = p.advance(Reply::Parsed { words: 1 }).unwrap();
    assert_eq!(p.request(), Request::Copy { op: 4, addr: 0x9060_0080, words: 1 });
    let p = p.advance(Reply::Copied).unwrap();
    assert_eq!(p.request(), Request::Publish { addr: 0x9060_0080, bytes: 8 });
    let p = p.advance(Reply::Published).unwrap();
    assert_eq!(p.request(), Request::Nothing);
    let program = p.finish();
    assert_eq!(
        program.ops(),
        &[
            Prepared::CacheClean { addr: 1, size: 2 },
            Prepared::Hw(HwBlob::Flash(bare())),
            Prepared::Hw(HwBlob::Ram { addr: 0x9060_0040, words: 3 }),
            Prepared::Sw(sw()),
            Prepared::Hw(HwBlob::Ram { addr: 0x9060_0080, words: 1 }),
            Prepared::CacheInvalidate { addr: 3, size: 4 },
        ]
    );
    assert_eq!(program.blob_ram_used(), 0x88 - 0x10);
    assert_eq!(program.io(), IO);
    assert_eq!(program.weights().len, 0x200);
    assert_eq!(program.model().id, "net");
    assert!(program.output_is(IO.output));
    assert!(!program.output_is(IO.input));
}

#[test]
fn schedule_without_containers_is_prepared_at_once() {
    let mut store = [Prepared::EMPTY; 1];
    let p = prepare(model(vec![Op::Sw(sw())]), 0, &mut store).unwrap();
    assert_eq!(p.request(), Request::Nothing);
    assert_eq!(p.finish().blob_ram_used(), 0);
}

#[test]
fn empty_schedule_is_refused() {
    let mut store = [Prepared::EMPTY; 1];
    assert_eq!(prepare(model(vec![]), 0, &mut store).err(), Some(InitError::EmptySchedule));
}

#[test]
fn small_store_is_refused() {
    let mut store = [Prepared::EMPTY; 5];
    assert_eq!(
        prepare(model(schedule()), 0x1000, &mut store).err(),
        Some(InitError::StoreTooSmall { needed: 6, have: 5 })
    );
}

#[test]
fn bad_weights_are_refused() {
    let mut bytes = flash();
    bytes[0x1000] = 9;
    let nor = NorWindow { base: NOR_BASE, bytes: &bytes };
    let mut store = [Prepared::EMPTY; 8];
    let result = Program::prepare(model(schedule()), &config(0x1000), &nor, MAGIC, &mut store);
    assert!(matches!(
        result.err(),
        Some(InitError::Weights(WeightError::ImageCorrupt { .. }))
    ));
}

#[test]
fn empty_blob_is_refused() {
    let mut store = [Prepared::EMPTY; 2];
    let ops = vec![Op::Sw(sw()), Op::Hw(Epoch { data: &[], relocs: &[] })];
    assert_eq!(prepare(model(ops), 0, &mut store).err(), Some(InitError::EmptyBlob { op: 1 }));
}

#[test]
fn bare_blob_with_relocations_is_refused() {
    let mut store = [Prepared::EMPTY; 2];
    let ops = vec![Op::Hw(Epoch { data: bare(), relocs: &[("in", Io::Input)] })];
    assert_eq!(
        prepare(model(ops), 0, &mut store).err(),
        Some(InitError::BareBlobHasRelocs { op: 0 })
    );
}

#[test]
fn loader_failures_end_the_preparation() {
    let one = || model(vec![Op::Sw(sw()), container(&[("in", Io::Input)])]);
    let mut store = [Prepared::EMPTY; 2];
    let p = prepare(one(), 0x1000, &mut store).unwrap();
    assert_eq!(p.advance(Reply::NotAContainer).err(), Some(InitError::BadEcBinary { op: 1 }));
    let p = prepare(one(), 0x1000, &mut store).unwrap();
    assert_eq!(p.advance(Reply::BadBlobSection).err(), Some(InitError::BadBlobSection { op: 1 }));
    let p = prepare(one(), 0x1000, &mut store).unwrap();
    let p = p.advance(Reply::Parsed { words: 2 }).unwrap();
    assert_eq!(p.advance(Reply::CopyFailed).err(), Some(InitError::BlobCopyFailed { op: 1 }));
    let p = prepare(one(), 0x1000, &mut store).unwrap();
    let p = p.advance(Reply::Parsed { words: 2 }).unwrap();
    let p = p.advance(Reply::Copied).unwrap();
    assert_eq!(p.advance(Reply::SymbolMissing).err(), Some(InitError::RelocFailed { op: 1 }));
}

#[test]
fn blobs_must_fit_in_their_region() {
    // 0x30 bytes of alignment and 16 of blob.
    let ops = || model(vec![container(&[])]);
    let mut store = [Prepared::EMPTY; 1];
    assert!(load(prepare(ops(), 0x40, &mut store), 2).is_ok());
    assert_eq!(
        load(prepare(ops(), 0x3F, &mut store), 2).err(),
        Some(InitError::BlobRamExhausted { needed: 0x40, have: 0x3F })
    );
}

#[test]
fn blobs_that_run_past_the_address_space_are_told_apart() {
    let mut store = [Prepared::EMPTY; 1];
    let p = prepare(model(vec![container(&[])]), 0x40, &mut store).unwrap();
    assert!(p.can_place(2));
    assert!(p.can_place(0x0DF3_FFF7));
    assert!(!p.can_place(0x0DF3_FFF8));
}

#[test]
fn relocated_blobs_share_no_cache_line() {
    let mut store = [Prepared::EMPTY; 5];
    let ops = vec![container(&[]), container(&[]), Op::Sw(sw()), container(&[]), container(&[])];
    let program = load(prepare(model(ops), 0x1000, &mut store), 9).unwrap();
    let mut free = RAM;
    for entry in program.ops() {
        if let Prepared::Hw(HwBlob::Ram { addr, words }) = entry {
            assert_eq!(addr % 64, 0);
            assert!(free <= *addr);
            free = (addr + 8 * *words as u32 + 63) / 64 * 64;
        }
    }
    assert_eq!(program.blob_ram_used(), 3 * 128 + 72 + 0x30);
}

struct Net;

impl InferenceModel for Net {
    const BLOB_RAM: Region = Region { base: RAM, len: 0x1000 };
    const WEIGHTS_BASE: u32 = SLOT;
    const MAX_OPS: usize = 8;

    fn descriptor() -> &'static Model {
        model(schedule())
    }
}

#[test]
fn model_with_its_own_placement_is_prepared_alike() {
    let bytes = flash();
    let nor = NorWindow { base: NOR_BASE, bytes: &bytes };
    let mut store = [Prepared::EMPTY; Net::MAX_OPS];
    let mut other = [Prepared::EMPTY; Net::MAX_OPS];
    let a = load(
        Program::prepare_model::<Net>(IO, manifest(), true, &nor, MAGIC, &mut store),
        3,
    )
    .unwrap();
    let b = load(prepare(model(schedule()), 0x1000, &mut other), 3).unwrap();
    assert_eq!(a.ops(), b.ops());
    assert_eq!(a.io(), b.io());
    assert_eq!(a.weights(), b.weights());
    assert_eq!(a.blob_ram_used(), b.blob_ram_used());
}

fn outcome_of(
    cfg: &DeviceConfig,
    ops: Vec<Op>,
    epoch: EpochOutcome,
) -> (Vec<Command>, Result<Stats, InferError>) {
    let mut store = [Prepared::EMPTY; 8];
    let mut program = load(prepare(model(ops), 0x1000, &mut store), 3).unwrap();
    assert!(program.is_dispatchable());
    let mut device = NpuDevice::new(cfg);
    let mut dispatch = device.run(&mut program, IO.input, 20, 10).unwrap();
    let mut commands = Vec::new();
    let mut readings = 0;
    loop {
        let command = dispatch.command();
        commands.push(command);
        let event = match command {
            Command::Clean { .. } | Command::Invalidate { .. } | Command::Skip => Event::Done,
            Command::ReadCounters => {
                readings += 1;
                if readings == 1 {
                    Event::Counters { hits: 0xFFFF_FFF0, misses: 5 }
                } else {
                    Event::Counters { hits: 0x10, misses: 12 }
                }
            }
            Command::RunEpoch { .. } => Event::Epoch { us: 0x1_0000_0064, outcome: epoch },
            Command::RunSw { .. } => Event::Sw { us: 7 },
            Command::Finished { stats } => return (commands, Ok(stats)),
        };
        dispatch = match dispatch.step(event) {
            Ok(next) => next,
            Err(fault) => return (commands, Err(fault)),
        };
    }
}

#[test]
fn dispatch_runs_the_schedule_in_order() {
    let (commands, result) =
        outcome_of(&DeviceConfig::default(), schedule(), EpochOutcome::Completed);
    let transfer = npu_runtime::sw::plan(&sw()).unwrap();
    assert_eq!(
        commands[..commands.len() - 1].to_vec(),
        vec![
            Command::Clean { addr: IO.input, size: 20 },
            Command::Invalidate { addr: IO.output, size: 10 },
            Command::ReadCounters,
            Command::Clean { addr: 1, size: 2 },
            Command::RunEpoch { op: 1, blob: HwBlob::Flash(bare()), timeout: 4_000_000 },
            Command::RunEpoch { op: 2, blob: HwBlob::Ram { addr: 0x9060_0040, words: 3 }, timeout: 4_000_000 },
            Command::RunSw { op: 3, sw: sw(), transfer },
            Command::RunEpoch { op: 4, blob: HwBlob::Ram { addr: 0x9060_0080, words: 3 }, timeout: 4_000_000 },
            Command::Invalidate { addr: 3, size: 4 },
            Command::Invalidate { addr: IO.output, size: 10 },
            Command::ReadCounters,
        ]
    );
    assert_eq!(
        result,
        Ok(Stats {
            hw_us: 300,
            sw_us: 7,
            hw_ops: 3,
            sw_ops: 1,
            cache_read_hits: 0x20,
            cache_read_misses: 7,
        })
    );
    assert_eq!(result.unwrap().hw_ops as usize, model(schedule()).hw_epochs());
    assert_eq!(result.unwrap().total_us(), 307);
    let operators = schedule().iter().filter(|op| matches!(op, Op::Sw(_))).count();
    assert_eq!(result.unwrap().sw_ops as usize, operators);
}

#[test]
fn dispatch_without_counters_leaves_them_alone() {
    let cfg = DeviceConfig { epoch_timeout: 1, cache_counters: false };
    let (commands, result) = outcome_of(&cfg, schedule(), EpochOutcome::Completed);
    assert!(!commands.contains(&Command::ReadCounters));
    let stats = result.unwrap();
    assert_eq!((stats.cache_read_hits, stats.cache_read_misses), (0, 0));
}

#[test]
fn failed_and_late_epochs_end_the_dispatch() {
    let cfg = DeviceConfig::default();
    let (_, result) = outcome_of(&cfg, schedule(), EpochOutcome::Failed);
    assert_eq!(result, Err(InferError::EpochFailed { op: 1 }));
    let (_, result) = outcome_of(&cfg, schedule(), EpochOutcome::TimedOut);
    assert_eq!(result, Err(InferError::EpochTimeout { op: 1 }));
}

#[test]
fn refused_operator_ends_the_dispatch() {
    let odd = SwOp::DepthToSpace {
        in_addr: 0,
        in_h: 1,
        in_w: 1,
        in_c: 3,
        out_addr: 0,
        bs_h: 2,
        bs_w: 1,
        elem_bytes: 1,
    };
    let ops = vec![Op::CacheClean { addr: 0, size: 0 }, Op::Sw(odd)];
    let (_, result) = outcome_of(&DeviceConfig::default(), ops, EpochOutcome::Completed);
    assert_eq!(result, Err(InferError::Sw { op: 1, cause: SwError::D2sNotDivisible }));
}

#[test]
fn wrong_buffers_are_refused() {
    let mut store = [Prepared::EMPTY; 1];
    let mut program = load(prepare(model(vec![Op::Sw(sw())]), 0, &mut store), 0).unwrap();
    let mut device = NpuDevice::new(&DeviceConfig::default());
    assert_eq!(
        device.run(&mut program, 1, 19, 9).err(),
        Some(InferError::InputLen { got: 19, want: 20 })
    );
    assert_eq!(
        device.run(&mut program, 1, 20, 9).err(),
        Some(InferError::InputMoved { got: 1, bound: IO.input })
    );
    assert_eq!(
        device.run(&mut program, IO.input, 20, 9).err(),
        Some(InferError::OutputLen { got: 9, want: 10 })
    );
    assert!(device.run(&mut program, IO.input, 20, 10).is_ok());
}

#[test]
fn schedule_with_an_impossible_block_is_not_dispatchable() {
    let odd = SwOp::SpaceToDepth {
        in_addr: 0,
        in_h: 1,
        in_w: 1,
        in_c: 1,
        out_addr: 0,
        bs_h: 0,
        bs_w: 1,
        elem_bytes: 1,
    };
    let mut store = [Prepared::EMPTY; 1];
    let program = load(prepare(model(vec![Op::Sw(odd)]), 0, &mut store), 0).unwrap();
    assert!(!program.is_dispatchable());
}

#[test]
fn default_device_waits_four_seconds() {
    let cfg = DeviceConfig::default();
    assert_eq!(cfg.epoch_timeout, 4_000_000);
    assert!(cfg.cache_counters);
    assert_eq!(NpuDevice::new(&cfg).config(), &cfg);
}

#[test]
fn total_time_wraps() {
    let mut stats = Stats::default();
    assert_eq!(stats.total_us(), 0);
    stats.hw_us = 0xFFFF_FFFF;
    stats.sw_us = 3;
    assert_eq!(stats.total_us(), 2);
}

#[test]
fn scores_and_regions_measure_themselves() {
    assert_eq!(Scores::RawInt8 { addr: 4, count: 9 }.count(), 9);
    assert_eq!(Scores::UserInt8 { count: 8 }.count(), 8);
    assert_eq!(Region::new(0x100, 0x20).end(), 0x120);
    assert_eq!(IO.address_of(Io::Output), IO.output);
}

#[test]
fn blob_is_read_as_little_endian_words() {
    let blob = Blob([1, 0, 0, 0, 0, 0, 0, 0x80, 0xEF, 0xCD, 0xAB, 0x89, 0x67, 0x45, 0x23, 0x01]);
    assert_eq!(blob_words(&blob), vec![0x8000_0000_0000_0001, 0x0123_4567_89AB_CDEF]);
    assert_eq!(blob_words(&Blob([])), Vec::<u64>::new());
    assert_eq!(read_le32(&[9, 1, 2, 3, 4], 1), 0x0403_0201);
    assert_eq!(read_le64(&[1, 2, 3, 4, 5, 6, 7, 8], 0), 0x0807_0605_0403_0201);
}

#[test]
fn unusable_store_is_refused_before_flash_is_read() {
    let nor = NorWindow { base: NOR_BASE, bytes: &[] };
    let mut store = [Prepared::EMPTY; 1];
    assert_eq!(
        Program::prepare(model(vec![]), &config(0), &nor, MAGIC, &mut store).err(),
        Some(InitError::EmptySchedule)
    );
    assert_eq!(
        Program::prepare(model(schedule()), &config(0), &nor, MAGIC, &mut store).err(),
        Some(InitError::StoreTooSmall { needed: 6, have: 1 })
    );
    assert_eq!(store, [Prepared::EMPTY; 1]);
}

#[test]
fn refused_schedule_leaves_the_rest_of_the_store_alone() {
    let mark = Prepared::CacheClean { addr: 7, size: 7 };
    let fence = Op::CacheInvalidate { addr: 3, size: 4 };
    let written = Prepared::CacheInvalidate { addr: 3, size: 4 };

    let mut store = [mark; 4];
    let empty = Op::Hw(Epoch { data: &[], relocs: &[] });
    let refused = prepare(model(vec![fence, empty, fence]), 0x1000, &mut store);
    assert_eq!(refused.err(), Some(InitError::EmptyBlob { op: 1 }));
    assert_eq!(store, [written, mark, mark, mark]);

    let mut store = [mark; 4];
    let p = prepare(model(vec![fence, container(&[]), fence]), 0x1000, &mut store).unwrap();
    assert_eq!(p.advance(Reply::NotAContainer).err(), Some(InitError::BadEcBinary { op: 1 }));
    assert_eq!(store, [written, mark, mark, mark]);

    let mut store = [mark; 4];
    let bad = Op::Hw(Epoch { data: bare(), relocs: &[("in", Io::Input)] });
    let refused = load(prepare(model(vec![container(&[]), bad]), 0x1000, &mut store), 1);
    assert_eq!(refused.err(), Some(InitError::BareBlobHasRelocs { op: 1 }));
    let blob = Prepared::Hw(HwBlob::Ram { addr: 0x9060_0040, words: 1 });
    assert_eq!(store, [blob, mark, mark, mark]);
}

#[test]
fn store_past_the_schedule_is_left_alone() {
    let mark = Prepared::CacheClean { addr: 7, size: 7 };
    let mut store = [mark; 8];
    let ops = load(prepare(model(schedule()), 0x1000, &mut store), 3).unwrap().ops().to_vec();
    assert_eq!(store[..6].to_vec(), ops);
    assert_eq!(store[6..].to_vec(), vec![mark, mark]);
}

#[test]
fn blob_ram_is_filled_line_by_line() {
    let mut store = [Prepared::EMPTY; 4];
    let ops = vec![container(&[]), Op::Sw(sw()), container(&[]), Op::Sw(sw())];
    let program = load(prepare(model(ops), 0x1000, &mut store), 9).unwrap();
    assert_eq!(program.ops()[0], Prepared::Hw(HwBlob::Ram { addr: 0x9060_0040, words: 9 }));
    assert_eq!(program.ops()[2], Prepared::Hw(HwBlob::Ram { addr: 0x9060_00C0, words: 9 }));
    assert_eq!(program.blob_ram_used(), 0x9060_00C0 + 72 - RAM);
}

#[test]
fn blob_ram_is_looked_at_only_for_containers() {
    let bytes = flash();
    let nor = NorWindow { base: NOR_BASE, bytes: &bytes };
    let mut cfg = config(0);
    cfg.blob_ram = Region::new(0xFFFF_FFF0, 0x100);
    let mut store = [Prepared::EMPTY; 1];
    let p = Program::prepare(model(vec![Op::Sw(sw())]), &cfg, &nor, MAGIC, &mut store).unwrap();
    assert_eq!(p.finish().blob_ram_used(), 0);
    let p = Program::prepare(model(vec![container(&[])]), &cfg, &nor, MAGIC, &mut store).unwrap();
    assert!(!p.can_place(1));
}

#[test]
fn preparable_models_are_told_apart() {
    let bytes = flash();
    let nor = NorWindow { base: NOR_BASE, bytes: &bytes };
    assert!(Program::is_preparable(model(schedule()), &config(0), &nor));
    let nor = NorWindow { base: NOR_BASE, bytes: &bytes[..0x1100] };
    assert!(!Program::is_preparable(model(schedule()), &config(0), &nor));
}

#[test]
fn refusals_are_known_before_a_dispatch() {
    let mut store = [Prepared::EMPTY; 1];
    let program = load(prepare(model(vec![Op::Sw(sw())]), 0, &mut store), 0).unwrap();
    assert_eq!(
        program.refusal(IO.input, 19, 10),
        Some(InferError::InputLen { got: 19, want: 20 })
    );
    assert_eq!(program.refusal(IO.input, 20, 10), None);
}

#[test]
fn early_refusal_by_placement_leaves_the_store_alone() {
    let mut bytes = flash();
    bytes[0x1000] = 9;
    let nor = NorWindow { base: NOR_BASE, bytes: &bytes };
    let mark = Prepared::CacheClean { addr: 7, size: 7 };
    let mut store = [mark; 8];
    let refused = Program::prepare_model::<Net>(IO, manifest(), true, &nor, MAGIC, &mut store);
    assert!(matches!(
        refused.err(),
        Some(InitError::Weights(WeightError::ImageCorrupt { .. }))
    ));
    assert_eq!(store, [mark; 8]);
}
