//! A model prepared for dispatch.
//!
//! Preparation is the expensive, once-per-model half of running a network:
//! parse each blob container, copy its blob into RAM, patch the relocations
//! that name the caller's IO buffers, and publish the result to the
//! accelerator's view of memory. Dispatch is then a walk over the result.
//!
//! Parsing, copying and patching a container is the container loader's work.
//! [`Program::prepare`] decides everything around it: it returns a
//! [`Preparation`], which says what the loader has to do next, takes the
//! loader's reply, and ends as a [`Program`].
//!
//! # The store
//!
//! The prepared schedule goes into a slice that the caller provides. That
//! keeps the schedule's capacity out of the type, so that there is one
//! `Program` and one dispatcher however many networks there are.
//!
//! # Blob RAM
//!
//! Relocated blobs must live somewhere writable and coherent with the
//! accelerator. Each program has its own region, because the blobs are
//! patched with that program's IO addresses.

use vstd::prelude::*;

use crate::error::InitError;
use crate::ir::{IoBinding, Model, Op, Region, SwOp};
use crate::model::InferenceModel;
use crate::nor::NorWindow;
use crate::weights::{is_mapped, verify, ManifestLocation, WeightInfo};

verus! {

/// Bytes of a cache line, to which every relocated blob is aligned.
pub const CACHE_LINE: u32 = 64;

/// Where the blob of a hardware epoch is dispatched from.
#[derive(Clone, Copy, Debug, PartialEq, Eq)]
pub enum HwBlob {
    /// A bare blob, still in flash.
    Flash(&'static [u64]),
    /// A relocated blob of `words` words in blob RAM.
    Ram { addr: u32, words: usize },
}

/// One entry of a prepared schedule.
///
/// `Empty` exists so that the caller can allocate the backing store with a
/// constant; a [`Program`] never holds it.
#[derive(Clone, Copy, Debug, PartialEq, Eq)]
pub enum Prepared {
    Empty,
    Hw(HwBlob),
    Sw(SwOp),
    CacheClean { addr: u32, size: u32 },
    CacheInvalidate { addr: u32, size: u32 },
}

impl Prepared {
    /// Initialiser for the backing store: `[Prepared::EMPTY; N]`.
    pub const EMPTY: Prepared = Prepared::Empty;
}

/// Everything preparation needs beyond the model itself.
#[derive(Clone, Copy, Debug, PartialEq, Eq)]
pub struct PrepareConfig {
    /// Addresses of the caller-owned input and output tensors. Baked into the
    /// blobs by relocation, so they are fixed for the life of the program.
    pub io: IoBinding,
    /// Writable region for the relocated blobs. Must not overlap another
    /// program's.
    pub blob_ram: Region,
    /// Where the weight manifest lives.
    pub manifest: ManifestLocation,
    /// The weight-slot address this build was compiled against.
    pub weights_base: u32,
    /// CRC the entire weight image instead of only scanning for erasure.
    pub verify_weights_crc: bool,
}

/// What the container loader has to do next.
#[derive(Clone, Copy, Debug, PartialEq, Eq)]
pub enum Request {
    /// Parse the container of op `op` and find the length of its blob.
    Parse { op: usize },
    /// Copy the blob of op `op` to the `words` words at `addr`.
    Copy { op: usize, addr: u32, words: usize },
    /// Patch the copy of op `op` at `addr`: bind `symbol` to `base`.
    Relocate { op: usize, addr: u32, words: usize, symbol: &'static str, base: u32 },
    /// Publish the patched blob to the accelerator's view of memory.
    Publish { addr: u32, bytes: u32 },
    /// Nothing: the schedule is prepared.
    Nothing,
}

/// What came of a request to the container loader.
#[derive(Clone, Copy, Debug, PartialEq, Eq)]
pub enum Reply {
    /// The container parsed, and its blob is `words` words long.
    Parsed { words: usize },
    /// The data is no container.
    NotAContainer,
    /// The container's blob section is malformed.
    BadBlobSection,
    /// The blob was copied.
    Copied,
    /// The blob could not be copied.
    CopyFailed,
    /// The relocation was applied.
    Relocated,
    /// The container has no such symbol.
    SymbolMissing,
    /// The blob was published.
    Published,
}

/// How far the op at hand has come.
#[derive(Clone, Copy, Debug, PartialEq, Eq)]
pub enum Stage {
    /// Its container is to be parsed.
    Parse,
    /// Its blob has a place and is to be copied there.
    Copy { addr: u32, words: usize },
    /// Its copy is to be patched with relocation `reloc`.
    Relocate { addr: u32, words: usize, reloc: usize },
    /// Its copy is to be published.
    Publish { addr: u32, words: usize },
    /// There is no op left.
    Done,
}

/// What stays fixed during a preparation.
pub ghost struct Job {
    pub model: Model,
    pub io: IoBinding,
    pub blob_ram: Region,
    pub blob_magic: u32,
    pub weights: WeightInfo,
}

/// How far a preparation has come: the entries prepared so far, the first
/// free byte of blob RAM, and the stage of the op at hand.
#[verifier::ext_equal]
pub ghost struct Progress {
    pub entries: Seq<Prepared>,
    pub next_blob: int,
    pub stage: Stage,
}

/// The low half of a word.
pub open spec fn low_half(word: u64) -> u32 {
    (word % 0x1_0000_0000) as u32
}

/// The first address at or after `addr` that starts a cache line.
pub open spec fn line_up(addr: int) -> int {
    (addr + (CACHE_LINE - 1)) / (CACHE_LINE as int) * CACHE_LINE
}

/// Whether an epoch's data is a bare blob.
pub open spec fn is_bare(data: Seq<u64>, blob_magic: u32) -> bool {
    data.len() > 0 && low_half(data[0]) == blob_magic
}

/// What preparation comes to without the loader, from op `entries.len()` on:
/// the next op whose container has to be loaded, the end of the schedule, or
/// a fault of the schedule.
pub open spec fn settled(job: Job, entries: Seq<Prepared>, next_blob: int) -> Result<
    Progress,
    InitError,
>
    decreases job.model.ops@.len() - entries.len(),
{
    let op = entries.len() as usize;
    if entries.len() >= job.model.ops@.len() {
        Ok(Progress { entries, next_blob, stage: Stage::Done })
    } else {
        match job.model.ops@[entries.len() as int] {
            Op::Sw(sw) => settled(job, entries.push(Prepared::Sw(sw)), next_blob),
            Op::CacheClean { addr, size } => settled(
                job,
                entries.push(Prepared::CacheClean { addr, size }),
                next_blob,
            ),
            Op::CacheInvalidate { addr, size } => settled(
                job,
                entries.push(Prepared::CacheInvalidate { addr, size }),
                next_blob,
            ),
            Op::Hw(epoch) => if epoch.data@.len() == 0 {
                Err(InitError::EmptyBlob { op })
            } else if !is_bare(epoch.data@, job.blob_magic) {
                Ok(Progress { entries, next_blob, stage: Stage::Parse })
            } else if epoch.relocs@.len() > 0 {
                Err(InitError::BareBlobHasRelocs { op })
            } else {
                settled(job, entries.push(Prepared::Hw(HwBlob::Flash(epoch.data))), next_blob)
            },
        }
    }
}

/// The entries prepared when settling, from op `entries.len()` on, comes to
/// its end: those before the next op whose container has to be loaded, before
/// the op at fault, or all of them.
pub open spec fn reached(job: Job, entries: Seq<Prepared>) -> Seq<Prepared>
    decreases job.model.ops@.len() - entries.len(),
{
    if entries.len() >= job.model.ops@.len() {
        entries
    } else {
        match job.model.ops@[entries.len() as int] {
            Op::Sw(sw) => reached(job, entries.push(Prepared::Sw(sw))),
            Op::CacheClean { addr, size } => reached(
                job,
                entries.push(Prepared::CacheClean { addr, size }),
            ),
            Op::CacheInvalidate { addr, size } => reached(
                job,
                entries.push(Prepared::CacheInvalidate { addr, size }),
            ),
            Op::Hw(epoch) => if is_bare(epoch.data@, job.blob_magic) && epoch.relocs@.len() == 0 {
                reached(job, entries.push(Prepared::Hw(HwBlob::Flash(epoch.data))))
            } else {
                entries
            },
        }
    }
}

/// A store that held `before`, once `entries` have been written to its front.
pub open spec fn written_over(before: Seq<Prepared>, entries: Seq<Prepared>) -> Seq<Prepared> {
    entries + before.skip(entries.len() as int)
}

/// The relocations of the op at hand.
pub open spec fn pending_relocs(job: Job, entries: Seq<Prepared>) -> Seq<(
    &'static str,
    crate::ir::Io,
)> {
    job.model.ops@[entries.len() as int]->Hw_0.relocs@
}

/// The stage after `reloc` relocations of a blob have been applied.
pub open spec fn relocating(
    job: Job,
    entries: Seq<Prepared>,
    addr: u32,
    words: usize,
    reloc: int,
) -> Stage {
    if reloc < pending_relocs(job, entries).len() {
        Stage::Relocate { addr, words, reloc: reloc as usize }
    } else {
        Stage::Publish { addr, words }
    }
}

/// Whether `reply` is a reply to the request of `stage`.
pub open spec fn answers(stage: Stage, reply: Reply) -> bool {
    match stage {
        Stage::Parse => reply is Parsed || reply is NotAContainer || reply is BadBlobSection,
        Stage::Copy { .. } => reply is Copied || reply is CopyFailed,
        Stage::Relocate { .. } => reply is Relocated || reply is SymbolMissing,
        Stage::Publish { .. } => reply is Published,
        Stage::Done => false,
    }
}

/// Whether `blob_ram` lies in the 32-bit address space, and a blob of `words`
/// words, placed at the first free cache line after `next_blob`, would end
/// inside that space.
pub open spec fn placeable(blob_ram: Region, next_blob: int, words: int) -> bool {
    &&& blob_ram.base + blob_ram.len <= u32::MAX
    &&& next_blob + (CACHE_LINE - 1) <= u32::MAX
    &&& line_up(next_blob) + 8 * words <= u32::MAX
}

/// What preparation comes to after a reply.
pub open spec fn advanced(job: Job, progress: Progress, reply: Reply) -> Result<
    Progress,
    InitError,
> {
    let op = progress.entries.len() as usize;
    let base = job.blob_ram.base;
    match (progress.stage, reply) {
        (Stage::Parse, Reply::NotAContainer) => Err(InitError::BadEcBinary { op }),
        (Stage::Parse, Reply::BadBlobSection) => Err(InitError::BadBlobSection { op }),
        (Stage::Parse, Reply::Parsed { words }) => {
            let addr = line_up(progress.next_blob);
            let end = addr + 8 * words;
            if end > base + job.blob_ram.len {
                Err(
                    InitError::BlobRamExhausted {
                        needed: (end - base) as u32,
                        have: job.blob_ram.len,
                    },
                )
            } else {
                Ok(Progress { stage: Stage::Copy { addr: addr as u32, words }, ..progress })
            }
        },
        (Stage::Copy { .. }, Reply::CopyFailed) => Err(InitError::BlobCopyFailed { op }),
        (Stage::Copy { addr, words }, Reply::Copied) => Ok(
            Progress { stage: relocating(job, progress.entries, addr, words, 0), ..progress },
        ),
        (Stage::Relocate { .. }, Reply::SymbolMissing) => Err(InitError::RelocFailed { op }),
        (Stage::Relocate { addr, words, reloc }, Reply::Relocated) => Ok(
            Progress {
                stage: relocating(job, progress.entries, addr, words, reloc + 1),
                ..progress
            },
        ),
        (Stage::Publish { addr, words }, Reply::Published) => settled(
            job,
            progress.entries.push(Prepared::Hw(HwBlob::Ram { addr, words })),
            addr + 8 * words,
        ),
        _ => Ok(progress),
    }
}

/// The entries prepared after a reply, whether it ends the preparation or not.
pub open spec fn reached_after(job: Job, progress: Progress, reply: Reply) -> Seq<Prepared> {
    match (progress.stage, reply) {
        (Stage::Publish { addr, words }, Reply::Published) => reached(
            job,
            progress.entries.push(Prepared::Hw(HwBlob::Ram { addr, words })),
        ),
        _ => progress.entries,
    }
}

/// The request of a preparation.
pub open spec fn requested(job: Job, progress: Progress) -> Request {
    let op = progress.entries.len() as usize;
    match progress.stage {
        Stage::Parse => Request::Parse { op },
        Stage::Copy { addr, words } => Request::Copy { op, addr, words },
        Stage::Relocate { addr, words, reloc } => {
            let (symbol, io) = pending_relocs(job, progress.entries)[reloc as int];
            Request::Relocate { op, addr, words, symbol, base: job.io.address(io) }
        },
        Stage::Publish { addr, words } => Request::Publish { addr, bytes: (8 * words) as u32 },
        Stage::Done => Request::Nothing,
    }
}

/// Whether `entry` is what preparation makes of `op`.
pub open spec fn mirrors(op: Op, entry: Prepared, blob_magic: u32) -> bool {
    match op {
        Op::Sw(sw) => entry == Prepared::Sw(sw),
        Op::CacheClean { addr, size } => entry == (Prepared::CacheClean { addr, size }),
        Op::CacheInvalidate { addr, size } => entry == (Prepared::CacheInvalidate { addr, size }),
        Op::Hw(epoch) => if is_bare(epoch.data@, blob_magic) {
            epoch.relocs@.len() == 0 && entry == Prepared::Hw(HwBlob::Flash(epoch.data))
        } else {
            epoch.data@.len() > 0 && entry matches Prepared::Hw(HwBlob::Ram { .. })
        },
    }
}

/// The address at which a relocated blob starts.
pub open spec fn blob_start(entry: Prepared) -> int {
    entry->Hw_0->addr as int
}

/// The address past the end of a relocated blob.
pub open spec fn blob_end(entry: Prepared) -> int {
    entry->Hw_0->addr + 8 * entry->Hw_0->words
}

/// Whether an entry is a relocated blob.
pub open spec fn is_relocated(entry: Prepared) -> bool {
    entry matches Prepared::Hw(HwBlob::Ram { .. })
}

/// The address past the end of the last relocated blob among `entries`, or
/// `base` if there is none.
pub open spec fn blob_top(entries: Seq<Prepared>, base: int) -> int
    decreases entries.len(),
{
    if entries.len() == 0 {
        base
    } else if is_relocated(entries.last()) {
        blob_end(entries.last())
    } else {
        blob_top(entries.drop_last(), base)
    }
}

/// Whether every entry mirrors its op, and the relocated blobs fill `blob_ram`
/// from its base up to `next_blob`, in schedule order: each starts on the
/// first cache line after the blob before it, so that no two of them touch the
/// same line.
pub open spec fn sound(
    ops: Seq<Op>,
    entries: Seq<Prepared>,
    blob_magic: u32,
    blob_ram: Region,
    next_blob: int,
) -> bool {
    &&& entries.len() <= ops.len()
    &&& next_blob == blob_top(entries, blob_ram.base as int)
    &&& blob_ram.base <= next_blob <= blob_ram.base + blob_ram.len
    &&& forall|i: int|
        0 <= i < entries.len() ==> mirrors(ops[i], #[trigger] entries[i], blob_magic)
    &&& forall|i: int|
        0 <= i < entries.len() && is_relocated(#[trigger] entries[i]) ==> {
            &&& blob_start(entries[i]) == line_up(blob_top(entries.take(i), blob_ram.base as int))
            &&& blob_start(entries[i]) % (CACHE_LINE as int) == 0
            &&& blob_ram.base <= blob_start(entries[i])
            &&& blob_end(entries[i]) <= next_blob
        }
    &&& forall|i: int, j: int|
        0 <= i < j < entries.len() && is_relocated(#[trigger] entries[i]) && is_relocated(
            #[trigger] entries[j],
        ) ==> line_up(blob_end(entries[i])) <= blob_start(entries[j])
}

/// Whether the stage fits the op at hand.
pub open spec fn staged(job: Job, progress: Progress) -> bool {
    let ops = job.model.ops@;
    let i = progress.entries.len();
    if progress.stage is Done {
        i == ops.len()
    } else {
        &&& i < ops.len()
        &&& ops[i as int] matches Op::Hw(epoch) && epoch.data@.len() > 0 && !is_bare(
            epoch.data@,
            job.blob_magic,
        )
        &&& match progress.stage {
            Stage::Copy { addr, words } => placed(job, progress, addr, words),
            Stage::Publish { addr, words } => placed(job, progress, addr, words),
            Stage::Relocate { addr, words, reloc } => {
                &&& placed(job, progress, addr, words)
                &&& reloc < pending_relocs(job, progress.entries).len()
            },
            _ => true,
        }
    }
}

/// Whether the blob at hand has the place that the next blob gets.
pub open spec fn placed(job: Job, progress: Progress, addr: u32, words: usize) -> bool {
    &&& addr == line_up(progress.next_blob)
    &&& addr + 8 * words <= job.blob_ram.base + job.blob_ram.len <= u32::MAX
}

/// What holds of a preparation at every step.
pub open spec fn consistent(job: Job, progress: Progress) -> bool {
    &&& progress.next_blob <= u32::MAX
    &&& job.model.ops@.len() <= usize::MAX
    &&& sound(
        job.model.ops@,
        progress.entries,
        job.blob_magic,
        job.blob_ram,
        progress.next_blob,
    )
    &&& staged(job, progress)
}

/// Settling keeps a preparation consistent.
pub proof fn law_settling_keeps_consistency(job: Job, entries: Seq<Prepared>, next_blob: int)
    requires
        next_blob <= u32::MAX,
        job.model.ops@.len() <= usize::MAX,
        sound(job.model.ops@, entries, job.blob_magic, job.blob_ram, next_blob),
    ensures
        settled(job, entries, next_blob) matches Ok(progress) ==> consistent(job, progress),
    decreases job.model.ops@.len() - entries.len(),
{
    let ops = job.model.ops@;
    let i = entries.len() as int;
    if entries.len() < ops.len() {
        match ops[i] {
            Op::Sw(sw) => {
                lemma_push_keeps_sound(job, entries, next_blob, Prepared::Sw(sw));
                law_settling_keeps_consistency(job, entries.push(Prepared::Sw(sw)), next_blob);
            },
            Op::CacheClean { addr, size } => {
                let entry = Prepared::CacheClean { addr, size };
                lemma_push_keeps_sound(job, entries, next_blob, entry);
                law_settling_keeps_consistency(job, entries.push(entry), next_blob);
            },
            Op::CacheInvalidate { addr, size } => {
                let entry = Prepared::CacheInvalidate { addr, size };
                lemma_push_keeps_sound(job, entries, next_blob, entry);
                law_settling_keeps_consistency(job, entries.push(entry), next_blob);
            },
            Op::Hw(epoch) => {
                if is_bare(epoch.data@, job.blob_magic) && epoch.relocs@.len() == 0 {
                    let entry = Prepared::Hw(HwBlob::Flash(epoch.data));
                    lemma_push_keeps_sound(job, entries, next_blob, entry);
                    law_settling_keeps_consistency(job, entries.push(entry), next_blob);
                }
            },
        }
    }
}

proof fn lemma_push_keeps_sound(
    job: Job,
    entries: Seq<Prepared>,
    next_blob: int,
    entry: Prepared,
)
    requires
        sound(job.model.ops@, entries, job.blob_magic, job.blob_ram, next_blob),
        entries.len() < job.model.ops@.len(),
        mirrors(job.model.ops@[entries.len() as int], entry, job.blob_magic),
        !is_relocated(entry),
    ensures
        sound(job.model.ops@, entries.push(entry), job.blob_magic, job.blob_ram, next_blob),
{
    let all = entries.push(entry);
    assert(all.drop_last() =~= entries);
    assert forall|i: int| 0 <= i < all.len() && is_relocated(#[trigger] all[i]) implies {
        &&& blob_start(all[i]) == line_up(blob_top(all.take(i), job.blob_ram.base as int))
        &&& blob_start(all[i]) % (CACHE_LINE as int) == 0
        &&& job.blob_ram.base <= blob_start(all[i])
        &&& blob_end(all[i]) <= next_blob
    } by {
        assert(all[i] == entries[i]);
        assert(all.take(i) =~= entries.take(i));
    }
}

proof fn lemma_publish_keeps_sound(job: Job, progress: Progress, addr: u32, words: usize)
    requires
        consistent(job, progress),
        progress.stage == (Stage::Publish { addr, words }),
    ensures
        sound(
            job.model.ops@,
            progress.entries.push(Prepared::Hw(HwBlob::Ram { addr, words })),
            job.blob_magic,
            job.blob_ram,
            addr + 8 * words,
        ),
{
    let entry = Prepared::Hw(HwBlob::Ram { addr, words });
    let entries = progress.entries.push(entry);
    let next = addr + 8 * words;
    lemma_line_up(progress.next_blob);
    assert forall|i: int|
        0 <= i < entries.len() && is_relocated(#[trigger] entries[i]) implies {
        &&& blob_start(entries[i]) == line_up(
            blob_top(entries.take(i), job.blob_ram.base as int),
        )
        &&& blob_start(entries[i]) % (CACHE_LINE as int) == 0
        &&& job.blob_ram.base <= blob_start(entries[i])
        &&& blob_end(entries[i]) <= next
    } by {
        assert(entries.take(i) =~= progress.entries.take(i));
        if i < progress.entries.len() {
            assert(entries[i] == progress.entries[i]);
        } else {
            assert(progress.entries.take(i) =~= progress.entries);
        }
    }
    assert forall|i: int, j: int|
        0 <= i < j < entries.len() && is_relocated(#[trigger] entries[i]) && is_relocated(
            #[trigger] entries[j],
        ) implies line_up(blob_end(entries[i])) <= blob_start(entries[j]) by {
        assert(entries[i] == progress.entries[i]);
        if j < progress.entries.len() {
            assert(entries[j] == progress.entries[j]);
        }
    }
    assert(entries.drop_last() =~= progress.entries);
}

/// Every reply to the pending request keeps a preparation consistent, or ends
/// it with an error.
pub proof fn law_replies_keep_consistency(job: Job, progress: Progress, reply: Reply)
    requires
        consistent(job, progress),
        answers(progress.stage, reply),
        reply matches Reply::Parsed { words } ==> placeable(job.blob_ram, progress.next_blob, words as int),
    ensures
        advanced(job, progress, reply) matches Ok(next) ==> consistent(job, next),
{
    match (progress.stage, reply) {
        (Stage::Publish { addr, words }, Reply::Published) => {
            let entry = Prepared::Hw(HwBlob::Ram { addr, words });
            lemma_publish_keeps_sound(job, progress, addr, words);
            law_settling_keeps_consistency(
                job,
                progress.entries.push(entry),
                addr + 8 * words,
            );
        },
        (Stage::Parse, Reply::Parsed { words }) => {
            lemma_line_up(progress.next_blob);
        },
        _ => {},
    }
}

/// Lining up moves an address up by less than a cache line, to a multiple of
/// the line size.
proof fn lemma_line_up(addr: int)
    ensures
        addr <= line_up(addr) < addr + CACHE_LINE,
        line_up(addr) % (CACHE_LINE as int) == 0,
{
}

/// The inner state of a preparation.
pub struct Pending {
    model: &'static Model,
    io: IoBinding,
    blob_ram: Region,
    blob_magic: u32,
    weights: WeightInfo,
    index: usize,
    next_blob: u32,
    stage: Stage,
}

/// A preparation under way.
///
/// The store is there to be looked at. What a preparation has written to it is
/// part of its state, so it must not be written to from outside.
pub struct Preparation<'a> {
    pub store: &'a mut [Prepared],
    pub pending: Pending,
}

/// What a preparation needs of its surroundings: the weight manifest and the
/// image it describes are mapped.
pub open spec fn preparable(model: Model, cfg: PrepareConfig, nor: NorWindow) -> bool {
    &&& crate::weights::manifest_mapped(nor, cfg.manifest)
    &&& crate::weights::image_mapped(
        nor,
        cfg.manifest,
        vstd::utf8::encode_utf8(model.id@),
        cfg.weights_base,
    )
}

/// Whether `model` has a schedule, and a store of `room` entries has room for
/// it.
pub open spec fn fits(model: Model, room: nat) -> bool {
    0 < model.ops@.len() <= room
}

/// The outcome of verifying the weights that `model` names.
pub open spec fn weights_of(model: Model, cfg: PrepareConfig, nor: NorWindow) -> Result<
    WeightInfo,
    crate::weights::WeightError,
> {
    crate::weights::verified(
        nor,
        cfg.manifest,
        vstd::utf8::encode_utf8(model.id@),
        cfg.weights_base,
        cfg.verify_weights_crc,
    )
}

/// The job of preparing `model` with verified weights.
pub open spec fn job_of(
    model: Model,
    cfg: PrepareConfig,
    blob_magic: u32,
    weights: WeightInfo,
) -> Job {
    Job { model, io: cfg.io, blob_ram: cfg.blob_ram, blob_magic, weights }
}

/// What a preparation starts with, for a store of `room` entries.
pub open spec fn started(
    model: Model,
    cfg: PrepareConfig,
    nor: NorWindow,
    blob_magic: u32,
    room: nat,
) -> Result<(Job, Progress), InitError> {
    if model.ops@.len() == 0 {
        Err(InitError::EmptySchedule)
    } else if room < model.ops@.len() {
        Err(
            InitError::StoreTooSmall {
                needed: model.ops@.len() as usize,
                have: room as usize,
            },
        )
    } else {
        match weights_of(model, cfg, nor) {
            Err(fault) => Err(InitError::Weights(fault)),
            Ok(weights) => {
                let job = job_of(model, cfg, blob_magic, weights);
                match settled(job, Seq::empty(), cfg.blob_ram.base as int) {
                    Err(fault) => Err(fault),
                    Ok(progress) => Ok((job, progress)),
                }
            },
        }
    }
}

/// Whether a preparation is refused before anything is written to the store.
pub open spec fn refused_early(
    model: Model,
    cfg: PrepareConfig,
    nor: NorWindow,
    room: nat,
) -> bool {
    !fits(model, room) || weights_of(model, cfg, nor) is Err
}

/// The entries that a preparation starts with, or is refused with.
pub open spec fn started_with(
    model: Model,
    cfg: PrepareConfig,
    nor: NorWindow,
    blob_magic: u32,
    room: nat,
) -> Seq<Prepared> {
    match weights_of(model, cfg, nor) {
        Ok(weights) if fits(model, room) => reached(
            job_of(model, cfg, blob_magic, weights),
            Seq::empty(),
        ),
        _ => Seq::empty(),
    }
}

/// Whether `result` is the preparation that `outcome` calls for.
pub open spec fn starts_as(
    result: Result<Preparation, InitError>,
    outcome: Result<(Job, Progress), InitError>,
) -> bool {
    match outcome {
        Err(fault) => result matches Err(e) && e == fault,
        Ok((job, progress)) => {
            &&& result matches Ok(preparation)
            &&& preparation.wf()
            &&& preparation.job() == job
            &&& preparation.progress() == progress
        },
    }
}

impl<'a> Preparation<'a> {
    /// What stays fixed during this preparation.
    pub closed spec fn job(self) -> Job {
        Job {
            model: *self.pending.model,
            io: self.pending.io,
            blob_ram: self.pending.blob_ram,
            blob_magic: self.pending.blob_magic,
            weights: self.pending.weights,
        }
    }

    /// The first `n` entries of the store.
    spec fn written(self, n: int) -> Seq<Prepared> {
        self.store@.take(n)
    }

    /// How far this preparation has come.
    pub closed spec fn progress(self) -> Progress {
        Progress {
            entries: self.written(self.pending.index as int),
            next_blob: self.pending.next_blob as int,
            stage: self.pending.stage,
        }
    }

    /// The preparation is consistent, and its store has room for the schedule.
    pub closed spec fn wf(self) -> bool {
        &&& self.pending.index <= self.pending.model.ops@.len() <= self.store@.len()
        &&& consistent(self.job(), self.progress())
    }

    /// A preparation under way is consistent at every step. Its entries are the
    /// front of its store, which has room for the whole schedule.
    pub proof fn law_preparations_are_consistent(self)
        requires
            self.wf(),
        ensures
            consistent(self.job(), self.progress()),
            self.progress().entries == old(self.store)@.take(
                self.progress().entries.len() as int,
            ),
            self.job().model.ops@.len() <= old(self.store)@.len(),
    {
    }

    /// The verified weight image behind this preparation.
    pub fn weights(&self) -> (weights: WeightInfo)
        ensures
            weights == self.job().weights,
    {
        self.pending.weights
    }

    /// What the container loader has to do next.
    pub fn request(&self) -> (request: Request)
        requires
            self.wf(),
        ensures
            request == requested(self.job(), self.progress()),
    {
        match self.pending.stage {
            Stage::Parse => Request::Parse { op: self.pending.index },
            Stage::Copy { addr, words } => Request::Copy { op: self.pending.index, addr, words },
            Stage::Relocate { addr, words, reloc } => {
                match &self.pending.model.ops[self.pending.index] {
                    Op::Hw(epoch) => {
                        let (symbol, io) = epoch.relocs[reloc];
                        Request::Relocate {
                            op: self.pending.index,
                            addr,
                            words,
                            symbol,
                            base: self.pending.io.address_of(io),
                        }
                    },
                    _ => Request::Nothing,
                }
            },
            Stage::Publish { addr, words } => Request::Publish { addr, bytes: (words * 8) as u32 },
            Stage::Done => Request::Nothing,
        }
    }

    /// Whether blob RAM, and a blob of `words` words that is placed next, end
    /// inside the 32-bit address space.
    pub fn can_place(&self, words: usize) -> (fits: bool)
        ensures
            fits == placeable(self.job().blob_ram, self.progress().next_blob, words as int),
    {
        let lined: u64 = (self.pending.next_blob as u64 + 63) / 64 * 64;
        self.pending.blob_ram.len <= u32::MAX - self.pending.blob_ram.base
            && self.pending.next_blob <= u32::MAX - 63 && words as u64 <= (u32::MAX as u64 - lined)
            / 8
    }

    /// The stage after `reloc` relocations of the op at hand have been applied.
    fn relocating_from(&self, addr: u32, words: usize, reloc: usize) -> (stage: Stage)
        requires
            self.wf(),
            self.pending.index < self.pending.model.ops@.len(),
            self.pending.model.ops@[self.pending.index as int] is Hw,
        ensures
            stage == relocating(
                self.job(),
                self.progress().entries,
                addr,
                words,
                reloc as int,
            ),
    {
        match &self.pending.model.ops[self.pending.index] {
            Op::Hw(epoch) => if reloc < epoch.relocs.len() {
                Stage::Relocate { addr, words, reloc }
            } else {
                Stage::Publish { addr, words }
            },
            _ => Stage::Done,
        }
    }

    /// Prepare the ops from `from` on that do not need the loader.
    #[verifier::loop_isolation(false)]
    fn settle_from(self, from: usize) -> (result: Result<Preparation<'a>, InitError>)
        requires
            from <= self.pending.model.ops@.len() <= self.store@.len(),
            sound(
                self.pending.model.ops@,
                self.store@.take(from as int),
                self.pending.blob_magic,
                self.pending.blob_ram,
                self.pending.next_blob as int,
            ),
        ensures
            match settled(self.job(), self.written(from as int), self.pending.next_blob as int) {
                Err(fault) => {
                    &&& result matches Err(e) && e == fault
                    &&& final(self.store)@ == written_over(
                        old(self.store)@,
                        reached(self.job(), self.written(from as int)),
                    )
                },
                Ok(progress) => {
                    &&& result matches Ok(next)
                    &&& next.wf()
                    &&& next.job() == self.job()
                    &&& next.progress() == progress
                    &&& next.store@ == written_over(old(self.store)@, progress.entries)
                    &&& final(self.store)@ == final(next.store)@
                },
            },
    {
        let ghost job = self.job();
        let ghost outcome = settled(job, self.store@.take(from as int), self.pending.next_blob as int);
        let ghost first_free = self.pending.next_blob as int;
        let ghost before = self.store@;
        let ghost stop = reached(job, before.take(from as int));
        assert(self.pending.model.ops@.len() == self.pending.model.ops.len());
        proof {
            law_settling_keeps_consistency(job, self.store@.take(from as int), first_free);
        }
        let mut next = self;
        let mut i: usize = from;
        while i < next.pending.model.ops.len()
            invariant
                i <= next.pending.model.ops@.len() <= next.store@.len(),
                next.pending.model.ops@.len() <= usize::MAX,
                next.job() == job,
                next.pending.next_blob == first_free,
                next.store@.len() == before.len(),
                next.store@ == written_over(before, next.store@.take(i as int)),
                final(next.store)@ == final(self.store)@,
                stop == reached(job, next.store@.take(i as int)),
                outcome == settled(job, next.store@.take(i as int), first_free),
                outcome matches Ok(progress) ==> consistent(job, progress),
            decreases next.pending.model.ops@.len() - i,
        {
            let ghost entries = next.store@.take(i as int);
            let entry: Prepared = match &next.pending.model.ops[i] {
                Op::Sw(sw) => Prepared::Sw(*sw),
                Op::CacheClean { addr, size } => Prepared::CacheClean { addr: *addr, size: *size },
                Op::CacheInvalidate { addr, size } => Prepared::CacheInvalidate {
                    addr: *addr,
                    size: *size,
                },
                Op::Hw(epoch) => {
                    if epoch.data.len() == 0 {
                        return Err(InitError::EmptyBlob { op: i });
                    }
                    let word: u64 = epoch.data[0];
                    assert(word as u32 == word % 0x1_0000_0000) by (bit_vector);
                    if word as u32 != next.pending.blob_magic {
                        next.pending.index = i;
                        next.pending.stage = Stage::Parse;
                        return Ok(next);
                    }
                    if epoch.relocs.len() > 0 {
                        return Err(InitError::BareBlobHasRelocs { op: i });
                    }
                    Prepared::Hw(HwBlob::Flash(epoch.data))
                },
            };
            let ghost held = next.store@;
            next.store[i] = entry;
            i = i + 1;
            assert(next.store@.take(i as int) =~= entries.push(entry));
            assert(next.store@ =~= written_over(before, next.store@.take(i as int))) by {
                assert(held.skip(i as int) =~= before.skip(i as int));
            }
        }
        next.pending.index = i;
        next.pending.stage = Stage::Done;
        Ok(next)
    }

    /// Take the loader's reply to the pending request.
    ///
    /// Only entries are written to the store, at its front; the rest of it is
    /// left as it was, also where the reply ends the preparation.
    pub fn advance(self, reply: Reply) -> (result: Result<Preparation<'a>, InitError>)
        requires
            self.wf(),
            answers(self.progress().stage, reply),
            reply matches Reply::Parsed { words } ==> placeable(
                self.job().blob_ram,
                self.progress().next_blob,
                words as int,
            ),
        ensures
            match advanced(self.job(), self.progress(), reply) {
                Err(fault) => {
                    &&& result matches Err(e) && e == fault
                    &&& final(self.store)@ == written_over(
                        old(self.store)@,
                        reached_after(self.job(), self.progress(), reply),
                    )
                },
                Ok(progress) => {
                    &&& result matches Ok(next)
                    &&& next.wf()
                    &&& next.job() == self.job()
                    &&& next.progress() == progress
                    &&& next.store@ == written_over(old(self.store)@, progress.entries)
                    &&& final(self.store)@ == final(next.store)@
                },
            },
    {
        proof {
            law_replies_keep_consistency(self.job(), self.progress(), reply);
            assert(written_over(self.store@, self.progress().entries) =~= self.store@);
        }
        let op: usize = self.pending.index;
        match (self.pending.stage, reply) {
            (Stage::Parse, Reply::NotAContainer) => Err(InitError::BadEcBinary { op }),
            (Stage::Parse, Reply::BadBlobSection) => Err(InitError::BadBlobSection { op }),
            (Stage::Parse, Reply::Parsed { words }) => {
                // Cache-line align each copy, so that cleaning one blob cannot
                // write back a stale line that belongs to another.
                let raised: u32 = self.pending.next_blob + 63;
                assert(raised & !63u32 == raised / 64 * 64) by (bit_vector);
                let addr: u32 = raised & !63u32;
                let bytes: u32 = (words * 8) as u32;
                if addr + bytes > self.pending.blob_ram.end() {
                    return Err(
                        InitError::BlobRamExhausted {
                            needed: addr + bytes - self.pending.blob_ram.base,
                            have: self.pending.blob_ram.len,
                        },
                    );
                }
                let mut next = self;
                next.pending.stage = Stage::Copy { addr, words };
                Ok(next)
            },
            (Stage::Copy { .. }, Reply::CopyFailed) => Err(InitError::BlobCopyFailed { op }),
            (Stage::Copy { addr, words }, Reply::Copied) => {
                let stage = self.relocating_from(addr, words, 0);
                let mut next = self;
                next.pending.stage = stage;
                Ok(next)
            },
            (Stage::Relocate { .. }, Reply::SymbolMissing) => Err(InitError::RelocFailed { op }),
            (Stage::Relocate { addr, words, reloc }, Reply::Relocated) => {
                proof {
                    let epoch = self.pending.model.ops@[op as int]->Hw_0;
                    assert(epoch.relocs@.len() == epoch.relocs.len());
                }
                let stage = self.relocating_from(addr, words, reloc + 1);
                let mut next = self;
                next.pending.stage = stage;
                Ok(next)
            },
            (Stage::Publish { addr, words }, Reply::Published) => {
                let ghost before = self.progress().entries;
                let ghost held = self.store@;
                proof {
                    lemma_publish_keeps_sound(self.job(), self.progress(), addr, words);
                }
                let mut next = self;
                next.store[op] = Prepared::Hw(HwBlob::Ram { addr, words });
                next.pending.next_blob = addr + (words * 8) as u32;
                proof {
                    let entry = Prepared::Hw(HwBlob::Ram { addr, words });
                    assert(next.store@.take(op + 1) =~= before.push(entry));
                    assert(next.store@ =~= written_over(held, before.push(entry)));
                    law_settling_writes_only_prepared_entries(
                        next.job(),
                        before.push(entry),
                        next.pending.next_blob as int,
                        held,
                    );
                    law_later_entries_replace_earlier_ones(
                        held,
                        before.push(entry),
                        reached(next.job(), before.push(entry)),
                    );
                }
                next.settle_from(op + 1)
            },
            _ => Ok(self),
        }
    }

    /// The prepared program, once there is nothing left to do.
    pub fn finish(self) -> (program: Program<'a>)
        requires
            self.wf(),
            self.progress().stage is Done,
        ensures
            final(self.store)@ == old(self.store)@,
            program@.model == self.job().model,
            program@.ops == self.progress().entries,
            program@.io == self.job().io,
            program@.weights == self.job().weights,
            program@.blob_ram_used == self.progress().next_blob - self.job().blob_ram.base,
            program@.blob_ram_used == blob_top(
                program@.ops,
                self.job().blob_ram.base as int,
            ) - self.job().blob_ram.base,
            program@.ops.len() == program@.model.ops@.len(),
            sound(
                program@.model.ops@,
                program@.ops,
                self.job().blob_magic,
                self.job().blob_ram,
                self.job().blob_ram.base + program@.blob_ram_used,
            ),
    {
        let store: &'a [Prepared] = self.store;
        Program {
            model: self.pending.model,
            ops: vstd::slice::slice_subrange(store, 0, self.pending.index),
            io: self.pending.io,
            weights: self.pending.weights,
            blob_ram_used: self.pending.next_blob - self.pending.blob_ram.base,
        }
    }
}

/// A model, bound to buffers and ready to dispatch.
pub struct Program<'a> {
    model: &'static Model,
    ops: &'a [Prepared],
    io: IoBinding,
    weights: WeightInfo,
    blob_ram_used: u32,
}

/// What a program holds.
#[verifier::ext_equal]
pub ghost struct ProgramView {
    pub model: Model,
    pub ops: Seq<Prepared>,
    pub io: IoBinding,
    pub weights: WeightInfo,
    pub blob_ram_used: u32,
}

impl<'a> View for Program<'a> {
    type V = ProgramView;

    closed spec fn view(&self) -> ProgramView {
        ProgramView {
            model: *self.model,
            ops: self.ops@,
            io: self.io,
            weights: self.weights,
            blob_ram_used: self.blob_ram_used,
        }
    }
}

impl<'a> Program<'a> {
    /// Prepare a model that has stated its own placement.
    ///
    /// Equivalent to building a [`PrepareConfig`] by hand and calling
    /// [`prepare`](Self::prepare).
    pub fn prepare_model<M: InferenceModel>(
        io: IoBinding,
        manifest: ManifestLocation,
        verify_weights_crc: bool,
        nor: &NorWindow,
        blob_magic: u32,
        store: &'a mut [Prepared],
    ) -> (result: Result<Preparation<'a>, InitError>)
        requires
            call_requires(M::descriptor, ()),
            forall|model: &'static Model| #[trigger]
                call_ensures(M::descriptor, (), model) && fits(
                    *model,
                    old(store)@.len(),
                ) ==> preparable(
                    *model,
                    PrepareConfig {
                        io,
                        blob_ram: M::BLOB_RAM,
                        manifest,
                        weights_base: M::WEIGHTS_BASE,
                        verify_weights_crc,
                    },
                    *nor,
                ),
        ensures
            exists|model: &'static Model|
                {
                    let cfg = PrepareConfig {
                        io,
                        blob_ram: M::BLOB_RAM,
                        manifest,
                        weights_base: M::WEIGHTS_BASE,
                        verify_weights_crc,
                    };
                    let room = old(store)@.len();
                    &&& #[trigger] call_ensures(M::descriptor, (), model)
                    &&& starts_as(result, started(*model, cfg, *nor, blob_magic, room))
                    &&& refused_early(*model, cfg, *nor, room) ==> final(store)@ == old(store)@
                    &&& match result {
                        Err(_) => final(store)@ == written_over(
                            old(store)@,
                            started_with(*model, cfg, *nor, blob_magic, room),
                        ),
                        Ok(preparation) => {
                            &&& preparation.store@ == written_over(
                                old(store)@,
                                preparation.progress().entries,
                            )
                            &&& final(store)@ == final(preparation.store)@
                        },
                    }
                },
    {
        let cfg = PrepareConfig {
            io,
            blob_ram: M::BLOB_RAM,
            manifest,
            weights_base: M::WEIGHTS_BASE,
            verify_weights_crc,
        };
        let model: &'static Model = M::descriptor();
        Self::prepare(model, &cfg, nor, blob_magic, store)
    }

    /// Verify the model's weights and begin to relocate its blobs and bind its
    /// IO.
    ///
    /// `store` must be at least as long as the schedule; the program takes
    /// exactly that prefix. `blob_magic` is the word that a bare blob starts
    /// with.
    ///
    /// The CPU never touches the weight image, so an erased or stale slot is
    /// invisible at every other layer. It is checked before anything else is
    /// done, and preparation is refused rather than let a plausible answer
    /// come out.
    pub fn prepare(
        model: &'static Model,
        cfg: &PrepareConfig,
        nor: &NorWindow,
        blob_magic: u32,
        store: &'a mut [Prepared],
    ) -> (result: Result<Preparation<'a>, InitError>)
        requires
            fits(*model, old(store)@.len()) ==> preparable(*model, *cfg, *nor),
        ensures
            starts_as(result, started(*model, *cfg, *nor, blob_magic, old(store)@.len())),
            refused_early(*model, *cfg, *nor, old(store)@.len()) ==> final(store)@ == old(store)@,
            match result {
                Err(_) => final(store)@ == written_over(
                    old(store)@,
                    started_with(*model, *cfg, *nor, blob_magic, old(store)@.len()),
                ),
                Ok(preparation) => {
                    &&& preparation.store@ == written_over(
                        old(store)@,
                        preparation.progress().entries,
                    )
                    &&& final(store)@ == final(preparation.store)@
                },
            },
    {
        assert(store@.len() == store.len());
        assert(model.ops@.len() == model.ops.len());
        if model.ops.len() == 0 {
            return Err(InitError::EmptySchedule);
        }
        if store.len() < model.ops.len() {
            return Err(
                InitError::StoreTooSmall { needed: model.ops.len(), have: store.len() },
            );
        }
        match verify(nor, &cfg.manifest, model.id, cfg.weights_base, cfg.verify_weights_crc) {
            Err(fault) => Err(InitError::Weights(fault)),
            Ok(weights) => {
                let pending = Pending {
                    model,
                    io: cfg.io,
                    blob_ram: cfg.blob_ram,
                    blob_magic,
                    weights,
                    index: 0,
                    next_blob: cfg.blob_ram.base,
                    stage: Stage::Done,
                };
                let preparation = Preparation { store, pending };
                assert(preparation.written(0) =~= Seq::empty());
                preparation.settle_from(0)
            },
        }
    }

    /// Whether `model` can be prepared with `cfg` and `nor`; see [`preparable`].
    pub fn is_preparable(model: &Model, cfg: &PrepareConfig, nor: &NorWindow) -> (can: bool)
        ensures
            can == preparable(*model, *cfg, *nor),
    {
        is_mapped(nor, &cfg.manifest, model.id, cfg.weights_base)
    }

    /// The compiled schedule behind this program.
    pub fn model(&self) -> (model: &'static Model)
        ensures
            *model == self@.model,
    {
        self.model
    }

    /// The buffers this program is bound to.
    pub fn io(&self) -> (io: IoBinding)
        ensures
            io == self@.io,
    {
        self.io
    }

    /// The verified weight image behind this program.
    pub fn weights(&self) -> (weights: WeightInfo)
        ensures
            weights == self@.weights,
    {
        self.weights
    }

    /// Bytes of blob RAM actually consumed. Compare against the region size
    /// when tuning the budget.
    pub fn blob_ram_used(&self) -> (bytes: u32)
        ensures
            bytes == self@.blob_ram_used,
    {
        self.blob_ram_used
    }

    /// Whether the buffer at address `buf` is the output buffer bound at
    /// prepare time.
    ///
    /// Callers that intend to copy the result somewhere else must check this:
    /// when it is `true`, source and destination are the same range.
    pub fn output_is(&self, buf: u32) -> (same: bool)
        ensures
            same == (buf == self@.io.output),
    {
        buf == self.io.output
    }

    /// The prepared schedule.
    pub fn ops(&self) -> (ops: &'a [Prepared])
        ensures
            ops@ == self@.ops,
    {
        self.ops
    }
}

/// The blob RAM in use ends where the last relocated blob ends. Without
/// relocated blobs none is in use.
pub proof fn law_last_blob_bounds_blob_ram(entries: Seq<Prepared>, base: int, i: int)
    requires
        -1 <= i < entries.len(),
        i >= 0 ==> is_relocated(entries[i]),
        forall|j: int| i < j < entries.len() ==> !is_relocated(#[trigger] entries[j]),
    ensures
        blob_top(entries, base) == (if i >= 0 {
            blob_end(entries[i])
        } else {
            base
        }),
    decreases entries.len(),
{
    if entries.len() > 0 && !is_relocated(entries.last()) {
        law_last_blob_bounds_blob_ram(entries.drop_last(), base, i);
    }
}

/// Settling writes entries only: the op at which it stops, and whatever the
/// store holds from there on, also past the schedule, are left alone. Where it
/// stops at a fault, the fault names that op.
pub proof fn law_settling_writes_only_prepared_entries(
    job: Job,
    entries: Seq<Prepared>,
    next_blob: int,
    before: Seq<Prepared>,
)
    requires
        entries.len() <= job.model.ops@.len() <= before.len(),
        job.model.ops@.len() <= usize::MAX,
    ensures
        ({
            let prepared = reached(job, entries);
            let after = written_over(before, prepared);
            &&& entries.len() <= prepared.len() <= job.model.ops@.len()
            &&& prepared.take(entries.len() as int) == entries
            &&& after.len() == before.len()
            &&& after.skip(prepared.len() as int) == before.skip(prepared.len() as int)
            &&& after.skip(job.model.ops@.len() as int) == before.skip(
                job.model.ops@.len() as int,
            )
            &&& match settled(job, entries, next_blob) {
                Ok(progress) => progress.entries == prepared,
                Err(InitError::EmptyBlob { op }) => op == prepared.len(),
                Err(InitError::BareBlobHasRelocs { op }) => op == prepared.len(),
                Err(_) => false,
            }
        }),
    decreases job.model.ops@.len() - entries.len(),
{
    let prepared = reached(job, entries);
    if entries.len() < job.model.ops@.len() {
        let next = match job.model.ops@[entries.len() as int] {
            Op::Sw(sw) => Some(Prepared::Sw(sw)),
            Op::CacheClean { addr, size } => Some(Prepared::CacheClean { addr, size }),
            Op::CacheInvalidate { addr, size } => Some(Prepared::CacheInvalidate { addr, size }),
            Op::Hw(epoch) => if is_bare(epoch.data@, job.blob_magic) && epoch.relocs@.len() == 0 {
                Some(Prepared::Hw(HwBlob::Flash(epoch.data)))
            } else {
                None
            },
        };
        if let Some(entry) = next {
            law_settling_writes_only_prepared_entries(
                job,
                entries.push(entry),
                next_blob,
                before,
            );
            let n = entries.len() as int;
            assert(prepared.take(n) =~= prepared.take(n + 1).drop_last());
            assert(entries.push(entry).drop_last() =~= entries);
        }
    }
    let after = written_over(before, prepared);
    assert(after.skip(prepared.len() as int) =~= before.skip(prepared.len() as int));
    assert(after.skip(job.model.ops@.len() as int) =~= before.skip(job.model.ops@.len() as int));
    assert(entries.take(entries.len() as int) =~= entries);
}

/// The op that a fault of a preparation names.
pub open spec fn fault_op(fault: InitError) -> Option<usize> {
    match fault {
        InitError::EmptyBlob { op } => Some(op),
        InitError::BareBlobHasRelocs { op } => Some(op),
        InitError::BadEcBinary { op } => Some(op),
        InitError::BadBlobSection { op } => Some(op),
        InitError::BlobCopyFailed { op } => Some(op),
        InitError::RelocFailed { op } => Some(op),
        _ => None,
    }
}

/// A reply leads to entries being written and to nothing else: whatever the
/// store holds from the op at hand on, also past the schedule, is left alone.
/// Where the reply ends the preparation, that op is the one that the fault
/// names, or, where blob RAM is exhausted, the one whose blob did not fit.
pub proof fn law_replies_write_only_prepared_entries(
    job: Job,
    progress: Progress,
    reply: Reply,
    before: Seq<Prepared>,
)
    requires
        consistent(job, progress),
        answers(progress.stage, reply),
        job.model.ops@.len() <= before.len(),
    ensures
        ({
            let prepared = reached_after(job, progress, reply);
            let after = written_over(before, prepared);
            &&& progress.entries.len() <= prepared.len() <= job.model.ops@.len()
            &&& prepared.take(progress.entries.len() as int) == progress.entries
            &&& after.len() == before.len()
            &&& after.skip(prepared.len() as int) == before.skip(prepared.len() as int)
            &&& after.skip(job.model.ops@.len() as int) == before.skip(
                job.model.ops@.len() as int,
            )
            &&& match advanced(job, progress, reply) {
                Ok(next) => next.entries == prepared,
                Err(InitError::BlobRamExhausted { .. }) => prepared == progress.entries,
                Err(fault) => fault_op(fault) == Some(prepared.len() as usize),
            }
        }),
{
    let prepared = reached_after(job, progress, reply);
    if let Stage::Publish { addr, words } = progress.stage {
        law_settling_writes_only_prepared_entries(
            job,
            progress.entries.push(Prepared::Hw(HwBlob::Ram { addr, words })),
            addr + 8 * words,
            before,
        );
    }
    let after = written_over(before, prepared);
    assert(after.skip(prepared.len() as int) =~= before.skip(prepared.len() as int));
    assert(after.skip(job.model.ops@.len() as int) =~= before.skip(job.model.ops@.len() as int));
    let n = progress.entries.len() as int;
    if let Stage::Publish { addr, words } = progress.stage {
        let entries = progress.entries.push(Prepared::Hw(HwBlob::Ram { addr, words }));
        assert(prepared.take(n) =~= prepared.take(n + 1).drop_last());
        assert(entries.drop_last() =~= progress.entries);
    } else {
        assert(prepared.take(n) =~= progress.entries);
    }
}

/// Writing entries and later more of them, at least as many, comes to writing
/// the latter.
pub proof fn law_later_entries_replace_earlier_ones(
    before: Seq<Prepared>,
    first: Seq<Prepared>,
    second: Seq<Prepared>,
)
    requires
        first.len() <= second.len() <= before.len(),
    ensures
        written_over(written_over(before, first), second) == written_over(before, second),
{
    assert(written_over(written_over(before, first), second) =~= written_over(before, second));
}

/// What a preparation comes to after a sequence of replies.
pub open spec fn driven(job: Job, progress: Progress, replies: Seq<Reply>) -> Result<
    Progress,
    InitError,
>
    decreases replies.len(),
{
    if replies.len() == 0 {
        Ok(progress)
    } else {
        match driven(job, progress, replies.drop_last()) {
            Err(fault) => Err(fault),
            Ok(before) => advanced(job, before, replies.last()),
        }
    }
}

/// Whether each of `replies` is one that the request pending at its time can
/// have.
pub open spec fn orderly(job: Job, progress: Progress, replies: Seq<Reply>) -> bool {
    forall|k: int|
        0 <= k < replies.len() ==> (driven(job, progress, #[trigger] replies.take(k)) matches Ok(
            before,
        ) ==> {
            &&& answers(before.stage, replies[k])
            &&& replies[k] matches Reply::Parsed { words } ==> placeable(
                job.blob_ram,
                before.next_blob,
                words as int,
            )
        })
}

/// However the loader replies, a preparation stays consistent until it ends:
/// every entry mirrors its op, the blobs stay inside blob RAM, and no two of
/// them share a cache line. A preparation that has nothing left to do has one
/// entry per op.
pub proof fn law_preparations_end_sound(job: Job, progress: Progress, replies: Seq<Reply>)
    requires
        consistent(job, progress),
        orderly(job, progress, replies),
    ensures
        driven(job, progress, replies) matches Ok(last) ==> {
            &&& consistent(job, last)
            &&& last.stage is Done ==> last.entries.len() == job.model.ops@.len()
        },
    decreases replies.len(),
{
    if replies.len() > 0 {
        let n = replies.len() - 1;
        let earlier = replies.drop_last();
        assert(replies.take(n) =~= earlier);
        assert forall|k: int| 0 <= k < earlier.len() implies (driven(
            job,
            progress,
            #[trigger] earlier.take(k),
        ) matches Ok(before) ==> {
            &&& answers(before.stage, earlier[k])
            &&& earlier[k] matches Reply::Parsed { words } ==> placeable(
                job.blob_ram,
                before.next_blob,
                words as int,
            )
        }) by {
            assert(earlier.take(k) =~= replies.take(k));
        }
        law_preparations_end_sound(job, progress, earlier);
        if let Ok(before) = driven(job, progress, earlier) {
            law_replies_keep_consistency(job, before, replies.last());
        }
    }
}

/// The replies of a loader that loads a container without trouble: it parses,
/// it is copied, `relocs` relocations are applied, and it is published.
pub open spec fn smooth_replies(words: usize, relocs: nat) -> Seq<Reply> {
    seq![Reply::Parsed { words }, Reply::Copied] + Seq::new(relocs, |k: int| Reply::Relocated)
        + seq![Reply::Published]
}

proof fn lemma_driven_push(job: Job, progress: Progress, replies: Seq<Reply>, reply: Reply)
    ensures
        driven(job, progress, replies.push(reply)) == (match driven(job, progress, replies) {
            Err(fault) => Err::<Progress, InitError>(fault),
            Ok(before) => advanced(job, before, reply),
        }),
{
    assert(replies.push(reply).drop_last() =~= replies);
}

/// After `k` relocations, relocation `k` is pending.
proof fn lemma_smooth_prefix(job: Job, progress: Progress, words: usize, k: int)
    requires
        consistent(job, progress),
        progress.stage is Parse,
        placeable(job.blob_ram, progress.next_blob, words as int),
        line_up(progress.next_blob) + 8 * words <= job.blob_ram.base + job.blob_ram.len,
        0 <= k <= pending_relocs(job, progress.entries).len(),
    ensures
        driven(job, progress, smooth_replies(words, k as nat).drop_last()) == Ok::<
            Progress,
            InitError,
        >(
            Progress {
                stage: relocating(
                    job,
                    progress.entries,
                    line_up(progress.next_blob) as u32,
                    words,
                    k,
                ),
                ..progress
            },
        ),
    decreases k,
{
    let epoch = job.model.ops@[progress.entries.len() as int]->Hw_0;
    assert(epoch.relocs@.len() == epoch.relocs.len());
    let replies = smooth_replies(words, k as nat).drop_last();
    let parsed = Reply::Parsed { words };
    lemma_driven_push(job, progress, Seq::empty(), parsed);
    lemma_driven_push(job, progress, seq![parsed], Reply::Copied);
    assert(Seq::empty().push(parsed) =~= seq![parsed]);
    assert(seq![parsed].push(Reply::Copied) =~= seq![parsed, Reply::Copied]);
    if k == 0 {
        assert(replies =~= seq![parsed, Reply::Copied]);
    } else {
        lemma_smooth_prefix(job, progress, words, k - 1);
        let earlier = smooth_replies(words, (k - 1) as nat).drop_last();
        lemma_driven_push(job, progress, earlier, Reply::Relocated);
        assert(replies =~= earlier.push(Reply::Relocated));
    }
}

/// A container whose blob fits is copied to the first free cache line of blob
/// RAM. Then its relocations are asked for one by one, in order, each with the
/// address of the buffer that its role names.
pub proof fn law_relocations_bind_the_io_buffers(
    job: Job,
    progress: Progress,
    words: usize,
    k: int,
)
    requires
        consistent(job, progress),
        progress.stage is Parse,
        placeable(job.blob_ram, progress.next_blob, words as int),
        line_up(progress.next_blob) + 8 * words <= job.blob_ram.base + job.blob_ram.len,
        0 <= k < pending_relocs(job, progress.entries).len(),
    ensures
        ({
            let (symbol, io) = pending_relocs(job, progress.entries)[k];
            let replies = smooth_replies(words, k as nat).drop_last();
            &&& driven(job, progress, replies) matches Ok(before)
            &&& requested(job, before) == Request::Relocate {
                op: progress.entries.len() as usize,
                addr: line_up(progress.next_blob) as u32,
                words,
                symbol,
                base: job.io.address(io),
            }
            &&& before.entries == progress.entries
            &&& before.next_blob == progress.next_blob
        }),
{
    let epoch = job.model.ops@[progress.entries.len() as int]->Hw_0;
    assert(epoch.relocs@.len() == epoch.relocs.len());
    lemma_smooth_prefix(job, progress, words, k);
}

/// Loading a container without trouble takes one reply per relocation and
/// three more, and ends with the relocated blob as the op's entry and the
/// bytes after it as the first free ones.
pub proof fn law_smooth_replies_load_a_container(job: Job, progress: Progress, words: usize)
    requires
        consistent(job, progress),
        progress.stage is Parse,
        placeable(job.blob_ram, progress.next_blob, words as int),
        line_up(progress.next_blob) + 8 * words <= job.blob_ram.base + job.blob_ram.len,
    ensures
        ({
            let addr = line_up(progress.next_blob);
            let relocs = pending_relocs(job, progress.entries).len();
            driven(job, progress, smooth_replies(words, relocs)) == settled(
                job,
                progress.entries.push(Prepared::Hw(HwBlob::Ram { addr: addr as u32, words })),
                addr + 8 * words,
            )
        }),
{
    let relocs = pending_relocs(job, progress.entries).len();
    lemma_smooth_prefix(job, progress, words, relocs as int);
    assert(smooth_replies(words, relocs).last() == Reply::Published);
}

/// Nothing is prepared on weights that were not verified: a preparation that
/// starts has the verified image of its model, in the slot that the build
/// expects.
pub proof fn law_preparation_starts_on_verified_weights(
    model: Model,
    cfg: PrepareConfig,
    nor: NorWindow,
    blob_magic: u32,
    room: nat,
)
    ensures
        started(model, cfg, nor, blob_magic, room) matches Ok((job, progress)) ==> {
            &&& weights_of(model, cfg, nor) == Ok::<WeightInfo, crate::weights::WeightError>(
                job.weights,
            )
            &&& job.weights.base == cfg.weights_base
        },
        weights_of(model, cfg, nor) is Err ==> started(
            model,
            cfg,
            nor,
            blob_magic,
            room,
        ) is Err,
{
}

/// Lining an address up leads to the first address at or after it that is a
/// multiple of 64, and a blob can be placed where it ends in 32 bits from
/// there on.
pub proof fn law_blobs_start_on_the_next_cache_line(blob_ram: Region, next_blob: int, words: int)
    ensures
        next_blob <= line_up(next_blob) < next_blob + 64,
        line_up(next_blob) % 64 == 0,
        placeable(blob_ram, next_blob, words) <==> {
            &&& blob_ram.base + blob_ram.len <= 0xFFFF_FFFF
            &&& next_blob + 63 <= 0xFFFF_FFFF
            &&& line_up(next_blob) + 8 * words <= 0xFFFF_FFFF
        },
{
    lemma_line_up(next_blob);
}

/// What is written over a store are its first entries, and nothing else.
pub proof fn law_writing_replaces_the_front(before: Seq<Prepared>, entries: Seq<Prepared>, i: int)
    requires
        entries.len() <= before.len(),
        0 <= i < before.len(),
    ensures
        written_over(before, entries).len() == before.len(),
        written_over(before, entries)[i] == (if i < entries.len() {
            entries[i]
        } else {
            before[i]
        }),
{
}

/// What settling makes of the ops it comes to. An operator and a cache fence
/// become entries with the same content, a bare blob becomes an entry that
/// dispatches it from flash. It stops at the first hardware epoch that is
/// anything else: one without data and a bare blob with relocations are faults,
/// and any other is a container to be parsed.
pub proof fn law_settling_mirrors_ops_up_to_the_first_container(
    job: Job,
    entries: Seq<Prepared>,
    next_blob: int,
)
    requires
        entries.len() <= job.model.ops@.len() <= usize::MAX,
    ensures
        ({
            let ops = job.model.ops@;
            let prepared = reached(job, entries);
            let n = prepared.len() as int;
            &&& entries.len() <= n <= ops.len()
            &&& forall|i: int| 0 <= i < entries.len() ==> #[trigger] prepared[i] == entries[i]
            &&& forall|i: int|
                entries.len() <= i < n ==> match ops[i] {
                    Op::Sw(sw) => #[trigger] prepared[i] == Prepared::Sw(sw),
                    Op::CacheClean { addr, size } => prepared[i] == (Prepared::CacheClean {
                        addr,
                        size,
                    }),
                    Op::CacheInvalidate { addr, size } => prepared[i]
                        == (Prepared::CacheInvalidate { addr, size }),
                    Op::Hw(epoch) => {
                        &&& prepared[i] == Prepared::Hw(HwBlob::Flash(epoch.data))
                        &&& epoch.data@.len() > 0
                        &&& epoch.data@[0] % 0x1_0000_0000 == job.blob_magic
                        &&& epoch.relocs@.len() == 0
                    },
                }
            &&& match settled(job, entries, next_blob) {
                Ok(progress) => {
                    &&& progress.entries == prepared
                    &&& progress.next_blob == next_blob
                    &&& if n == ops.len() {
                        progress.stage is Done
                    } else {
                        &&& progress.stage is Parse
                        &&& ops[n] matches Op::Hw(epoch)
                        &&& epoch.data@.len() > 0
                        &&& epoch.data@[0] % 0x1_0000_0000 != job.blob_magic
                    }
                },
                Err(InitError::EmptyBlob { op }) => {
                    op == n && n < ops.len() && (ops[n] matches Op::Hw(epoch)
                        && epoch.data@.len() == 0)
                },
                Err(InitError::BareBlobHasRelocs { op }) => {
                    &&& op == n && n < ops.len()
                    &&& ops[n] matches Op::Hw(epoch)
                    &&& epoch.data@.len() > 0
                    &&& epoch.data@[0] % 0x1_0000_0000 == job.blob_magic
                    &&& epoch.relocs@.len() > 0
                },
                Err(_) => false,
            }
        }),
    decreases job.model.ops@.len() - entries.len(),
{
    let ops = job.model.ops@;
    let prepared = reached(job, entries);
    if entries.len() < ops.len() {
        let next = match ops[entries.len() as int] {
            Op::Sw(sw) => Some(Prepared::Sw(sw)),
            Op::CacheClean { addr, size } => Some(Prepared::CacheClean { addr, size }),
            Op::CacheInvalidate { addr, size } => Some(Prepared::CacheInvalidate { addr, size }),
            Op::Hw(epoch) => if is_bare(epoch.data@, job.blob_magic) && epoch.relocs@.len() == 0 {
                Some(Prepared::Hw(HwBlob::Flash(epoch.data)))
            } else {
                None
            },
        };
        if let Some(entry) = next {
            let more = entries.push(entry);
            law_settling_mirrors_ops_up_to_the_first_container(job, more, next_blob);
            assert(prepared[entries.len() as int] == more[entries.len() as int]);
            assert forall|i: int| 0 <= i < entries.len() implies #[trigger] prepared[i]
                == entries[i] by {
                assert(prepared[i] == more[i]);
            }
        }
    }
}

/// A blob keeps to one place. A container whose blob of `words` words fits is
/// copied to the first multiple of 64 at or after the first free byte of blob
/// RAM. Each of its relocations is then applied there, in the order of the
/// schedule, with the address of the buffer that its role names. Then exactly
/// the bytes that were copied, eight per word, are published, and the entry
/// dispatches exactly those words. Every failure on the way ends the
/// preparation with its own error, which names the op.
pub proof fn law_blobs_are_patched_and_published_where_they_are_copied(
    job: Job,
    progress: Progress,
    words: usize,
)
    requires
        consistent(job, progress),
        progress.stage is Parse ==> placeable(job.blob_ram, progress.next_blob, words as int),
    ensures
        ({
            let op = progress.entries.len() as int;
            let base = job.blob_ram.base;
            let relocs = job.model.ops@[op]->Hw_0.relocs@;
            let bound = |k: int|
                match relocs[k].1 {
                    crate::ir::Io::Input => job.io.input,
                    crate::ir::Io::Output => job.io.output,
                };
            // What is asked for once `k` relocations of a blob have been applied.
            let asked = |next: Request, addr: u32, words: usize, k: int|
                if k < relocs.len() {
                    next == (Request::Relocate {
                        op: op as usize,
                        addr,
                        words,
                        symbol: relocs[k].0,
                        base: bound(k),
                    })
                } else {
                    next matches Request::Publish { addr: at, bytes } && at == addr && bytes == 8
                        * words
                };
            match requested(job, progress) {
                Request::Parse { op: at } => {
                    &&& at == op
                    &&& advanced(job, progress, Reply::NotAContainer) == Err::<
                        Progress,
                        InitError,
                    >(InitError::BadEcBinary { op: at })
                    &&& advanced(job, progress, Reply::BadBlobSection) == Err::<
                        Progress,
                        InitError,
                    >(InitError::BadBlobSection { op: at })
                    &&& match advanced(job, progress, Reply::Parsed { words }) {
                        Ok(next) => {
                            &&& next.entries == progress.entries
                            &&& next.next_blob == progress.next_blob
                            &&& requested(job, next) matches Request::Copy {
                                op: copied,
                                addr,
                                words: length,
                            }
                            &&& copied == op && length == words
                            &&& addr % 64 == 0
                            &&& progress.next_blob <= addr < progress.next_blob + 64
                            &&& addr + 8 * words <= base + job.blob_ram.len
                        },
                        Err(InitError::BlobRamExhausted { needed, have }) => {
                            let addr = base + needed - 8 * words;
                            &&& addr % 64 == 0
                            &&& progress.next_blob <= addr < progress.next_blob + 64
                            &&& needed > have
                            &&& have == job.blob_ram.len
                        },
                        Err(_) => false,
                    }
                },
                Request::Copy { op: at, addr, words } => {
                    &&& at == op
                    &&& advanced(job, progress, Reply::CopyFailed) == Err::<Progress, InitError>(
                        InitError::BlobCopyFailed { op: at },
                    )
                    &&& advanced(job, progress, Reply::Copied) matches Ok(next)
                    &&& next.entries == progress.entries
                    &&& next.next_blob == progress.next_blob
                    &&& asked(requested(job, next), addr, words, 0)
                },
                Request::Relocate { op: at, addr, words, symbol, base } => exists|k: int|
                    {
                        &&& 0 <= k < relocs.len()
                        &&& at == op && symbol == (#[trigger] relocs[k]).0 && base == bound(k)
                        &&& advanced(job, progress, Reply::SymbolMissing) == Err::<
                            Progress,
                            InitError,
                        >(InitError::RelocFailed { op: at })
                        &&& advanced(job, progress, Reply::Relocated) matches Ok(next)
                        &&& next.entries == progress.entries
                        &&& next.next_blob == progress.next_blob
                        &&& asked(requested(job, next), addr, words, k + 1)
                    },
                Request::Publish { addr, bytes } => {
                    let prepared = reached_after(job, progress, Reply::Published);
                    &&& prepared.len() > op
                    &&& prepared.take(op) == progress.entries
                    &&& prepared[op] matches Prepared::Hw(HwBlob::Ram { addr: at, words: length })
                    &&& at == addr && 8 * length == bytes
                    &&& prepared == reached(job, progress.entries.push(prepared[op]))
                    &&& advanced(job, progress, Reply::Published) == settled(
                        job,
                        progress.entries.push(prepared[op]),
                        addr + bytes,
                    )
                },
                Request::Nothing => progress.entries.len() == job.model.ops@.len(),
            }
        }),
{
    let op = progress.entries.len() as int;
    lemma_line_up(progress.next_blob);
    match progress.stage {
        Stage::Relocate { reloc, .. } => {
            let epoch = job.model.ops@[op]->Hw_0;
            assert(epoch.relocs@.len() == epoch.relocs.len());
            assert(pending_relocs(job, progress.entries)[reloc as int] == epoch.relocs@[reloc as int]);
        },
        Stage::Publish { addr, words } => {
            let entry = Prepared::Hw(HwBlob::Ram { addr, words });
            let entries = progress.entries.push(entry);
            let prepared = reached(job, entries);
            law_settling_mirrors_ops_up_to_the_first_container(job, entries, addr + 8 * words);
            assert(prepared[op] == entries[op]);
            assert(prepared.take(op) =~= progress.entries) by {
                assert forall|i: int| 0 <= i < op implies prepared[i] == progress.entries[i] by {
                    assert(prepared[i] == entries[i]);
                }
            }
        },
        _ => {},
    }
}

/// How a preparation starts, or why it is refused, in this order: the schedule
/// is empty, the store has too little room for it, the weights that the model
/// names are refused, an op before the first container is at fault. Otherwise
/// it starts with what it was given, with the verified weights, and with all
/// of blob RAM free.
pub proof fn law_preparation_starts_with_what_it_was_given(
    model: Model,
    cfg: PrepareConfig,
    nor: NorWindow,
    blob_magic: u32,
    room: nat,
)
    requires
        model.ops@.len() <= usize::MAX,
        room <= usize::MAX,
    ensures
        ({
            let n = model.ops@.len();
            let weights = crate::weights::verified(
                nor,
                cfg.manifest,
                vstd::utf8::encode_utf8(model.id@),
                cfg.weights_base,
                cfg.verify_weights_crc,
            );
            match started(model, cfg, nor, blob_magic, room) {
                Err(InitError::EmptySchedule) => n == 0,
                Err(InitError::StoreTooSmall { needed, have }) => {
                    n > 0 && needed == n && have == room && room < n
                },
                Err(InitError::Weights(fault)) => {
                    0 < n <= room && (weights matches Err(e) && e == fault)
                },
                Err(fault) => {
                    let job = Job {
                        model,
                        io: cfg.io,
                        blob_ram: cfg.blob_ram,
                        blob_magic,
                        weights: weights->Ok_0,
                    };
                    &&& 0 < n <= room && weights is Ok
                    &&& settled(job, Seq::empty(), cfg.blob_ram.base as int) == Err::<
                        Progress,
                        InitError,
                    >(fault)
                    &&& started_with(model, cfg, nor, blob_magic, room) == reached(
                        job,
                        Seq::empty(),
                    )
                },
                Ok((job, progress)) => {
                    &&& 0 < n <= room
                    &&& weights matches Ok(image) && image == job.weights
                    &&& job.model == model
                    &&& job.io.input == cfg.io.input && job.io.output == cfg.io.output
                    &&& job.blob_ram == cfg.blob_ram
                    &&& job.blob_magic == blob_magic
                    &&& progress.entries == reached(job, Seq::empty())
                    &&& progress.next_blob == cfg.blob_ram.base
                    &&& progress.stage is Done || progress.stage is Parse
                },
            }
        }),
        started(model, cfg, nor, blob_magic, room) matches Err(fault) && (fault is EmptySchedule
            || fault is StoreTooSmall || fault is Weights) ==> {
            &&& started_with(model, cfg, nor, blob_magic, room).len() == 0
            &&& refused_early(model, cfg, nor, room)
        },
{
    if fits(model, room) {
        if let Ok(weights) = weights_of(model, cfg, nor) {
            law_settling_mirrors_ops_up_to_the_first_container(
                job_of(model, cfg, blob_magic, weights),
                Seq::empty(),
                cfg.blob_ram.base as int,
            );
        }
    }
}

/// A preparation that is called for starts, with that job and that progress,
/// and an error that is called for is the one that is returned.
pub proof fn law_outcomes_are_returned_as_called_for(
    result: Result<Preparation, InitError>,
    outcome: Result<(Job, Progress), InitError>,
)
    requires
        starts_as(result, outcome),
    ensures
        outcome matches Err(fault) ==> (result matches Err(e) && e == fault),
        outcome matches Ok((job, progress)) ==> {
            &&& result matches Ok(preparation)
            &&& preparation.job() == job
            &&& preparation.progress().entries == progress.entries
            &&& preparation.progress().next_blob == progress.next_blob
            &&& preparation.progress().stage == progress.stage
            &&& consistent(job, progress)
        },
{
    if let Ok(preparation) = result {
        if outcome is Ok {
            preparation.law_preparations_are_consistent();
        }
    }
}

/// A schedule fits a store that has at least one entry per op, and there is at
/// least one op. A model can be prepared where its manifest and the image that
/// the manifest gives for its id are mapped.
pub proof fn law_preparable_models_have_their_weights_mapped(
    model: Model,
    cfg: PrepareConfig,
    nor: NorWindow,
    room: nat,
)
    ensures
        fits(model, room) <==> model.ops@.len() >= 1 && room >= model.ops@.len(),
        preparable(model, cfg, nor) <==> {
            &&& crate::weights::manifest_mapped(nor, cfg.manifest)
            &&& crate::weights::located(
                nor,
                cfg.manifest,
                vstd::utf8::encode_utf8(model.id@),
                cfg.weights_base,
            ) matches Ok(info) ==> nor.base <= info.base && info.base + info.len <= nor.base
                + nor.bytes@.len()
        },
{
}

/// What a sound schedule holds. Every entry is what its op says: an operator
/// and a cache fence have the same content, a bare blob is dispatched from
/// flash, and a container's blob from RAM. The blobs in RAM lie in blob RAM,
/// start on cache lines, and no two of them share a line.
pub proof fn law_sound_schedules_mirror_their_ops(
    ops: Seq<Op>,
    entries: Seq<Prepared>,
    blob_magic: u32,
    blob_ram: Region,
    next_blob: int,
    i: int,
    j: int,
)
    requires
        sound(ops, entries, blob_magic, blob_ram, next_blob),
        0 <= i < entries.len(),
        i < j,
    ensures
        match ops[i] {
            Op::Sw(sw) => entries[i] == Prepared::Sw(sw),
            Op::CacheClean { addr, size } => entries[i] == (Prepared::CacheClean { addr, size }),
            Op::CacheInvalidate { addr, size } => entries[i] == (Prepared::CacheInvalidate {
                addr,
                size,
            }),
            Op::Hw(epoch) => {
                &&& epoch.data@.len() > 0
                &&& if epoch.data@[0] % 0x1_0000_0000 == blob_magic {
                    entries[i] == Prepared::Hw(HwBlob::Flash(epoch.data))
                } else {
                    entries[i] matches Prepared::Hw(HwBlob::Ram { .. })
                }
            },
        },
        entries[i] matches Prepared::Hw(HwBlob::Ram { addr, words }) ==> {
            &&& addr % 64 == 0
            &&& blob_ram.base <= addr
            &&& addr + 8 * words <= next_blob <= blob_ram.base + blob_ram.len
            &&& j < entries.len() ==> (entries[j] matches Prepared::Hw(
                HwBlob::Ram { addr: later, .. },
            ) ==> {
                &&& addr + 8 * words <= later
                &&& words > 0 ==> (addr + 8 * words - 1) / 64 < later as int / 64
            })
        },
{
    assert(mirrors(ops[i], entries[i], blob_magic));
    if is_relocated(entries[i]) {
        lemma_line_up(blob_end(entries[i]));
        if j < entries.len() && is_relocated(entries[j]) {
            assert(line_up(blob_end(entries[i])) <= blob_start(entries[j]));
        }
    }
}

/// Each blob in RAM starts on the first cache line at or after the end of the
/// blob in RAM before it, or of the base of blob RAM if it is the first. So
/// blob RAM holds no gap of a line or more, and what is in use ends where the
/// last blob ends.
pub proof fn law_blobs_follow_each_other(
    ops: Seq<Op>,
    entries: Seq<Prepared>,
    blob_magic: u32,
    blob_ram: Region,
    next_blob: int,
    i: int,
    j: int,
)
    requires
        sound(ops, entries, blob_magic, blob_ram, next_blob),
        -1 <= i < j <= entries.len(),
        i >= 0 ==> entries[i] matches Prepared::Hw(HwBlob::Ram { .. }),
        forall|k: int|
            i < k < j ==> !(#[trigger] entries[k] matches Prepared::Hw(HwBlob::Ram { .. })),
    ensures
        ({
            let free = if i >= 0 {
                entries[i]->Hw_0->addr + 8 * entries[i]->Hw_0->words
            } else {
                blob_ram.base as int
            };
            if j == entries.len() {
                next_blob == free
            } else {
                entries[j] matches Prepared::Hw(HwBlob::Ram { addr, .. }) ==> addr % 64 == 0
                    && free <= addr < free + 64
            }
        }),
{
    let base = blob_ram.base as int;
    let front = entries.take(j);
    assert forall|k: int| i < k < front.len() implies !is_relocated(#[trigger] front[k]) by {
        assert(front[k] == entries[k]);
    }
    law_last_blob_bounds_blob_ram(front, base, i);
    lemma_line_up(blob_top(front, base));
    if j == entries.len() {
        assert(front =~= entries);
    }
}

/// A preparation takes one reply at a time, and stops at the first error.
pub proof fn law_replies_are_taken_one_by_one(
    job: Job,
    progress: Progress,
    replies: Seq<Reply>,
    reply: Reply,
)
    ensures
        driven(job, progress, Seq::empty()) == Ok::<Progress, InitError>(progress),
        driven(job, progress, replies.push(reply)) == match driven(job, progress, replies) {
            Ok(before) => advanced(job, before, reply),
            Err(fault) => Err::<Progress, InitError>(fault),
        },
{
    lemma_driven_push(job, progress, replies, reply);
}

/// Every request but the last can be replied to, with success and with each of
/// its failures.
pub proof fn law_requests_can_be_answered(job: Job, progress: Progress, words: usize)
    requires
        consistent(job, progress),
    ensures
        match requested(job, progress) {
            Request::Parse { .. } => {
                &&& answers(progress.stage, Reply::Parsed { words })
                &&& answers(progress.stage, Reply::NotAContainer)
                &&& answers(progress.stage, Reply::BadBlobSection)
            },
            Request::Copy { .. } => {
                answers(progress.stage, Reply::Copied) && answers(
                    progress.stage,
                    Reply::CopyFailed,
                )
            },
            Request::Relocate { .. } => {
                answers(progress.stage, Reply::Relocated) && answers(
                    progress.stage,
                    Reply::SymbolMissing,
                )
            },
            Request::Publish { .. } => answers(progress.stage, Reply::Published),
            Request::Nothing => progress.stage is Done,
        },
{
}

} // verus!
