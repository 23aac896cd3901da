//! The accelerator as a singleton resource.
//!
//! There is one accelerator, one activation arena and one set of cache
//! counters. [`NpuDevice`] stands for all three. Everything that is per model,
//! the relocated blobs and the IO bindings, lives in a [`Program`].
//!
//! [`NpuDevice::run`] borrows the device for the whole of a dispatch, so only
//! one program is under way at a time. Since programs share the arena, and
//! whichever schedule is running scribbles over it, two dispatches at a time
//! would corrupt each other's activations.
//!
//! The device decides what happens in a dispatch and in which order: it
//! returns a [`Dispatch`], which commands one action at a time, takes the
//! event that the action ended in, and ends with the [`Stats`] of the run.
//!
//! # Scheduling
//!
//! Inference is not preemptible: an epoch, once dispatched, runs to
//! completion. A model that has to meet a deadline must fit in the gaps left
//! by the others, which is a budget the caller keeps.

use vstd::prelude::*;

use crate::error::InferError;
use crate::ir::{IoBinding, Model, SwOp};
use crate::program::{HwBlob, Prepared, Program};
use crate::stats::Stats;
use crate::sw::{is_well_shaped, plan, Transfer};

verus! {

/// Device-wide settings.
#[derive(Clone, Copy, Debug, PartialEq, Eq)]
pub struct DeviceConfig {
    /// Per-epoch dispatch timeout, in microseconds.
    ///
    /// A deadlock escape, not a scheduling parameter: set it well above the
    /// slowest epoch.
    pub epoch_timeout: u64,
    /// Read the cache hit and miss counters around each dispatch.
    pub cache_counters: bool,
}

impl Default for DeviceConfig {
    /// Four seconds per epoch, with cache counters.
    fn default() -> (cfg: Self)
        ensures
            cfg.epoch_timeout == 4_000_000,
            cfg.cache_counters,
    {
        Self { epoch_timeout: 4_000_000, cache_counters: true }
    }
}

/// How a hardware epoch ended.
#[derive(Clone, Copy, Debug, PartialEq, Eq)]
pub enum EpochOutcome {
    Completed,
    Failed,
    TimedOut,
}

/// What has to be done next in a dispatch.
#[derive(Clone, Copy, Debug, PartialEq, Eq)]
pub enum Command {
    /// Write the cached lines of a range back to memory.
    Clean { addr: u32, size: u32 },
    /// Drop the cached lines of a range.
    Invalidate { addr: u32, size: u32 },
    /// Read the cache hit and miss counters.
    ReadCounters,
    /// Run a hardware epoch, and time it. It is given up after `timeout`
    /// microseconds.
    RunEpoch { op: usize, blob: HwBlob, timeout: u64 },
    /// Run a software operator over the given transfer, and time it.
    RunSw { op: usize, sw: SwOp, transfer: Transfer },
    /// Do nothing.
    Skip,
    /// The dispatch is over.
    Finished { stats: Stats },
}

/// What a command ended in.
#[derive(Clone, Copy, Debug, PartialEq, Eq)]
pub enum Event {
    /// The cache operation is done, or there was nothing to do.
    Done,
    /// The counters read this.
    Counters { hits: u32, misses: u32 },
    /// The epoch ended, after `us` microseconds.
    Epoch { us: u64, outcome: EpochOutcome },
    /// The software operator ran, for `us` microseconds.
    Sw { us: u64 },
}

/// How far a dispatch has come.
#[derive(Clone, Copy, Debug, PartialEq, Eq)]
pub enum Phase {
    /// The input is to be published to the accelerator.
    CleanInput,
    /// Cached copies of the output are to be dropped.
    InvalidateOutput,
    /// The counters are to be read a first time.
    CountersBefore,
    /// Op `index` is to run.
    Op { index: usize },
    /// Cached copies of the output are to be dropped again: the final tensor
    /// was written behind the CPU's back.
    InvalidateAgain,
    /// The counters are to be read a second time.
    CountersAfter,
    /// There is nothing left to do.
    Finished,
}

/// What stays fixed during a dispatch.
pub ghost struct Run {
    pub cfg: DeviceConfig,
    pub ops: Seq<Prepared>,
    pub io: IoBinding,
    pub input_len: usize,
    pub output_len: usize,
}

/// What changes during a dispatch.
pub ghost struct RunState {
    pub phase: Phase,
    pub stats: Stats,
    pub hits: u32,
    pub misses: u32,
}

/// A number modulo the range of a 32-bit counter.
pub open spec fn low32(x: int) -> u32 {
    (x % 0x1_0000_0000) as u32
}

/// Why a dispatch is refused before it starts, if it is.
pub open spec fn refused(
    model: Model,
    io: IoBinding,
    input_addr: u32,
    input_len: usize,
    output_len: usize,
) -> Option<InferError> {
    if input_len != model.input_bytes {
        Some(InferError::InputLen { got: input_len, want: model.input_bytes })
    } else if input_addr != io.input {
        Some(InferError::InputMoved { got: input_addr, bound: io.input })
    } else if output_len != model.scores.size() {
        Some(InferError::OutputLen { got: output_len, want: model.scores.size() })
    } else {
        None
    }
}

/// The state in which op `index` is to run, or in which the schedule is over.
/// A software operator that its check refuses ends the dispatch.
pub open spec fn entered(run: Run, state: RunState, index: int) -> Result<RunState, InferError> {
    if index >= run.ops.len() {
        Ok(RunState { phase: Phase::InvalidateAgain, ..state })
    } else {
        match run.ops[index] {
            Prepared::Sw(sw) => match crate::sw::fault(sw) {
                Some(cause) => Err(InferError::Sw { op: index as usize, cause }),
                None => Ok(RunState { phase: Phase::Op { index: index as usize }, ..state }),
            },
            _ => Ok(RunState { phase: Phase::Op { index: index as usize }, ..state }),
        }
    }
}

/// The command of a dispatch.
pub open spec fn commanded(run: Run, state: RunState) -> Command {
    match state.phase {
        Phase::CleanInput => Command::Clean {
            addr: run.io.input,
            size: low32(run.input_len as int),
        },
        Phase::InvalidateOutput => Command::Invalidate {
            addr: run.io.output,
            size: low32(run.output_len as int),
        },
        Phase::CountersBefore => Command::ReadCounters,
        Phase::Op { index } => match run.ops[index as int] {
            Prepared::Hw(blob) => Command::RunEpoch {
                op: index,
                blob,
                timeout: run.cfg.epoch_timeout,
            },
            Prepared::Sw(sw) => Command::RunSw {
                op: index,
                sw,
                transfer: crate::sw::transfer_of(sw),
            },
            Prepared::CacheClean { addr, size } => Command::Clean { addr, size },
            Prepared::CacheInvalidate { addr, size } => Command::Invalidate { addr, size },
            Prepared::Empty => Command::Skip,
        },
        Phase::InvalidateAgain => Command::Invalidate {
            addr: run.io.output,
            size: low32(run.output_len as int),
        },
        Phase::CountersAfter => Command::ReadCounters,
        Phase::Finished => Command::Finished { stats: state.stats },
    }
}

/// Whether `event` is an event that `command` can end in.
pub open spec fn ends(command: Command, event: Event) -> bool {
    match command {
        Command::Clean { .. } => event is Done,
        Command::Invalidate { .. } => event is Done,
        Command::Skip => event is Done,
        Command::ReadCounters => event is Counters,
        Command::RunEpoch { .. } => event is Epoch,
        Command::RunSw { .. } => event is Sw,
        Command::Finished { .. } => false,
    }
}

/// What a dispatch comes to after an event.
pub open spec fn stepped(run: Run, state: RunState, event: Event) -> Result<RunState, InferError> {
    match (state.phase, event) {
        (Phase::CleanInput, _) => Ok(RunState { phase: Phase::InvalidateOutput, ..state }),
        (Phase::InvalidateOutput, _) => if run.cfg.cache_counters {
            Ok(RunState { phase: Phase::CountersBefore, ..state })
        } else {
            entered(run, state, 0)
        },
        (Phase::CountersBefore, Event::Counters { hits, misses }) => entered(
            run,
            RunState { hits, misses, ..state },
            0,
        ),
        (Phase::Op { index }, Event::Epoch { us, outcome }) => match outcome {
            EpochOutcome::Failed => Err(InferError::EpochFailed { op: index }),
            EpochOutcome::TimedOut => Err(InferError::EpochTimeout { op: index }),
            EpochOutcome::Completed => entered(
                run,
                RunState {
                    stats: Stats {
                        hw_us: low32(state.stats.hw_us + us),
                        hw_ops: (state.stats.hw_ops + 1) as u32,
                        ..state.stats
                    },
                    ..state
                },
                index + 1,
            ),
        },
        (Phase::Op { index }, Event::Sw { us }) => entered(
            run,
            RunState {
                stats: Stats {
                    sw_us: low32(state.stats.sw_us + us),
                    sw_ops: (state.stats.sw_ops + 1) as u32,
                    ..state.stats
                },
                ..state
            },
            index + 1,
        ),
        (Phase::Op { index }, _) => entered(run, state, index + 1),
        (Phase::InvalidateAgain, _) => if run.cfg.cache_counters {
            Ok(RunState { phase: Phase::CountersAfter, ..state })
        } else {
            Ok(RunState { phase: Phase::Finished, ..state })
        },
        (Phase::CountersAfter, Event::Counters { hits, misses }) => Ok(
            RunState {
                phase: Phase::Finished,
                stats: Stats {
                    cache_read_hits: low32(hits - state.hits),
                    cache_read_misses: low32(misses - state.misses),
                    ..state.stats
                },
                ..state
            },
        ),
        _ => Ok(state),
    }
}

/// The state in which a dispatch starts.
pub open spec fn initial() -> RunState {
    RunState { phase: Phase::CleanInput, stats: Stats::zero(), hits: 0, misses: 0 }
}

/// The number of hardware epochs among `ops`.
pub open spec fn hw_count(ops: Seq<Prepared>) -> nat {
    ops.filter(|p: Prepared| p is Hw).len()
}

/// The number of software operators among `ops`.
pub open spec fn sw_count(ops: Seq<Prepared>) -> nat {
    ops.filter(|p: Prepared| p is Sw).len()
}

/// Whether a schedule can be dispatched: its ops can be counted in 32 bits,
/// and its software operators are ones that a schedule can hold.
pub open spec fn dispatchable(ops: Seq<Prepared>) -> bool {
    &&& ops.len() <= u32::MAX
    &&& forall|i: int|
        0 <= i < ops.len() ==> (#[trigger] ops[i] matches Prepared::Sw(sw)
            ==> crate::sw::well_shaped(sw))
}

/// How many ops have run in a state.
pub open spec fn ran(run: Run, state: RunState) -> int {
    match state.phase {
        Phase::CleanInput => 0,
        Phase::InvalidateOutput => 0,
        Phase::CountersBefore => 0,
        Phase::Op { index } => index as int,
        _ => run.ops.len() as int,
    }
}

/// What holds of a dispatch at every step: the op at hand exists and is not
/// one that its check refuses, each op that ran was counted once, and the
/// cache counts stay zero until the end, and where counters are not read.
pub open spec fn tallied(run: Run, state: RunState) -> bool {
    &&& dispatchable(run.ops)
    &&& state.phase matches Phase::Op { index } ==> {
        &&& index < run.ops.len()
        &&& run.ops[index as int] matches Prepared::Sw(sw) ==> crate::sw::fault(sw) is None
    }
    &&& state.phase is CountersBefore || state.phase is CountersAfter ==> run.cfg.cache_counters
    &&& state.stats.hw_ops == hw_count(run.ops.take(ran(run, state)))
    &&& state.stats.sw_ops == sw_count(run.ops.take(ran(run, state)))
    &&& state.phase !is Finished || !run.cfg.cache_counters ==> state.stats.cache_read_hits == 0
        && state.stats.cache_read_misses == 0
}

proof fn lemma_counts_step(ops: Seq<Prepared>, i: int)
    requires
        0 <= i < ops.len(),
    ensures
        hw_count(ops.take(0)) == 0,
        sw_count(ops.take(0)) == 0,
        hw_count(ops.take(i + 1)) == hw_count(ops.take(i)) + (if ops[i] is Hw { 1int } else { 0 }),
        sw_count(ops.take(i + 1)) == sw_count(ops.take(i)) + (if ops[i] is Sw { 1int } else { 0 }),
        hw_count(ops.take(i)) <= i,
        sw_count(ops.take(i)) <= i,
    decreases i,
{
    crate::ir::lemma_filter_take(ops, |p: Prepared| p is Hw, i);
    crate::ir::lemma_filter_take(ops, |p: Prepared| p is Sw, i);
    if i > 0 {
        lemma_counts_step(ops, i - 1);
    }
}

/// A dispatch starts with nothing run and nothing counted.
pub proof fn law_dispatch_starts_tallied(run: Run)
    requires
        dispatchable(run.ops),
    ensures
        tallied(run, initial()),
{
    reveal(Seq::filter);
    assert(run.ops.take(0).len() == 0);
}

/// Every event that the pending command can end in keeps the tally, or ends
/// the dispatch with an error.
pub proof fn law_events_keep_tally(run: Run, state: RunState, event: Event)
    requires
        tallied(run, state),
        ends(commanded(run, state), event),
    ensures
        stepped(run, state, event) matches Ok(next) ==> tallied(run, next),
{
    if let Phase::Op { index } = state.phase {
        lemma_counts_step(run.ops, index as int);
    }
    reveal(Seq::filter);
    assert(run.ops.take(0).len() == 0);
}

/// The accelerator, as the one resource that dispatches programs.
pub struct NpuDevice {
    cfg: DeviceConfig,
}

/// A dispatch under way.
pub struct Dispatch<'d, 'a> {
    device: &'d NpuDevice,
    program: &'d Program<'a>,
    input_len: usize,
    output_len: usize,
    phase: Phase,
    stats: Stats,
    hits: u32,
    misses: u32,
}

impl NpuDevice {
    /// The device's settings.
    pub closed spec fn settings(self) -> DeviceConfig {
        self.cfg
    }

    /// A device with the given settings.
    pub fn new(cfg: &DeviceConfig) -> (device: Self)
        ensures
            device.settings() == *cfg,
    {
        Self { cfg: *cfg }
    }

    /// The device's settings.
    pub fn config(&self) -> (cfg: &DeviceConfig)
        ensures
            *cfg == self.settings(),
    {
        &self.cfg
    }

    /// Begin one inference.
    ///
    /// The caller has already written `input_len` bytes at `input_addr`, the
    /// address bound in `program`, and expects `output_len` bytes of output.
    /// The relocations baked the input address into the blobs at prepare time,
    /// so a different buffer is refused: its contents would not be read.
    pub fn run<'d, 'a>(
        &'d mut self,
        program: &'d mut Program<'a>,
        input_addr: u32,
        input_len: usize,
        output_len: usize,
    ) -> (result: Result<Dispatch<'d, 'a>, InferError>)
        requires
            refused(
                old(program)@.model,
                old(program)@.io,
                input_addr,
                input_len,
                output_len,
            ) is None ==> dispatchable(old(program)@.ops),
        ensures
            *final(self) == *old(self),
            *final(program) == *old(program),
            match refused(old(program)@.model, old(program)@.io, input_addr, input_len, output_len) {
                Some(fault) => result matches Err(e) && e == fault,
                None => {
                    &&& result matches Ok(dispatch)
                    &&& dispatch.wf()
                    &&& dispatch.run() == Run {
                        cfg: old(self).settings(),
                        ops: old(program)@.ops,
                        io: old(program)@.io,
                        input_len,
                        output_len,
                    }
                    &&& dispatch.state() == initial()
                },
            },
    {
        if let Some(fault) = program.refusal(input_addr, input_len, output_len) {
            return Err(fault);
        }
        let stats = Stats::default();
        let dispatch = Dispatch {
            device: self,
            program,
            input_len,
            output_len,
            phase: Phase::CleanInput,
            stats,
            hits: 0,
            misses: 0,
        };
        proof {
            law_dispatch_starts_tallied(dispatch.run());
        }
        Ok(dispatch)
    }
}

impl<'d, 'a> Dispatch<'d, 'a> {
    /// What stays fixed during this dispatch.
    pub closed spec fn run(self) -> Run {
        Run {
            cfg: self.device.cfg,
            ops: self.program@.ops,
            io: self.program@.io,
            input_len: self.input_len,
            output_len: self.output_len,
        }
    }

    /// How far this dispatch has come.
    pub closed spec fn state(self) -> RunState {
        RunState { phase: self.phase, stats: self.stats, hits: self.hits, misses: self.misses }
    }

    /// The tally of this dispatch is right.
    pub open spec fn wf(self) -> bool {
        tallied(self.run(), self.state())
    }

    /// What has to be done next.
    pub fn command(&self) -> (command: Command)
        requires
            self.wf(),
        ensures
            command == commanded(self.run(), self.state()),
    {
        let io: IoBinding = self.program.io();
        match self.phase {
            Phase::CleanInput => Command::Clean { addr: io.input, size: truncate(self.input_len as u64) },
            Phase::InvalidateOutput => Command::Invalidate {
                addr: io.output,
                size: truncate(self.output_len as u64),
            },
            Phase::CountersBefore => Command::ReadCounters,
            Phase::Op { index } => match self.program.ops()[index] {
                Prepared::Hw(blob) => Command::RunEpoch {
                    op: index,
                    blob,
                    timeout: self.device.cfg.epoch_timeout,
                },
                Prepared::Sw(sw) => match plan(&sw) {
                    Ok(transfer) => Command::RunSw { op: index, sw, transfer },
                    Err(_) => Command::Skip,
                },
                Prepared::CacheClean { addr, size } => Command::Clean { addr, size },
                Prepared::CacheInvalidate { addr, size } => Command::Invalidate { addr, size },
                Prepared::Empty => Command::Skip,
            },
            Phase::InvalidateAgain => Command::Invalidate {
                addr: io.output,
                size: truncate(self.output_len as u64),
            },
            Phase::CountersAfter => Command::ReadCounters,
            Phase::Finished => Command::Finished { stats: self.stats },
        }
    }

    /// Go on to op `index`, or to the end of the schedule.
    fn enter(self, index: usize) -> (result: Result<Dispatch<'d, 'a>, InferError>)
        requires
            dispatchable(self.run().ops),
            index <= self.run().ops.len(),
        ensures
            match entered(self.run(), self.state(), index as int) {
                Err(fault) => result matches Err(e) && e == fault,
                Ok(state) => {
                    &&& result matches Ok(next)
                    &&& next.run() == self.run()
                    &&& next.state() == state
                },
            },
    {
        let ops = self.program.ops();
        let mut next = self;
        if index >= ops.len() {
            next.phase = Phase::InvalidateAgain;
            return Ok(next);
        }
        if let Prepared::Sw(sw) = ops[index] {
            if let Err(cause) = plan(&sw) {
                return Err(InferError::Sw { op: index, cause });
            }
        }
        next.phase = Phase::Op { index };
        Ok(next)
    }

    /// Take the event that the pending command ended in.
    pub fn step(self, event: Event) -> (result: Result<Dispatch<'d, 'a>, InferError>)
        requires
            self.wf(),
            ends(commanded(self.run(), self.state()), event),
        ensures
            match stepped(self.run(), self.state(), event) {
                Err(fault) => result matches Err(e) && e == fault,
                Ok(state) => {
                    &&& result matches Ok(next)
                    &&& next.wf()
                    &&& next.run() == self.run()
                    &&& next.state() == state
                },
            },
    {
        proof {
            law_events_keep_tally(self.run(), self.state(), event);
            if let Phase::Op { index } = self.phase {
                lemma_counts_step(self.run().ops, index as int);
            }
        }
        let mut next = self;
        match (next.phase, event) {
            (Phase::CleanInput, _) => {
                next.phase = Phase::InvalidateOutput;
                Ok(next)
            },
            (Phase::InvalidateOutput, _) => {
                if next.device.cfg.cache_counters {
                    next.phase = Phase::CountersBefore;
                    Ok(next)
                } else {
                    next.enter(0)
                }
            },
            (Phase::CountersBefore, Event::Counters { hits, misses }) => {
                next.hits = hits;
                next.misses = misses;
                next.enter(0)
            },
            (Phase::Op { index }, Event::Epoch { us, outcome }) => {
                match outcome {
                    EpochOutcome::Failed => Err(InferError::EpochFailed { op: index }),
                    EpochOutcome::TimedOut => Err(InferError::EpochTimeout { op: index }),
                    EpochOutcome::Completed => {
                        next.stats.hw_us = next.stats.hw_us.wrapping_add(truncate(us));
                        next.stats.hw_ops = next.stats.hw_ops + 1;
                        next.enter(index + 1)
                    },
                }
            },
            (Phase::Op { index }, Event::Sw { us }) => {
                next.stats.sw_us = next.stats.sw_us.wrapping_add(truncate(us));
                next.stats.sw_ops = next.stats.sw_ops + 1;
                next.enter(index + 1)
            },
            (Phase::Op { index }, _) => next.enter(index + 1),
            (Phase::InvalidateAgain, _) => {
                next.phase = if next.device.cfg.cache_counters {
                    Phase::CountersAfter
                } else {
                    Phase::Finished
                };
                Ok(next)
            },
            (Phase::CountersAfter, Event::Counters { hits, misses }) => {
                next.stats.cache_read_hits = hits.wrapping_sub(next.hits);
                next.stats.cache_read_misses = misses.wrapping_sub(next.misses);
                next.phase = Phase::Finished;
                Ok(next)
            },
            _ => Ok(next),
        }
    }
}

/// The low 32 bits of a length or a time.
fn truncate(x: u64) -> (short: u32)
    ensures
        short == low32(x as int),
{
    assert(x as u32 == x % 0x1_0000_0000) by (bit_vector);
    x as u32
}

impl<'a> Program<'a> {
    /// Why a dispatch with these buffers would be refused, if it would be; see
    /// [`refused`].
    pub fn refusal(&self, input_addr: u32, input_len: usize, output_len: usize) -> (fault: Option<
        InferError,
    >)
        ensures
            fault == refused(self@.model, self@.io, input_addr, input_len, output_len),
    {
        let model = self.model();
        if input_len != model.input_bytes {
            return Some(InferError::InputLen { got: input_len, want: model.input_bytes });
        }
        let io: IoBinding = self.io();
        if input_addr != io.input {
            return Some(InferError::InputMoved { got: input_addr, bound: io.input });
        }
        let want_out: usize = model.scores.count();
        if output_len != want_out {
            return Some(InferError::OutputLen { got: output_len, want: want_out });
        }
        None
    }

    /// Whether this program's schedule can be dispatched; see
    /// [`dispatchable`].
    pub fn is_dispatchable(&self) -> (can: bool)
        ensures
            can == dispatchable(self@.ops),
    {
        let ops = self.ops();
        if ops.len() as u64 > u32::MAX as u64 {
            return false;
        }
        let mut i: usize = 0;
        while i < ops.len()
            invariant
                i <= ops@.len(),
                ops@ == self@.ops,
                forall|j: int|
                    0 <= j < i ==> (#[trigger] ops@[j] matches Prepared::Sw(sw)
                        ==> crate::sw::well_shaped(sw)),
            decreases ops@.len() - i,
        {
            if let Prepared::Sw(sw) = ops[i] {
                if !is_well_shaped(&sw) {
                    return false;
                }
            }
            i = i + 1;
        }
        true
    }
}

/// What a dispatch comes to after a sequence of events.
pub open spec fn driven(run: Run, state: RunState, events: Seq<Event>) -> Result<
    RunState,
    InferError,
>
    decreases events.len(),
{
    if events.len() == 0 {
        Ok(state)
    } else {
        match driven(run, state, events.drop_last()) {
            Err(fault) => Err(fault),
            Ok(before) => stepped(run, before, events.last()),
        }
    }
}

/// Whether each of `events` is one that the command pending at its time can
/// end in.
pub open spec fn orderly(run: Run, state: RunState, events: Seq<Event>) -> bool {
    forall|k: int|
        0 <= k < events.len() ==> (driven(run, state, #[trigger] events.take(k)) matches Ok(
            before,
        ) ==> ends(commanded(run, before), events[k]))
}

/// The time spent in hardware epochs, over a sequence of events.
pub open spec fn hw_time(events: Seq<Event>) -> int
    decreases events.len(),
{
    if events.len() == 0 {
        0
    } else {
        hw_time(events.drop_last()) + (match events.last() {
            Event::Epoch { us, .. } => us as int,
            _ => 0,
        })
    }
}

/// The time spent in software operators, over a sequence of events.
pub open spec fn sw_time(events: Seq<Event>) -> int
    decreases events.len(),
{
    if events.len() == 0 {
        0
    } else {
        sw_time(events.drop_last()) + (match events.last() {
            Event::Sw { us } => us as int,
            _ => 0,
        })
    }
}

/// How many commands precede the ops of a schedule.
pub open spec fn prelude_len(run: Run) -> int {
    if run.cfg.cache_counters {
        3
    } else {
        2
    }
}

/// How many commands have been carried out when a dispatch is in `phase`.
pub open spec fn commands_done(run: Run, phase: Phase) -> int {
    match phase {
        Phase::CleanInput => 0,
        Phase::InvalidateOutput => 1,
        Phase::CountersBefore => 2,
        Phase::Op { index } => prelude_len(run) + index,
        Phase::InvalidateAgain => prelude_len(run) + run.ops.len(),
        Phase::CountersAfter => prelude_len(run) + run.ops.len() + 1,
        Phase::Finished => 2 * prelude_len(run) + run.ops.len() - 1,
    }
}

/// What a dispatch has measured when it is in `state`, after `events`.
pub open spec fn measured(run: Run, state: RunState, events: Seq<Event>) -> bool {
    &&& events.len() == commands_done(run, state.phase)
    &&& state.stats.hw_us == low32(hw_time(events))
    &&& state.stats.sw_us == low32(sw_time(events))
    &&& run.cfg.cache_counters && events.len() > 2 ==> events[2] == (Event::Counters {
        hits: state.hits,
        misses: state.misses,
    })
    &&& run.cfg.cache_counters && state.phase is Finished ==> {
        &&& events.last() matches Event::Counters { hits, misses }
        &&& state.stats.cache_read_hits == low32(hits - state.hits)
        &&& state.stats.cache_read_misses == low32(misses - state.misses)
    }
}

/// Whatever the events, a dispatch carries out its commands one by one: the
/// cache operations and the first reading of the counters, then every op of
/// the schedule in order and once, then the closing cache operation and
/// reading. Its times are the sums of the measured times, modulo the range of
/// the counters, it counts every op once, and its cache counts are what the
/// counters went up by, modulo their range.
pub proof fn law_dispatch_runs_the_schedule_once(run: Run, events: Seq<Event>)
    requires
        dispatchable(run.ops),
        orderly(run, initial(), events),
    ensures
        driven(run, initial(), events) matches Ok(state) ==> {
            &&& tallied(run, state)
            &&& measured(run, state, events)
        },
    decreases events.len(),
{
    if events.len() == 0 {
        law_dispatch_starts_tallied(run);
    } else {
        let n = events.len() - 1;
        let earlier = events.drop_last();
        assert(events.take(n) =~= earlier);
        assert forall|k: int| 0 <= k < earlier.len() implies (driven(
            run,
            initial(),
            #[trigger] earlier.take(k),
        ) matches Ok(before) ==> ends(commanded(run, before), earlier[k])) by {
            assert(earlier.take(k) =~= events.take(k));
        }
        law_dispatch_runs_the_schedule_once(run, earlier);
        if let Ok(before) = driven(run, initial(), earlier) {
            let event = events.last();
            law_events_keep_tally(run, before, event);
            lemma_step_measures(run, before, earlier, event);
            assert(events =~= earlier.push(event));
        }
    }
}

/// One more event is measured with the ones before it.
proof fn lemma_step_measures(run: Run, before: RunState, events: Seq<Event>, event: Event)
    requires
        tallied(run, before),
        measured(run, before, events),
        ends(commanded(run, before), event),
    ensures
        stepped(run, before, event) matches Ok(after) ==> measured(
            run,
            after,
            events.push(event),
        ),
{
    let all = events.push(event);
    assert(all.drop_last() =~= events);
    assert(all.last() == event);
    assert(hw_time(all) == hw_time(events) + (match event {
        Event::Epoch { us, .. } => us as int,
        _ => 0,
    }));
    assert(sw_time(all) == sw_time(events) + (match event {
        Event::Sw { us } => us as int,
        _ => 0,
    }));
    if let Ok(after) = stepped(run, before, event) {
        match before.phase {
            Phase::CleanInput => {},
            Phase::InvalidateOutput => {},
            Phase::CountersBefore => {},
            Phase::Op { index } => {
                assert(all.len() == commands_done(run, after.phase));
                assert(run.cfg.cache_counters ==> all[2] == events[2]);
            },
            Phase::InvalidateAgain => {
                assert(run.cfg.cache_counters ==> all[2] == events[2]);
            },
            Phase::CountersAfter => {
                assert(all[2] == events[2]);
            },
            Phase::Finished => {},
        }
    }
}

/// A dispatch that finishes has run exactly as many hardware epochs, and as
/// many software operators, as the schedule it was prepared from has.
pub proof fn law_finished_dispatch_ran_every_op(
    model: Model,
    blob_magic: u32,
    blob_ram: crate::ir::Region,
    next_blob: int,
    run: Run,
    state: RunState,
)
    requires
        crate::program::sound(model.ops@, run.ops, blob_magic, blob_ram, next_blob),
        run.ops.len() == model.ops@.len(),
        tallied(run, state),
        state.phase is Finished,
    ensures
        state.stats.hw_ops == model.hw_ops().len(),
        state.stats.sw_ops == model.sw_ops().len(),
{
    lemma_counts_agree(model.ops@, run.ops, blob_magic, run.ops.len() as int);
    assert(run.ops.take(run.ops.len() as int) =~= run.ops);
    assert(model.ops@.take(run.ops.len() as int) =~= model.ops@);
}

proof fn lemma_counts_agree(
    ops: Seq<crate::ir::Op>,
    entries: Seq<Prepared>,
    blob_magic: u32,
    n: int,
)
    requires
        0 <= n <= entries.len() <= ops.len(),
        forall|i: int|
            0 <= i < entries.len() ==> crate::program::mirrors(
                ops[i],
                #[trigger] entries[i],
                blob_magic,
            ),
    ensures
        hw_count(entries.take(n)) == ops.take(n).filter(|op: crate::ir::Op| op is Hw).len(),
        sw_count(entries.take(n)) == ops.take(n).filter(|op: crate::ir::Op| op is Sw).len(),
    decreases n,
{
    if n == 0 {
        reveal(Seq::filter);
        assert(entries.take(0).len() == 0);
        assert(ops.take(0).len() == 0);
    } else {
        lemma_counts_agree(ops, entries, blob_magic, n - 1);
        lemma_counts_step(entries, n - 1);
        crate::ir::lemma_filter_take(ops, |op: crate::ir::Op| op is Hw, n - 1);
        crate::ir::lemma_filter_take(ops, |op: crate::ir::Op| op is Sw, n - 1);
        assert(crate::program::mirrors(ops[n - 1], entries[n - 1], blob_magic));
    }
}

/// Why a dispatch is refused before it starts, in this order: the input has
/// another length than the model's, it is not the buffer that is bound, the
/// output has another length than the model's scores.
pub proof fn law_dispatches_are_refused_for_their_buffers(
    model: Model,
    io: IoBinding,
    input_addr: u32,
    input_len: usize,
    output_len: usize,
)
    ensures
        ({
            let want = match model.scores {
                crate::ir::Scores::RawInt8 { count, .. } => count,
                crate::ir::Scores::UserInt8 { count } => count,
            };
            match refused(model, io, input_addr, input_len, output_len) {
                None => {
                    input_len == model.input_bytes && input_addr == io.input && output_len == want
                },
                Some(InferError::InputLen { got, want }) => {
                    got == input_len && want == model.input_bytes && got != want
                },
                Some(InferError::InputMoved { got, bound }) => {
                    &&& input_len == model.input_bytes
                    &&& got == input_addr && bound == io.input && got != bound
                },
                Some(InferError::OutputLen { got, want: wanted }) => {
                    &&& input_len == model.input_bytes && input_addr == io.input
                    &&& got == output_len && wanted == want && got != wanted
                },
                Some(_) => false,
            }
        }),
{
}

/// Time is added up over the events of epochs, and over those of operators.
pub proof fn law_times_are_added_up(events: Seq<Event>, event: Event)
    ensures
        hw_time(Seq::empty()) == 0,
        sw_time(Seq::empty()) == 0,
        hw_time(events.push(event)) - hw_time(events) == (if let Event::Epoch { us, .. } = event {
            us as int
        } else {
            0
        }),
        sw_time(events.push(event)) - sw_time(events) == (if let Event::Sw { us } = event {
            us as int
        } else {
            0
        }),
{
    assert(events.push(event).drop_last() =~= events);
}

/// The commands of a dispatch, one after the other. The first cleans the whole
/// bound input buffer, the second invalidates the whole bound output buffer,
/// and the counters are read where they are wanted. Then every op of the
/// schedule is commanded, in order and with its own content. Then the whole
/// output buffer is invalidated again, the counters are read again, and the
/// dispatch is over.
pub proof fn law_dispatch_commands_follow_the_schedule(run: Run, events: Seq<Event>)
    requires
        dispatchable(run.ops),
        orderly(run, initial(), events),
    ensures
        driven(run, initial(), events) matches Ok(state) ==> {
            let n = events.len() as int;
            let counters = run.cfg.cache_counters;
            let first = if counters { 3int } else { 2 };
            let last = first + run.ops.len();
            let end = if counters { last + 2 } else { last + 1 };
            let whole_output = |command: Command|
                command matches Command::Invalidate { addr, size } && addr == run.io.output && size
                    == run.output_len as int % 0x1_0000_0000;
            let command = commanded(run, state);
            &&& n <= end
            &&& n == 0 ==> (command matches Command::Clean { addr, size } && addr == run.io.input
                && size == run.input_len as int % 0x1_0000_0000)
            &&& n == 0 && run.input_len <= 0xFFFF_FFFF ==> command->Clean_size == run.input_len
            &&& n == 1 || n == last ==> whole_output(command)
            &&& (n == 1 || n == last) && run.output_len <= 0xFFFF_FFFF
                ==> command->Invalidate_size == run.output_len
            &&& counters && (n == 2 || n == last + 1) ==> command is ReadCounters
            &&& first <= n < last ==> match run.ops[n - first] {
                Prepared::Hw(blob) => command == (Command::RunEpoch {
                    op: (n - first) as usize,
                    blob,
                    timeout: run.cfg.epoch_timeout,
                }),
                Prepared::Sw(sw) => {
                    &&& crate::sw::fault(sw) is None
                    &&& command == (Command::RunSw {
                        op: (n - first) as usize,
                        sw,
                        transfer: crate::sw::transfer_of(sw),
                    })
                },
                Prepared::CacheClean { addr, size } => command == (Command::Clean { addr, size }),
                Prepared::CacheInvalidate { addr, size } => command == (Command::Invalidate {
                    addr,
                    size,
                }),
                Prepared::Empty => command is Skip,
            }
            &&& n == end <==> command is Finished
        },
{
    law_dispatch_runs_the_schedule_once(run, events);
}

/// What a finished dispatch reports. Its times are the sums of the measured
/// times, and its cache counts the differences between the two readings, all
/// of them modulo 2 to the 32; without readings the cache counts are zero. Its
/// op counts are the numbers of hardware epochs and of operators in the
/// schedule.
pub proof fn law_finished_dispatch_reports_what_was_measured(run: Run, events: Seq<Event>)
    requires
        dispatchable(run.ops),
        orderly(run, initial(), events),
    ensures
        driven(run, initial(), events) matches Ok(state) ==> (commanded(
            run,
            state,
        ) matches Command::Finished { stats } ==> {
            &&& stats.hw_us == hw_time(events) % 0x1_0000_0000
            &&& stats.sw_us == sw_time(events) % 0x1_0000_0000
            &&& stats.hw_ops == Set::new(
                |i: int| 0 <= i < run.ops.len() && run.ops[i] is Hw,
            ).len()
            &&& stats.sw_ops == Set::new(
                |i: int| 0 <= i < run.ops.len() && run.ops[i] is Sw,
            ).len()
            &&& if run.cfg.cache_counters {
                &&& events[2] matches Event::Counters { hits: hits0, misses: misses0 }
                &&& events.last() matches Event::Counters { hits: hits1, misses: misses1 }
                &&& stats.cache_read_hits == (hits1 - hits0) % 0x1_0000_0000
                &&& stats.cache_read_misses == (misses1 - misses0) % 0x1_0000_0000
            } else {
                stats.cache_read_hits == 0 && stats.cache_read_misses == 0
            }
        }),
{
    law_dispatch_runs_the_schedule_once(run, events);
    let n = run.ops.len() as int;
    assert(run.ops.take(n) =~= run.ops);
    crate::ir::lemma_filter_counts(run.ops, |p: Prepared| p is Hw, n);
    crate::ir::lemma_filter_counts(run.ops, |p: Prepared| p is Sw, n);
    assert(Set::new(|i: int| 0 <= i < n && run.ops[i] is Hw) =~= Set::new(
        |i: int| 0 <= i < n && (|p: Prepared| p is Hw)(run.ops[i]),
    ));
    assert(Set::new(|i: int| 0 <= i < n && run.ops[i] is Sw) =~= Set::new(
        |i: int| 0 <= i < n && (|p: Prepared| p is Sw)(run.ops[i]),
    ));
}

/// Why a dispatch ends early, and that it goes on otherwise: the epoch of op
/// `op` failed or timed out, or op `op`, which is next, is an operator that
/// its check refuses. Each error names that op.
pub proof fn law_dispatch_ends_early_for_its_cause(run: Run, events: Seq<Event>, event: Event)
    requires
        dispatchable(run.ops),
        orderly(run, initial(), events.push(event)),
        driven(run, initial(), events) is Ok,
    ensures
        ({
            let first = if run.cfg.cache_counters { 3int } else { 2 };
            let at = events.len() - first;
            let failed = event matches Event::Epoch { outcome, .. } && outcome is Failed;
            let late = event matches Event::Epoch { outcome, .. } && outcome is TimedOut;
            let refusal = if -1 <= at < run.ops.len() - 1 && run.ops[at + 1] is Sw {
                crate::sw::fault(run.ops[at + 1]->Sw_0)
            } else {
                None
            };
            match driven(run, initial(), events.push(event)) {
                Ok(_) => !failed && !late && refusal is None,
                Err(InferError::EpochFailed { op }) => {
                    failed && op == at && op < run.ops.len() && run.ops[at] is Hw
                },
                Err(InferError::EpochTimeout { op }) => {
                    late && op == at && op < run.ops.len() && run.ops[at] is Hw
                },
                Err(InferError::Sw { op, cause }) => {
                    !failed && !late && op == at + 1 && refusal == Some(cause)
                },
                Err(_) => false,
            }
        }),
{
    let all = events.push(event);
    assert(all.drop_last() =~= events);
    assert(all.take(events.len() as int) =~= events);
    assert forall|k: int| 0 <= k < events.len() implies (driven(
        run,
        initial(),
        #[trigger] events.take(k),
    ) matches Ok(before) ==> ends(commanded(run, before), events[k])) by {
        assert(events.take(k) =~= all.take(k));
        assert(events[k] == all[k]);
    }
    law_dispatch_runs_the_schedule_once(run, events);
}

/// Which schedules can be dispatched: those of fewer than 2 to the 32 ops, all
/// of whose operators are well shaped.
pub proof fn law_dispatchable_schedules_hold_possible_operators(ops: Seq<Prepared>)
    ensures
        dispatchable(ops) <==> {
            &&& ops.len() < 0x1_0000_0000
            &&& forall|i: int|
                0 <= i < ops.len() && #[trigger] ops[i] is Sw ==> crate::sw::well_shaped(
                    ops[i]->Sw_0,
                )
        },
{
}

/// A dispatch takes one event at a time, and stops at the first error.
pub proof fn law_events_are_taken_one_by_one(
    run: Run,
    state: RunState,
    events: Seq<Event>,
    event: Event,
)
    ensures
        driven(run, state, Seq::empty()) == Ok::<RunState, InferError>(state),
        driven(run, state, events.push(event)) == match driven(run, state, events) {
            Ok(before) => stepped(run, before, event),
            Err(fault) => Err::<RunState, InferError>(fault),
        },
        orderly(run, state, Seq::empty()),
        orderly(run, state, events.push(event)) <==> {
            &&& orderly(run, state, events)
            &&& driven(run, state, events) matches Ok(before) ==> ends(
                commanded(run, before),
                event,
            )
        },
{
    let all = events.push(event);
    let n = events.len() as int;
    assert(all.drop_last() =~= events);
    assert(all.take(n) =~= events);
    assert forall|k: int| 0 <= k < n implies all.take(k) == #[trigger] events.take(k) by {
        assert(all.take(k) =~= events.take(k));
    }
    if orderly(run, state, all) {
        assert forall|k: int| 0 <= k < n implies (driven(
            run,
            state,
            #[trigger] events.take(k),
        ) matches Ok(before) ==> ends(commanded(run, before), events[k])) by {
            assert(all.take(k) == events.take(k));
            assert(all[k] == events[k]);
        }
        assert(driven(run, state, all.take(n)) == driven(run, state, events));
    }
    if orderly(run, state, events) && (driven(run, state, events) matches Ok(before) ==> ends(
        commanded(run, before),
        event,
    )) {
        assert forall|k: int| 0 <= k < all.len() implies (driven(
            run,
            state,
            #[trigger] all.take(k),
        ) matches Ok(before) ==> ends(commanded(run, before), all[k])) by {
            if k < n {
                assert(all.take(k) == events.take(k));
                assert(all[k] == events[k]);
            }
        }
    }
}

/// Every command but the last can end, in events of one kind, whatever was
/// measured and however an epoch ended.
pub proof fn law_commands_end_in_their_events(
    command: Command,
    hits: u32,
    misses: u32,
    us: u64,
    outcome: EpochOutcome,
)
    ensures
        match command {
            Command::Clean { .. } | Command::Invalidate { .. } | Command::Skip => ends(
                command,
                Event::Done,
            ),
            Command::ReadCounters => ends(command, Event::Counters { hits, misses }),
            Command::RunEpoch { .. } => ends(command, Event::Epoch { us, outcome }),
            Command::RunSw { .. } => ends(command, Event::Sw { us }),
            Command::Finished { .. } => !ends(command, Event::Done),
        },
{
}

} // verus!
