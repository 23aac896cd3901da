//! Multi-model runtime for the STM32N6 Neural-ART accelerator.
//!
//! One device, many compiled schedules, one shared activation arena.
//!
//! # The shape of the problem
//!
//! The network compiler turns a network into a sequence of *epochs*: opaque
//! binary blobs that the accelerator executes directly, interleaved with
//! CPU-side operators for everything the hardware cannot express, plus cache
//! fences between them. It also allocates an activation arena and bakes those
//! addresses into the blobs.
//!
//! Every model compiled against the same memory pools uses the same arena
//! addresses. So models cannot run concurrently, but they cost nothing to
//! coexist: the arena is dead between inferences, and the per-model cost is
//! only the relocated blobs. Hence the split:
//!
//! * [`NpuDevice`]: the accelerator, the arena, the cache counters. Exactly
//!   one.
//! * [`Program`]: one model bound to its buffers, with its blobs relocated
//!   into its own small region. As many as you like.
//! * [`Model`]: the compiled schedule itself, immutable and shared.
//!
//! # What this crate does
//!
//! It decides, and it computes on bytes; it touches no hardware. What has to
//! be done to the hardware it asks for, one step at a time, and it is told
//! what came of it: a [`Preparation`] asks the container loader to parse, copy
//! and patch blobs, and a [`Dispatch`] commands epochs, operators and cache
//! operations. The weight check reads flash through a [`NorWindow`], and the
//! CPU-side operators of [`sw`] map the bytes they read to the bytes they
//! write.
//!
//! It does not preprocess or postprocess tensors, and it does not schedule
//! between models.

pub mod bytes;
pub mod device;
pub mod error;
pub mod ir;
pub mod model;
pub mod nor;
pub mod program;
pub mod stats;
pub mod sw;
pub mod weights;

pub use device::{Command, DeviceConfig, Dispatch, EpochOutcome, Event, NpuDevice};
pub use error::{InferError, InitError, SwError};
pub use ir::{blob_words, Blob, Epoch, Io, IoBinding, Model, Op, Region, Scores, SwOp};
pub use model::InferenceModel;
pub use nor::NorWindow;
pub use program::{HwBlob, PrepareConfig, Preparation, Prepared, Program, Reply, Request};
pub use stats::Stats;
pub use weights::{ManifestLocation, WeightError, WeightInfo};
