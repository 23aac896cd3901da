//! Error types.
//!
//! Split by phase, because the two have different audiences: [`InitError`] is
//! almost always a build or provisioning mistake and is read by whoever brings
//! the board up, while [`InferError`] is a runtime fault and is read from a log
//! after the fact.

use vstd::prelude::*;

use crate::weights::WeightError;

verus! {

/// Something went wrong preparing a program.
///
/// Every variant carries enough context to act on without a debugger.
#[allow(inconsistent_fields)]
#[derive(Clone, Copy, Debug, PartialEq, Eq)]
pub enum InitError {
    /// The generated schedule is empty.
    EmptySchedule,
    /// The schedule has more ops than the caller's store can hold.
    StoreTooSmall { needed: usize, have: usize },
    /// A hardware epoch's blob array is zero-length.
    EmptyBlob { op: usize },
    /// A bare blob carries relocations, which cannot be applied because there
    /// is no relocation table to apply them to.
    BareBlobHasRelocs { op: usize },
    /// The blob is neither a bare blob nor a parseable container.
    BadEcBinary { op: usize },
    /// The container's blob section is malformed.
    BadBlobSection { op: usize },
    /// Copying the blob out of the container failed.
    BlobCopyFailed { op: usize },
    /// A relocation symbol named by the schedule is absent from the container.
    RelocFailed { op: usize },
    /// The relocated blobs do not fit in the blob RAM region. `needed` is the
    /// running total at the point of overflow, so it is a lower bound.
    BlobRamExhausted { needed: u32, have: u32 },
    /// The weight image named by the model's id failed verification.
    Weights(WeightError),
}

/// Something went wrong during a dispatch.
#[allow(inconsistent_fields)]
#[derive(Clone, Copy, Debug, PartialEq, Eq)]
pub enum InferError {
    /// The caller passed an input of the wrong length.
    InputLen { got: usize, want: usize },
    /// The caller's input is not the buffer bound at prepare time. The
    /// relocations point at the original address, so running would read
    /// whatever is still there.
    InputMoved { got: u32, bound: u32 },
    /// The caller passed an output of the wrong length.
    OutputLen { got: usize, want: usize },
    /// The accelerator reported an error completing an epoch.
    EpochFailed { op: usize },
    /// An epoch did not complete within the configured timeout.
    EpochTimeout { op: usize },
    /// A CPU-side operator rejected its arguments.
    Sw { op: usize, cause: SwError },
}

/// Why a software operator refused to run.
///
/// All of these are schedule bugs rather than runtime conditions: the shapes
/// do not vary between inferences.
#[derive(Clone, Copy, Debug, PartialEq, Eq)]
pub enum SwError {
    /// `SpaceToDepth` input dimensions are not divisible by the block size.
    S2dNotDivisible,
    /// `DepthToSpace` channel count is not divisible by `bs_h * bs_w`.
    D2sNotDivisible,
    /// Element width other than 1 or 2 bytes.
    UnsupportedElemBytes { got: u32 },
    /// A resize output extent exceeds [`crate::sw::MAX_RESIZE_EXTENT`].
    ResizeTooLarge { extent: u32 },
}

} // verus!
