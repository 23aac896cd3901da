//! What the application says about a model before it can be prepared.
//!
//! [`Model`] is generated data. The items of [`InferenceModel`] are placement
//! decisions that a human makes and the generator has no way to know: which
//! region the relocated blobs live in, which slot holds the weights, and how
//! many prepared-schedule entries to reserve. A zero-sized marker type per
//! model states them once.
//!
//! Pre- and post-processing is not covered: it has nothing in common between
//! models but a byte count, and lives next to the model in the application.

use vstd::prelude::*;

use crate::ir::{Model, Region};

verus! {

/// A compiled network, plus where its pieces live.
pub trait InferenceModel {
    /// Region for this model's relocated blobs. Per model and not shareable,
    /// unlike the tensor arena: the blobs are patched with the program's IO
    /// addresses.
    const BLOB_RAM: Region;

    /// Base address of this model's weight slot in NOR. Must match the slot
    /// the image was flashed to; preparation cross-checks it against the
    /// manifest and refuses on a mismatch.
    const WEIGHTS_BASE: u32;

    /// Upper bound on prepared-schedule entries, for sizing the caller's
    /// store. The prepared schedule has exactly one entry per op.
    const MAX_OPS: usize;

    /// The compiled schedule. Its `id` is the look-up key into the flash
    /// weight manifest.
    fn descriptor() -> &'static Model;
}

} // verus!
