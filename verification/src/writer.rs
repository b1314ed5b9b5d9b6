//! The atomic writer: the order of the steps by which a file is replaced, so
//! that the file holds either its old content or the new content in full.
//!
//! A caller performs the step of the current stage (write the bytes to a
//! temporary file beside the target, sync it, rename it over the target, or
//! remove it) and reports the outcome to [`after_step`], until the stage is
//! [`WriteStage::Done`].

use vstd::prelude::*;

verus! {

/// The step that is to be performed next.
#[derive(Debug, PartialEq, Eq)]
pub enum WriteStage {
    /// Create the temporary file beside the target and write all bytes to it.
    WriteTemp,
    /// Flush the temporary file and sync it to storage.
    SyncTemp,
    /// Rename the temporary file over the target.
    Rename,
    /// Remove the temporary file: an earlier step failed, with this cause.
    RemoveTemp(String),
    /// Nothing is left to do: the write succeeded, or failed with its cause.
    Done(Result<(), String>),
}

/// The stage that follows when the step of `stage` had this outcome. A
/// failure before or at the rename leads to the removal of the temporary
/// file and then to failure with the first cause, whatever the removal gave.
pub open spec fn next_stage(stage: WriteStage, outcome: Result<(), String>) -> WriteStage {
    match stage {
        WriteStage::WriteTemp => match outcome {
            Ok(_) => WriteStage::SyncTemp,
            Err(cause) => WriteStage::RemoveTemp(cause),
        },
        WriteStage::SyncTemp => match outcome {
            Ok(_) => WriteStage::Rename,
            Err(cause) => WriteStage::RemoveTemp(cause),
        },
        WriteStage::Rename => match outcome {
            Ok(_) => WriteStage::Done(Ok(())),
            Err(cause) => WriteStage::RemoveTemp(cause),
        },
        WriteStage::RemoveTemp(cause) => WriteStage::Done(Err(cause)),
        WriteStage::Done(result) => WriteStage::Done(result),
    }
}

/// The number of steps that can still follow.
pub open spec fn steps_left(stage: WriteStage) -> nat {
    match stage {
        WriteStage::WriteTemp => 4,
        WriteStage::SyncTemp => 3,
        WriteStage::Rename => 2,
        WriteStage::RemoveTemp(_) => 1,
        WriteStage::Done(_) => 0,
    }
}

/// The first stage of every write.
pub fn begin_write() -> (stage: WriteStage)
    ensures
        stage == WriteStage::WriteTemp,
{
    WriteStage::WriteTemp
}

/// The stage that follows, given the outcome of the step just performed.
pub fn after_step(stage: WriteStage, outcome: Result<(), String>) -> (next: WriteStage)
    ensures
        next == next_stage(stage, outcome),
{
    match stage {
        WriteStage::WriteTemp => match outcome {
            Ok(_) => WriteStage::SyncTemp,
            Err(cause) => WriteStage::RemoveTemp(cause),
        },
        WriteStage::SyncTemp => match outcome {
            Ok(_) => WriteStage::Rename,
            Err(cause) => WriteStage::RemoveTemp(cause),
        },
        WriteStage::Rename => match outcome {
            Ok(_) => WriteStage::Done(Ok(())),
            Err(cause) => WriteStage::RemoveTemp(cause),
        },
        WriteStage::RemoveTemp(cause) => WriteStage::Done(Err(cause)),
        WriteStage::Done(result) => WriteStage::Done(result),
    }
}

/// Model of the two files that a write touches; `None` is a file that does
/// not exist.
pub struct Disk {
    pub target: Option<Seq<u8>>,
    pub temp: Option<Seq<u8>>,
}

/// What performing the step of `stage` with this outcome can do to the disk
/// when `bytes` are to be written. A failed write may leave any temporary
/// file behind; a rename happens in full or not at all; no step but the
/// rename touches the target.
pub open spec fn performed(
    stage: WriteStage,
    outcome: Result<(), String>,
    bytes: Seq<u8>,
    before: Disk,
    after: Disk,
) -> bool {
    match stage {
        WriteStage::WriteTemp => {
            &&& after.target == before.target
            &&& outcome is Ok ==> after.temp == Some(bytes)
        },
        WriteStage::SyncTemp => after == before,
        WriteStage::Rename => if outcome is Ok {
            after.target == before.temp && after.temp is None
        } else {
            after == before
        },
        WriteStage::RemoveTemp(_) => {
            &&& after.target == before.target
            &&& outcome is Ok ==> after.temp is None
        },
        WriteStage::Done(_) => after == before,
    }
}

/// What holds of the disk at each stage of writing `bytes` over a target
/// whose content was `original`: until the rename has succeeded the target
/// is as it was, and the rename is only tried on a temporary file that holds
/// all the bytes; after a success the target holds the bytes, after a
/// failure it is as it was.
pub open spec fn target_safe(
    stage: WriteStage,
    original: Option<Seq<u8>>,
    bytes: Seq<u8>,
    disk: Disk,
) -> bool {
    match stage {
        WriteStage::WriteTemp => disk.target == original,
        WriteStage::SyncTemp => disk.target == original && disk.temp == Some(bytes),
        WriteStage::Rename => disk.target == original && disk.temp == Some(bytes),
        WriteStage::RemoveTemp(_) => disk.target == original,
        WriteStage::Done(result) => match result {
            Ok(_) => disk.target == Some(bytes),
            Err(_) => disk.target == original,
        },
    }
}

/// A write starts safe, whatever temporary file lies about.
pub proof fn lemma_write_starts_safe(original: Option<Seq<u8>>, bytes: Seq<u8>, temp: Option<Seq<u8>>)
    ensures
        target_safe(WriteStage::WriteTemp, original, bytes, Disk { target: original, temp }),
{
}

/// All or nothing: every step keeps the write safe whatever its outcome, so
/// at no stage does the target hold anything but its old content or the new
/// bytes in full, and a write that fails at any step leaves the target, or
/// its absence, as it was.
pub proof fn lemma_write_is_atomic(
    stage: WriteStage,
    outcome: Result<(), String>,
    original: Option<Seq<u8>>,
    bytes: Seq<u8>,
    before: Disk,
    after: Disk,
)
    requires
        target_safe(stage, original, bytes, before),
        performed(stage, outcome, bytes, before, after),
    ensures
        target_safe(next_stage(stage, outcome), original, bytes, after),
        after.target == original || after.target == Some(bytes),
        next_stage(stage, outcome) matches WriteStage::Done(Err(_)) ==> after.target == original,
{
}

/// Every write ends: each step leaves fewer steps, and none follows `Done`.
pub proof fn lemma_write_ends(stage: WriteStage, outcome: Result<(), String>)
    ensures
        stage is Done ==> next_stage(stage, outcome) == stage,
        !(stage is Done) ==> steps_left(next_stage(stage, outcome)) < steps_left(stage),
{
}

} // verus!
