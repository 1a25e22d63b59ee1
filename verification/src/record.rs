//! Recording formats offered by the disk recorder.
//!
//! The recorder itself writes files and runs its own thread, outside
//! this library; the format choice is plain data and lives here.

use vstd::prelude::*;

verus! {

/// Container format for a recording.
#[derive(Clone, Copy, Debug, PartialEq, Eq)]
pub enum RecordingFormat {
    Wav,
    Ogg,
}

} // verus!
