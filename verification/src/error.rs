//! The failures the driver reports.

use vstd::prelude::*;

verus! {

/// Why a call on a buffer, a session or the engine failed.
#[derive(Debug, Clone, Copy, PartialEq, Eq, Structural)]
pub enum Error {
    /// A session was asked for while another one is live.
    ResourceBusy,
    /// A qubit was measured while an earlier measurement of it has not been read back.
    SlotConflict,
    /// The engine rejected a script or gave no usable sample.
    EngineError,
}

/// The text that describes `e`.
pub open spec fn error_text(e: Error) -> Seq<char> {
    match e {
        Error::ResourceBusy => "the engine session is in use"@,
        Error::SlotConflict => "qubit measured again before its result was read back"@,
        Error::EngineError => "the engine rejected the script or produced no sample"@,
    }
}

impl Error {
    /// A sentence for logs and panics.
    pub fn message(&self) -> (text: String)
        ensures
            text@ == error_text(*self),
    {
        match self {
            Error::ResourceBusy => "the engine session is in use".to_owned(),
            Error::SlotConflict => "qubit measured again before its result was read back".to_owned(),
            Error::EngineError => "the engine rejected the script or produced no sample".to_owned(),
        }
    }
}

} // verus!
