use vstd::prelude::*;

verus! {

/// Closed error taxonomy of the library.
///
/// `NetworkError`: the remote timetable site did not respond or failed at the
/// transport level. `ParsingError`: a remote page did not have the expected
/// structure. `CodecError`: a calendar-query token matched neither the current
/// nor the legacy schema.
#[derive(Clone, Copy, Debug, PartialEq, Eq, Structural)]
pub enum AppError {
    NetworkError,
    ParsingError,
    CodecError,
}

impl AppError {
    /// The only detail ever shown to an API caller.
    pub fn message(&self) -> (r: String)
        ensures
            r@ == "Internal server error"@,
    {
        "Internal server error".to_owned()
    }
}

pub type AppResult<T> = Result<T, AppError>;

} // verus!
