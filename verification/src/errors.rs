//! The error taxonomy of the library, and the decoder's exit codes.

use vstd::prelude::*;

verus! {

/// Exit codes that the external decoder is documented to produce.
/// Any other value is a contract violation on the decoder's part.
#[derive(Clone, Copy, Debug, PartialEq, Eq, Structural)]
pub enum ExitCode {
    NoError,
    Warning,
    FatalError,
    CmdLineError,
    NotEnoughMem,
    UserStopped,
}

impl ExitCode {
    /// The integer value the decoder reports for this code.
    pub open spec fn spec_value(self) -> int {
        match self {
            ExitCode::NoError => 0,
            ExitCode::Warning => 1,
            ExitCode::FatalError => 2,
            ExitCode::CmdLineError => 7,
            ExitCode::NotEnoughMem => 8,
            ExitCode::UserStopped => 255,
        }
    }

    /// Whether an integer is one of the documented exit codes.
    pub open spec fn spec_valid(value: int) -> bool {
        value == 0 || value == 1 || value == 2 || value == 7 || value == 8 || value == 255
    }

    /// Maps a raw decoder exit code to its meaning; every undocumented
    /// value is rejected as a contract violation.
    pub fn from_code(value: i32) -> (r: Result<ExitCode, EzzError>)
        ensures
            ExitCode::spec_valid(value as int) <==> r is Ok,
            r matches Ok(c) ==> c.spec_value() == value as int,
            r is Err ==> r == Result::<ExitCode, EzzError>::Err(EzzError::InvalidExitCode),
    {
        match value {
            0 => Ok(ExitCode::NoError),
            1 => Ok(ExitCode::Warning),
            2 => Ok(ExitCode::FatalError),
            7 => Ok(ExitCode::CmdLineError),
            8 => Ok(ExitCode::NotEnoughMem),
            255 => Ok(ExitCode::UserStopped),
            _ => Err(EzzError::InvalidExitCode),
        }
    }
}

/// Everything that can go wrong during an extraction.
///
/// `WrongPassword` is the only recoverable error: the trial engine converts
/// it into "try the next candidate". Every other variant aborts the attempt.
#[derive(Clone, Copy, Debug, PartialEq, Eq, Structural)]
pub enum EzzError {
    /// A filesystem or subprocess-spawn failure, diagnosed outside the core.
    Io,
    /// The decoder finished with a documented non-success exit code.
    Sevenzip(ExitCode),
    /// The decoder finished with an undocumented exit code.
    InvalidExitCode,
    /// The decoder rejected the password; recoverable inside the trial loop.
    WrongPassword,
    /// Every password source was exhausted without a match.
    NoMatchedPassword,
    /// The vault file could not be read.
    VaultError,
    /// A path had no usable stem, name, or parent, or a rename target
    /// was already occupied by a non-directory.
    PathError,
}

pub type EzzResult<T> = Result<T, EzzError>;

} // verus!
