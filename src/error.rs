use vstd::prelude::*;

use crate::text::{owned, push_all, string_of};

verus! {

/// The ways an operation can fail.
#[derive(Debug, Clone, PartialEq, Eq)]
pub enum AppError {
    /// The debugger answered `^error`, or could not be started.
    GDBError(String),
    /// A command took longer than the configured timeout.
    GDBTimeout,
    /// A command is already in flight, or the program is running.
    GDBBusy,
    /// The debugger exited or its output closed.
    GDBQuit,
    /// Output could not be read as a structured record.
    ParseError(String),
    /// Reading from or writing to the debugger failed.
    IoError(String),
    /// No session has this identifier.
    NotFound(String),
    /// A malformed request, or a reply that does not match its command.
    InvalidArgument(String),
}

/// The human-readable message of an error.
pub open spec fn error_message(e: AppError) -> Seq<char> {
    match e {
        AppError::GDBError(m) => "GDB error: "@ + m@,
        AppError::GDBTimeout => "GDB timeout"@,
        AppError::GDBBusy => "GDB busy"@,
        AppError::GDBQuit => "GDB quit"@,
        AppError::ParseError(m) => "Parse error: "@ + m@,
        AppError::IoError(m) => "IO error: "@ + m@,
        AppError::NotFound(m) => "Resource not found: "@ + m@,
        AppError::InvalidArgument(m) => "Invalid argument: "@ + m@,
    }
}

impl AppError {
    /// The human-readable message of this error.
    pub fn message(&self) -> (r: String)
        ensures
            r@ == error_message(*self),
    {
        let mut out: Vec<char> = Vec::new();
        match self {
            AppError::GDBError(m) => {
                push_all(&mut out, "GDB error: ");
                push_all(&mut out, m.as_str());
            },
            AppError::GDBTimeout => {
                push_all(&mut out, "GDB timeout");
            },
            AppError::GDBBusy => {
                push_all(&mut out, "GDB busy");
            },
            AppError::GDBQuit => {
                push_all(&mut out, "GDB quit");
            },
            AppError::ParseError(m) => {
                push_all(&mut out, "Parse error: ");
                push_all(&mut out, m.as_str());
            },
            AppError::IoError(m) => {
                push_all(&mut out, "IO error: ");
                push_all(&mut out, m.as_str());
            },
            AppError::NotFound(m) => {
                push_all(&mut out, "Resource not found: ");
                push_all(&mut out, m.as_str());
            },
            AppError::InvalidArgument(m) => {
                push_all(&mut out, "Invalid argument: ");
                push_all(&mut out, m.as_str());
            },
        }
        proof {
            assert(Seq::<char>::empty() + "GDB timeout"@ =~= "GDB timeout"@);
            assert(Seq::<char>::empty() + "GDB busy"@ =~= "GDB busy"@);
            assert(Seq::<char>::empty() + "GDB quit"@ =~= "GDB quit"@);
            match self {
                AppError::GDBError(m) => {
                    assert(Seq::<char>::empty() + "GDB error: "@ =~= "GDB error: "@);
                },
                AppError::ParseError(m) => {
                    assert(Seq::<char>::empty() + "Parse error: "@ =~= "Parse error: "@);
                },
                AppError::IoError(m) => {
                    assert(Seq::<char>::empty() + "IO error: "@ =~= "IO error: "@);
                },
                AppError::NotFound(m) => {
                    assert(Seq::<char>::empty() + "Resource not found: "@
                        =~= "Resource not found: "@);
                },
                AppError::InvalidArgument(m) => {
                    assert(Seq::<char>::empty() + "Invalid argument: "@ =~= "Invalid argument: "@);
                },
                _ => {},
            }
        }
        string_of(&out)
    }

    /// The name of this error's class.
    pub fn kind_name(&self) -> (r: String)
        ensures
            r@ == match *self {
                AppError::GDBError(_) => "GDBError"@,
                AppError::GDBTimeout => "GDBTimeout"@,
                AppError::GDBBusy => "GDBBusy"@,
                AppError::GDBQuit => "GDBQuit"@,
                AppError::ParseError(_) => "ParseError"@,
                AppError::IoError(_) => "IoError"@,
                AppError::NotFound(_) => "NotFound"@,
                AppError::InvalidArgument(_) => "InvalidArgument"@,
            },
    {
        match self {
            AppError::GDBError(_) => owned("GDBError"),
            AppError::GDBTimeout => owned("GDBTimeout"),
            AppError::GDBBusy => owned("GDBBusy"),
            AppError::GDBQuit => owned("GDBQuit"),
            AppError::ParseError(_) => owned("ParseError"),
            AppError::IoError(_) => owned("IoError"),
            AppError::NotFound(_) => owned("NotFound"),
            AppError::InvalidArgument(_) => owned("InvalidArgument"),
        }
    }
}

} // verus!
