use vstd::prelude::*;

verus! {

/// The failures of the command resolution engine, each with the input it concerns.
#[derive(Debug, Clone, PartialEq, Eq)]
pub enum CtError {
    /// a database is not a JSON array of objects
    ParseError { database: String, detail: String },
    /// a database object lacks a string member
    SchemaError { database: String, field: String },
    /// no database holds a record for the file
    NotFound { file: String, databases: Vec<String> },
    /// a cache entry is not three lines with a command
    CorruptEntry { entry: String },
    /// a header has neither a sibling source nor a donor record
    NoSourceFound { header: String },
    /// a record's command is empty
    EmptyCommand,
    /// preprocessing was asked of a compiler with no known flag for it
    UnsupportedOperation { compiler: String },
    /// the compiler process could not be started
    ExecutionFailed { command: String, reason: String },
    /// the file system refused an access
    IoError { reason: String },
}

/// the result type used for the whole library
pub type CtResult<T> = Result<T, CtError>;

/// What an error says, over sequences of characters.
pub enum CtErrorView {
    Parse { database: Seq<char> },
    Schema { database: Seq<char>, field: Seq<char> },
    NotFound { file: Seq<char>, databases: Seq<Seq<char>> },
    CorruptEntry { entry: Seq<char> },
    NoSourceFound { header: Seq<char> },
    EmptyCommand,
    Unsupported { compiler: Seq<char> },
    ExecutionFailed { command: Seq<char>, reason: Seq<char> },
    Io { reason: Seq<char> },
}

pub open spec fn strings_view(v: Seq<String>) -> Seq<Seq<char>> {
    v.map_values(|s: String| s@)
}

impl View for CtError {
    type V = CtErrorView;

    open spec fn view(&self) -> CtErrorView {
        match self {
            CtError::ParseError { database, .. } => CtErrorView::Parse { database: database@ },
            CtError::SchemaError { database, field } => CtErrorView::Schema {
                database: database@,
                field: field@,
            },
            CtError::NotFound { file, databases } => CtErrorView::NotFound {
                file: file@,
                databases: strings_view(databases@),
            },
            CtError::CorruptEntry { entry } => CtErrorView::CorruptEntry { entry: entry@ },
            CtError::NoSourceFound { header } => CtErrorView::NoSourceFound { header: header@ },
            CtError::EmptyCommand => CtErrorView::EmptyCommand,
            CtError::UnsupportedOperation { compiler } => CtErrorView::Unsupported {
                compiler: compiler@,
            },
            CtError::ExecutionFailed { command, reason } => CtErrorView::ExecutionFailed {
                command: command@,
                reason: reason@,
            },
            CtError::IoError { reason } => CtErrorView::Io { reason: reason@ },
        }
    }
}

/// Turns a value that may be missing into a `Result` with the given error.
pub trait OrErr: Sized {
    type R;

    fn or_err<E>(self, err: E) -> Result<Self::R, E>;
}

impl<T> OrErr for Option<T> {
    type R = T;

    fn or_err<E>(self, err: E) -> (r: Result<T, E>)
        ensures
            r == (match self {
                Some(v) => Ok::<T, E>(v),
                None => Err::<T, E>(err),
            }),
    {
        match self {
            Some(v) => Ok(v),
            None => Err(err),
        }
    }
}

impl OrErr for bool {
    type R = ();

    fn or_err<E>(self, err: E) -> (r: Result<(), E>)
        ensures
            r == (if self {
                Ok::<(), E>(())
            } else {
                Err::<(), E>(err)
            }),
    {
        if self {
            Ok(())
        } else {
            Err(err)
        }
    }
}

} // verus!
