use vstd::prelude::*;
use crate::text::{at_offset, describe_at};
use vstd::string::StringExecFns;

verus! {

/// The kinds of failure that reading a TSM file can report.
#[derive(Clone, Copy, Debug, PartialEq, Eq, Structural)]
pub enum ErrorKind {
    /// The bytes asked for lie outside the file.
    Io,
    /// The bytes are there but do not form a valid record.
    Decode,
    /// The block holds a value type that is not decoded.
    UnsupportedBlockType,
}

/// An error with its kind and a description for people.
#[derive(Clone, Debug)]
pub struct TSMError {
    pub kind: ErrorKind,
    pub description: String,
}

impl TSMError {
    pub fn new(kind: ErrorKind, description: &str) -> (r: TSMError)
        ensures
            r.kind == kind,
            r.description@ == description@,
    {
        TSMError { kind, description: String::from_str(description) }
    }

    /// An error whose description names the byte offset that it concerns.
    pub fn at(kind: ErrorKind, text: &str, off: u64) -> (r: TSMError)
        ensures
            r.kind == kind,
            r.description@ == at_offset(text@, off as nat),
    {
        TSMError { kind, description: describe_at(text, off) }
    }
}

/// The kind and the description of an error.
pub type Failure = (ErrorKind, Seq<char>);

/// Whether `r` is an error with exactly this kind and description.
pub open spec fn fails_with<T>(r: Result<T, TSMError>, f: Failure) -> bool {
    r matches Err(e) && e.kind == f.0 && e.description@ == f.1
}

} // verus!
