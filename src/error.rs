//! Why an object file could not be loaded.
use crate::formats::ObjFileFormat;
use vstd::prelude::*;

verus! {

/// A failure to recognise or decode an object file.
#[derive(Debug, Clone, PartialEq, Eq)]
pub enum LoadError {
    /// No candidate format accepted the file; holds the formats tried, in
    /// the order they were tried.
    UnrecognizedFormat(Vec<ObjFileFormat>),
    /// The file does not start with the LC3Tools magic bytes.
    MalformedHeader,
    /// A record's origin flag is neither 0 nor 1; holds the flag read.
    InvalidOriginFlag(u8),
    /// The bytes end inside the version field or inside a record.
    Truncated,
    /// A Lumetta file shorter than four bytes or of odd length.
    SizeConstraintViolation,
}

/// A parse result with the parsed value replaced by its view.
pub open spec fn result_view<T: View>(r: Result<T, LoadError>) -> Result<T::V, LoadError> {
    match r {
        Ok(v) => Ok(v@),
        Err(e) => Err(e),
    }
}

} // verus!
