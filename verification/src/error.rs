//! The library's error type.

use vstd::prelude::*;
use vstd::string::StringExecFns;

verus! {

/// Errors that the resolution engine reports.
#[derive(Clone, Debug)]
pub enum Error {
    /// An I/O-level failure, carrying the underlying message; decoding a gzip
    /// stream reports through this variant.
    IoError(String),
    /// A file's bytes are not valid UTF-8.
    Utf8Error,
    /// The glob patterns of a parser matched no file at all.
    EmptyFileListError,
    /// A file that a parser requires is absent from the match set; carries the
    /// file name.
    MissingFileError(String),
    /// A cache entry does not hold a valid snapshot; carries a description.
    CacheError(String),
}

impl Error {
    /// The error rendered for an operator.
    pub open spec fn spec_message(self) -> Seq<char> {
        match self {
            Error::IoError(m) => "IO error: `"@ + m@ + "`"@,
            Error::Utf8Error => "non-UTF-8 string"@,
            Error::EmptyFileListError => "could not find any files to parse"@,
            Error::MissingFileError(m) => "required file missing: `"@ + m@ + "`"@,
            Error::CacheError(m) => "cache error: `"@ + m@ + "`"@,
        }
    }

    /// Renders the error for an operator.
    pub fn message(&self) -> (r: String)
        ensures
            r@ == self.spec_message(),
    {
        match self {
            Error::IoError(m) => {
                let mut s = String::from_str("IO error: `");
                s.append(m.as_str());
                s.append("`");
                s
            },
            Error::Utf8Error => String::from_str("non-UTF-8 string"),
            Error::EmptyFileListError => String::from_str("could not find any files to parse"),
            Error::MissingFileError(m) => {
                let mut s = String::from_str("required file missing: `");
                s.append(m.as_str());
                s.append("`");
                s
            },
            Error::CacheError(m) => {
                let mut s = String::from_str("cache error: `");
                s.append(m.as_str());
                s.append("`");
                s
            },
        }
    }
}

} // verus!
