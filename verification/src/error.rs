//! The failures that parsing and rewriting can report.

use vstd::prelude::*;

verus! {

/// A typed failure, returned to the immediate caller.
#[derive(Debug, Clone)]
pub enum TagError {
    /// The bytes do not begin with an ID3v2 header.
    ID3NoHeader,
    /// The header names a major version other than 2, 3 or 4. The text is the
    /// version found, such as `ID3v2.5.0`.
    ID3UnsupportedVersion(String),
    /// The MP4 box structure cannot be used; the text says why.
    MP4(String),
}

impl TagError {
    /// A line of text that describes the failure.
    pub fn message(&self) -> (result: String)
        ensures
            result@ == match *self {
                TagError::ID3NoHeader => "No ID3 header found"@,
                TagError::ID3UnsupportedVersion(s) => "Unsupported ID3 version: "@ + s@,
                TagError::MP4(s) => "MP4 error: "@ + s@,
            },
    {
        match self {
            TagError::ID3NoHeader => String::from_str("No ID3 header found"),
            TagError::ID3UnsupportedVersion(s) => String::from_str(
                "Unsupported ID3 version: ",
            ).concat(s.as_str()),
            TagError::MP4(s) => String::from_str("MP4 error: ").concat(s.as_str()),
        }
    }
}

} // verus!
