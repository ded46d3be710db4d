//! The ways in which decoding a table can fail.

use vstd::prelude::*;

verus! {

/// Why a table, a descriptor or a record could not be decoded.
#[derive(Clone, Copy, Debug, PartialEq, Eq, Structural)]
pub enum Error {
    /// The source ended before the bytes that were asked for.
    IoError,
    /// The header's offset to the first record leaves no room for the fixed
    /// header, a whole number of descriptors and the terminator.
    MalformedHeader,
    /// A descriptor has an empty name or an unknown type tag.
    MalformedFieldDescriptor,
    /// The bytes of a field are not a value of the field's declared type.
    InvalidFieldData,
    /// The byte after the descriptor table is not `0x0D`.
    UnexpectedTerminator,
}

impl Error {
    /// The sentence that describes the error.
    pub open spec fn spec_message(self) -> Seq<char> {
        match self {
            Error::IoError => "the source ended before the bytes that were asked for"@,
            Error::MalformedHeader => "the header's offset to the first record is malformed"@,
            Error::MalformedFieldDescriptor =>
                "a field descriptor has an empty name or an unknown type"@,
            Error::InvalidFieldData => "the bytes of a field are not a value of its type"@,
            Error::UnexpectedTerminator => "the descriptor table does not end in 0x0D"@,
        }
    }

    /// The sentence that describes the error.
    pub fn message(&self) -> (s: String)
        ensures
            s@ == self.spec_message(),
    {
        match self {
            Error::IoError => "the source ended before the bytes that were asked for".to_owned(),
            Error::MalformedHeader =>
                "the header's offset to the first record is malformed".to_owned(),
            Error::MalformedFieldDescriptor =>
                "a field descriptor has an empty name or an unknown type".to_owned(),
            Error::InvalidFieldData =>
                "the bytes of a field are not a value of its type".to_owned(),
            Error::UnexpectedTerminator => "the descriptor table does not end in 0x0D".to_owned(),
        }
    }
}

/// The outcome `r` with the value it carries replaced by that value's view.
pub open spec fn result_view<T: View>(r: Result<T, Error>) -> Result<T::V, Error> {
    match r {
        Ok(t) => Ok(t@),
        Err(e) => Err(e),
    }
}

} // verus!
