use vstd::prelude::*;

verus! {

/// Why a column could not be decoded.
#[derive(Clone, Copy, Debug, PartialEq, Eq, Structural)]
pub enum DecodeError {
    /// The row image ends before the column does.
    UnexpectedEof,
    /// An ENUM column whose storage width is neither one nor two bytes.
    UnknownEnum,
    /// A BLOB column whose length prefix is not one to four bytes wide.
    UnknownBlob,
    /// A column type that has no decoding in a row image.
    UnsupportedColumnType,
    /// A partial JSON update whose operation byte names no operation.
    UnknownJsonDiffOperation,
    /// A length-encoded integer whose first byte starts no valid encoding.
    InvalidLengthEncodedInt,
    /// A DECIMAL column whose precision and scale, or whose digits, are out of range.
    InvalidDecimal,
}

impl DecodeError {
    /// A short description of the error.
    pub fn message(&self) -> (r: &'static str)
        ensures
            *self == DecodeError::UnexpectedEof ==> r@ == "unexpected end of buffer"@,
            *self == DecodeError::UnknownEnum ==> r@ == "Unknown ENUM"@,
            *self == DecodeError::UnknownBlob ==> r@ == "Unknown BLOB"@,
            *self == DecodeError::UnsupportedColumnType ==> r@ == "unsupported column type"@,
            *self == DecodeError::UnknownJsonDiffOperation ==> r@ == "Unknown JSON diff operation"@,
            *self == DecodeError::InvalidLengthEncodedInt ==> r@
                == "Invalid length-encoded integer"@,
            *self == DecodeError::InvalidDecimal ==> r@ == "Invalid DECIMAL value"@,
    {
        match self {
            DecodeError::UnexpectedEof => "unexpected end of buffer",
            DecodeError::UnknownEnum => "Unknown ENUM",
            DecodeError::UnknownBlob => "Unknown BLOB",
            DecodeError::UnsupportedColumnType => "unsupported column type",
            DecodeError::UnknownJsonDiffOperation => "Unknown JSON diff operation",
            DecodeError::InvalidLengthEncodedInt => "Invalid length-encoded integer",
            DecodeError::InvalidDecimal => "Invalid DECIMAL value",
        }
    }
}

} // verus!
