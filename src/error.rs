//! Errors of the TASTy decoder.
use vstd::prelude::*;

use crate::decimal::push_decimal;

verus! {

/// Why decoding a TASTy input stopped. Each variant carries the byte offset
/// at which the problem was found.
#[derive(Debug, PartialEq, Eq)]
pub enum TastyError {
    /// The input ended inside a record.
    UnexpectedEnd { offset: usize },
    /// A string field is not valid UTF-8.
    InvalidUtf8 { offset: usize },
    /// The input is shorter than the four magic bytes.
    TooSmall { offset: usize },
    /// The input does not start with the TASTy magic bytes.
    BadMagic { offset: usize },
    /// A name-table entry has a tag that the format does not define.
    UnknownNameTag { tag: u8, offset: usize },
    /// A tree record has a tag outside every category.
    UnknownTreeTag { tag: u8, offset: usize },
    /// A position record holds an offset beyond the 32-bit range.
    PositionOverflow { offset: usize },
    /// A tree section is longer than 32-bit offsets can address.
    SectionTooLarge { offset: usize },
    /// A shared reference names an offset at which no record was decoded.
    DanglingShared { target: u64, offset: usize },
}

impl TastyError {
    /// The byte offset that the error names.
    pub open spec fn spec_offset(&self) -> usize {
        match self {
            TastyError::UnexpectedEnd { offset } => *offset,
            TastyError::InvalidUtf8 { offset } => *offset,
            TastyError::TooSmall { offset } => *offset,
            TastyError::BadMagic { offset } => *offset,
            TastyError::UnknownNameTag { offset, .. } => *offset,
            TastyError::UnknownTreeTag { offset, .. } => *offset,
            TastyError::DanglingShared { offset, .. } => *offset,
            TastyError::PositionOverflow { offset } => *offset,
            TastyError::SectionTooLarge { offset } => *offset,
        }
    }

    /// The byte offset that the error names.
    pub fn offset(&self) -> (r: usize)
        ensures
            r == self.spec_offset(),
    {
        match self {
            TastyError::UnexpectedEnd { offset } => *offset,
            TastyError::InvalidUtf8 { offset } => *offset,
            TastyError::TooSmall { offset } => *offset,
            TastyError::BadMagic { offset } => *offset,
            TastyError::UnknownNameTag { offset, .. } => *offset,
            TastyError::UnknownTreeTag { offset, .. } => *offset,
            TastyError::DanglingShared { offset, .. } => *offset,
            TastyError::PositionOverflow { offset } => *offset,
            TastyError::SectionTooLarge { offset } => *offset,
        }
    }

    /// A one-line description ending in the offset.
    pub fn message(&self) -> (r: String)
        ensures
            r@.len() > 0,
    {
        let mut s = String::new();
        match self {
            TastyError::UnexpectedEnd { .. } => s.append("unexpected end of data"),
            TastyError::InvalidUtf8 { .. } => s.append("invalid UTF-8 in TASTy"),
            TastyError::TooSmall { .. } => s.append("file too small to be a TASTy file"),
            TastyError::BadMagic { .. } => s.append("not a TASTy file: bad magic"),
            TastyError::UnknownNameTag { tag, .. } => {
                s.append("unknown name tag ");
                push_decimal(&mut s, *tag as u64);
            },
            TastyError::UnknownTreeTag { tag, .. } => {
                s.append("unknown tree tag ");
                push_decimal(&mut s, *tag as u64);
            },
            TastyError::PositionOverflow { .. } => s.append("position out of range"),
            TastyError::SectionTooLarge { .. } => s.append("tree section too large"),
            TastyError::DanglingShared { target, .. } => {
                s.append("shared reference to unknown offset ");
                push_decimal(&mut s, *target);
            },
        }
        proof {
            reveal_strlit(" at offset ");
        }
        s.append(" at offset ");
        push_decimal(&mut s, self.offset() as u64);
        s
    }
}

} // verus!
