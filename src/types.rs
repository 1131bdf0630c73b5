//! Logical column type codes and the physical layout each one is stored in.

use vstd::prelude::*;

verus! {

pub const TINY: u8 = 1;
pub const SHORT: u8 = 2;
pub const LONG: u8 = 3;
pub const FLOAT: u8 = 4;
pub const DOUBLE: u8 = 5;
pub const NULL: u8 = 6;
pub const TIMESTAMP: u8 = 7;
pub const LONG_LONG: u8 = 8;
pub const INT24: u8 = 9;
pub const DATE: u8 = 10;
pub const DURATION: u8 = 11;
pub const DATETIME: u8 = 12;
pub const YEAR: u8 = 13;
pub const NEW_DATE: u8 = 14;
pub const VARCHAR: u8 = 15;
pub const BIT: u8 = 16;
pub const JSON: u8 = 0xf5;
pub const NEW_DECIMAL: u8 = 0xf6;
pub const ENUM: u8 = 0xf7;
pub const SET: u8 = 0xf8;
pub const TINY_BLOB: u8 = 0xf9;
pub const MEDIUM_BLOB: u8 = 0xfa;
pub const LONG_BLOB: u8 = 0xfb;
pub const BLOB: u8 = 0xfc;
pub const VAR_STRING: u8 = 0xfd;
pub const STRING: u8 = 0xfe;
pub const GEOMETRY: u8 = 0xff;

/// The flag bit that marks an integer type as unsigned.
pub const UNSIGNED_FLAG: u64 = 32;

/// Physical layout of a column.
#[derive(Clone, Copy, Debug, PartialEq, Eq, Structural)]
pub enum Encoding {
    FixedWidth,
    VarLength,
    Boxed,
}

/// Integer types and years.
pub open spec fn is_integer_type(tp: u8) -> bool {
    tp == TINY || tp == SHORT || tp == INT24 || tp == LONG || tp == LONG_LONG || tp == YEAR
}

pub open spec fn is_float_type(tp: u8) -> bool {
    tp == FLOAT || tp == DOUBLE
}

/// String and blob types.
pub open spec fn is_bytes_type(tp: u8) -> bool {
    tp == VARCHAR || tp == VAR_STRING || tp == STRING || tp == BLOB || tp == TINY_BLOB || tp
        == MEDIUM_BLOB || tp == LONG_BLOB
}

/// The layout that columns of type `tp` are stored in.
pub open spec fn encoding_of(tp: u8) -> Encoding {
    if is_integer_type(tp) || is_float_type(tp) {
        Encoding::FixedWidth
    } else if is_bytes_type(tp) {
        Encoding::VarLength
    } else {
        Encoding::Boxed
    }
}

/// The layout that columns of type `tp` are stored in.
pub fn encoding(tp: u8) -> (r: Encoding)
    ensures
        r == encoding_of(tp),
{
    match tp {
        TINY | SHORT | INT24 | LONG | LONG_LONG | YEAR | FLOAT | DOUBLE => Encoding::FixedWidth,
        VARCHAR | VAR_STRING | STRING | BLOB | TINY_BLOB | MEDIUM_BLOB | LONG_BLOB => {
            Encoding::VarLength
        },
        _ => Encoding::Boxed,
    }
}

/// `flag` marks an integer type as unsigned.
pub fn has_unsigned_flag(flag: u64) -> (r: bool)
    ensures
        r == (flag & UNSIGNED_FLAG != 0),
{
    flag & UNSIGNED_FLAG != 0
}

} // verus!
