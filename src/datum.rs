//! Tagged values held by the boxed encoding of a column.

use vstd::prelude::*;
use vstd::slice::slice_to_vec;

verus! {

/// A value of one of the domain types that have no compact column encoding.
#[derive(Debug, PartialEq)]
pub enum Datum {
    Null,
    I64(i64),
    U64(u64),
    /// A double, kept as its IEEE-754 bit pattern.
    F64(u64),
    Bytes(Vec<u8>),
    /// A decimal, kept in its canonical textual form.
    Dec(String),
    /// A duration in nanoseconds.
    Dur(i64),
    /// A date-time in its packed form.
    Time(u64),
    /// A JSON document, kept as its text.
    Json(String),
}

/// The mathematical value of a [`Datum`].
pub ghost enum DatumModel {
    Null,
    I64(i64),
    U64(u64),
    F64(u64),
    Bytes(Seq<u8>),
    Dec(Seq<char>),
    Dur(i64),
    Time(u64),
    Json(Seq<char>),
}

impl View for Datum {
    type V = DatumModel;

    open spec fn view(&self) -> DatumModel {
        match self {
            Datum::Null => DatumModel::Null,
            Datum::I64(v) => DatumModel::I64(*v),
            Datum::U64(v) => DatumModel::U64(*v),
            Datum::F64(v) => DatumModel::F64(*v),
            Datum::Bytes(b) => DatumModel::Bytes(b@),
            Datum::Dec(s) => DatumModel::Dec(s@),
            Datum::Dur(v) => DatumModel::Dur(*v),
            Datum::Time(v) => DatumModel::Time(*v),
            Datum::Json(s) => DatumModel::Json(s@),
        }
    }
}

impl Datum {
    /// A copy of this value.
    pub fn copied(&self) -> (r: Datum)
        ensures
            r@ == self@,
    {
        match self {
            Datum::Null => Datum::Null,
            Datum::I64(v) => Datum::I64(*v),
            Datum::U64(v) => Datum::U64(*v),
            Datum::F64(v) => Datum::F64(*v),
            Datum::Bytes(b) => Datum::Bytes(slice_to_vec(b.as_slice())),
            Datum::Dec(s) => Datum::Dec(s.clone()),
            Datum::Dur(v) => Datum::Dur(*v),
            Datum::Time(v) => Datum::Time(*v),
            Datum::Json(s) => Datum::Json(s.clone()),
        }
    }
}

} // verus!
