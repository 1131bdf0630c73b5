//! Row batches: equal-length columns, and read-only row cursors over a shared batch.

use crate::bytes::{le_bytes, le_value};
use crate::column::{count_true, Column, ColumnModel};
use crate::datum::{Datum, DatumModel};
use crate::types::{
    encoding_of, has_unsigned_flag, is_bytes_type, is_float_type, is_integer_type, BLOB, DOUBLE,
    FLOAT, INT24, LONG, LONG_BLOB, LONG_LONG, MEDIUM_BLOB, SHORT, STRING, TINY, TINY_BLOB,
    UNSIGNED_FLAG, VARCHAR, VAR_STRING, YEAR,
};
use std::sync::Arc;
use vstd::prelude::*;
use vstd::slice::slice_to_vec;
use vstd::utf8::{decode_utf8, encode_utf8, valid_utf8};

verus! {

/// Initial row capacity of the columns of a new chunk.
pub const CHUNK_INITIAL_CAPACITY: usize = 32;

/// Rows of several columns in an Arrow-like layout. Values are appended in a compact
/// form and read without decoding; a chunk can be reset and reused with its memory.
pub struct Chunk {
    columns: Vec<Column>,
}

impl View for Chunk {
    type V = Seq<ColumnModel>;

    closed spec fn view(&self) -> Seq<ColumnModel> {
        self.columns@.map_values(|c: Column| c@)
    }
}

/// Every column is well formed.
pub open spec fn chunk_wf(cols: Seq<ColumnModel>) -> bool {
    forall|i: int| 0 <= i < cols.len() ==> #[trigger] cols[i].wf()
}

/// The row count of a chunk: that of its first column, 0 without columns.
pub open spec fn rows_of(cols: Seq<ColumnModel>) -> nat {
    if cols.len() == 0 {
        0
    } else {
        cols[0].length
    }
}

/// Column `col` of `new` is column `col` of `old` with one row pushed; the others are kept.
pub open spec fn pushed_at(
    new: Seq<ColumnModel>,
    old: Seq<ColumnModel>,
    col: int,
    is_null: bool,
    bytes: Seq<u8>,
) -> bool {
    &&& new.len() == old.len()
    &&& chunk_wf(new)
    &&& new[col].pushes(old[col], is_null, bytes)
    &&& forall|j: int| 0 <= j < new.len() && j != col ==> new[j] == old[j]
}

impl Chunk {
    proof fn lemma_view(&self)
        ensures
            self@.len() == self.columns@.len(),
            forall|k: int| 0 <= k < self@.len() ==> #[trigger] self@[k] == self.columns@[k]@,
            chunk_wf(self@) ==> forall|k: int|
                0 <= k < self@.len() ==> (#[trigger] self.columns@[k])@.wf(),
    {
        if chunk_wf(self@) {
            assert forall|k: int| 0 <= k < self@.len() implies (#[trigger] self.columns@[k])@.wf() by {
                assert(self@[k].wf());
            }
        }
    }

    /// A chunk with one empty column for each type code in `tps`, in its layout.
    pub fn new_chunk(tps: &[i32]) -> (r: Chunk)
        ensures
            chunk_wf(r@),
            r@.len() == tps@.len(),
            forall|i: int|
                0 <= i < tps@.len() ==> {
                    &&& (#[trigger] r@[i]).encoding() == encoding_of(tps@[i] as u8)
                    &&& r@[i].is_fixed() ==> r@[i].fixed_len == 8
                    &&& r@[i].is_empty_like(r@[i])
                },
    {
        let mut columns: Vec<Column> = Vec::with_capacity(tps.len());
        let mut i: usize = 0;
        while i < tps.len()
            invariant
                i <= tps@.len(),
                columns@.len() == i,
                forall|k: int|
                    0 <= k < i ==> {
                        &&& (#[trigger] columns@[k])@.wf()
                        &&& columns@[k]@.encoding() == encoding_of(tps@[k] as u8)
                        &&& columns@[k]@.is_fixed() ==> columns@[k]@.fixed_len == 8
                        &&& columns@[k]@.is_empty_like(columns@[k]@)
                    },
            decreases tps@.len() - i,
        {
            columns.push(Column::new(tps[i] as u8, CHUNK_INITIAL_CAPACITY));
            i = i + 1;
        }
        Chunk { columns }
    }

    /// A chunk made of the given columns.
    pub fn from_columns(columns: Vec<Column>) -> (r: Chunk)
        ensures
            r@ == columns@.map_values(|c: Column| c@),
    {
        Chunk { columns }
    }

    /// Exchanges the columns of the two chunks.
    pub fn swap_columns(&mut self, other: &mut Chunk)
        ensures
            final(self)@ == old(other)@,
            final(other)@ == old(self)@,
    {
        std::mem::swap(&mut self.columns, &mut other.columns)
    }

    /// Clears every column and keeps its layout, so that the memory can be reused.
    pub fn reset(&mut self)
        requires
            chunk_wf(old(self)@),
        ensures
            chunk_wf(final(self)@),
            final(self)@.len() == old(self)@.len(),
            forall|i: int|
                0 <= i < old(self)@.len() ==> (#[trigger] final(self)@[i]).is_empty_like(
                    old(self)@[i],
                ),
    {
        let ghost c0 = self@;
        proof {
            self.lemma_view();
        }
        let mut i: usize = 0;
        while i < self.columns.len()
            invariant
                i <= c0.len(),
                self.columns@.len() == c0.len(),
                forall|k: int| 0 <= k < c0.len() ==> (#[trigger] self.columns@[k])@.wf(),
                forall|k: int| 0 <= k < i ==> (#[trigger] self.columns@[k])@.is_empty_like(c0[k]),
                forall|k: int| i <= k < c0.len() ==> (#[trigger] self.columns@[k])@ == c0[k],
            decreases c0.len() - i,
        {
            self.columns[i].reset();
            i = i + 1;
        }
    }

    /// Number of columns.
    pub fn num_cols(&self) -> (r: usize)
        ensures
            r == self@.len(),
    {
        self.columns.len()
    }

    /// Number of rows: that of the first column, 0 without columns.
    pub fn num_rows(&self) -> (r: usize)
        ensures
            r == rows_of(self@),
    {
        if self.columns.is_empty() {
            0
        } else {
            self.columns[0].len()
        }
    }

    /// Column `i`.
    pub fn column(&self, i: usize) -> (r: &Column)
        requires
            i < self@.len(),
        ensures
            r@ == self@[i as int],
    {
        &self.columns[i]
    }
}

impl Chunk {
    /// Appends a null to column `col_idx`.
    pub fn append_null(&mut self, col_idx: usize)
        requires
            chunk_wf(old(self)@),
            col_idx < old(self)@.len(),
            old(self)@[col_idx as int].has_room(1, old(self)@[col_idx as int].fixed_len),
        ensures
            pushed_at(
                final(self)@,
                old(self)@,
                col_idx as int,
                true,
                Seq::new(old(self)@[col_idx as int].fixed_len, |i: int| 0u8),
            ),
            old(self)@[col_idx as int].is_boxed() ==> final(self)@[col_idx as int].ifaces == old(
                self,
            )@[col_idx as int].ifaces.push(DatumModel::Null),
    {
        let ghost c0 = self@;
        proof {
            self.lemma_view();
        }
        self.columns[col_idx].append_null();
        proof {
            self.lemma_view();
            assert forall|j: int| 0 <= j < self@.len() implies (#[trigger] self@[j]).wf() by {
                if j != col_idx {
                    assert(c0[j].wf());
                }
            }
        }
    }

    /// Appends `v` to the eight-byte slots of column `col_idx`.
    pub fn append_i64(&mut self, col_idx: usize, v: i64)
        requires
            chunk_wf(old(self)@),
            col_idx < old(self)@.len(),
            old(self)@[col_idx as int].fixed_len == 8,
            old(self)@[col_idx as int].has_room(1, 8),
        ensures
            pushed_at(final(self)@, old(self)@, col_idx as int, false, le_bytes(v as u64)),
    {
        let ghost c0 = self@;
        proof {
            self.lemma_view();
        }
        self.columns[col_idx].append_i64(v);
        proof {
            self.lemma_view();
            assert forall|j: int| 0 <= j < self@.len() implies (#[trigger] self@[j]).wf() by {
                if j != col_idx {
                    assert(c0[j].wf());
                }
            }
        }
    }

    /// Appends `v` to the eight-byte slots of column `col_idx`.
    pub fn append_u64(&mut self, col_idx: usize, v: u64)
        requires
            chunk_wf(old(self)@),
            col_idx < old(self)@.len(),
            old(self)@[col_idx as int].fixed_len == 8,
            old(self)@[col_idx as int].has_room(1, 8),
        ensures
            pushed_at(final(self)@, old(self)@, col_idx as int, false, le_bytes(v)),
    {
        let ghost c0 = self@;
        proof {
            self.lemma_view();
        }
        self.columns[col_idx].append_u64(v);
        proof {
            self.lemma_view();
            assert forall|j: int| 0 <= j < self@.len() implies (#[trigger] self@[j]).wf() by {
                if j != col_idx {
                    assert(c0[j].wf());
                }
            }
        }
    }

    /// Appends the UTF-8 bytes of `v` to the variable-length column `col_idx`.
    pub fn append_str(&mut self, col_idx: usize, v: String)
        requires
            chunk_wf(old(self)@),
            col_idx < old(self)@.len(),
            old(self)@[col_idx as int].is_varlen(),
            old(self)@[col_idx as int].has_room(1, encode_utf8(v@).len()),
        ensures
            pushed_at(final(self)@, old(self)@, col_idx as int, false, encode_utf8(v@)),
    {
        let ghost c0 = self@;
        proof {
            self.lemma_view();
        }
        self.columns[col_idx].append_str(v);
        proof {
            self.lemma_view();
            assert forall|j: int| 0 <= j < self@.len() implies (#[trigger] self@[j]).wf() by {
                if j != col_idx {
                    assert(c0[j].wf());
                }
            }
        }
    }

    /// Appends the bytes `v` to the variable-length column `col_idx`.
    pub fn append_bytes(&mut self, col_idx: usize, v: &[u8])
        requires
            chunk_wf(old(self)@),
            col_idx < old(self)@.len(),
            old(self)@[col_idx as int].is_varlen(),
            old(self)@[col_idx as int].has_room(1, v@.len()),
        ensures
            pushed_at(final(self)@, old(self)@, col_idx as int, false, v@),
    {
        let ghost c0 = self@;
        proof {
            self.lemma_view();
        }
        self.columns[col_idx].append_bytes(v);
        proof {
            self.lemma_view();
            assert forall|j: int| 0 <= j < self@.len() implies (#[trigger] self@[j]).wf() by {
                if j != col_idx {
                    assert(c0[j].wf());
                }
            }
        }
    }

    /// Appends `v` to the boxed column `col_idx`.
    pub fn append_interface(&mut self, col_idx: usize, v: Datum)
        requires
            chunk_wf(old(self)@),
            col_idx < old(self)@.len(),
            old(self)@[col_idx as int].is_boxed(),
            old(self)@[col_idx as int].has_room(1, 0),
        ensures
            pushed_at(final(self)@, old(self)@, col_idx as int, false, Seq::empty()),
            final(self)@[col_idx as int].ifaces == old(self)@[col_idx as int].ifaces.push(v@),
    {
        let ghost c0 = self@;
        proof {
            self.lemma_view();
        }
        self.columns[col_idx].append_interface(v);
        proof {
            self.lemma_view();
            assert forall|j: int| 0 <= j < self@.len() implies (#[trigger] self@[j]).wf() by {
                if j != col_idx {
                    assert(c0[j].wf());
                }
            }
        }
    }
}

impl Chunk {
    /// Appends rows `[begin, end)` of every column of `other` to the column of this
    /// chunk at the same position.
    pub fn append(&mut self, other: &Chunk, begin: usize, end: usize)
        requires
            chunk_wf(old(self)@),
            chunk_wf(other@),
            other@.len() <= old(self)@.len(),
            forall|i: int|
                0 <= i < other@.len() ==> {
                    &&& (#[trigger] old(self)@[i]).same_layout(other@[i])
                    &&& begin <= end <= other@[i].length
                    &&& old(self)@[i].has_room(
                        (end - begin) as nat,
                        other@[i].span_len(begin as int, end as int),
                    )
                },
        ensures
            chunk_wf(final(self)@),
            final(self)@.len() == old(self)@.len(),
            forall|i: int|
                0 <= i < other@.len() ==> (#[trigger] final(self)@[i]).appends(
                    old(self)@[i],
                    other@[i],
                    begin as int,
                    end as int,
                ),
            forall|i: int|
                other@.len() <= i < old(self)@.len() ==> #[trigger] final(self)@[i] == old(
                    self,
                )@[i],
    {
        let ghost c0 = self@;
        proof {
            self.lemma_view();
            other.lemma_view();
        }
        let mut col_id: usize = 0;
        while col_id < other.columns.len()
            invariant
                0 <= col_id <= other@.len() <= c0.len(),
                chunk_wf(c0),
                chunk_wf(other@),
                other@.len() == other.columns@.len(),
                forall|k: int| 0 <= k < other@.len() ==> #[trigger] other@[k] == other.columns@[k]@,
                forall|i: int|
                    0 <= i < other@.len() ==> {
                        &&& (#[trigger] c0[i]).same_layout(other@[i])
                        &&& begin <= end <= other@[i].length
                        &&& c0[i].has_room(
                            (end - begin) as nat,
                            other@[i].span_len(begin as int, end as int),
                        )
                    },
                self.columns@.len() == c0.len(),
                forall|k: int| 0 <= k < c0.len() ==> (#[trigger] self.columns@[k])@.wf(),
                forall|k: int|
                    0 <= k < col_id ==> (#[trigger] self.columns@[k])@.appends(
                        c0[k],
                        other@[k],
                        begin as int,
                        end as int,
                    ),
                forall|k: int| col_id <= k < c0.len() ==> (#[trigger] self.columns@[k])@ == c0[k],
            decreases other@.len() - col_id,
        {
            assert(c0[col_id as int].wf());
            self.columns[col_id].append(&other.columns[col_id], begin, end);
            col_id = col_id + 1;
        }
        proof {
            self.lemma_view();
        }
    }

    /// Drops every row from `num_rows` on, in every column.
    pub fn truncate_to(&mut self, num_rows: usize)
        requires
            chunk_wf(old(self)@),
            forall|i: int| 0 <= i < old(self)@.len() ==> num_rows <= (#[trigger] old(self)@[i]).length,
        ensures
            chunk_wf(final(self)@),
            final(self)@.len() == old(self)@.len(),
            forall|i: int|
                0 <= i < old(self)@.len() ==> (#[trigger] final(self)@[i]).truncates(
                    old(self)@[i],
                    num_rows as int,
                ),
            rows_of(final(self)@) == if old(self)@.len() == 0 {
                0
            } else {
                num_rows as nat
            },
            forall|i: int|
                0 <= i < old(self)@.len() ==> (#[trigger] final(self)@[i]).null_cnt == count_true(
                    old(self)@[i].nulls().subrange(0, num_rows as int),
                ),
    {
        let ghost c0 = self@;
        proof {
            self.lemma_view();
        }
        let mut i: usize = 0;
        while i < self.columns.len()
            invariant
                i <= c0.len(),
                chunk_wf(c0),
                forall|k: int| 0 <= k < c0.len() ==> num_rows <= (#[trigger] c0[k]).length,
                self.columns@.len() == c0.len(),
                forall|k: int| 0 <= k < c0.len() ==> (#[trigger] self.columns@[k])@.wf(),
                forall|k: int|
                    0 <= k < i ==> (#[trigger] self.columns@[k])@.truncates(c0[k], num_rows as int),
                forall|k: int| i <= k < c0.len() ==> (#[trigger] self.columns@[k])@ == c0[k],
            decreases c0.len() - i,
        {
            assert(c0[i as int].wf());
            self.columns[i].truncate_to(num_rows);
            i = i + 1;
        }
        proof {
            self.lemma_view();
            if c0.len() > 0 {
                assert(self@[0].truncates(c0[0], num_rows as int));
            }
        }
    }
}

/// A chunk that is no longer mutated, shared by the row cursors made from it.
pub struct ArcChunk {
    chunk: Arc<Chunk>,
}

impl ArcChunk {
    /// The columns of the shared chunk.
    pub closed spec fn cols(&self) -> Seq<ColumnModel> {
        self.chunk@
    }

    pub fn new(chunk: Chunk) -> (r: ArcChunk)
        ensures
            r.cols() == chunk@,
    {
        ArcChunk { chunk: Arc::new(chunk) }
    }

    /// The cursor at row `idx`.
    pub fn get_row(&self, idx: usize) -> (r: Row)
        ensures
            r.cols() == self.cols(),
            r.index() == idx,
    {
        Row::new(self.chunk.clone(), idx)
    }

    /// The cursor at the first row.
    pub fn begin(&self) -> (r: Row)
        ensures
            r.cols() == self.cols(),
            r.index() == 0,
    {
        Row::new(self.chunk.clone(), 0)
    }

    /// The cursor just past the last row.
    pub fn end(&self) -> (r: Row)
        ensures
            r.cols() == self.cols(),
            r.index() == rows_of(self.cols()),
    {
        let num_rows = self.chunk.num_rows();
        Row::new(self.chunk.clone(), num_rows)
    }

    /// The shared chunk.
    pub fn chunk(&self) -> (r: &Chunk)
        ensures
            r@ == self.cols(),
    {
        &self.chunk
    }
}

/// A read-only cursor on one row of a shared chunk.
pub struct Row {
    c: Arc<Chunk>,
    idx: usize,
}

impl Row {
    /// The columns of the chunk the cursor reads.
    pub closed spec fn cols(&self) -> Seq<ColumnModel> {
        self.c@
    }

    /// The row the cursor is on.
    pub closed spec fn index(&self) -> nat {
        self.idx as nat
    }

    pub fn new(c: Arc<Chunk>, idx: usize) -> (r: Row)
        ensures
            r.cols() == c@,
            r.index() == idx,
    {
        Row { c, idx }
    }

    /// The row index in the chunk.
    pub fn idx(&self) -> (r: usize)
        ensures
            r == self.index(),
    {
        self.idx
    }

    /// Number of values in the row.
    pub fn len(&self) -> (r: usize)
        ensures
            r == self.cols().len(),
    {
        self.c.num_cols()
    }

    /// The cursor on the next row of the same chunk (which may be the end).
    pub fn next(&self) -> (r: Row)
        requires
            self.index() < usize::MAX,
        ensures
            r.cols() == self.cols(),
            r.index() == self.index() + 1,
    {
        Row { c: self.c.clone(), idx: self.idx + 1 }
    }
}

/// The declared type of an output column: its type code and flags.
#[derive(Clone, Copy, Debug, PartialEq, Eq, Structural)]
pub struct FieldType {
    pub tp: i32,
    pub flag: u32,
}

impl FieldType {
    pub fn get_tp(&self) -> (r: i32)
        ensures
            r == self.tp,
    {
        self.tp
    }

    pub fn get_flag(&self) -> (r: u32)
        ensures
            r == self.flag,
    {
        self.flag
    }
}

/// Cursor `row` can be read at column `col`.
pub open spec fn readable(cols: Seq<ColumnModel>, row: nat, col: int) -> bool {
    &&& chunk_wf(cols)
    &&& 0 <= col < cols.len()
    &&& row < cols[col].length
}

/// The value of row `row` of column `c` as a column of declared type `fp`.
pub open spec fn datum_of(c: ColumnModel, row: int, fp: FieldType) -> DatumModel {
    let tp = fp.tp as u8;
    if c.nulls()[row] {
        DatumModel::Null
    } else if is_integer_type(tp) {
        if (fp.flag as u64) & UNSIGNED_FLAG != 0 {
            DatumModel::U64(le_value(c.row_bytes(row)))
        } else {
            DatumModel::I64(le_value(c.row_bytes(row)) as i64)
        }
    } else if is_float_type(tp) {
        DatumModel::F64(le_value(c.row_bytes(row)))
    } else if is_bytes_type(tp) {
        DatumModel::Bytes(c.row_bytes(row))
    } else {
        c.ifaces[row]
    }
}

impl Row {
    /// The slot of this row in column `col_idx`, as a two's complement integer.
    pub fn get_i64(&self, col_idx: usize) -> (r: i64)
        requires
            readable(self.cols(), self.index(), col_idx as int),
            self.cols()[col_idx as int].fixed_len == 8,
        ensures
            r == le_value(self.cols()[col_idx as int].row_bytes(self.index() as int)) as i64,
    {
        let idx = self.idx;
        proof {
            self.c.lemma_view();
        }
        self.c.columns[col_idx].get_i64(idx)
    }

    /// The slot of this row in column `col_idx`, as an unsigned integer.
    pub fn get_u64(&self, col_idx: usize) -> (r: u64)
        requires
            readable(self.cols(), self.index(), col_idx as int),
            self.cols()[col_idx as int].fixed_len == 8,
        ensures
            r == le_value(self.cols()[col_idx as int].row_bytes(self.index() as int)),
    {
        let idx = self.idx;
        proof {
            self.c.lemma_view();
        }
        self.c.columns[col_idx].get_u64(idx)
    }

    /// The text of this row in the variable-length column `col_idx`.
    pub fn get_str(&self, col_idx: usize) -> (r: String)
        requires
            readable(self.cols(), self.index(), col_idx as int),
            self.cols()[col_idx as int].is_varlen(),
            valid_utf8(self.cols()[col_idx as int].row_bytes(self.index() as int)),
        ensures
            r@ == decode_utf8(self.cols()[col_idx as int].row_bytes(self.index() as int)),
    {
        proof {
            self.c.lemma_view();
        }
        self.c.columns[col_idx].get_str(self.idx)
    }

    /// The bytes of this row in the variable-length column `col_idx`.
    pub fn get_bytes(&self, col_idx: usize) -> (r: &[u8])
        requires
            readable(self.cols(), self.index(), col_idx as int),
            self.cols()[col_idx as int].is_varlen(),
        ensures
            r@ == self.cols()[col_idx as int].row_bytes(self.index() as int),
    {
        proof {
            self.c.lemma_view();
        }
        self.c.columns[col_idx].get_bytes(self.idx)
    }

    /// The value of this row in the boxed column `col_idx`.
    pub fn get_interface(&self, col_idx: usize) -> (r: Datum)
        requires
            readable(self.cols(), self.index(), col_idx as int),
            self.cols()[col_idx as int].is_boxed(),
        ensures
            r@ == self.cols()[col_idx as int].ifaces[self.index() as int],
    {
        proof {
            self.c.lemma_view();
        }
        self.c.columns[col_idx].get_interface(self.idx)
    }

    /// The value of this row in column `col_idx`, decoded as declared by `fp`: null,
    /// a signed or unsigned integer, a double, bytes, or the boxed value itself.
    pub fn get_datum(&self, col_idx: usize, fp: &FieldType) -> (r: Datum)
        requires
            readable(self.cols(), self.index(), col_idx as int),
            self.cols()[col_idx as int].encoding() == encoding_of(fp.tp as u8),
            self.cols()[col_idx as int].is_fixed() ==> self.cols()[col_idx as int].fixed_len == 8,
        ensures
            r@ == datum_of(self.cols()[col_idx as int], self.index() as int, *fp),
    {
        if self.is_null(col_idx) {
            return Datum::Null;
        }
        let tp = fp.get_tp() as u8;
        match tp {
            TINY | SHORT | INT24 | LONG | LONG_LONG | YEAR => {
                if has_unsigned_flag(fp.get_flag() as u64) {
                    Datum::U64(self.get_u64(col_idx))
                } else {
                    Datum::I64(self.get_i64(col_idx))
                }
            },
            FLOAT | DOUBLE => Datum::F64(self.get_u64(col_idx)),
            VARCHAR | VAR_STRING | STRING | BLOB | TINY_BLOB | MEDIUM_BLOB | LONG_BLOB => {
                Datum::Bytes(slice_to_vec(self.get_bytes(col_idx)))
            },
            _ => self.get_interface(col_idx),
        }
    }

    /// Whether this row is null in column `col_idx`.
    pub fn is_null(&self, col_idx: usize) -> (r: bool)
        requires
            readable(self.cols(), self.index(), col_idx as int),
        ensures
            r == self.cols()[col_idx as int].nulls()[self.index() as int],
    {
        proof {
            self.c.lemma_view();
        }
        self.c.columns[col_idx].is_null(self.idx)
    }
}

impl Chunk {
    /// Copies each value of `row`, in order, to the columns of this chunk from `col_idx` on.
    pub fn append_row(&mut self, col_idx: usize, row: Row)
        requires
            chunk_wf(old(self)@),
            chunk_wf(row.cols()),
            col_idx + row.cols().len() <= old(self)@.len(),
            forall|i: int|
                0 <= i < row.cols().len() ==> {
                    &&& (#[trigger] row.cols()[i]).same_layout(old(self)@[col_idx + i])
                    &&& row.index() < row.cols()[i].length
                    &&& old(self)@[col_idx + i].has_room(
                        1,
                        row.cols()[i].span_len(row.index() as int, (row.index() + 1) as int),
                    )
                },
        ensures
            chunk_wf(final(self)@),
            final(self)@.len() == old(self)@.len(),
            forall|i: int|
                0 <= i < row.cols().len() ==> (#[trigger] final(self)@[col_idx + i]).appends(
                    old(self)@[col_idx + i],
                    row.cols()[i],
                    row.index() as int,
                    (row.index() + 1) as int,
                ),
            forall|j: int|
                0 <= j < old(self)@.len() && !(col_idx <= j < col_idx + row.cols().len())
                    ==> #[trigger] final(self)@[j] == old(self)@[j],
    {
        let ghost c0 = self@;
        let ghost src = row.cols();
        proof {
            self.lemma_view();
            row.c.lemma_view();
        }
        let n = row.c.columns.len();
        let mut id: usize = 0;
        while id < n
            invariant
                0 <= id <= n == src.len(),
                col_idx + n <= c0.len(),
                chunk_wf(c0),
                chunk_wf(src),
                row.cols() == src,
                row.c@ == src,
                row.c.columns@.len() == n,
                forall|k: int| 0 <= k < n ==> #[trigger] src[k] == row.c.columns@[k]@,
                forall|i: int|
                    0 <= i < n ==> {
                        &&& (#[trigger] src[i]).same_layout(c0[col_idx + i])
                        &&& row.index() < src[i].length
                        &&& c0[col_idx + i].has_room(
                            1,
                            src[i].span_len(row.index() as int, (row.index() + 1) as int),
                        )
                    },
                self.columns@.len() == c0.len(),
                forall|k: int| 0 <= k < c0.len() ==> (#[trigger] self.columns@[k])@.wf(),
                forall|i: int|
                    0 <= i < id ==> (#[trigger] self.columns@[col_idx + i])@.appends(
                        c0[col_idx + i],
                        src[i],
                        row.index() as int,
                        (row.index() + 1) as int,
                    ),
                forall|j: int|
                    0 <= j < c0.len() && !(col_idx <= j < col_idx + id) ==> (
                    #[trigger] self.columns@[j])@ == c0[j],
            decreases n - id,
        {
            assert(src[id as int].wf());
            assert(self.columns.len() == c0.len());
            assert(self.columns@[col_idx + id]@ == c0[col_idx + id]);
            self.columns[col_idx + id].append_row(&row.c.columns[id], row.idx);
            id = id + 1;
        }
        proof {
            self.lemma_view();
        }
    }
}

/// After a value or a null is appended to column `j`, a cursor on the new row reads the
/// null flag it was appended with, and the earlier rows keep theirs.
pub proof fn lemma_chunk_null_flag(
    new: Seq<ColumnModel>,
    old: Seq<ColumnModel>,
    j: int,
    is_null: bool,
    bytes: Seq<u8>,
)
    requires
        chunk_wf(old),
        0 <= j < old.len(),
        pushed_at(new, old, j, is_null, bytes),
    ensures
        readable(new, old[j].length, j),
        new[j].nulls()[old[j].length as int] == is_null,
        forall|k: int| 0 <= k < old[j].length ==> new[j].nulls()[k] == old[j].nulls()[k],
{
    crate::column::lemma_pushed_null_flag(old[j], new[j], is_null, bytes);
}

/// A signed integer appended to column `j` reads back unchanged through a cursor on the
/// new row, and the earlier rows read as before.
pub proof fn lemma_chunk_i64_round_trip(new: Seq<ColumnModel>, old: Seq<ColumnModel>, j: int, v: i64)
    requires
        chunk_wf(old),
        0 <= j < old.len(),
        old[j].fixed_len == 8,
        pushed_at(new, old, j, false, le_bytes(v as u64)),
    ensures
        readable(new, old[j].length, j),
        new[j].fixed_len == 8,
        le_value(new[j].row_bytes(old[j].length as int)) as i64 == v,
        !new[j].nulls()[old[j].length as int],
        forall|k: int|
            0 <= k < old[j].length ==> new[j].row_bytes(k) == old[j].row_bytes(k) && new[j].nulls()[k]
                == old[j].nulls()[k],
{
    assert(old[j].wf());
    crate::column::lemma_i64_round_trip(old[j], new[j], v);
    crate::column::lemma_pushed_keeps_rows(old[j], new[j], false, le_bytes(v as u64));
    lemma_chunk_null_flag(new, old, j, false, le_bytes(v as u64));
}

/// An unsigned integer appended to column `j` reads back unchanged through a cursor on
/// the new row, and the earlier rows read as before.
pub proof fn lemma_chunk_u64_round_trip(new: Seq<ColumnModel>, old: Seq<ColumnModel>, j: int, v: u64)
    requires
        chunk_wf(old),
        0 <= j < old.len(),
        old[j].fixed_len == 8,
        pushed_at(new, old, j, false, le_bytes(v)),
    ensures
        readable(new, old[j].length, j),
        new[j].fixed_len == 8,
        le_value(new[j].row_bytes(old[j].length as int)) == v,
        !new[j].nulls()[old[j].length as int],
        forall|k: int|
            0 <= k < old[j].length ==> new[j].row_bytes(k) == old[j].row_bytes(k) && new[j].nulls()[k]
                == old[j].nulls()[k],
{
    assert(old[j].wf());
    crate::column::lemma_u64_round_trip(old[j], new[j], v);
    crate::column::lemma_pushed_keeps_rows(old[j], new[j], false, le_bytes(v));
    lemma_chunk_null_flag(new, old, j, false, le_bytes(v));
}

} // verus!
