//! Encoding of result rows against the output schema: each output column is taken from
//! the stored value, else derived from the row's handle, else its default, else null.

use crate::error::ExecError;
use vstd::prelude::*;
use vstd::slice::{slice_subrange, slice_to_vec};

verus! {

/// Flag byte of an encoded null.
pub const NIL_FLAG: u8 = 0;

/// Flag byte of a variable-length encoded signed integer.
pub const VARINT_FLAG: u8 = 8;

/// Flag byte of a variable-length encoded unsigned integer.
pub const VARUINT_FLAG: u8 = 9;

/// The flag bit of a column declared not null.
pub const NOT_NULL_FLAG_BIT: i32 = 1;

/// The flag bit of a column declared unsigned.
pub const UNSIGNED_FLAG_BIT: i32 = 32;

/// Seven bits per byte, least significant group first, the high bit set on all but the last.
pub open spec fn varint(v: u64) -> Seq<u8>
    decreases v,
{
    if v < 128 {
        seq![v as u8]
    } else {
        seq![(v % 128 + 128) as u8] + varint(v / 128)
    }
}

/// Zig-zag mapping of signed to unsigned integers: 0, -1, 1, -2, ... to 0, 1, 2, 3, ...
pub open spec fn zigzag(v: i64) -> u64 {
    if v < 0 {
        !((v as u64) << 1u64)
    } else {
        (v as u64) << 1u64
    }
}

/// Appends the variable-length encoding of `v`.
pub fn encode_var_u64(buf: &mut Vec<u8>, v: u64)
    ensures
        final(buf)@ == old(buf)@ + varint(v),
{
    let mut x = v;
    while x >= 128
        invariant
            buf@ + varint(x) == old(buf)@ + varint(v),
        decreases x,
    {
        let ghost before = buf@;
        assert((x as u8 | 0x80u8) == (x % 128 + 128) as u8 && x >> 7u64 == x / 128) by (bit_vector)
            requires
                x >= 128,
        ;
        buf.push(x as u8 | 0x80u8);
        x = x >> 7;
        assert(buf@ + varint(x) =~= before + (seq![buf@.last()] + varint(x)));
    }
    buf.push(x as u8);
    assert(buf@ =~= old(buf)@ + varint(v));
}

/// Appends the zig-zag variable-length encoding of `v`.
pub fn encode_var_i64(buf: &mut Vec<u8>, v: i64)
    ensures
        final(buf)@ == old(buf)@ + varint(zigzag(v)),
{
    let mut vx = (v as u64) << 1;
    if v < 0 {
        vx = !vx;
    }
    encode_var_u64(buf, vx);
}

/// A row produced by the executor chain: its handle, and the encoded bytes of the
/// columns it stores with where each one lies in them.
pub struct ExecRow {
    pub handle: i64,
    pub value: Vec<u8>,
    /// Column id, offset in `value`, length.
    pub cols: Vec<(i64, usize, usize)>,
}

/// The placement of the first of `cols[i..]` with id `id`.
pub open spec fn first_col(cols: Seq<(i64, usize, usize)>, id: i64, i: int) -> Option<(usize, usize)>
    decreases cols.len() - i,
{
    if i < 0 || i >= cols.len() {
        None
    } else if cols[i].0 == id {
        Some((cols[i].1, cols[i].2))
    } else {
        first_col(cols, id, i + 1)
    }
}

impl ExecRow {
    /// Every placement lies within `value`.
    pub open spec fn wf(&self) -> bool {
        forall|i: int|
            0 <= i < self.cols@.len() ==> (#[trigger] self.cols@[i]).1 + self.cols@[i].2
                <= self.value@.len()
    }

    /// The stored bytes of column `id`, if the row stores it.
    pub open spec fn stored(&self, id: i64) -> Option<Seq<u8>> {
        match first_col(self.cols@, id, 0) {
            Some(p) => Some(self.value@.subrange(p.0 as int, p.0 + p.1)),
            None => None,
        }
    }

    /// Whether every placement lies within `value`.
    pub fn is_well_formed(&self) -> (r: bool)
        ensures
            r == self.wf(),
    {
        let mut i: usize = 0;
        while i < self.cols.len()
            invariant
                i <= self.cols@.len(),
                forall|k: int|
                    0 <= k < i ==> (#[trigger] self.cols@[k]).1 + self.cols@[k].2
                        <= self.value@.len(),
            decreases self.cols@.len() - i,
        {
            let (_, offset, length) = self.cols[i];
            if offset > self.value.len() || length > self.value.len() - offset {
                return false;
            }
            i = i + 1;
        }
        true
    }

    /// The stored bytes of column `id`, if the row stores it.
    pub fn get(&self, id: i64) -> (r: Option<&[u8]>)
        requires
            self.wf(),
        ensures
            r matches Some(b) ==> self.stored(id) == Some(b@),
            r is None ==> self.stored(id) is None,
    {
        let mut i: usize = 0;
        while i < self.cols.len()
            invariant
                self.wf(),
                i <= self.cols@.len(),
                first_col(self.cols@, id, 0) == first_col(self.cols@, id, i as int),
            decreases self.cols@.len() - i,
        {
            let (cid, offset, length) = self.cols[i];
            if cid == id {
                assert(self.cols@[i as int].1 + self.cols@[i as int].2 <= self.value@.len());
                assert(self.value.len() <= usize::MAX);
                return Some(slice_subrange(self.value.as_slice(), offset, offset + length));
            }
            i = i + 1;
        }
        None
    }
}

/// An output column of the schema.
pub struct ColumnInfo {
    pub column_id: i64,
    /// The column is the row's integer handle.
    pub pk_handle: bool,
    /// The encoded default value, if declared.
    pub default_val: Option<Vec<u8>>,
    pub flag: i32,
}

/// The encoded value a handle column takes from the row's handle.
pub open spec fn encoded_handle(col: ColumnInfo, handle: i64) -> Seq<u8> {
    if col.flag & UNSIGNED_FLAG_BIT != 0 {
        seq![VARUINT_FLAG] + varint(handle as u64)
    } else {
        seq![VARINT_FLAG] + varint(zigzag(handle))
    }
}

/// The encoded value of output column `col` in `row`; `None` when it is missing.
pub open spec fn column_value(row: ExecRow, col: ColumnInfo) -> Option<Seq<u8>> {
    match row.stored(col.column_id) {
        Some(v) => Some(v),
        None => if col.pk_handle {
            Some(encoded_handle(col, row.handle))
        } else if col.default_val is Some {
            Some(col.default_val->0@)
        } else if col.flag & NOT_NULL_FLAG_BIT != 0 {
            None
        } else {
            Some(seq![NIL_FLAG])
        },
    }
}

/// The row encoded against the first `n` output offsets; `None` when a column is missing.
pub open spec fn inflated(row: ExecRow, cols: Seq<ColumnInfo>, offsets: Seq<u32>, n: int) -> Option<
    Seq<u8>,
>
    decreases n,
{
    if n <= 0 {
        Some(Seq::empty())
    } else {
        match inflated(row, cols, offsets, n - 1) {
            None => None,
            Some(p) => match column_value(row, cols[offsets[n - 1] as int]) {
                None => None,
                Some(v) => Some(p + v),
            },
        }
    }
}

proof fn lemma_inflated_missing_stays(row: ExecRow, cols: Seq<ColumnInfo>, offsets: Seq<u32>, k: int, m: int)
    requires
        0 <= k <= m,
        inflated(row, cols, offsets, k) is None,
    ensures
        inflated(row, cols, offsets, m) is None,
    decreases m - k,
{
    if k < m {
        lemma_inflated_missing_stays(row, cols, offsets, k, m - 1);
    }
}

/// Encodes `row` against the output columns picked by `output_offsets`.
pub fn inflate_cols(row: &ExecRow, cols: &[ColumnInfo], output_offsets: &[u32]) -> (r: Result<
    Vec<u8>,
    ExecError,
>)
    requires
        row.wf(),
        forall|i: int| 0 <= i < output_offsets@.len() ==> (#[trigger] output_offsets@[i]) < cols@.len(),
    ensures
        r matches Ok(v) ==> inflated(*row, cols@, output_offsets@, output_offsets@.len() as int) == Some(v@),
        r is Err ==> inflated(*row, cols@, output_offsets@, output_offsets@.len() as int) is None,
        r matches Err(e) ==> e matches ExecError::MissingColumn(_, h) && h == row.handle,
{
    let mut values: Vec<u8> = Vec::with_capacity(row.value.len());
    let mut i: usize = 0;
    while i < output_offsets.len()
        invariant
            i <= output_offsets@.len(),
            row.wf(),
            forall|k: int| 0 <= k < output_offsets@.len() ==> (#[trigger] output_offsets@[k]) < cols@.len(),
            inflated(*row, cols@, output_offsets@, i as int) == Some(values@),
        decreases output_offsets@.len() - i,
    {
        let offset = output_offsets[i];
        assert(output_offsets@[i as int] < cols@.len());
        let col = &cols[offset as usize];
        let col_id = col.column_id;
        let ghost before = values@;
        match row.get(col_id) {
            Some(value) => values.extend_from_slice(value),
            None => {
                if col.pk_handle {
                    if col.flag & UNSIGNED_FLAG_BIT != 0 {
                        values.push(VARUINT_FLAG);
                        encode_var_u64(&mut values, row.handle as u64);
                    } else {
                        values.push(VARINT_FLAG);
                        encode_var_i64(&mut values, row.handle);
                    }
                } else if let Some(d) = &col.default_val {
                    values.extend_from_slice(d.as_slice());
                } else if col.flag & NOT_NULL_FLAG_BIT != 0 {
                    proof {
                        lemma_inflated_missing_stays(
                            *row,
                            cols@,
                            output_offsets@,
                            i + 1,
                            output_offsets@.len() as int,
                        );
                    }
                    return Err(ExecError::MissingColumn(col_id, row.handle));
                } else {
                    values.push(NIL_FLAG);
                }
            },
        }
        assert(values@ =~= before + column_value(*row, cols@[offset as int])->0);
        i = i + 1;
    }
    Ok(values)
}

} // verus!
