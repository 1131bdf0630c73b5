//! One column of a batch: its values over all rows, in one of three layouts.

use crate::bitmap::{bits, bitmap_wf, bytes_for, get_bit, push_bit, truncate_bits};
use crate::bytes::{le_bytes, le_decode_u64, le_encode_u64, le_value, string_from_utf8};
use crate::datum::{Datum, DatumModel};
use crate::types::{encoding, encoding_of, Encoding};
use vstd::prelude::*;
use vstd::slice::{slice_subrange, slice_to_vec};
use vstd::utf8::{decode_utf8, encode_utf8, valid_utf8};

verus! {

/// Number of `true` entries of `s`.
pub open spec fn count_true(s: Seq<bool>) -> nat
    decreases s.len(),
{
    if s.len() == 0 {
        0
    } else {
        count_true(s.drop_last()) + if s.last() {
            1nat
        } else {
            0nat
        }
    }
}

pub proof fn lemma_count_push(s: Seq<bool>, b: bool)
    ensures
        count_true(s.push(b)) == count_true(s) + if b {
            1nat
        } else {
            0nat
        },
{
    assert(s.push(b).drop_last() =~= s);
}

pub proof fn lemma_count_bound(s: Seq<bool>)
    ensures
        count_true(s) <= s.len(),
    decreases s.len(),
{
    if s.len() > 0 {
        lemma_count_bound(s.drop_last());
    }
}

/// Counting over a longer prefix counts at least as many.
pub proof fn lemma_count_prefix_mono(s: Seq<bool>, a: int, b: int)
    requires
        0 <= a <= b <= s.len(),
    ensures
        count_true(s.subrange(0, a)) <= count_true(s.subrange(0, b)),
    decreases b - a,
{
    if a < b {
        lemma_count_prefix_mono(s, a, b - 1);
        assert(s.subrange(0, b).drop_last() =~= s.subrange(0, b - 1));
    }
}

/// The contents of a [`Column`], field by field.
pub ghost struct ColumnModel {
    pub length: nat,
    pub null_cnt: nat,
    /// One bit per row, set when the row holds a value.
    pub bitmap: Seq<u8>,
    /// Variable-length layout: the end offset of each row in `data`, after a leading 0.
    pub offsets: Seq<usize>,
    pub data: Seq<u8>,
    /// Fixed-width layout: the width of each row's slot in `data`; 0 in the other layouts.
    pub fixed_len: nat,
    /// Boxed layout: the value of each row.
    pub ifaces: Seq<DatumModel>,
}

impl ColumnModel {
    pub open spec fn is_fixed(self) -> bool {
        self.fixed_len > 0
    }

    pub open spec fn is_varlen(self) -> bool {
        self.fixed_len == 0 && self.offsets.len() > 0
    }

    pub open spec fn is_boxed(self) -> bool {
        self.fixed_len == 0 && self.offsets.len() == 0
    }

    /// For each row, whether it is null.
    pub open spec fn nulls(self) -> Seq<bool> {
        bits(self.bitmap, self.length).map_values(|b: bool| !b)
    }

    /// The two columns have the same layout (and slot width).
    pub open spec fn same_layout(self, other: ColumnModel) -> bool {
        self.fixed_len == other.fixed_len && self.is_varlen() == other.is_varlen()
    }

    /// The bytes of row `i` (fixed-width and variable-length layouts).
    pub open spec fn row_bytes(self, i: int) -> Seq<u8> {
        if self.is_fixed() {
            self.data.subrange(i * self.fixed_len, (i + 1) * self.fixed_len)
        } else {
            self.data.subrange(self.offsets[i] as int, self.offsets[i + 1] as int)
        }
    }

    pub open spec fn offsets_wf(self) -> bool {
        &&& self.offsets.len() == self.length + 1
        &&& self.offsets[0] == 0
        &&& forall|i: int, j: int|
            0 <= i <= j <= self.length ==> #[trigger] self.offsets[i] <= #[trigger] self.offsets[j]
        &&& self.offsets[self.length as int] == self.data.len()
    }

    pub open spec fn wf(self) -> bool {
        &&& bitmap_wf(self.bitmap, self.length)
        &&& self.null_cnt == count_true(self.nulls())
        &&& self.is_fixed() ==> {
            &&& self.offsets.len() == 0
            &&& self.ifaces.len() == 0
            &&& self.data.len() == self.length * self.fixed_len
        }
        &&& self.is_varlen() ==> self.offsets_wf() && self.ifaces.len() == 0
        &&& self.is_boxed() ==> self.data.len() == 0 && self.ifaces.len() == self.length
    }

    /// `self` can take `rows` more rows and `bytes` more value bytes.
    pub open spec fn has_room(self, rows: nat, bytes: nat) -> bool {
        self.length + rows < usize::MAX && self.data.len() + bytes <= usize::MAX
    }

    pub open spec fn encoding(self) -> Encoding {
        if self.is_fixed() {
            Encoding::FixedWidth
        } else if self.is_varlen() {
            Encoding::VarLength
        } else {
            Encoding::Boxed
        }
    }

    /// Number of value bytes that rows `[b, e)` take.
    pub open spec fn span_len(self, b: int, e: int) -> nat {
        if self.is_fixed() {
            ((e - b) * self.fixed_len) as nat
        } else if self.is_varlen() {
            (self.offsets[e] - self.offsets[b]) as nat
        } else {
            0
        }
    }

    /// `self` is `old` with one more row, null or not, whose bytes extend `data` by `bytes`.
    pub open spec fn pushes(self, old: ColumnModel, is_null: bool, bytes: Seq<u8>) -> bool {
        &&& self.fixed_len == old.fixed_len
        &&& self.length == old.length + 1
        &&& self.nulls() == old.nulls().push(is_null)
        &&& self.data == old.data + bytes
        &&& !old.is_boxed() ==> self.ifaces == old.ifaces
        &&& old.is_varlen() ==> self.offsets == old.offsets.push(self.data.len() as usize)
        &&& !old.is_varlen() ==> self.offsets == old.offsets
    }

    /// `self` holds the first `n` rows of `old`, in the same layout.
    pub open spec fn truncates(self, old: ColumnModel, n: int) -> bool {
        &&& self.fixed_len == old.fixed_len
        &&& self.length == n
        &&& self.nulls() == old.nulls().subrange(0, n)
        &&& old.is_fixed() ==> self.data == old.data.subrange(0, n * old.fixed_len)
            && self.offsets == old.offsets
        &&& old.is_varlen() ==> self.data == old.data.subrange(0, old.offsets[n] as int)
            && self.offsets == old.offsets.subrange(0, n + 1)
        &&& old.is_boxed() ==> self.ifaces == old.ifaces.subrange(0, n) && self.offsets
            == old.offsets
    }

    /// An empty column of the layout of `self`.
    pub open spec fn is_empty_like(self, other: ColumnModel) -> bool {
        &&& self.same_layout(other)
        &&& self.length == 0
        &&& self.null_cnt == 0
        &&& self.bitmap.len() == 0
        &&& self.data.len() == 0
        &&& self.ifaces.len() == 0
        &&& self.is_varlen() ==> self.offsets == seq![0usize]
    }

    /// `self` is `old` with rows `[b, e)` of `src` appended, each with its null flag.
    pub open spec fn appends(self, old: ColumnModel, src: ColumnModel, b: int, e: int) -> bool {
        &&& self.fixed_len == old.fixed_len
        &&& self.length == old.length + (e - b)
        &&& self.nulls() == old.nulls() + src.nulls().subrange(b, e)
        &&& old.is_fixed() ==> self.data == old.data + src.data.subrange(
            b * src.fixed_len,
            e * src.fixed_len,
        ) && self.offsets == old.offsets && self.ifaces == old.ifaces
        &&& old.is_varlen() ==> {
            &&& self.data == old.data + src.data.subrange(
                src.offsets[b] as int,
                src.offsets[e] as int,
            )
            &&& self.offsets == old.offsets + Seq::new(
                (e - b) as nat,
                |k: int| (old.data.len() + src.offsets[b + k + 1] - src.offsets[b]) as usize,
            )
            &&& self.ifaces == old.ifaces
        }
        &&& old.is_boxed() ==> self.ifaces == old.ifaces + src.ifaces.subrange(b, e)
            && self.data == old.data && self.offsets == old.offsets
    }
}

/// One column's values over many rows, in the layout chosen when it was made:
/// fixed-width slots, variable-length spans with offsets, or boxed values.
pub struct Column {
    length: usize,
    null_cnt: usize,
    null_bitmap: Vec<u8>,
    var_offsets: Vec<usize>,
    data: Vec<u8>,
    fixed_len: usize,
    ifaces: Vec<Datum>,
}

impl View for Column {
    type V = ColumnModel;

    closed spec fn view(&self) -> ColumnModel {
        ColumnModel {
            length: self.length as nat,
            null_cnt: self.null_cnt as nat,
            bitmap: self.null_bitmap@,
            offsets: self.var_offsets@,
            data: self.data@,
            fixed_len: self.fixed_len as nat,
            ifaces: self.ifaces@.map_values(|d: Datum| d@),
        }
    }
}

impl Column {
    /// Width of the slot of every fixed-width column made from a type code.
    pub const SLOT_WIDTH: usize = 8;

    /// An empty column in the layout of type `tp`; fixed-width slots are eight bytes wide.
    pub fn new(tp: u8, init_cap: usize) -> (r: Column)
        ensures
            r@.wf(),
            r@.encoding() == encoding_of(tp),
            r@.is_fixed() ==> r@.fixed_len == 8,
            r@.is_empty_like(r@),
    {
        match encoding(tp) {
            Encoding::FixedWidth => Column::new_fixed_column(Self::SLOT_WIDTH, init_cap),
            Encoding::VarLength => Column::new_var_len_column(init_cap),
            Encoding::Boxed => Column::new_interface_column(init_cap),
        }
    }

    /// An empty fixed-width column with slots of `fixed_len` bytes.
    pub fn new_fixed_column(fixed_len: usize, init_cap: usize) -> (r: Column)
        requires
            fixed_len > 0,
        ensures
            r@.wf(),
            r@.length == 0,
            r@.fixed_len == fixed_len,
            r@.bitmap.len() == 0,
            r@.data.len() == 0,
    {
        let cap = match fixed_len.checked_mul(init_cap) {
            Some(c) => c,
            None => 0,
        };
        let r = Column {
            length: 0,
            null_cnt: 0,
            null_bitmap: Vec::with_capacity(init_cap >> 3),
            var_offsets: Vec::new(),
            data: Vec::with_capacity(cap),
            fixed_len,
            ifaces: Vec::new(),
        };
        assert(r@.nulls() =~= Seq::<bool>::empty());
        r
    }

    /// An empty variable-length column.
    pub fn new_var_len_column(init_cap: usize) -> (r: Column)
        ensures
            r@.wf(),
            r@.is_varlen(),
            r@.length == 0,
            r@.bitmap.len() == 0,
            r@.data.len() == 0,
            r@.offsets == seq![0usize],
    {
        let mut offsets = Vec::with_capacity(if init_cap < usize::MAX { init_cap + 1 } else { init_cap });
        offsets.push(0usize);
        let cap = match init_cap.checked_mul(4) {
            Some(c) => c,
            None => 0,
        };
        let r = Column {
            length: 0,
            null_cnt: 0,
            null_bitmap: Vec::with_capacity(init_cap >> 3),
            var_offsets: offsets,
            data: Vec::with_capacity(cap),
            fixed_len: 0,
            ifaces: Vec::new(),
        };
        assert(r@.offsets =~= seq![0usize]);
        assert(r@.nulls() =~= Seq::<bool>::empty());
        r
    }

    /// An empty boxed column.
    pub fn new_interface_column(init_cap: usize) -> (r: Column)
        ensures
            r@.wf(),
            r@.is_boxed(),
            r@.length == 0,
            r@.bitmap.len() == 0,
            r@.ifaces.len() == 0,
    {
        let r = Column {
            length: 0,
            null_cnt: 0,
            null_bitmap: Vec::with_capacity(init_cap >> 3),
            var_offsets: Vec::new(),
            data: Vec::new(),
            fixed_len: 0,
            ifaces: Vec::with_capacity(init_cap),
        };
        assert(r@.nulls() =~= Seq::<bool>::empty());
        assert(r@.ifaces =~= Seq::<DatumModel>::empty());
        r
    }

    pub fn is_fixed(&self) -> (r: bool)
        ensures
            r == self@.is_fixed(),
    {
        self.fixed_len > 0
    }

    pub fn is_varlen(&self) -> (r: bool)
        requires
            self@.wf(),
        ensures
            r == self@.is_varlen(),
    {
        self.fixed_len == 0 && !self.var_offsets.is_empty()
    }

    /// Clears the content and keeps the layout (and, for variable-length, the leading 0 offset).
    pub fn reset(&mut self)
        requires
            old(self)@.wf(),
        ensures
            final(self)@.wf(),
            final(self)@.is_empty_like(old(self)@),
    {
        self.length = 0;
        self.null_cnt = 0;
        self.null_bitmap.clear();
        if !self.var_offsets.is_empty() {
            self.var_offsets.truncate(1);
        }
        self.data.clear();
        self.ifaces.clear();
        assert(self@.nulls() =~= Seq::<bool>::empty());
        assert(self@.ifaces =~= Seq::<DatumModel>::empty());
        assert(self.fixed_len == 0 && self@.offsets.len() > 0 ==> self@.offsets =~= seq![0usize]);
    }

    /// Number of rows.
    pub fn len(&self) -> (r: usize)
        ensures
            r == self@.length,
    {
        self.length
    }

    /// Number of null rows.
    pub fn null_count(&self) -> (r: usize)
        ensures
            r == self@.null_cnt,
    {
        self.null_cnt
    }

    /// The null bitmap: bit `i % 8` of byte `i / 8` is set when row `i` holds a value.
    pub fn null_bitmap(&self) -> (r: &[u8])
        ensures
            r@ == self@.bitmap,
    {
        self.null_bitmap.as_slice()
    }

    /// The row offsets of a variable-length column (empty in the other layouts).
    pub fn offsets(&self) -> (r: &[usize])
        ensures
            r@ == self@.offsets,
    {
        self.var_offsets.as_slice()
    }

    /// The value bytes of all rows.
    pub fn data(&self) -> (r: &[u8])
        ensures
            r@ == self@.data,
    {
        self.data.as_slice()
    }

    /// The slot width of a fixed-width column; 0 in the other layouts.
    pub fn fixed_len(&self) -> (r: usize)
        ensures
            r == self@.fixed_len,
    {
        self.fixed_len
    }

    /// The values of a boxed column.
    pub fn interfaces(&self) -> (r: &[Datum])
        ensures
            r@.map_values(|d: Datum| d@) == self@.ifaces,
    {
        self.ifaces.as_slice()
    }

    /// Whether row `row_idx` is null.
    pub fn is_null(&self, row_idx: usize) -> (r: bool)
        requires
            self@.wf(),
            row_idx < self@.length,
        ensures
            r == self@.nulls()[row_idx as int],
    {
        !get_bit(&self.null_bitmap, row_idx)
    }
}

impl Column {
    /// Records the null flag of the row at index `length` (the caller then counts the row).
    fn append_null_bitmap(&mut self, on: bool)
        requires
            bitmap_wf(old(self)@.bitmap, old(self)@.length),
            old(self)@.null_cnt == count_true(old(self)@.nulls()),
            old(self)@.length < usize::MAX,
        ensures
            bitmap_wf(final(self)@.bitmap, old(self)@.length + 1),
            bits(final(self)@.bitmap, old(self)@.length + 1) == bits(
                old(self)@.bitmap,
                old(self)@.length,
            ).push(on),
            final(self)@ == (ColumnModel {
                bitmap: final(self)@.bitmap,
                null_cnt: final(self)@.null_cnt,
                ..old(self)@
            }),
            final(self)@.null_cnt == old(self)@.null_cnt + if on {
                0nat
            } else {
                1nat
            },
    {
        proof {
            lemma_count_bound(old(self)@.nulls());
        }
        push_bit(&mut self.null_bitmap, self.length, on);
        if !on {
            self.null_cnt = self.null_cnt + 1;
        }
    }

    /// The row just recorded by `append_null_bitmap` is counted.
    proof fn lemma_count_row(m0: ColumnModel, m1: ColumnModel, on: bool)
        requires
            m1.length == m0.length + 1,
            bits(m1.bitmap, m1.length) == bits(m0.bitmap, m0.length).push(on),
            m1.null_cnt == m0.null_cnt + if on {
                0nat
            } else {
                1nat
            },
            m0.null_cnt == count_true(m0.nulls()),
        ensures
            m1.nulls() == m0.nulls().push(!on),
            m1.null_cnt == count_true(m1.nulls()),
    {
        assert(m1.nulls() =~= m0.nulls().push(!on));
        lemma_count_push(m0.nulls(), !on);
    }

    /// Appends a null row: a zeroed slot, an empty span or a null value.
    pub fn append_null(&mut self)
        requires
            old(self)@.wf(),
            old(self)@.has_room(1, old(self)@.fixed_len),
        ensures
            final(self)@.wf(),
            final(self)@.pushes(
                old(self)@,
                true,
                Seq::new(old(self)@.fixed_len, |i: int| 0u8),
            ),
            old(self)@.is_boxed() ==> final(self)@.ifaces == old(self)@.ifaces.push(
                DatumModel::Null,
            ),
    {
        let ghost m0 = self@;
        self.append_null_bitmap(false);
        if self.fixed_len > 0 {
            let len = self.fixed_len + self.data.len();
            self.data.resize(len, 0u8);
            assert(self.data@ =~= m0.data + Seq::new(m0.fixed_len, |i: int| 0u8));
        } else if !self.var_offsets.is_empty() {
            let offset = self.var_offsets[self.length];
            self.var_offsets.push(offset);
            assert(self.data@ =~= m0.data + Seq::new(m0.fixed_len, |i: int| 0u8));
        } else {
            self.ifaces.push(Datum::Null);
            assert(self.data@ =~= m0.data + Seq::new(m0.fixed_len, |i: int| 0u8));
            assert(self@.ifaces =~= m0.ifaces.push(DatumModel::Null));
        }
        self.length = self.length + 1;
        proof {
            Self::lemma_count_row(m0, self@, false);
            if m0.is_fixed() {
                assert(self@.data.len() == self@.length * self@.fixed_len) by (nonlinear_arith)
                    requires
                        self@.data.len() == m0.data.len() + m0.fixed_len,
                        m0.data.len() == m0.length * m0.fixed_len,
                        self@.length == m0.length + 1,
                        self@.fixed_len == m0.fixed_len,
                ;
            }
            if m0.is_varlen() {
                assert(self@.offsets_wf());
            }
        }
    }

    /// Counts the row whose bytes were just written to a fixed-width column.
    fn finish_append_fixed(&mut self)
        requires
            bitmap_wf(old(self)@.bitmap, old(self)@.length),
            old(self)@.null_cnt == count_true(old(self)@.nulls()),
            old(self)@.length < usize::MAX,
        ensures
            final(self)@ == (ColumnModel {
                bitmap: final(self)@.bitmap,
                null_cnt: final(self)@.null_cnt,
                length: old(self)@.length + 1,
                ..old(self)@
            }),
            bitmap_wf(final(self)@.bitmap, final(self)@.length),
            final(self)@.nulls() == old(self)@.nulls().push(false),
            final(self)@.null_cnt == count_true(final(self)@.nulls()),
    {
        let ghost m0 = self@;
        self.append_null_bitmap(true);
        self.length = self.length + 1;
        proof {
            Self::lemma_count_row(m0, self@, true);
        }
    }

    /// Appends `v` to a column of eight-byte slots, least significant byte first.
    pub fn append_u64(&mut self, v: u64)
        requires
            old(self)@.wf(),
            old(self)@.fixed_len == 8,
            old(self)@.has_room(1, 8),
        ensures
            final(self)@.wf(),
            final(self)@.pushes(old(self)@, false, le_bytes(v)),
    {
        let ghost m0 = self@;
        let b = le_encode_u64(v);
        self.data.extend_from_slice(b.as_slice());
        assert(self.data@ =~= m0.data + le_bytes(v));
        self.finish_append_fixed();
        proof {
            assert(self@.data.len() == self@.length * 8) by (nonlinear_arith)
                requires
                    self@.data.len() == m0.data.len() + 8,
                    m0.data.len() == m0.length * 8,
                    self@.length == m0.length + 1,
            ;
        }
    }

    /// Appends `v` to a column of eight-byte slots, as its two's complement bits.
    pub fn append_i64(&mut self, v: i64)
        requires
            old(self)@.wf(),
            old(self)@.fixed_len == 8,
            old(self)@.has_room(1, 8),
        ensures
            final(self)@.wf(),
            final(self)@.pushes(old(self)@, false, le_bytes(v as u64)),
    {
        self.append_u64(v as u64);
    }

    /// The eight bytes of the slot of row `idx`, least significant first.
    pub fn get_u64(&self, idx: usize) -> (r: u64)
        requires
            self@.wf(),
            self@.fixed_len == 8,
            idx < self@.length,
        ensures
            r == le_value(self@.row_bytes(idx as int)),
    {
        proof {
            assert((idx + 1) * 8 <= self@.length * 8) by (nonlinear_arith)
                requires
                    idx < self@.length,
            ;
            assert(self@.data.len() == self@.length * 8);
            assert(self.data.len() <= usize::MAX);
        }
        let start = idx * 8;
        let slot = slice_subrange(self.data.as_slice(), start, start + 8);
        le_decode_u64(slot)
    }

    /// The slot of row `idx` read as a two's complement integer.
    pub fn get_i64(&self, idx: usize) -> (r: i64)
        requires
            self@.wf(),
            self@.fixed_len == 8,
            idx < self@.length,
        ensures
            r == le_value(self@.row_bytes(idx as int)) as i64,
    {
        self.get_u64(idx) as i64
    }
}

impl Column {
    /// Counts the row whose bytes were just written to a variable-length column.
    fn finished_append_var(&mut self)
        requires
            bitmap_wf(old(self)@.bitmap, old(self)@.length),
            old(self)@.null_cnt == count_true(old(self)@.nulls()),
            old(self)@.length < usize::MAX,
        ensures
            final(self)@ == (ColumnModel {
                bitmap: final(self)@.bitmap,
                null_cnt: final(self)@.null_cnt,
                length: old(self)@.length + 1,
                offsets: old(self)@.offsets.push(old(self)@.data.len() as usize),
                ..old(self)@
            }),
            bitmap_wf(final(self)@.bitmap, final(self)@.length),
            final(self)@.nulls() == old(self)@.nulls().push(false),
            final(self)@.null_cnt == count_true(final(self)@.nulls()),
    {
        let ghost m0 = self@;
        self.append_null_bitmap(true);
        let offset = self.data.len();
        self.var_offsets.push(offset);
        self.length = self.length + 1;
        proof {
            Self::lemma_count_row(m0, self@, true);
        }
    }

    /// Appends the bytes `b` as one row of a variable-length column.
    pub fn append_bytes(&mut self, b: &[u8])
        requires
            old(self)@.wf(),
            old(self)@.is_varlen(),
            old(self)@.has_room(1, b@.len()),
        ensures
            final(self)@.wf(),
            final(self)@.pushes(old(self)@, false, b@),
    {
        let ghost m0 = self@;
        self.data.extend_from_slice(b);
        assert(self.data@ =~= m0.data + b@);
        self.finished_append_var();
        assert(self@.offsets_wf());
    }

    /// Appends the UTF-8 bytes of `s` as one row of a variable-length column.
    pub fn append_str(&mut self, s: String)
        requires
            old(self)@.wf(),
            old(self)@.is_varlen(),
            old(self)@.has_room(1, encode_utf8(s@).len()),
        ensures
            final(self)@.wf(),
            final(self)@.pushes(old(self)@, false, encode_utf8(s@)),
    {
        self.append_bytes(s.as_str().as_bytes());
    }

    /// The bytes of row `idx` of a variable-length column.
    pub fn get_bytes(&self, idx: usize) -> (r: &[u8])
        requires
            self@.wf(),
            self@.is_varlen(),
            idx < self@.length,
        ensures
            r@ == self@.row_bytes(idx as int),
    {
        let start = self.var_offsets[idx];
        let end = self.var_offsets[idx + 1];
        slice_subrange(self.data.as_slice(), start, end)
    }

    /// The text of row `idx` of a variable-length column.
    pub fn get_str(&self, idx: usize) -> (r: String)
        requires
            self@.wf(),
            self@.is_varlen(),
            idx < self@.length,
            valid_utf8(self@.row_bytes(idx as int)),
        ensures
            r@ == decode_utf8(self@.row_bytes(idx as int)),
    {
        let b = self.get_bytes(idx);
        match string_from_utf8(slice_to_vec(b)) {
            Some(s) => s,
            None => String::new(),
        }
    }

    /// Appends `item` as one row of a boxed column.
    pub fn append_interface(&mut self, item: Datum)
        requires
            old(self)@.wf(),
            old(self)@.is_boxed(),
            old(self)@.has_room(1, 0),
        ensures
            final(self)@.wf(),
            final(self)@.pushes(old(self)@, false, Seq::empty()),
            final(self)@.ifaces == old(self)@.ifaces.push(item@),
    {
        let ghost m0 = self@;
        self.ifaces.push(item);
        self.append_null_bitmap(true);
        self.length = self.length + 1;
        proof {
            Self::lemma_count_row(m0, self@, true);
            assert(self@.ifaces =~= m0.ifaces.push(item@));
            assert(self@.data =~= m0.data + Seq::empty());
        }
    }

    /// The value of row `idx` of a boxed column.
    pub fn get_interface(&self, idx: usize) -> (r: Datum)
        requires
            self@.wf(),
            self@.is_boxed(),
            idx < self@.length,
        ensures
            r@ == self@.ifaces[idx as int],
    {
        self.ifaces[idx].copied()
    }
}

impl Column {
    /// Copies row `row_idx` of `row_col` (its value and null flag) to the end of this column.
    pub fn append_row(&mut self, row_col: &Column, row_idx: usize)
        requires
            old(self)@.wf(),
            row_col@.wf(),
            old(self)@.same_layout(row_col@),
            row_idx < row_col@.length,
            old(self)@.has_room(1, row_col@.span_len(row_idx as int, row_idx + 1)),
        ensures
            final(self)@.wf(),
            final(self)@.appends(old(self)@, row_col@, row_idx as int, row_idx + 1),
    {
        let ghost m0 = self@;
        let ghost src = row_col@;
        let on = !row_col.is_null(row_idx);
        self.append_null_bitmap(on);
        if row_col.fixed_len > 0 {
            proof {
                assert((row_idx + 1) * src.fixed_len <= src.length * src.fixed_len)
                    by (nonlinear_arith)
                    requires
                        row_idx < src.length,
                ;
                assert(row_col.data.len() <= usize::MAX);
                assert((row_idx + 1) * src.fixed_len == row_idx * src.fixed_len + src.fixed_len)
                    by (nonlinear_arith);
            }
            let offset = row_idx * row_col.fixed_len;
            let end = offset + row_col.fixed_len;
            self.data.extend_from_slice(slice_subrange(row_col.data.as_slice(), offset, end));
            proof {
                assert(self@.data.len() == (m0.length + 1) * m0.fixed_len) by (nonlinear_arith)
                    requires
                        self@.data.len() == m0.data.len() + m0.fixed_len,
                        m0.data.len() == m0.length * m0.fixed_len,
                ;
            }
        } else if !row_col.var_offsets.is_empty() {
            let start = row_col.var_offsets[row_idx];
            let end = row_col.var_offsets[row_idx + 1];
            self.data.extend_from_slice(slice_subrange(row_col.data.as_slice(), start, end));
            let len = self.data.len();
            self.var_offsets.push(len);
            proof {
                assert(self@.offsets =~= m0.offsets + Seq::new(
                    1,
                    |k: int|
                        (m0.data.len() + src.offsets[row_idx + k + 1]
                            - src.offsets[row_idx as int]) as usize,
                ));
            }
        } else {
            let d = row_col.ifaces[row_idx].copied();
            self.ifaces.push(d);
            proof {
                assert(self@.ifaces =~= m0.ifaces + src.ifaces.subrange(
                    row_idx as int,
                    row_idx + 1,
                ));
            }
        }
        self.length = self.length + 1;
        proof {
            Self::lemma_count_row(m0, self@, on);
            assert(self@.nulls() =~= m0.nulls() + src.nulls().subrange(
                row_idx as int,
                row_idx + 1,
            ));
            if m0.is_fixed() {
                assert(self@.data =~= m0.data + src.data.subrange(
                    row_idx * src.fixed_len,
                    (row_idx + 1) * src.fixed_len,
                ));
            }
            if m0.is_varlen() {
                assert(self@.data =~= m0.data + src.data.subrange(
                    src.offsets[row_idx as int] as int,
                    src.offsets[row_idx + 1] as int,
                ));
                assert(self@.offsets_wf());
            }
            if m0.is_boxed() {
                assert(self@.data =~= m0.data);
            }
        }
    }
}

impl Column {
    /// Copies rows `[begin, end)` of `col` to the end of this column; the copied
    /// offsets of a variable-length column are rebased onto this column's last offset.
    pub fn append(&mut self, col: &Column, begin: usize, end: usize)
        requires
            old(self)@.wf(),
            col@.wf(),
            old(self)@.same_layout(col@),
            begin <= end <= col@.length,
            old(self)@.has_room((end - begin) as nat, col@.span_len(begin as int, end as int)),
        ensures
            final(self)@.wf(),
            final(self)@.appends(old(self)@, col@, begin as int, end as int),
    {
        let ghost m0 = self@;
        let ghost src = col@;
        if col.fixed_len > 0 {
            proof {
                assert(end * src.fixed_len <= src.length * src.fixed_len) by (nonlinear_arith)
                    requires
                        end <= src.length,
                ;
                assert(begin * src.fixed_len <= end * src.fixed_len) by (nonlinear_arith)
                    requires
                        begin <= end,
                ;
                assert(col.data.len() <= usize::MAX);
                assert((end - begin) * src.fixed_len == end * src.fixed_len - begin
                    * src.fixed_len) by (nonlinear_arith);
            }
            let from = col.fixed_len * begin;
            let to = col.fixed_len * end;
            self.data.extend_from_slice(slice_subrange(col.data.as_slice(), from, to));
            proof {
                assert(self@.data =~= m0.data + src.data.subrange(
                    begin * src.fixed_len,
                    end * src.fixed_len,
                ));
                assert(self@.data.len() == (m0.length + (end - begin)) * m0.fixed_len)
                    by (nonlinear_arith)
                    requires
                        self@.data.len() == m0.data.len() + (end - begin) * m0.fixed_len,
                        m0.data.len() == m0.length * m0.fixed_len,
                ;
            }
        } else if !col.var_offsets.is_empty() {
            let from = col.var_offsets[begin];
            let to = col.var_offsets[end];
            self.data.extend_from_slice(slice_subrange(col.data.as_slice(), from, to));
            let mut id = begin;
            while id < end
                invariant
                    col@ == src,
                    src.wf(),
                    src.is_varlen(),
                    m0.wf(),
                    m0.is_varlen(),
                    begin <= id <= end <= src.length,
                    from == src.offsets[begin as int],
                    to == src.offsets[end as int],
                    self@ == (ColumnModel { offsets: self@.offsets, data: self@.data, ..m0 }),
                    self.data@ == m0.data + src.data.subrange(from as int, to as int),
                    self.var_offsets@ == m0.offsets + Seq::new(
                        (id - begin) as nat,
                        |k: int|
                            (m0.data.len() + src.offsets[begin + k + 1]
                                - src.offsets[begin as int]) as usize,
                    ),
                decreases end - id,
            {
                assert(self.data.len() <= usize::MAX);
                let last = self.var_offsets[self.var_offsets.len() - 1];
                assert(last == m0.data.len() + src.offsets[id as int] - src.offsets[begin as int]);
                let offset = last + (col.var_offsets[id + 1] - col.var_offsets[id]);
                self.var_offsets.push(offset);
                id = id + 1;
                assert(self.var_offsets@ =~= m0.offsets + Seq::new(
                    (id - begin) as nat,
                    |k: int|
                        (m0.data.len() + src.offsets[begin + k + 1]
                            - src.offsets[begin as int]) as usize,
                ));
            }
        } else {
            let mut id = begin;
            while id < end
                invariant
                    col@ == src,
                    src.wf(),
                    src.is_boxed(),
                    begin <= id <= end <= src.length,
                    self@ == (ColumnModel { ifaces: self@.ifaces, ..m0 }),
                    self.ifaces@.map_values(|d: Datum| d@) == m0.ifaces + src.ifaces.subrange(
                        begin as int,
                        id as int,
                    ),
                decreases end - id,
            {
                let d = col.ifaces[id].copied();
                let ghost prev = self.ifaces@;
                self.ifaces.push(d);
                assert(self.ifaces@.map_values(|d: Datum| d@) =~= prev.map_values(|d: Datum| d@).push(d@));
                id = id + 1;
                assert(self.ifaces@.map_values(|d: Datum| d@) =~= m0.ifaces
                    + src.ifaces.subrange(begin as int, id as int));
            }
        }
        let ghost m1 = self@;
        let mut id = begin;
        while id < end
            invariant
                col@ == src,
                src.wf(),
                begin <= id <= end <= src.length,
                m0.length + (end - begin) < usize::MAX,
                self@ == (ColumnModel {
                    bitmap: self@.bitmap,
                    null_cnt: self@.null_cnt,
                    length: self@.length,
                    ..m1
                }),
                self@.length == m0.length + (id - begin),
                bitmap_wf(self@.bitmap, self@.length),
                self@.null_cnt == count_true(self@.nulls()),
                self@.nulls() == m0.nulls() + src.nulls().subrange(begin as int, id as int),
            decreases end - id,
        {
            let ghost before = self@;
            let on = !col.is_null(id);
            self.append_null_bitmap(on);
            self.length = self.length + 1;
            proof {
                Self::lemma_count_row(before, self@, on);
                assert(self@.nulls() =~= m0.nulls() + src.nulls().subrange(
                    begin as int,
                    id + 1,
                ));
            }
            id = id + 1;
        }
        proof {
            if m0.is_varlen() {
                assert(self@.offsets_wf());
            }
        }
    }

    /// Drops every row from `num_rows` on.
    pub fn truncate_to(&mut self, num_rows: usize)
        requires
            old(self)@.wf(),
            num_rows <= old(self)@.length,
        ensures
            final(self)@.wf(),
            final(self)@.truncates(old(self)@, num_rows as int),
    {
        let ghost m0 = self@;
        let ghost nulls0 = m0.nulls();
        if self.fixed_len > 0 {
            proof {
                assert(m0.fixed_len * num_rows <= m0.length * m0.fixed_len) by (nonlinear_arith)
                    requires
                        num_rows <= m0.length,
                ;
                assert(self.data.len() <= usize::MAX);
            }
            let to = self.fixed_len * num_rows;
            self.data.truncate(to);
        } else if !self.var_offsets.is_empty() {
            let to = self.var_offsets[num_rows];
            assert(self.var_offsets.len() == m0.length + 1);
            self.data.truncate(to);
            self.var_offsets.truncate(num_rows + 1);
        } else {
            self.ifaces.truncate(num_rows);
            assert(self@.ifaces =~= m0.ifaces.subrange(0, num_rows as int));
        }
        let ghost mid = self@;
        let mut id = num_rows;
        while id < self.length
            invariant
                self@ == (ColumnModel { null_cnt: self@.null_cnt, ..mid }),
                mid.length == m0.length,
                self.length == m0.length,
                self.null_bitmap@ == m0.bitmap,
                bitmap_wf(m0.bitmap, m0.length),
                nulls0 == m0.nulls(),
                num_rows <= id <= m0.length,
                self.null_cnt + count_true(nulls0.subrange(0, id as int)) == count_true(nulls0)
                    + count_true(nulls0.subrange(0, num_rows as int)),
            decreases m0.length - id,
        {
            proof {
                lemma_count_prefix_mono(nulls0, id + 1, m0.length as int);
                assert(nulls0.subrange(0, m0.length as int) =~= nulls0);
                assert(nulls0.subrange(0, id + 1).drop_last() =~= nulls0.subrange(0, id as int));
            }
            if !get_bit(&self.null_bitmap, id) {
                self.null_cnt = self.null_cnt - 1;
            }
            id = id + 1;
        }
        proof {
            assert(nulls0.subrange(0, m0.length as int) =~= nulls0);
        }
        truncate_bits(&mut self.null_bitmap, self.length, num_rows);
        self.length = num_rows;
        proof {
            assert(self@.nulls() =~= nulls0.subrange(0, num_rows as int));
            if m0.is_fixed() {
                assert(m0.fixed_len * num_rows == num_rows * m0.fixed_len) by (nonlinear_arith);
                assert(self@.data.len() == num_rows * m0.fixed_len);
            }
            if m0.is_varlen() {
                assert(self@.offsets_wf());
            }
        }
    }
}

/// After any append, the new row carries the null flag it was appended with and
/// the earlier rows keep theirs: a null append reads back as null, a value append as not null.
pub proof fn lemma_pushed_null_flag(old: ColumnModel, new: ColumnModel, is_null: bool, bytes: Seq<u8>)
    requires
        new.pushes(old, is_null, bytes),
    ensures
        new.nulls()[old.length as int] == is_null,
        forall|i: int| 0 <= i < old.length ==> new.nulls()[i] == old.nulls()[i],
{
    assert(new.nulls().len() == old.nulls().len() + 1);
}

/// An unsigned integer appended to a column of eight-byte slots reads back unchanged.
pub proof fn lemma_u64_round_trip(old: ColumnModel, new: ColumnModel, v: u64)
    requires
        old.wf(),
        old.fixed_len == 8,
        new.pushes(old, false, le_bytes(v)),
    ensures
        le_value(new.row_bytes(old.length as int)) == v,
        !new.nulls()[old.length as int],
{
    lemma_pushed_null_flag(old, new, false, le_bytes(v));
    assert(old.data.len() == old.length * 8);
    assert(new.row_bytes(old.length as int) =~= le_bytes(v));
    crate::bytes::lemma_le_round_trip(v);
}

/// A signed integer appended to a column of eight-byte slots reads back unchanged.
pub proof fn lemma_i64_round_trip(old: ColumnModel, new: ColumnModel, v: i64)
    requires
        old.wf(),
        old.fixed_len == 8,
        new.pushes(old, false, le_bytes(v as u64)),
    ensures
        le_value(new.row_bytes(old.length as int)) as i64 == v,
        !new.nulls()[old.length as int],
{
    lemma_u64_round_trip(old, new, v as u64);
    assert((v as u64) as i64 == v) by (bit_vector);
}

/// Bytes appended to a variable-length column read back unchanged.
pub proof fn lemma_bytes_round_trip(old: ColumnModel, new: ColumnModel, b: Seq<u8>)
    requires
        old.wf(),
        old.is_varlen(),
        new.wf(),
        new.pushes(old, false, b),
    ensures
        new.row_bytes(old.length as int) == b,
        !new.nulls()[old.length as int],
{
    lemma_pushed_null_flag(old, new, false, b);
    assert(new.row_bytes(old.length as int) =~= b);
}

/// A string appended to a variable-length column reads back as the same characters.
pub proof fn lemma_str_round_trip(old: ColumnModel, new: ColumnModel, s: Seq<char>)
    requires
        old.wf(),
        old.is_varlen(),
        new.wf(),
        new.pushes(old, false, encode_utf8(s)),
    ensures
        valid_utf8(new.row_bytes(old.length as int)),
        decode_utf8(new.row_bytes(old.length as int)) == s,
        !new.nulls()[old.length as int],
{
    lemma_bytes_round_trip(old, new, encode_utf8(s));
    vstd::utf8::encode_utf8_valid_utf8(s);
    vstd::utf8::encode_utf8_decode_utf8(s);
}

/// A value appended to a boxed column reads back unchanged.
pub proof fn lemma_boxed_round_trip(old: ColumnModel, new: ColumnModel, d: DatumModel)
    requires
        old.wf(),
        old.is_boxed(),
        new.pushes(old, false, Seq::empty()),
        new.ifaces == old.ifaces.push(d),
    ensures
        new.ifaces[old.length as int] == d,
        !new.nulls()[old.length as int],
{
    lemma_pushed_null_flag(old, new, false, Seq::empty());
}

/// Copying rows `[b, e)` of a variable-length column into an empty one gives offsets
/// that start at 0 and grow by the byte length of each copied row in turn.
pub proof fn lemma_range_copy_offsets(dst: ColumnModel, res: ColumnModel, src: ColumnModel, b: int, e: int)
    requires
        dst.wf(),
        dst.is_varlen(),
        dst.length == 0,
        src.wf(),
        src.is_varlen(),
        0 <= b <= e <= src.length,
        res.appends(dst, src, b, e),
    ensures
        res.offsets.len() == e - b + 1,
        res.offsets[0] == 0,
        forall|k: int|
            0 <= k < e - b ==> res.offsets[k + 1] - res.offsets[k] == (#[trigger] src.row_bytes(
                b + k,
            )).len(),
        forall|k: int|
            0 <= k <= e - b ==> #[trigger] res.offsets[k] == src.offsets[b + k] - src.offsets[b],
{
    assert(dst.data.len() == 0);
    assert forall|k: int| 0 <= k <= e - b implies #[trigger] res.offsets[k] == src.offsets[b + k]
        - src.offsets[b] by {
        if k > 0 {
            assert(src.offsets[b] <= src.offsets[b + k]);
            assert(res.offsets[k] == (dst.data.len() + src.offsets[b + (k - 1) + 1]
                - src.offsets[b]) as usize);
        }
    }
    assert forall|k: int| 0 <= k < e - b implies res.offsets[k + 1] - res.offsets[k]
        == (#[trigger] src.row_bytes(b + k)).len() by {
        assert(res.offsets[k] == src.offsets[b + k] - src.offsets[b]);
        assert(res.offsets[k + 1] == src.offsets[b + k + 1] - src.offsets[b]);
        assert(src.offsets[b + k] <= src.offsets[b + k + 1]);
        assert(src.offsets[b + k + 1] <= src.offsets[src.length as int]);
    }
}

/// An append leaves the bytes of every earlier row as they were.
pub proof fn lemma_pushed_keeps_rows(old: ColumnModel, new: ColumnModel, is_null: bool, bytes: Seq<u8>)
    requires
        old.wf(),
        !old.is_boxed(),
        new.pushes(old, is_null, bytes),
    ensures
        forall|k: int| 0 <= k < old.length ==> #[trigger] new.row_bytes(k) == old.row_bytes(k),
{
    assert forall|k: int| 0 <= k < old.length implies #[trigger] new.row_bytes(k) == old.row_bytes(k) by {
        if old.is_fixed() {
            assert((k + 1) * old.fixed_len <= old.length * old.fixed_len) by (nonlinear_arith)
                requires
                    k < old.length,
            ;
            assert(k * old.fixed_len <= (k + 1) * old.fixed_len) by (nonlinear_arith)
                requires
                    0 <= k,
            ;
            assert(0 <= k * old.fixed_len) by (nonlinear_arith)
                requires
                    0 <= k,
            ;
            assert(new.row_bytes(k) =~= old.row_bytes(k));
        } else {
            assert(old.offsets[k] <= old.offsets[k + 1]);
            assert(old.offsets[k + 1] <= old.offsets[old.length as int]);
            assert(new.row_bytes(k) =~= old.row_bytes(k));
        }
    }
}

} // verus!
