//! Null bitmaps: one bit per row, set when the row holds a value.

use vstd::prelude::*;

verus! {

/// Bit `k` (`k < 8`) of the byte `b` is set.
pub open spec fn bit_on(b: u8, k: u8) -> bool {
    b & (1u8 << k) != 0
}

/// The bit of row `i` in the bitmap `bm` is set.
pub open spec fn row_bit(bm: Seq<u8>, i: int) -> bool {
    bit_on(bm[i / 8], (i % 8) as u8)
}

/// Number of bytes that hold the bits of `n` rows.
pub open spec fn bytes_for(n: int) -> int {
    (n + 7) / 8
}

pub proof fn lemma_set_bit(b: u8, k: u8, j: u8)
    requires
        k < 8,
        j < 8,
    ensures
        bit_on(b | (1u8 << k), j) == (j == k || bit_on(b, j)),
{
    assert((b | (1u8 << k)) & (1u8 << j) != 0 <==> (j == k || b & (1u8 << j) != 0))
        by (bit_vector)
        requires
            k < 8,
            j < 8,
    ;
}

pub proof fn lemma_zero_byte(j: u8)
    requires
        j < 8,
    ensures
        !bit_on(0u8, j),
{
    assert(0u8 & (1u8 << j) == 0) by (bit_vector);
}

pub proof fn lemma_mask_low(b: u8, m: u8, j: u8)
    requires
        0 < m < 8,
        j < 8,
    ensures
        bit_on(b & (((1u8 << m) - 1) as u8), j) == (j < m && bit_on(b, j)),
{
    assert((b & (((1u8 << m) - 1) as u8)) & (1u8 << j) != 0 <==> (j < m && b & (1u8 << j)
        != 0)) by (bit_vector)
        requires
            0 < m < 8,
            j < 8,
    ;
}


/// The first `n` bits of `bm`, one per row.
pub open spec fn bits(bm: Seq<u8>, n: nat) -> Seq<bool> {
    Seq::new(n, |i: int| row_bit(bm, i))
}

/// `bm` has exactly the bytes that `n` rows need, and every bit past row `n` is clear.
pub open spec fn bitmap_wf(bm: Seq<u8>, n: nat) -> bool {
    &&& bm.len() == bytes_for(n as int)
    &&& forall|i: int| n <= i < bm.len() * 8 ==> !#[trigger] row_bit(bm, i)
}

proof fn lemma_shift_mask(n: usize)
    ensures
        n >> 3usize == n / 8,
        n & 7usize == n % 8,
{
    assert(n >> 3usize == n / 8) by (bit_vector);
    assert(n & 7usize == n % 8) by (bit_vector);
}

/// Appends the bit of row `n`.
pub fn push_bit(bm: &mut Vec<u8>, n: usize, on: bool)
    requires
        bitmap_wf(old(bm)@, n as nat),
    ensures
        bitmap_wf(final(bm)@, n as nat + 1),
        bits(final(bm)@, n as nat + 1) == bits(old(bm)@, n as nat).push(on),
{
    proof {
        lemma_shift_mask(n);
    }
    let idx = n >> 3;
    if idx >= bm.len() {
        bm.push(0u8);
        assert forall|j: u8| j < 8 implies !bit_on(0u8, j) by {
            lemma_zero_byte(j);
        }
    }
    let ghost mid = bm@;
    assert forall|i: int| 0 <= i < mid.len() * 8 && (i < n || i >= n + 1) implies #[trigger] row_bit(mid, i) == (i < n && row_bit(old(bm)@, i)) by {
        if i / 8 < old(bm)@.len() {
            assert(mid[i / 8] == old(bm)@[i / 8]);
        } else {
            assert(i / 8 == idx);
        }
    }
    if on {
        let pos = (n & 7) as u8;
        let b = bm[idx];
        bm.set(idx, b | (1u8 << pos));
        assert forall|i: int| 0 <= i < bm@.len() * 8 implies #[trigger] row_bit(bm@, i) == (i == n || row_bit(mid, i)) by {
            if i / 8 == idx {
                lemma_set_bit(b, pos, (i % 8) as u8);
            }
        }
    } else {
        assert(!row_bit(mid, n as int));
    }
    assert(bits(bm@, n as nat + 1) =~= bits(old(bm)@, n as nat).push(on));
}

/// Whether the bit of row `i` is set.
pub fn get_bit(bm: &Vec<u8>, i: usize) -> (r: bool)
    requires
        i < bm@.len() * 8,
    ensures
        r == row_bit(bm@, i as int),
{
    proof {
        lemma_shift_mask(i);
    }
    let pos = (i & 7) as u8;
    bm[i >> 3] & (1u8 << pos) != 0
}

/// Keeps the bits of the first `m` of `n` rows.
pub fn truncate_bits(bm: &mut Vec<u8>, n: usize, m: usize)
    requires
        bitmap_wf(old(bm)@, n as nat),
        m <= n,
    ensures
        bitmap_wf(final(bm)@, m as nat),
        bits(final(bm)@, m as nat) == bits(old(bm)@, n as nat).subrange(0, m as int),
{
    let rem = m % 8;
    let nb = if rem == 0 { m / 8 } else { m / 8 + 1 };
    bm.truncate(nb);
    let ghost mid = bm@;
    assert forall|i: int| 0 <= i < m implies #[trigger] row_bit(mid, i) == row_bit(old(bm)@, i) by {
        assert(mid[i / 8] == old(bm)@[i / 8]);
    }
    if rem != 0 {
        let last = nb - 1;
        let b = bm[last];
        let r8 = rem as u8;
        assert(1u8 << r8 >= 1) by (bit_vector)
            requires
                r8 < 8,
        ;
        bm.set(last, b & (((1u8 << r8) - 1) as u8));
        assert forall|i: int| 0 <= i < bm@.len() * 8 implies #[trigger] row_bit(bm@, i) == (i < m && row_bit(mid, i)) by {
            if i / 8 == last {
                lemma_mask_low(b, r8, (i % 8) as u8);
            } else {
                assert(bm@[i / 8] == mid[i / 8]);
            }
        }
    }
    assert(bits(bm@, m as nat) =~= bits(old(bm)@, n as nat).subrange(0, m as int));
}

} // verus!
