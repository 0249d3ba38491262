//! How the columns of an archetype lie in its block.
//!
//! The columns follow one another in the order of the signature. Each column
//! holds `capacity` values back to back and starts at the first offset, at or
//! after the end of the column before it, that its type's alignment divides.

use crate::type_info::TypeInfo;
use vstd::arithmetic::div_mod::{
    lemma_add_mod_noop, lemma_fundamental_div_mod, lemma_mod_multiples_basic, lemma_small_mod,
};
use vstd::arithmetic::mul::lemma_mul_is_commutative;
use vstd::arithmetic::power2::is_pow2;
use vstd::prelude::*;

verus! {

/// The size and alignment of a block.
#[derive(Clone, Copy, Debug, PartialEq, Eq, Structural)]
pub struct BlockLayout {
    /// The number of bytes in the block.
    pub size: usize,
    /// The alignment the block's first byte requires.
    pub align: usize,
}

/// Where one column lies in the block.
#[derive(Clone, Copy, Debug, PartialEq, Eq)]
pub struct Entry {
    /// The type of the column's values.
    pub ty: TypeInfo,
    /// The number of bytes in the column.
    pub size: usize,
    /// The offset of the column's first byte.
    pub offset: usize,
}

/// The first multiple of `align` at or after `n`.
pub open spec fn padded(n: nat, align: nat) -> nat {
    if align == 0 || n % align == 0 {
        n
    } else {
        (n + align - n % align) as nat
    }
}

/// The offset just past the first `n` columns.
pub open spec fn extent(sig: Seq<TypeInfo>, capacity: nat, n: int) -> nat
    decreases n,
{
    if n <= 0 {
        0
    } else {
        let ty = sig[n - 1];
        padded(extent(sig, capacity, n - 1), ty.align as nat) + ty.size as nat * capacity
    }
}

/// The offset at which column `col` starts.
pub open spec fn column_offset(sig: Seq<TypeInfo>, capacity: nat, col: int) -> nat {
    padded(extent(sig, capacity, col), sig[col].align as nat)
}

/// The offset at which the value of slot `slot` in column `col` starts.
pub open spec fn cell_offset(sig: Seq<TypeInfo>, capacity: nat, col: int, slot: int) -> int {
    column_offset(sig, capacity, col) + slot * sig[col].size
}

/// The number of bytes in the block.
pub open spec fn block_size(sig: Seq<TypeInfo>, capacity: nat) -> nat {
    extent(sig, capacity, sig.len() as int)
}

/// The largest alignment among the first `n` columns, and 1 where there is
/// none.
pub open spec fn widest(sig: Seq<TypeInfo>, n: int) -> nat
    decreases n,
{
    if n <= 0 {
        1
    } else {
        let before = widest(sig, n - 1);
        if sig[n - 1].align > before {
            sig[n - 1].align as nat
        } else {
            before
        }
    }
}

/// The alignment the block requires: the largest of its columns'.
pub open spec fn block_align(sig: Seq<TypeInfo>) -> nat {
    widest(sig, sig.len() as int)
}

/// The largest block there can be.
pub open spec fn max_block() -> nat {
    isize::MAX as nat
}

/// Whether a block for `capacity` actors with the columns `sig` can be had:
/// neither the number of slots nor the number of bytes may pass the largest
/// block.
pub open spec fn fits(sig: Seq<TypeInfo>, capacity: nat) -> bool {
    &&& capacity <= max_block()
    &&& block_size(sig, capacity) <= max_block()
}

/// Whether every descriptor of `sig` can head a column.
pub open spec fn all_valid(sig: Seq<TypeInfo>) -> bool {
    forall|c: int| 0 <= c < sig.len() ==> (#[trigger] sig[c]).valid()
}

/// Whether `entries` say of each column of `sig` what the layout at
/// `capacity` says: its type, its length and where it starts.
pub open spec fn laid_out(entries: Seq<Entry>, sig: Seq<TypeInfo>, capacity: nat) -> bool {
    &&& entries.len() == sig.len()
    &&& forall|c: int|
        0 <= c < entries.len() ==> {
            &&& (#[trigger] entries[c]).ty == sig[c]
            &&& entries[c].size == sig[c].size * capacity
            &&& entries[c].offset == column_offset(sig, capacity, c)
        }
}

/// Padding moves an offset forward by less than the alignment, onto a
/// multiple of it.
pub proof fn lemma_padded(n: nat, align: nat)
    requires
        align > 0,
    ensures
        n <= padded(n, align) < n + align,
        padded(n, align) % align == 0,
{
    if n % align != 0 {
        let q = n as int / align as int;
        let r = n as int % align as int;
        lemma_fundamental_div_mod(n as int, align as int);
        assert(n + align - r == align * (q + 1)) by (nonlinear_arith)
            requires
                n == align * q + r,
        ;
        lemma_mul_is_commutative(align as int, q + 1);
        lemma_mod_multiples_basic(q + 1, align as int);
    }
}

/// The columns follow one another: more columns never end earlier.
pub proof fn lemma_extent_monotone(sig: Seq<TypeInfo>, capacity: nat, m: int, n: int)
    requires
        0 <= m <= n <= sig.len(),
        all_valid(sig),
    ensures
        extent(sig, capacity, m) <= extent(sig, capacity, n),
    decreases n - m,
{
    if m < n {
        lemma_extent_monotone(sig, capacity, m, n - 1);
        let ty = sig[n - 1];
        assert(ty.valid());
        lemma_pow2_positive(ty.align as int);
        lemma_padded(extent(sig, capacity, n - 1), ty.align as nat);
        assert(ty.size * capacity >= 0) by (nonlinear_arith);
    }
}

/// A column lies between where it starts and where the columns up to and
/// including it end, and it starts no earlier than the column before it ends.
pub proof fn lemma_column_span(sig: Seq<TypeInfo>, capacity: nat, col: int)
    requires
        0 <= col < sig.len(),
        all_valid(sig),
    ensures
        extent(sig, capacity, col) <= column_offset(sig, capacity, col),
        column_offset(sig, capacity, col) + sig[col].size * capacity == extent(
            sig,
            capacity,
            col + 1,
        ),
        extent(sig, capacity, col + 1) <= block_size(sig, capacity),
{
    assert(sig[col].valid());
    lemma_pow2_positive(sig[col].align as int);
    lemma_padded(extent(sig, capacity, col), sig[col].align as nat);
    lemma_extent_monotone(sig, capacity, col + 1, sig.len() as int);
}

/// Two different columns do not overlap: the earlier ends before the later
/// starts.
pub proof fn lemma_columns_disjoint(sig: Seq<TypeInfo>, capacity: nat, c1: int, c2: int)
    requires
        0 <= c1 < c2 < sig.len(),
        all_valid(sig),
    ensures
        column_offset(sig, capacity, c1) + sig[c1].size * capacity <= column_offset(
            sig,
            capacity,
            c2,
        ),
{
    lemma_column_span(sig, capacity, c1);
    lemma_column_span(sig, capacity, c2);
    lemma_extent_monotone(sig, capacity, c1 + 1, c2);
}

/// The value of every slot below the capacity lies inside its column, and so
/// inside the block.
pub proof fn lemma_cell_in_column(sig: Seq<TypeInfo>, capacity: nat, col: int, slot: int)
    requires
        0 <= col < sig.len(),
        0 <= slot < capacity,
        all_valid(sig),
    ensures
        column_offset(sig, capacity, col) <= cell_offset(sig, capacity, col, slot),
        cell_offset(sig, capacity, col, slot) + sig[col].size <= column_offset(sig, capacity, col)
            + sig[col].size * capacity,
        cell_offset(sig, capacity, col, slot) + sig[col].size <= block_size(sig, capacity),
{
    lemma_column_span(sig, capacity, col);
    let size = sig[col].size as int;
    assert(0 <= slot * size && slot * size + size <= size * capacity) by (nonlinear_arith)
        requires
            0 <= slot < capacity,
            0 <= size,
    ;
}

/// The values of two different slots of one column do not overlap.
pub proof fn lemma_cells_disjoint(sig: Seq<TypeInfo>, capacity: nat, col: int, s1: int, s2: int)
    requires
        0 <= col < sig.len(),
        0 <= s1 < s2,
    ensures
        cell_offset(sig, capacity, col, s1) + sig[col].size <= cell_offset(sig, capacity, col, s2),
{
    let size = sig[col].size as int;
    assert(s1 * size + size <= s2 * size) by (nonlinear_arith)
        requires
            0 <= s1 < s2,
            0 <= size,
    ;
}

/// A power of two is positive.
pub proof fn lemma_pow2_positive(n: int)
    requires
        is_pow2(n),
    ensures
        n > 0,
{
    reveal(is_pow2);
}

/// Of two powers of two the smaller divides the larger.
pub proof fn lemma_pow2_divides(small: int, large: int)
    requires
        is_pow2(small),
        is_pow2(large),
        small <= large,
    ensures
        large % small == 0,
    decreases large,
{
    reveal(is_pow2);
    if small < large {
        // `large` is even and its half is a power of two no smaller than `small`.
        assert(large >= 2);
        let half = large / 2;
        assert(large == 2 * half);
        lemma_pow2_no_gap(large, small);
        lemma_pow2_divides(small, half);
        lemma_fundamental_div_mod(half, small);
        let q = half / small;
        assert(large == (2 * q) * small) by (nonlinear_arith)
            requires
                large == 2 * half,
                half == small * q,
        ;
        lemma_mod_multiples_basic(2 * q, small);
    } else {
        lemma_mod_multiples_basic(1, small);
    }
}

/// A power of two above another is at least its double.
proof fn lemma_pow2_no_gap(n: int, low: int)
    requires
        is_pow2(n),
        is_pow2(low),
        low < n,
    ensures
        2 * low <= n,
    decreases n,
{
    reveal(is_pow2);
    if low > 1 {
        lemma_pow2_no_gap(n / 2, low / 2);
    }
}

/// The block's alignment is a power of two that every column's alignment
/// divides.
pub proof fn lemma_block_align(sig: Seq<TypeInfo>, n: int)
    requires
        0 <= n <= sig.len(),
        all_valid(sig),
    ensures
        is_pow2(widest(sig, n) as int),
        forall|c: int| 0 <= c < n ==> widest(sig, n) % (#[trigger] sig[c]).align as nat == 0,
    decreases n,
{
    reveal(is_pow2);
    if n > 0 {
        lemma_block_align(sig, n - 1);
        let before = widest(sig, n - 1) as int;
        let last = sig[n - 1].align as int;
        assert(sig[n - 1].valid());
        assert forall|c: int| 0 <= c < n implies widest(sig, n) % (#[trigger] sig[c]).align as nat
            == 0 by {
            assert(sig[c].valid());
            if last > before {
                if c < n - 1 {
                    lemma_pow2_positive(sig[c].align as int);
                    lemma_pow2_between(sig[c].align as int, before);
                    lemma_pow2_divides(sig[c].align as int, last);
                } else {
                    lemma_pow2_divides(last, last);
                }
            } else {
                if c == n - 1 {
                    lemma_pow2_divides(last, before);
                }
            }
        }
    }
}

/// A positive number that divides another is no larger than it.
proof fn lemma_pow2_between(small: int, large: int)
    requires
        small > 0,
        large > 0,
        large % small == 0,
    ensures
        small <= large,
{
    if small > large {
        lemma_small_mod(large as nat, small as nat);
    }
}

/// Every value lies at an offset that its type's alignment divides, and the
/// block's alignment is a multiple of that alignment: in a block that starts
/// at an aligned address every value is aligned.
pub proof fn lemma_cell_aligned(sig: Seq<TypeInfo>, capacity: nat, col: int, slot: int)
    requires
        0 <= col < sig.len(),
        0 <= slot,
        all_valid(sig),
    ensures
        sig[col].align > 0,
        cell_offset(sig, capacity, col, slot) % sig[col].align as int == 0,
        block_align(sig) % sig[col].align as nat == 0,
{
    let ty = sig[col];
    let align = ty.align as int;
    assert(ty.valid());
    lemma_pow2_positive(align);
    lemma_padded(extent(sig, capacity, col), ty.align as nat);
    lemma_block_align(sig, sig.len() as int);
    // The size is a multiple of the alignment, so any number of sizes is one.
    lemma_fundamental_div_mod(ty.size as int, align);
    let q = ty.size as int / align;
    assert(slot * ty.size == (slot * q) * align) by (nonlinear_arith)
        requires
            ty.size == align * q,
    ;
    lemma_mod_multiples_basic(slot * q, align);
    lemma_add_mod_noop(column_offset(sig, capacity, col) as int, slot * ty.size, align);
    lemma_small_mod(0, align as nat);
}

/// The first multiple of `align` at or after `n`, unless it is too large to
/// tell.
pub fn pad(n: usize, align: usize) -> (r: Option<usize>)
    requires
        align > 0,
    ensures
        match r {
            Some(p) => p == padded(n as nat, align as nat),
            None => padded(n as nat, align as nat) > usize::MAX,
        },
{
    let rem = n % align;
    if rem == 0 {
        Some(n)
    } else {
        n.checked_add(align - rem)
    }
}

} // verus!
