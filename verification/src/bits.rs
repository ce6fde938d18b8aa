//! Bit sets held in `bitvec` arrays.
//!
//! The arrays themselves are opaque to the verifier. Each type below gives its
//! contents a mathematical name, and every operation is a thin call into
//! `bitvec` whose contract is stated over that name and taken on trust.

use vstd::prelude::*;

verus! {

/// Number of bits a [`Bitboard`] stores (48 bytes).
pub const STORAGE_BITS: usize = 384;

/// Number of bits a [`Pattern`] stores (one byte).
pub const PATTERN_BITS: usize = 8;

/// A set of bit indices below [`STORAGE_BITS`], stored most significant bit
/// first in a `bitvec::array::BitArray<[u8; 48], Msb0>`.
#[verifier::external_body]
pub struct Bitboard {
    bits: bitvec::array::BitArray<[u8; 48], bitvec::order::Msb0>,
}

/// The indices, all in `0..384`, of the bits of `board` that are set.
pub uninterp spec fn ones_of(board: Bitboard) -> Set<int>;

/// A line shape of up to eight cells, stored most significant bit first in a
/// `bitvec::array::BitArray<[u8; 1], Msb0>`.
#[verifier::external_body]
pub struct Pattern {
    bits: bitvec::array::BitArray<[u8; 1], bitvec::order::Msb0>,
}

/// The bits of `pattern` by index: entry `i`, for `i` in `0..8`, tells whether
/// bit `i` is set.
pub uninterp spec fn shape_of(pattern: Pattern) -> Seq<bool>;

/// The byte that stores eight bits most significant bit first.
pub open spec fn byte_value(shape: Seq<bool>) -> int {
    (if shape[0] { 128int } else { 0 }) + (if shape[1] { 64int } else { 0 })
        + (if shape[2] { 32int } else { 0 }) + (if shape[3] { 16int } else { 0 })
        + (if shape[4] { 8int } else { 0 }) + (if shape[5] { 4int } else { 0 })
        + (if shape[6] { 2int } else { 0 }) + (if shape[7] { 1int } else { 0 })
}

/// Number of set entries among the first `len` of `shape`.
pub open spec fn count_set(shape: Seq<bool>, len: nat) -> nat
    decreases len,
{
    if len == 0 {
        0
    } else {
        count_set(shape, (len - 1) as nat) + if shape[len - 1] { 1nat } else { 0nat }
    }
}

/// Whether one of the first `len` entries of `shape` is set.
pub open spec fn any_set(shape: Seq<bool>, len: nat) -> bool {
    exists|i: int| 0 <= i < len && shape[i]
}

/// Whether `left` and `right` agree on their first `len` entries.
pub open spec fn agree(left: Seq<bool>, right: Seq<bool>, len: nat) -> bool {
    forall|i: int| 0 <= i < len ==> left[i] == right[i]
}

/// `bitvec::array::BitArray::ZERO`: an array with every bit clear.
#[verifier::external_body]
fn zeroed_board() -> (board: Bitboard)
    ensures
        ones_of(board) == Set::<int>::empty(),
{
    Bitboard { bits: bitvec::array::BitArray::ZERO }
}

/// Copies the array (`BitArray` is `Copy`): the copy holds the same bits.
#[verifier::external_body]
fn copied_board(board: &Bitboard) -> (copy: Bitboard)
    ensures
        ones_of(copy) == ones_of(*board),
{
    Bitboard { bits: board.bits }
}

/// `Index<usize>` of `bitvec::slice::BitSlice`: reads one bit. It panics at an
/// index that is not below the length, here 384.
#[verifier::external_body]
fn board_bit(board: &Bitboard, index: usize) -> (bit: bool)
    requires
        index < STORAGE_BITS,
    ensures
        bit == ones_of(*board).contains(index as int),
{
    board.bits[index]
}

/// `bitvec::slice::BitSlice::set`: writes one bit and leaves the others. It
/// panics at an index that is not below the length, here 384.
#[verifier::external_body]
fn write_board_bit(board: &mut Bitboard, index: usize, value: bool)
    requires
        index < STORAGE_BITS,
    ensures
        ones_of(*final(board)) == if value {
            ones_of(*old(board)).insert(index as int)
        } else {
            ones_of(*old(board)).remove(index as int)
        },
{
    board.bits.set(index, value);
}

/// `BitOr` of `bitvec::array::BitArray`: a bit of the result is set where it
/// is set in either operand.
#[verifier::external_body]
fn board_or(left: &Bitboard, right: &Bitboard) -> (both: Bitboard)
    ensures
        ones_of(both) == ones_of(*left).union(ones_of(*right)),
{
    Bitboard { bits: left.bits | right.bits }
}

/// `BitAnd` of `bitvec::array::BitArray`: a bit of the result is set where it
/// is set in both operands.
#[verifier::external_body]
fn board_and(left: &Bitboard, right: &Bitboard) -> (common: Bitboard)
    ensures
        ones_of(common) == ones_of(*left).intersect(ones_of(*right)),
{
    Bitboard { bits: left.bits & right.bits }
}

/// `Not` of `bitvec::array::BitArray`: flips each of the 384 stored bits.
#[verifier::external_body]
fn board_not(board: &Bitboard) -> (flipped: Bitboard)
    ensures
        ones_of(flipped) == Set::new(
            |i: int| 0 <= i < STORAGE_BITS && !ones_of(*board).contains(i),
        ),
{
    Bitboard { bits: !board.bits }
}

/// `bitvec::slice::BitSlice::shift_right`: moves every bit `by` places away
/// from index zero and clears the first `by` bits. It panics when `by`
/// exceeds the length, here 384.
#[verifier::external_body]
fn board_shifted_up(board: &Bitboard, by: usize) -> (moved: Bitboard)
    requires
        by <= STORAGE_BITS,
    ensures
        ones_of(moved) == Set::new(
            |i: int| by <= i < STORAGE_BITS && ones_of(*board).contains(i - by),
        ),
{
    let mut bits = board.bits;
    bits.shift_right(by);
    Bitboard { bits }
}

/// `bitvec::slice::BitSlice::shift_left`: moves every bit `by` places towards
/// index zero and clears the last `by` bits. It panics when `by` exceeds the
/// length, here 384.
#[verifier::external_body]
fn board_shifted_down(board: &Bitboard, by: usize) -> (moved: Bitboard)
    requires
        by <= STORAGE_BITS,
    ensures
        ones_of(moved) == Set::new(
            |i: int| 0 <= i < STORAGE_BITS - by && ones_of(*board).contains(i + by),
        ),
{
    let mut bits = board.bits;
    bits.shift_left(by);
    Bitboard { bits }
}

/// `bitvec::slice::BitSlice::iter_ones`: yields the index of each set bit, in
/// rising order.
#[verifier::external_body]
fn board_ones(board: &Bitboard) -> (indices: Vec<usize>)
    ensures
        forall|k: int|
            0 <= k < indices@.len() ==> #[trigger] indices@[k] < STORAGE_BITS && ones_of(
                *board,
            ).contains(indices@[k] as int),
        forall|j: int, k: int| 0 <= j < k < indices@.len() ==> indices@[j] < indices@[k],
        forall|i: int| #[trigger]
            ones_of(*board).contains(i) ==> exists|k: int|
                0 <= k < indices@.len() && indices@[k] == i,
{
    board.bits.iter_ones().collect()
}

/// `bitvec::array::BitArray::ZERO`: a pattern with every bit clear.
#[verifier::external_body]
fn zeroed_pattern() -> (pattern: Pattern)
    ensures
        shape_of(pattern) == Seq::new(PATTERN_BITS as nat, |i: int| false),
{
    Pattern { bits: bitvec::array::BitArray::ZERO }
}

/// `bitvec::slice::BitSlice::set`: writes one bit and leaves the others. It
/// panics at an index that is not below the length, here 8.
#[verifier::external_body]
fn write_pattern_bit(pattern: &mut Pattern, index: usize, value: bool)
    requires
        index < PATTERN_BITS,
    ensures
        shape_of(*final(pattern)) == shape_of(*old(pattern)).update(index as int, value),
{
    pattern.bits.set(index, value);
}

/// `bitvec::array::BitArray::as_raw_slice`: the storage, here one byte. Under
/// `Msb0` bit 0 is the byte's most significant bit and bit 7 its least.
#[verifier::external_body]
fn pattern_byte(pattern: &Pattern) -> (byte: u8)
    ensures
        byte == byte_value(shape_of(*pattern)),
{
    pattern.bits.as_raw_slice()[0]
}

/// `bitvec::slice::BitSlice::any` on the first `len` bits: whether one of them
/// is set. Taking the first `len` bits panics when `len` exceeds 8.
#[verifier::external_body]
fn pattern_any(pattern: &Pattern, len: usize) -> (found: bool)
    requires
        len <= PATTERN_BITS,
    ensures
        found == any_set(shape_of(*pattern), len as nat),
{
    pattern.bits[..len].any()
}

/// `bitvec::slice::BitSlice::count_ones` on the first `len` bits: how many of
/// them are set. Taking the first `len` bits panics when `len` exceeds 8.
#[verifier::external_body]
fn pattern_count(pattern: &Pattern, len: usize) -> (count: usize)
    requires
        len <= PATTERN_BITS,
    ensures
        count == count_set(shape_of(*pattern), len as nat),
{
    pattern.bits[..len].count_ones()
}

/// `PartialEq` of `bitvec::slice::BitSlice` on the first `len` bits of each
/// pattern: whether they agree bit for bit. Taking the first `len` bits panics
/// when `len` exceeds 8.
#[verifier::external_body]
fn pattern_prefix_eq(left: &Pattern, right: &Pattern, len: usize) -> (same: bool)
    requires
        len <= PATTERN_BITS,
    ensures
        same == agree(shape_of(*left), shape_of(*right), len as nat),
{
    left.bits[..len] == right.bits[..len]
}

impl View for Bitboard {
    type V = Set<int>;

    open spec fn view(&self) -> Set<int> {
        ones_of(*self)
    }
}

impl Clone for Bitboard {
    /// A board of its own with the same bits.
    fn clone(&self) -> (copy: Self)
        ensures
            copy@ == self@,
    {
        copied_board(self)
    }
}

impl Bitboard {
    /// A board with no bit set.
    pub fn new() -> (board: Bitboard)
        ensures
            board@ == Set::<int>::empty(),
    {
        zeroed_board()
    }

    /// Whether bit `index` is set.
    pub fn get(&self, index: usize) -> (bit: bool)
        requires
            index < STORAGE_BITS,
        ensures
            bit == self@.contains(index as int),
    {
        board_bit(self, index)
    }

    /// Sets or clears bit `index`.
    pub fn set(&mut self, index: usize, value: bool)
        requires
            index < STORAGE_BITS,
        ensures
            final(self)@ == if value {
                old(self)@.insert(index as int)
            } else {
                old(self)@.remove(index as int)
            },
    {
        write_board_bit(self, index, value)
    }

    /// The bits set in `self` or in `other`.
    pub fn union(&self, other: &Bitboard) -> (both: Bitboard)
        ensures
            both@ == self@.union(other@),
    {
        board_or(self, other)
    }

    /// The bits set in `self` and in `other`.
    pub fn intersection(&self, other: &Bitboard) -> (common: Bitboard)
        ensures
            common@ == self@.intersect(other@),
    {
        board_and(self, other)
    }

    /// The stored bits that are clear in `self`.
    pub fn complement(&self) -> (flipped: Bitboard)
        ensures
            flipped@ == Set::new(|i: int| 0 <= i < STORAGE_BITS && !self@.contains(i)),
    {
        board_not(self)
    }

    /// Every bit moved by `offset` places: away from index zero when `offset`
    /// is positive, towards it when negative. Bits that leave the board are
    /// dropped.
    pub fn shifted(&self, offset: isize) -> (moved: Bitboard)
        requires
            -(STORAGE_BITS as int) <= offset <= STORAGE_BITS as int,
        ensures
            moved@ == shifted_set(self@, offset as int),
    {
        if offset > 0 {
            board_shifted_up(self, offset as usize)
        } else if offset < 0 {
            board_shifted_down(self, (-offset) as usize)
        } else {
            self.clone()
        }
    }

    /// The indices of the set bits, in rising order.
    pub fn ones(&self) -> (indices: Vec<usize>)
        ensures
            forall|k: int|
                0 <= k < indices@.len() ==> #[trigger] indices@[k] < STORAGE_BITS
                    && self@.contains(indices@[k] as int),
            forall|j: int, k: int| 0 <= j < k < indices@.len() ==> indices@[j] < indices@[k],
            forall|i: int| #[trigger]
                self@.contains(i) ==> exists|k: int| 0 <= k < indices@.len() && indices@[k] == i,
    {
        board_ones(self)
    }
}

/// `bits` moved by `offset` places within `0..384`.
pub open spec fn shifted_set(bits: Set<int>, offset: int) -> Set<int> {
    if offset == 0 {
        bits
    } else {
        Set::new(
            |i: int|
                0 <= i < STORAGE_BITS && 0 <= i - offset < STORAGE_BITS && bits.contains(
                    i - offset,
                ),
        )
    }
}

impl View for Pattern {
    type V = Seq<bool>;

    open spec fn view(&self) -> Seq<bool> {
        shape_of(*self)
    }
}

impl Pattern {
    /// A pattern with no bit set.
    pub fn new() -> (pattern: Pattern)
        ensures
            pattern@ == Seq::new(PATTERN_BITS as nat, |i: int| false),
    {
        zeroed_pattern()
    }

    /// Sets or clears bit `index`.
    pub fn set(&mut self, index: usize, value: bool)
        requires
            index < PATTERN_BITS,
        ensures
            final(self)@ == old(self)@.update(index as int, value),
    {
        write_pattern_bit(self, index, value)
    }

    /// The stored byte: bit 0 is its most significant bit.
    pub fn raw(&self) -> (byte: u8)
        ensures
            byte == byte_value(self@),
    {
        pattern_byte(self)
    }

    /// Whether one of the first `len` bits is set.
    pub fn any(&self, len: usize) -> (found: bool)
        requires
            len <= PATTERN_BITS,
        ensures
            found == any_set(self@, len as nat),
    {
        pattern_any(self, len)
    }

    /// How many of the first `len` bits are set.
    pub fn count_ones(&self, len: usize) -> (count: usize)
        requires
            len <= PATTERN_BITS,
        ensures
            count == count_set(self@, len as nat),
    {
        pattern_count(self, len)
    }

    /// Whether `self` and `other` agree on their first `len` bits.
    pub fn starts_like(&self, other: &Pattern, len: usize) -> (same: bool)
        requires
            len <= PATTERN_BITS,
        ensures
            same == agree(self@, other@, len as nat),
    {
        pattern_prefix_eq(self, other, len)
    }
}

} // verus!
