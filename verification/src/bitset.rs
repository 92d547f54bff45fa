//! The bit set itself and its core operations.

use vstd::prelude::*;

verus! {

use vstd::string::StrSliceExecFns;

use crate::error::ConversionError;
use crate::model::all_bit_chars;
use crate::model::bits_of_chars;
use crate::model::cellwise_and;
use crate::model::cellwise_or;
use crate::model::cellwise_xor;
use crate::model::complement;
use crate::model::count_set;
use crate::model::every_bit_set;
use crate::model::is_bit_char;
use crate::model::no_bit_set;
use crate::model::rendered;
use crate::model::rotated_left;
use crate::model::rotated_right;
use crate::model::shifted_left;
use crate::model::shifted_right;
use crate::model::some_bit_set;

/// Relies on `String::push`: appends the given character at the end of the
/// string.
#[verifier::external_body]
fn push_char(s: &mut String, c: char)
    ensures
        final(s)@ == old(s)@.push(c),
{
    s.push(c)
}

/// A fixed-size ordered collection of `N` boolean cells. Cell `0` is the
/// least-significant bit of every integer and string rendering.
#[derive(Debug)]
pub struct SizedBitset<const N: usize> {
    pub(crate) bits: Vec<bool>,
}

impl<const N: usize> SizedBitset<N> {
    /// The backing vector always holds exactly `N` cells.
    #[verifier::type_invariant]
    pub(crate) open spec fn length_fixed(self) -> bool {
        self.bits@.len() == N
    }

    /// Builds the bit set holding exactly the given cells.
    pub fn from_const(bits: [bool; N]) -> (r: Self)
        ensures
            r@ == bits@,
            r@.len() == N,
    {
        let mut cells: Vec<bool> = Vec::new();
        for i in 0..N
            invariant
                cells@ =~= bits@.take(i as int),
        {
            cells.push(bits[i]);
        }
        proof {
            assert(cells@ =~= bits@);
        }
        SizedBitset { bits: cells }
    }

    /// Builds the all-false bit set.
    pub fn new() -> (r: Self)
        ensures
            r@.len() == N,
            no_bit_set(r@),
    {
        let mut cells: Vec<bool> = Vec::new();
        for i in 0..N
            invariant
                cells@.len() == i,
                no_bit_set(cells@),
        {
            cells.push(false);
        }
        SizedBitset { bits: cells }
    }

    /// Builds the bit set whose cells are the elements of `values`, cell `i`
    /// from element `i`; rejects any sequence that does not hold exactly `N`
    /// elements.
    pub fn try_from_sequence(values: &[bool]) -> (r: Result<Self, ConversionError>)
        ensures
            match r {
                Ok(b) => values@.len() == N && b@ == values@,
                Err(e) => values@.len() != N && (e matches ConversionError::LengthMismatch {
                    expected,
                    actual,
                } && expected == N && actual == values@.len()),
            },
    {
        if values.len() != N {
            return Err(ConversionError::LengthMismatch { expected: N, actual: values.len() });
        }
        let mut cells: Vec<bool> = Vec::new();
        for i in 0..N
            invariant
                values@.len() == N,
                cells@ =~= values@.take(i as int),
        {
            cells.push(values[i]);
        }
        proof {
            assert(cells@ =~= values@);
        }
        Ok(SizedBitset { bits: cells })
    }

    /// The cell at `index`; the index must be in bounds.
    pub fn get(&self, index: usize) -> (r: bool)
        requires
            index < N,
        ensures
            r == self@[index as int],
    {
        proof {
            use_type_invariant(self);
        }
        self.bits[index]
    }

    /// True exactly when every cell is set.
    pub fn all(&self) -> (r: bool)
        ensures
            r == every_bit_set(self@),
    {
        proof {
            use_type_invariant(self);
        }
        for i in 0..N
            invariant
                self@.len() == N,
                forall|j: int| 0 <= j < i ==> self@[j],
        {
            if !self.bits[i] {
                return false;
            }
        }
        true
    }

    /// True exactly when at least one cell is set.
    pub fn any(&self) -> (r: bool)
        ensures
            r == some_bit_set(self@),
    {
        proof {
            use_type_invariant(self);
        }
        for i in 0..N
            invariant
                self@.len() == N,
                forall|j: int| 0 <= j < i ==> !self@[j],
        {
            if self.bits[i] {
                return true;
            }
        }
        false
    }

    /// True exactly when no cell is set.
    pub fn none(&self) -> (r: bool)
        ensures
            r == no_bit_set(self@),
    {
        proof {
            use_type_invariant(self);
        }
        for i in 0..N
            invariant
                self@.len() == N,
                forall|j: int| 0 <= j < i ==> !self@[j],
        {
            if self.bits[i] {
                return false;
            }
        }
        true
    }

    /// The number of cells that are set.
    pub fn count(&self) -> (r: usize)
        ensures
            r == count_set(self@),
    {
        proof {
            use_type_invariant(self);
        }
        let mut c: usize = 0;
        for i in 0..N
            invariant
                self@.len() == N,
                c <= i,
                c == count_set(self@.take(i as int)),
        {
            proof {
                assert(self@.take(i + 1).drop_last() =~= self@.take(i as int));
                assert(self@.take(i + 1).last() == self@[i as int]);
            }
            if self.bits[i] {
                c = c + 1;
            }
        }
        proof {
            assert(self@.take(N as int) =~= self@);
        }
        c
    }

    /// The bit set with every cell negated.
    pub fn flipped(&self) -> (r: Self)
        ensures
            r@ == complement(self@),
            r@.len() == N,
    {
        proof {
            use_type_invariant(self);
        }
        let mut cells: Vec<bool> = Vec::new();
        for i in 0..N
            invariant
                self@.len() == N,
                cells@.len() == i,
                forall|j: int| 0 <= j < i ==> cells@[j] == !self@[j],
        {
            cells.push(!self.bits[i]);
        }
        proof {
            assert(cells@ =~= complement(self@));
        }
        SizedBitset { bits: cells }
    }

    /// Negates every cell in place.
    pub fn flip(&mut self)
        ensures
            final(self)@ == complement(old(self)@),
            final(self)@.len() == N,
    {
        let f = self.flipped();
        self.bits = f.bits;
    }

    /// The bit set with the cell at `index` replaced by `value`.
    fn with_cell(&self, index: usize, value: bool) -> (r: Self)
        requires
            index < N,
        ensures
            r@ == self@.update(index as int, value),
            r@.len() == N,
    {
        proof {
            use_type_invariant(self);
        }
        let mut cells: Vec<bool> = Vec::new();
        for i in 0..N
            invariant
                self@.len() == N,
                index < N,
                cells@.len() == i,
                forall|j: int|
                    0 <= j < i ==> cells@[j] == (if j == index {
                        value
                    } else {
                        self@[j]
                    }),
        {
            if i == index {
                cells.push(value);
            } else {
                cells.push(self.bits[i]);
            }
        }
        proof {
            assert(cells@ =~= self@.update(index as int, value));
        }
        SizedBitset { bits: cells }
    }

    /// Sets the cell at `index` to true; the index must be in bounds.
    pub fn set(&mut self, index: usize)
        requires
            index < N,
        ensures
            final(self)@ == old(self)@.update(index as int, true),
            final(self)@.len() == N,
    {
        let changed = self.with_cell(index, true);
        self.bits = changed.bits;
    }

    /// Sets the cell at `index` to false; the index must be in bounds.
    pub fn reset(&mut self, index: usize)
        requires
            index < N,
        ensures
            final(self)@ == old(self)@.update(index as int, false),
            final(self)@.len() == N,
    {
        let changed = self.with_cell(index, false);
        self.bits = changed.bits;
    }

    /// Sets every cell to true.
    pub fn set_all(&mut self)
        ensures
            final(self)@.len() == N,
            every_bit_set(final(self)@),
    {
        let mut cells: Vec<bool> = Vec::new();
        for i in 0..N
            invariant
                cells@.len() == i,
                every_bit_set(cells@),
        {
            cells.push(true);
        }
        self.bits = cells;
    }

    /// Sets every cell to false.
    pub fn reset_all(&mut self)
        ensures
            final(self)@.len() == N,
            no_bit_set(final(self)@),
    {
        let cleared = Self::new();
        self.bits = cleared.bits;
    }

    /// The cellwise boolean and of `self` and `rhs`.
    pub fn bitand(&self, rhs: &Self) -> (r: Self)
        ensures
            r@ == cellwise_and(self@, rhs@),
            r@.len() == N,
    {
        proof {
            use_type_invariant(self);
            use_type_invariant(rhs);
        }
        let mut cells: Vec<bool> = Vec::new();
        for i in 0..N
            invariant
                self@.len() == N,
                rhs@.len() == N,
                cells@.len() == i,
                forall|j: int| 0 <= j < i ==> cells@[j] == (self@[j] && rhs@[j]),
        {
            cells.push(self.bits[i] && rhs.bits[i]);
        }
        proof {
            assert(cells@ =~= cellwise_and(self@, rhs@));
        }
        SizedBitset { bits: cells }
    }

    /// The cellwise boolean or of `self` and `rhs`.
    pub fn bitor(&self, rhs: &Self) -> (r: Self)
        ensures
            r@ == cellwise_or(self@, rhs@),
            r@.len() == N,
    {
        proof {
            use_type_invariant(self);
            use_type_invariant(rhs);
        }
        let mut cells: Vec<bool> = Vec::new();
        for i in 0..N
            invariant
                self@.len() == N,
                rhs@.len() == N,
                cells@.len() == i,
                forall|j: int| 0 <= j < i ==> cells@[j] == (self@[j] || rhs@[j]),
        {
            cells.push(self.bits[i] || rhs.bits[i]);
        }
        proof {
            assert(cells@ =~= cellwise_or(self@, rhs@));
        }
        SizedBitset { bits: cells }
    }

    /// The cellwise boolean exclusive or of `self` and `rhs`.
    pub fn bitxor(&self, rhs: &Self) -> (r: Self)
        ensures
            r@ == cellwise_xor(self@, rhs@),
            r@.len() == N,
    {
        proof {
            use_type_invariant(self);
            use_type_invariant(rhs);
        }
        let mut cells: Vec<bool> = Vec::new();
        for i in 0..N
            invariant
                self@.len() == N,
                rhs@.len() == N,
                cells@.len() == i,
                forall|j: int| 0 <= j < i ==> cells@[j] == (self@[j] != rhs@[j]),
        {
            cells.push(self.bits[i] != rhs.bits[i]);
        }
        proof {
            assert(cells@ =~= cellwise_xor(self@, rhs@));
        }
        SizedBitset { bits: cells }
    }

    /// Replaces `self` with the cellwise and of `self` and `rhs`.
    pub fn bitand_assign(&mut self, rhs: &Self)
        ensures
            final(self)@ == cellwise_and(old(self)@, rhs@),
            final(self)@.len() == N,
    {
        let combined = self.bitand(rhs);
        self.bits = combined.bits;
    }

    /// Replaces `self` with the cellwise or of `self` and `rhs`.
    pub fn bitor_assign(&mut self, rhs: &Self)
        ensures
            final(self)@ == cellwise_or(old(self)@, rhs@),
            final(self)@.len() == N,
    {
        let combined = self.bitor(rhs);
        self.bits = combined.bits;
    }

    /// Replaces `self` with the cellwise exclusive or of `self` and `rhs`.
    pub fn bitxor_assign(&mut self, rhs: &Self)
        ensures
            final(self)@ == cellwise_xor(old(self)@, rhs@),
            final(self)@.len() == N,
    {
        let combined = self.bitxor(rhs);
        self.bits = combined.bits;
    }

    /// The logical shift of `self` by `rhs` places toward higher indices:
    /// cells shifted past the end are discarded, vacated cells become false,
    /// and a shift of `N` or more clears every cell.
    pub fn shl(&self, rhs: usize) -> (r: Self)
        ensures
            r@ == shifted_left(self@, rhs as nat),
            r@.len() == N,
    {
        proof {
            use_type_invariant(self);
        }
        let mut cells: Vec<bool> = Vec::new();
        for i in 0..N
            invariant
                self@.len() == N,
                cells@.len() == i,
                forall|j: int| 0 <= j < i ==> cells@[j] == (j >= rhs && self@[j - rhs]),
        {
            if i >= rhs {
                cells.push(self.bits[i - rhs]);
            } else {
                cells.push(false);
            }
        }
        proof {
            assert(cells@ =~= shifted_left(self@, rhs as nat));
        }
        SizedBitset { bits: cells }
    }

    /// The logical shift of `self` by `rhs` places toward lower indices:
    /// cells shifted below index 0 are discarded, vacated cells become false,
    /// and a shift of `N` or more clears every cell.
    pub fn shr(&self, rhs: usize) -> (r: Self)
        ensures
            r@ == shifted_right(self@, rhs as nat),
            r@.len() == N,
    {
        proof {
            use_type_invariant(self);
        }
        let mut cells: Vec<bool> = Vec::new();
        for i in 0..N
            invariant
                self@.len() == N,
                cells@.len() == i,
                forall|j: int| 0 <= j < i ==> cells@[j] == (j + rhs < N && self@[j + rhs]),
        {
            if rhs < N && i < N - rhs {
                cells.push(self.bits[i + rhs]);
            } else {
                cells.push(false);
            }
        }
        proof {
            assert(cells@ =~= shifted_right(self@, rhs as nat));
        }
        SizedBitset { bits: cells }
    }

    /// Shifts `self` in place by `rhs` places toward higher indices.
    pub fn shl_assign(&mut self, rhs: usize)
        ensures
            final(self)@ == shifted_left(old(self)@, rhs as nat),
            final(self)@.len() == N,
    {
        let shifted = self.shl(rhs);
        self.bits = shifted.bits;
    }

    /// Shifts `self` in place by `rhs` places toward lower indices.
    pub fn shr_assign(&mut self, rhs: usize)
        ensures
            final(self)@ == shifted_right(old(self)@, rhs as nat),
            final(self)@.len() == N,
    {
        let shifted = self.shr(rhs);
        self.bits = shifted.bits;
    }

    /// The rotation of `self` by `s` places toward higher indices: the shift
    /// amount is reduced modulo `N`, and cells leaving the top re-enter at
    /// the bottom.
    pub fn rotl(&self, s: usize) -> (r: Self)
        requires
            N >= 1,
        ensures
            r@ == rotated_left(self@, s as nat),
            r@.len() == N,
    {
        proof {
            use_type_invariant(self);
        }
        let r = s % N;
        let mut cells: Vec<bool> = Vec::new();
        for i in 0..N
            invariant
                self@.len() == N,
                r == s % N,
                r < N,
                cells@.len() == i,
                forall|j: int|
                    0 <= j < i ==> cells@[j] == (if j >= r {
                        self@[j - r]
                    } else {
                        self@[j + N - r]
                    }),
        {
            if i >= r {
                cells.push(self.bits[i - r]);
            } else {
                cells.push(self.bits[i + (N - r)]);
            }
        }
        proof {
            assert(cells@ =~= rotated_left(self@, s as nat));
        }
        SizedBitset { bits: cells }
    }

    /// The rotation of `self` by `s` places toward lower indices: the shift
    /// amount is reduced modulo `N`, and cells leaving the bottom re-enter at
    /// the top.
    pub fn rotr(&self, s: usize) -> (r: Self)
        requires
            N >= 1,
        ensures
            r@ == rotated_right(self@, s as nat),
            r@.len() == N,
    {
        proof {
            use_type_invariant(self);
        }
        let r = s % N;
        let mut cells: Vec<bool> = Vec::new();
        for i in 0..N
            invariant
                self@.len() == N,
                r == s % N,
                r < N,
                cells@.len() == i,
                forall|j: int|
                    0 <= j < i ==> cells@[j] == (if j + r < N {
                        self@[j + r]
                    } else {
                        self@[j + r - N]
                    }),
        {
            if i < N - r {
                cells.push(self.bits[i + r]);
            } else {
                cells.push(self.bits[i - (N - r)]);
            }
        }
        proof {
            assert(cells@ =~= rotated_right(self@, s as nat));
        }
        SizedBitset { bits: cells }
    }

    /// Renders the bit set as a string of `N` characters, most-significant
    /// cell first: position `j` of the output shows cell `N - 1 - j`, as
    /// `one` when set and `zero` when clear.
    pub fn to_string_with(&self, one: char, zero: char) -> (r: String)
        ensures
            r@ == rendered(self@, one, zero),
            r@.len() == N,
    {
        proof {
            use_type_invariant(self);
        }
        let mut out = String::new();
        for j in 0..N
            invariant
                self@.len() == N,
                out@.len() == j,
                forall|k: int|
                    0 <= k < j ==> out@[k] == (if self@[N - 1 - k] {
                        one
                    } else {
                        zero
                    }),
        {
            let c = if self.bits[N - 1 - j] {
                one
            } else {
                zero
            };
            push_char(&mut out, c);
        }
        proof {
            assert(out@ =~= rendered(self@, one, zero));
        }
        out
    }

    /// Renders the bit set with `'1'` for set cells and `'0'` for clear
    /// ones, most-significant cell first.
    pub fn display(&self) -> (r: String)
        ensures
            r@ == rendered(self@, '1', '0'),
            r@.len() == N,
    {
        self.to_string_with('1', '0')
    }

    /// Parses a bit string, most-significant character first: character
    /// `N - 1 - i` becomes cell `i`. A character other than `'0'` or `'1'`
    /// is rejected as `InvalidCharacter` carrying the whole input; a valid
    /// string of the wrong length as `LengthMismatch`.
    pub fn from_str(s: &str) -> (r: Result<Self, ConversionError>)
        ensures
            match r {
                Ok(b) => all_bit_chars(s@) && s@.len() == N && b@ == bits_of_chars(s@),
                Err(ConversionError::InvalidCharacter(t)) => !all_bit_chars(s@) && t@ == s@,
                Err(ConversionError::LengthMismatch { expected, actual }) => all_bit_chars(s@)
                    && s@.len() != N && expected == N && actual == s@.len(),
            },
    {
        let n = s.unicode_len();
        for j in 0..n
            invariant
                n == s@.len(),
                forall|k: int| 0 <= k < j ==> is_bit_char(s@[k]),
        {
            let c = s.get_char(j);
            if c != '0' && c != '1' {
                return Err(ConversionError::InvalidCharacter(s.to_owned()));
            }
        }
        if n != N {
            return Err(ConversionError::LengthMismatch { expected: N, actual: n });
        }
        let mut cells: Vec<bool> = Vec::new();
        for i in 0..N
            invariant
                n == N,
                n == s@.len(),
                cells@.len() == i,
                forall|k: int| 0 <= k < i ==> cells@[k] == (s@[N - 1 - k] == '1'),
        {
            let c = s.get_char(n - 1 - i);
            cells.push(c == '1');
        }
        proof {
            assert(cells@ =~= bits_of_chars(s@));
        }
        Ok(SizedBitset { bits: cells })
    }

    /// The number of cells the bit set holds: always exactly `N`.
    pub fn len(&self) -> (n: usize)
        ensures
            n == N,
            self@.len() == N,
    {
        proof {
            use_type_invariant(self);
        }
        self.bits.len()
    }
}

impl<const N: usize> core::str::FromStr for SizedBitset<N> {
    type Err = ConversionError;

    /// Parses a bit string as [`SizedBitset::from_str`] does.
    fn from_str(s: &str) -> Result<Self, ConversionError> {
        SizedBitset::<N>::from_str(s)
    }
}

impl<const N: usize> Default for SizedBitset<N> {
    /// The all-false bit set.
    fn default() -> (r: Self)
        ensures
            r@.len() == N,
            no_bit_set(r@),
    {
        Self::new()
    }
}

impl<const N: usize> View for SizedBitset<N> {
    type V = Seq<bool>;

    open(crate) spec fn view(&self) -> Seq<bool> {
        self.bits@
    }
}

} // verus!
