//! The mathematical model of a bit set: a `Seq<bool>` with index `0` the
//! least-significant bit, together with the spec-level transforms that the
//! executable operations are specified against.

use vstd::prelude::*;

verus! {

use vstd::arithmetic::div_mod::lemma_basic_div;
use vstd::arithmetic::div_mod::lemma_div_basics;
use vstd::arithmetic::div_mod::lemma_div_denominator;
use vstd::arithmetic::div_mod::lemma_fundamental_div_mod;
use vstd::arithmetic::div_mod::lemma_hoist_over_denominator;
use vstd::arithmetic::div_mod::lemma_mod_division_less_than_divisor;
use vstd::arithmetic::div_mod::lemma_mod_multiples_vanish;
use vstd::arithmetic::div_mod::lemma_multiply_divide_lt;
use vstd::arithmetic::mul::lemma_mul_is_associative;
use vstd::arithmetic::mul::lemma_mul_is_commutative;
use vstd::arithmetic::power2::lemma2_to64;
use vstd::arithmetic::power2::lemma_pow2_adds;
use vstd::arithmetic::power2::lemma_pow2_pos;
use vstd::arithmetic::power2::lemma_pow2_strictly_increases;
use vstd::arithmetic::power2::lemma_pow2_unfold;
use vstd::arithmetic::power2::pow2;

/// The unsigned integer that a bit sequence stands for: cell `i` contributes
/// `2^i` when set.
pub open spec fn bits_to_nat(s: Seq<bool>) -> nat
    decreases s.len(),
{
    if s.len() == 0 {
        0
    } else {
        (if s[0] {
            1nat
        } else {
            0nat
        }) + 2 * bits_to_nat(s.drop_first())
    }
}

/// Bit `i` of the number `v`: the parity of `v / 2^i`.
pub open spec fn nth_bit(v: nat, i: nat) -> bool {
    (v / pow2(i)) % 2 == 1
}

/// The `n` low bits of `v`, least-significant first.
pub open spec fn nat_to_bits(v: nat, n: nat) -> Seq<bool> {
    Seq::new(n, |i: int| nth_bit(v, i as nat))
}

/// Every cell of `s` is false.
pub open spec fn no_bit_set(s: Seq<bool>) -> bool {
    forall|i: int| 0 <= i < s.len() ==> !s[i]
}

/// At least one cell of `s` is true.
pub open spec fn some_bit_set(s: Seq<bool>) -> bool {
    exists|i: int| 0 <= i < s.len() && s[i]
}

/// Every cell of `s` is true.
pub open spec fn every_bit_set(s: Seq<bool>) -> bool {
    forall|i: int| 0 <= i < s.len() ==> s[i]
}

/// `s` with every cell negated.
pub open spec fn complement(s: Seq<bool>) -> Seq<bool> {
    Seq::new(s.len(), |i: int| !s[i])
}

/// The number of cells of `s` that are set.
pub open spec fn count_set(s: Seq<bool>) -> nat
    decreases s.len(),
{
    if s.len() == 0 {
        0
    } else {
        count_set(s.drop_last()) + if s.last() {
            1nat
        } else {
            0nat
        }
    }
}

/// `a` and `b` combined cell by cell with boolean and.
pub open spec fn cellwise_and(a: Seq<bool>, b: Seq<bool>) -> Seq<bool> {
    Seq::new(a.len(), |i: int| a[i] && b[i])
}

/// `a` and `b` combined cell by cell with boolean or.
pub open spec fn cellwise_or(a: Seq<bool>, b: Seq<bool>) -> Seq<bool> {
    Seq::new(a.len(), |i: int| a[i] || b[i])
}

/// `a` and `b` combined cell by cell with boolean exclusive or.
pub open spec fn cellwise_xor(a: Seq<bool>, b: Seq<bool>) -> Seq<bool> {
    Seq::new(a.len(), |i: int| a[i] != b[i])
}

/// `s` shifted `k` places toward higher indices: cells shifted past the end
/// are discarded, vacated low cells are false. For `k >= s.len()` every cell
/// is false.
pub open spec fn shifted_left(s: Seq<bool>, k: nat) -> Seq<bool> {
    Seq::new(s.len(), |i: int| i >= k && s[i - k])
}

/// `s` shifted `k` places toward lower indices: cells shifted below index 0
/// are discarded, vacated high cells are false. For `k >= s.len()` every cell
/// is false.
pub open spec fn shifted_right(s: Seq<bool>, k: nat) -> Seq<bool> {
    Seq::new(s.len(), |i: int| i + k < s.len() && s[i + k])
}

/// `s` rotated `k % s.len()` places toward higher indices; cells leaving the
/// top re-enter at the bottom.
pub open spec fn rotated_left(s: Seq<bool>, k: nat) -> Seq<bool>
    recommends
        s.len() > 0,
{
    let r = k % s.len();
    Seq::new(s.len(), |i: int| if i >= r { s[i - r] } else { s[i + s.len() - r] })
}

/// `s` rotated `k % s.len()` places toward lower indices; cells leaving the
/// bottom re-enter at the top.
pub open spec fn rotated_right(s: Seq<bool>, k: nat) -> Seq<bool>
    recommends
        s.len() > 0,
{
    let r = k % s.len();
    Seq::new(s.len(), |i: int| if i + r < s.len() { s[i + r] } else { s[i + r - s.len()] })
}

/// The character string a bit sequence renders as, most-significant cell
/// first: output position `j` shows cell `len - 1 - j`.
pub open spec fn rendered(s: Seq<bool>, one: char, zero: char) -> Seq<char> {
    Seq::new(s.len(), |j: int| if s[s.len() - 1 - j] { one } else { zero })
}

/// A character a bit string may hold.
pub open spec fn is_bit_char(c: char) -> bool {
    c == '0' || c == '1'
}

/// Every character of `cs` is `'0'` or `'1'`.
pub open spec fn all_bit_chars(cs: Seq<char>) -> bool {
    forall|j: int| 0 <= j < cs.len() ==> is_bit_char(cs[j])
}

/// The cells a bit string stands for, read most-significant first: cell `i`
/// is set exactly when character `len - 1 - i` is `'1'`.
pub open spec fn bits_of_chars(cs: Seq<char>) -> Seq<bool> {
    Seq::new(cs.len(), |i: int| cs[cs.len() - 1 - i] == '1')
}

/// How often the character `c` occurs in `cs`.
pub open spec fn count_char(cs: Seq<char>, c: char) -> nat
    decreases cs.len(),
{
    if cs.len() == 0 {
        0
    } else {
        count_char(cs.drop_first(), c) + if cs[0] == c {
            1nat
        } else {
            0nat
        }
    }
}

/// The value of a bit sequence is bounded by its length: it lies below
/// `2^len`.
pub proof fn lemma_bits_to_nat_bound(s: Seq<bool>)
    ensures
        bits_to_nat(s) < pow2(s.len()),
    decreases s.len(),
{
    if s.len() == 0 {
        assert(pow2(0) == 1) by {
            lemma2_to64();
        }
    } else {
        lemma_bits_to_nat_bound(s.drop_first());
        lemma_pow2_unfold(s.len());
    }
}

/// A sequence with no cell set stands for zero.
pub proof fn lemma_bits_to_nat_zero(s: Seq<bool>)
    requires
        no_bit_set(s),
    ensures
        bits_to_nat(s) == 0,
    decreases s.len(),
{
    if s.len() > 0 {
        assert(no_bit_set(s.drop_first()));
        lemma_bits_to_nat_zero(s.drop_first());
    }
}

/// `2^e` is monotone in the exponent.
pub proof fn lemma_pow2_le(e1: nat, e2: nat)
    requires
        e1 <= e2,
    ensures
        pow2(e1) <= pow2(e2),
{
    if e1 < e2 {
        lemma_pow2_strictly_increases(e1, e2);
    }
}

/// Every bit of `v` at or above a width that bounds `v` is clear.
pub proof fn lemma_nth_bit_above_width(v: nat, w: nat, i: nat)
    requires
        v < pow2(w),
        w <= i,
    ensures
        !nth_bit(v, i),
{
    lemma_pow2_le(w, i);
    lemma_pow2_pos(i);
    lemma_basic_div(v as int, pow2(i) as int);
}

/// Halving drops the lowest bit: bit `i + 1` of `v` is bit `i` of `v / 2`.
pub proof fn lemma_nth_bit_halved(v: nat, i: nat)
    ensures
        nth_bit(v, i + 1) == nth_bit(v / 2, i),
{
    lemma_pow2_unfold(i + 1);
    lemma_pow2_pos(i);
    lemma_div_denominator(v as int, 2, pow2(i) as int);
}

/// Placing `a` above `b` in a number: bit `i` of `a * 2^r + b`, for `b`
/// within `r` bits, is bit `i` of `b` below position `r` and bit `i - r` of
/// `a` from position `r` on.
pub proof fn lemma_nth_bit_combine(a: nat, b: nat, r: nat, i: nat)
    requires
        b < pow2(r),
    ensures
        nth_bit(a * pow2(r) + b, i) == if i < r {
            nth_bit(b, i)
        } else {
            nth_bit(a, (i - r) as nat)
        },
{
    let w = a * pow2(r) + b;
    if i < r {
        let hi = (r - i) as nat;
        lemma_pow2_pos(i);
        lemma_pow2_pos(hi);
        lemma_pow2_adds(hi, i);
        assert(a * pow2(r) == (a * pow2(hi)) * pow2(i)) by {
            lemma_mul_is_associative(a as int, pow2(hi) as int, pow2(i) as int);
        }
        assert(w / pow2(i) == b / pow2(i) + a * pow2(hi)) by {
            lemma_hoist_over_denominator(b as int, (a * pow2(hi)) as int, pow2(i));
        }
        assert(a * pow2(hi) == 2 * (a * pow2((hi - 1) as nat))) by {
            lemma_pow2_unfold(hi);
            lemma_mul_is_associative(a as int, 2, pow2((hi - 1) as nat) as int);
            lemma_mul_is_commutative(a as int, 2);
            lemma_mul_is_associative(2, a as int, pow2((hi - 1) as nat) as int);
        }
        assert((b / pow2(i) + 2 * (a * pow2((hi - 1) as nat))) % 2 == (b / pow2(i)) % 2) by {
            lemma_mod_multiples_vanish(
                (a * pow2((hi - 1) as nat)) as int,
                (b / pow2(i)) as int,
                2,
            );
        }
    } else {
        let up = (i - r) as nat;
        lemma_pow2_pos(r);
        lemma_pow2_pos(up);
        lemma_pow2_adds(r, up);
        assert(w / pow2(r) == b / pow2(r) + a) by {
            lemma_hoist_over_denominator(b as int, a as int, pow2(r));
        }
        lemma_basic_div(b as int, pow2(r) as int);
        assert((w / pow2(r)) / pow2(up) == w / pow2(i)) by {
            lemma_div_denominator(w as int, pow2(r) as int, pow2(up) as int);
        }
    }
}

/// Dividing shifts the bits down: bit `i` of `v / 2^m` is bit `i + m` of
/// `v`.
pub proof fn lemma_nth_bit_of_div(v: nat, m: nat, i: nat)
    ensures
        nth_bit(v / pow2(m), i) == nth_bit(v, i + m),
{
    lemma_pow2_pos(m);
    lemma_pow2_pos(i);
    lemma_pow2_adds(m, i);
    lemma_div_denominator(v as int, pow2(m) as int, pow2(i) as int);
}

/// Taking a remainder keeps the low bits: below position `m`, the bits of
/// `v % 2^m` are those of `v`.
pub proof fn lemma_nth_bit_of_mod(v: nat, m: nat, i: nat)
    requires
        i < m,
    ensures
        nth_bit(v % pow2(m), i) == nth_bit(v, i),
{
    lemma_pow2_pos(m);
    lemma_fundamental_div_mod(v as int, pow2(m) as int);
    lemma_mod_division_less_than_divisor(v as int, pow2(m) as int);
    lemma_nth_bit_combine(v / pow2(m), v % pow2(m), m, i);
}

/// The low-bits view of `v` starts with its parity and continues with the
/// bits of `v / 2`.
pub proof fn lemma_nat_to_bits_decompose(v: nat, n: nat)
    requires
        n > 0,
    ensures
        nat_to_bits(v, n)[0] == (v % 2 == 1),
        nat_to_bits(v, n).drop_first() =~= nat_to_bits(v / 2, (n - 1) as nat),
{
    lemma2_to64();
    lemma_div_basics(v as int);
    assert forall|i: int| 0 <= i < n - 1 implies nat_to_bits(v, n).drop_first()[i] == nat_to_bits(
        v / 2,
        (n - 1) as nat,
    )[i] by {
        lemma_nth_bit_halved(v, i as nat);
    }
}

/// Round trip from a number: reading the `n` low bits of `v < 2^n` back as
/// a number yields `v` again.
pub proof fn lemma_nat_to_bits_to_nat(v: nat, n: nat)
    requires
        v < pow2(n),
    ensures
        bits_to_nat(nat_to_bits(v, n)) == v,
    decreases n,
{
    if n == 0 {
        lemma2_to64();
    } else {
        lemma_nat_to_bits_decompose(v, n);
        lemma_pow2_unfold(n);
        lemma_multiply_divide_lt(v as int, 2, pow2((n - 1) as nat) as int);
        lemma_nat_to_bits_to_nat(v / 2, (n - 1) as nat);
        lemma_fundamental_div_mod(v as int, 2);
    }
}

} // verus!
