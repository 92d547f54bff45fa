//! The laws of the bit-set operations, proved over the model of
//! [`crate::model`]: round trips through integers and strings, saturation
//! of over-long shifts, the flip involution, display/count agreement, and
//! the arithmetic meaning of shifts and rotations.

use vstd::prelude::*;

verus! {

use vstd::arithmetic::div_mod::lemma_basic_div;
use vstd::arithmetic::div_mod::lemma_div_basics;
use vstd::arithmetic::div_mod::lemma_div_nonincreasing;
use vstd::arithmetic::div_mod::lemma_fundamental_div_mod;
use vstd::arithmetic::div_mod::lemma_fundamental_div_mod_converse;
use vstd::arithmetic::div_mod::lemma_mod_division_less_than_divisor;
use vstd::arithmetic::div_mod::lemma_mod_multiples_basic;
use vstd::arithmetic::div_mod::lemma_mod_multiples_vanish;
use vstd::arithmetic::div_mod::lemma_multiply_divide_lt;
use vstd::arithmetic::div_mod::lemma_small_mod;
use vstd::arithmetic::mul::lemma_mul_inequality;
use vstd::arithmetic::mul::lemma_mul_is_associative;
use vstd::arithmetic::mul::lemma_mul_is_commutative;
use vstd::arithmetic::mul::lemma_mul_is_distributive_add_other_way;
use vstd::arithmetic::mul::lemma_mul_is_distributive_sub;
use vstd::arithmetic::power2::lemma2_to64;
use vstd::arithmetic::power2::lemma_pow2_adds;
use vstd::arithmetic::power2::lemma_pow2_pos;
use vstd::arithmetic::power2::pow2;
use vstd::bits::lemma_u8_shl_is_mul;
use vstd::bits::lemma_u8_shr_is_div;

use crate::model::all_bit_chars;
use crate::model::bits_of_chars;
use crate::model::bits_to_nat;
use crate::model::cellwise_and;
use crate::model::cellwise_or;
use crate::model::cellwise_xor;
use crate::model::complement;
use crate::model::count_char;
use crate::model::count_set;
use crate::model::is_bit_char;
use crate::model::lemma_bits_to_nat_zero;
use crate::model::lemma_nat_to_bits_to_nat;
use crate::model::lemma_nth_bit_above_width;
use crate::model::lemma_nth_bit_combine;
use crate::model::lemma_nth_bit_halved;
use crate::model::lemma_nth_bit_of_div;
use crate::model::lemma_nth_bit_of_mod;
use crate::model::lemma_pow2_le;
use crate::model::nat_to_bits;
use crate::model::no_bit_set;
use crate::model::nth_bit;
use crate::model::rendered;
use crate::model::rotated_left;
use crate::model::rotated_right;
use crate::model::shifted_left;
use crate::model::shifted_right;

/// Round trip through an integer: a width-`w` value written into `n >= w`
/// cells and read back as a number is unchanged. With `w == n` this covers
/// every `from_u*`/`to_u*` pair of equal width.
pub proof fn lemma_uint_round_trip(v: nat, w: nat, n: nat)
    requires
        v < pow2(w),
        w <= n,
    ensures
        bits_to_nat(nat_to_bits(v, n)) == v,
{
    lemma_pow2_le(w, n);
    lemma_nat_to_bits_to_nat(v, n);
}

/// The companion round trip: writing the cells of a bit set into a number
/// and reading that number back, at the same width, restores every cell.
/// Together with [`lemma_uint_round_trip`] this makes the equal-width
/// conversions a bijection.
pub proof fn lemma_bits_to_nat_to_bits(s: Seq<bool>)
    ensures
        nat_to_bits(bits_to_nat(s), s.len()) == s,
    decreases s.len(),
{
    lemma2_to64();
    if s.len() > 0 {
        let v = bits_to_nat(s);
        let w = bits_to_nat(s.drop_first());
        let b0: nat = if s[0] {
            1
        } else {
            0
        };
        lemma_fundamental_div_mod_converse(v as int, 2, w as int, b0 as int);
        lemma_bits_to_nat_to_bits(s.drop_first());
        lemma_div_basics(v as int);
        assert forall|i: int| 0 <= i < s.len() implies nat_to_bits(v, s.len())[i] == s[i] by {
            if i > 0 {
                lemma_nth_bit_halved(v, (i - 1) as nat);
                assert(nat_to_bits(w, (s.len() - 1) as nat)[i - 1] == s.drop_first()[i - 1]);
            }
        }
        assert(nat_to_bits(v, s.len()) =~= s);
    } else {
        assert(nat_to_bits(bits_to_nat(s), s.len()) =~= s);
    }
}

/// Round trip through a string: a bit string over `'0'` and `'1'`, parsed
/// into cells and rendered again, is unchanged.
pub proof fn lemma_parse_then_display(cs: Seq<char>)
    requires
        all_bit_chars(cs),
    ensures
        rendered(bits_of_chars(cs), '1', '0') == cs,
{
    let b = bits_of_chars(cs);
    assert forall|j: int| 0 <= j < cs.len() implies rendered(b, '1', '0')[j] == cs[j] by {
        assert(is_bit_char(cs[j]));
    }
    assert(rendered(b, '1', '0') =~= cs);
}

/// The companion round trip: rendering cells as a bit string and parsing
/// that string gives the cells back.
pub proof fn lemma_display_then_parse(s: Seq<bool>)
    ensures
        bits_of_chars(rendered(s, '1', '0')) == s,
{
    assert(bits_of_chars(rendered(s, '1', '0')) =~= s);
}

/// Shift saturation: shifting by at least the size clears every cell, in
/// either direction.
pub proof fn lemma_shift_saturates(s: Seq<bool>, k: nat)
    requires
        k >= s.len(),
    ensures
        no_bit_set(shifted_left(s, k)),
        no_bit_set(shifted_right(s, k)),
{
}

/// Flipping is an involution: complementing every cell twice restores the
/// original bit set.
pub proof fn lemma_flip_involution(s: Seq<bool>)
    ensures
        complement(complement(s)) == s,
{
    assert(complement(complement(s)) =~= s);
}

/// Count consistency: the number of set cells equals the number of `'1'`
/// characters in the rendered bit string.
pub proof fn lemma_count_matches_display(s: Seq<bool>)
    ensures
        count_set(s) == count_char(rendered(s, '1', '0'), '1'),
    decreases s.len(),
{
    if s.len() > 0 {
        assert(rendered(s, '1', '0').drop_first() =~= rendered(s.drop_last(), '1', '0'));
        lemma_count_matches_display(s.drop_last());
    }
}

/// The number whose low `n - m` bits are the high bits of `v` and whose
/// top `m` positions hold the low `m` bits of `v`: the building block of
/// both rotations. It stays below `2^n`, and its bits are the bits of `v`
/// moved down by `m`, wrapping around.
proof fn lemma_wrapped_value_bits(v: nat, n: nat, m: nat)
    requires
        0 < n,
        m <= n,
        v < pow2(n),
    ensures
        (v % pow2(m)) * pow2((n - m) as nat) + v / pow2(m) < pow2(n),
        forall|i: int|
            0 <= i < n - m ==> #[trigger] nth_bit(
                (v % pow2(m)) * pow2((n - m) as nat) + v / pow2(m),
                i as nat,
            ) == nth_bit(v, (i + m) as nat),
        forall|i: int|
            n - m <= i < n ==> #[trigger] nth_bit(
                (v % pow2(m)) * pow2((n - m) as nat) + v / pow2(m),
                i as nat,
            ) == nth_bit(v, (i - (n - m)) as nat),
{
    let t = (n - m) as nat;
    let lo = v % pow2(m);
    let hi = v / pow2(m);
    let w = lo * pow2(t) + hi;
    lemma_pow2_pos(m);
    lemma_pow2_pos(t);
    lemma_pow2_adds(m, t);
    assert(hi < pow2(t)) by {
        lemma_multiply_divide_lt(v as int, pow2(m) as int, pow2(t) as int);
    }
    assert(lo < pow2(m)) by {
        lemma_mod_division_less_than_divisor(v as int, pow2(m) as int);
    }
    assert(w < pow2(n)) by {
        lemma_mul_inequality(lo as int, pow2(m) - 1, pow2(t) as int);
        lemma_mul_is_distributive_sub(pow2(t) as int, pow2(m) as int, 1);
        lemma_mul_is_commutative(pow2(m) - 1, pow2(t) as int);
        lemma_mul_is_commutative(pow2(m) as int, pow2(t) as int);
    }
    assert forall|i: int| 0 <= i < n - m implies #[trigger] nth_bit(w, i as nat) == nth_bit(
        v,
        (i + m) as nat,
    ) by {
        lemma_nth_bit_combine(lo, hi, t, i as nat);
        lemma_nth_bit_of_div(v, m, i as nat);
    }
    assert forall|i: int| n - m <= i < n implies #[trigger] nth_bit(w, i as nat) == nth_bit(
        v,
        (i - (n - m)) as nat,
    ) by {
        lemma_nth_bit_combine(lo, hi, t, i as nat);
        lemma_nth_bit_of_mod(v, m, (i - (n - m)) as nat);
    }
}

/// Rotation, arithmetically: rotating left by `s` sends the value `v` to
/// `(v % 2^(n-r)) * 2^r + v / 2^(n-r)` with `r = s % n` — the low `n - r`
/// bits move up `r` places and the top `r` bits wrap to the bottom, exactly
/// the standard left rotation of an `n`-bit unsigned integer.
pub proof fn lemma_rotate_left_value(v: nat, n: nat, s: nat)
    requires
        0 < n,
        v < pow2(n),
    ensures
        bits_to_nat(rotated_left(nat_to_bits(v, n), s)) == (v % pow2((n - s % n) as nat)) * pow2(
            s % n,
        ) + v / pow2((n - s % n) as nat),
{
    let b = nat_to_bits(v, n);
    let r = s % n;
    let m = (n - r) as nat;
    let w = (v % pow2(m)) * pow2(r) + v / pow2(m);
    lemma_wrapped_value_bits(v, n, m);
    assert forall|i: int| 0 <= i < n implies rotated_left(b, s)[i] == nth_bit(w, i as nat) by {
        if i >= r {
            assert(nth_bit(w, i as nat) == nth_bit(v, (i - r) as nat));
        } else {
            assert(nth_bit(w, i as nat) == nth_bit(v, (i + m) as nat));
        }
    }
    assert(rotated_left(b, s) =~= nat_to_bits(w, n));
    lemma_nat_to_bits_to_nat(w, n);
}

/// Rotation, arithmetically: rotating right by `s` sends the value `v` to
/// `(v % 2^r) * 2^(n-r) + v / 2^r` with `r = s % n` — the value is divided
/// by `2^r` and the `r` bits shifted out wrap to the top, exactly the
/// standard right rotation of an `n`-bit unsigned integer.
pub proof fn lemma_rotate_right_value(v: nat, n: nat, s: nat)
    requires
        0 < n,
        v < pow2(n),
    ensures
        bits_to_nat(rotated_right(nat_to_bits(v, n), s)) == (v % pow2(s % n)) * pow2(
            (n - s % n) as nat,
        ) + v / pow2(s % n),
{
    let b = nat_to_bits(v, n);
    let r = s % n;
    let m = (n - r) as nat;
    let w = (v % pow2(r)) * pow2(m) + v / pow2(r);
    lemma_wrapped_value_bits(v, n, r);
    assert forall|i: int| 0 <= i < n implies rotated_right(b, s)[i] == nth_bit(w, i as nat) by {
        if i + r < n {
            assert(nth_bit(w, i as nat) == nth_bit(v, (i + r) as nat));
        } else {
            assert(nth_bit(w, i as nat) == nth_bit(v, (i + r - n) as nat));
        }
    }
    assert(rotated_right(b, s) =~= nat_to_bits(w, n));
    lemma_nat_to_bits_to_nat(w, n);
}

/// The 8-bit rotation law in machine terms: an 8-cell bit set built from
/// `v` and rotated left by `s` stands for the standard `u8` left rotation,
/// `(v << r) | (v >> (8 - r))` with `r = s % 8`.
pub proof fn lemma_rotate_left_matches_u8(v: u8, s: nat)
    ensures
        s % 8 == 0 ==> bits_to_nat(rotated_left(nat_to_bits(v as nat, 8), s)) == v as nat,
        s % 8 != 0 ==> bits_to_nat(rotated_left(nat_to_bits(v as nat, 8), s)) == (((v << ((s
            % 8) as u8)) | (v >> ((8 - s % 8) as u8))) as nat),
{
    lemma2_to64();
    lemma_rotate_left_value(v as nat, 8, s);
    let w = bits_to_nat(rotated_left(nat_to_bits(v as nat, 8), s));
    let r = (s % 8) as u8;
    if r == 0 {
        assert(w == ((v as nat) % pow2(8)) * pow2(0) + (v as nat) / pow2(8));
        lemma_small_mod(v as nat, pow2(8));
        lemma_basic_div(v as int, pow2(8) as int);
    } else {
        lemma_u8_shl_is_mul(1, r);
        lemma_u8_shl_is_mul(1, (8 - r) as u8);
        assert((((v << r) | (v >> ((8 - r) as u8))) as int) == (v % (1u8 << ((8 - r) as u8))) * (
        1u8 << r) + (v / (1u8 << ((8 - r) as u8)))) by (bit_vector)
            requires
                0 < r < 8,
        ;
    }
}

/// The 8-bit rotation law in machine terms: an 8-cell bit set built from
/// `v` and rotated right by `s` stands for the standard `u8` right
/// rotation, `(v >> r) | (v << (8 - r))` with `r = s % 8`.
pub proof fn lemma_rotate_right_matches_u8(v: u8, s: nat)
    ensures
        s % 8 == 0 ==> bits_to_nat(rotated_right(nat_to_bits(v as nat, 8), s)) == v as nat,
        s % 8 != 0 ==> bits_to_nat(rotated_right(nat_to_bits(v as nat, 8), s)) == (((v >> ((s
            % 8) as u8)) | (v << ((8 - s % 8) as u8))) as nat),
{
    lemma2_to64();
    lemma_rotate_right_value(v as nat, 8, s);
    let w = bits_to_nat(rotated_right(nat_to_bits(v as nat, 8), s));
    let r = (s % 8) as u8;
    if r == 0 {
        assert(w == ((v as nat) % pow2(0)) * pow2(8) + (v as nat) / pow2(0));
        lemma_mod_multiples_basic(v as int, 1);
        lemma_div_basics(v as int);
        assert((v as nat) % pow2(0) == 0);
        assert((v as nat) / pow2(0) == v as nat);
    } else {
        lemma_u8_shl_is_mul(1, r);
        lemma_u8_shl_is_mul(1, (8 - r) as u8);
        assert((((v >> r) | (v << ((8 - r) as u8))) as int) == (v % (1u8 << r)) * (1u8 << ((8
        - r) as u8)) + (v / (1u8 << r))) by (bit_vector)
            requires
                0 < r < 8,
        ;
    }
}

/// Shifting left multiplies: the value of a left shift by `k` is the value
/// times `2^k`, reduced modulo `2^n`.
pub proof fn lemma_shift_left_multiplies(v: nat, n: nat, k: nat)
    requires
        v < pow2(n),
    ensures
        bits_to_nat(shifted_left(nat_to_bits(v, n), k)) == (v * pow2(k)) % pow2(n),
{
    let b = nat_to_bits(v, n);
    lemma_pow2_pos(n);
    lemma_pow2_pos(k);
    if k >= n {
        assert(no_bit_set(shifted_left(b, k)));
        lemma_bits_to_nat_zero(shifted_left(b, k));
        lemma_pow2_adds((k - n) as nat, n);
        assert(v * pow2(k) == (v * pow2((k - n) as nat)) * pow2(n)) by {
            lemma_mul_is_associative(v as int, pow2((k - n) as nat) as int, pow2(n) as int);
        }
        lemma_mod_multiples_basic((v * pow2((k - n) as nat)) as int, pow2(n) as int);
    } else {
        let m = (n - k) as nat;
        let lo = v % pow2(m);
        let q = v / pow2(m);
        let w = lo * pow2(k);
        lemma_pow2_pos(m);
        lemma_pow2_adds(m, k);
        lemma_pow2_adds(k, m);
        lemma_mod_division_less_than_divisor(v as int, pow2(m) as int);
        assert forall|i: int| 0 <= i < n implies shifted_left(b, k)[i] == nth_bit(w, i as nat) by {
            lemma_nth_bit_combine(lo, 0, k, i as nat);
            if i >= k {
                lemma_nth_bit_of_mod(v, m, (i - k) as nat);
            } else {
                lemma_pow2_pos(i as nat);
                lemma_basic_div(0, pow2(i as nat) as int);
            }
        }
        assert(shifted_left(b, k) =~= nat_to_bits(w, n));
        assert(w < pow2(n)) by {
            lemma_mul_inequality(lo as int, pow2(m) - 1, pow2(k) as int);
            lemma_mul_is_distributive_sub(pow2(k) as int, pow2(m) as int, 1);
            lemma_mul_is_commutative(pow2(m) - 1, pow2(k) as int);
            lemma_mul_is_commutative(pow2(m) as int, pow2(k) as int);
        }
        lemma_nat_to_bits_to_nat(w, n);
        assert((v * pow2(k)) % pow2(n) == w) by {
            lemma_fundamental_div_mod(v as int, pow2(m) as int);
            assert(v * pow2(k) == pow2(n) * q + w) by {
                lemma_mul_is_distributive_add_other_way(
                    pow2(k) as int,
                    (pow2(m) * q) as int,
                    lo as int,
                );
                lemma_mul_is_associative(pow2(m) as int, q as int, pow2(k) as int);
                lemma_mul_is_commutative(q as int, pow2(k) as int);
                lemma_mul_is_associative(pow2(m) as int, pow2(k) as int, q as int);
            }
            lemma_mod_multiples_vanish(q as int, w as int, pow2(n) as int);
            lemma_small_mod(w, pow2(n));
        }
    }
}

/// Shifting right divides: the value of a right shift by `k` is the value
/// divided by `2^k`, rounding down.
pub proof fn lemma_shift_right_divides(v: nat, n: nat, k: nat)
    requires
        v < pow2(n),
    ensures
        bits_to_nat(shifted_right(nat_to_bits(v, n), k)) == v / pow2(k),
{
    let b = nat_to_bits(v, n);
    let w = v / pow2(k);
    lemma_pow2_pos(k);
    assert forall|i: int| 0 <= i < n implies shifted_right(b, k)[i] == nth_bit(w, i as nat) by {
        lemma_nth_bit_of_div(v, k, i as nat);
        if i + k >= n {
            lemma_nth_bit_above_width(v, n, (i + k) as nat);
        }
    }
    assert(shifted_right(b, k) =~= nat_to_bits(w, n));
    lemma_div_nonincreasing(v as int, pow2(k) as int);
    lemma_nat_to_bits_to_nat(w, n);
}

/// The model's bit extraction agrees with the machine's: bit `i` of a `u8`
/// is what shifting and masking yields.
proof fn lemma_nth_bit_u8(v: u8, i: u8)
    requires
        i < 8,
    ensures
        nth_bit(v as nat, i as nat) == ((v >> i) & 1 == 1),
{
    lemma_u8_shr_is_div(v, i);
    assert((v >> i) & 1 == (v >> i) % 2) by (bit_vector);
}

/// Bitwise-and agreement with integer semantics: combining the cells of two
/// 8-bit values cellwise with boolean and yields the bits of the integer
/// `a & b`.
pub proof fn lemma_bitand_matches_u8(a: u8, b: u8)
    ensures
        bits_to_nat(cellwise_and(nat_to_bits(a as nat, 8), nat_to_bits(b as nat, 8))) == (a
            & b) as nat,
{
    let sa = nat_to_bits(a as nat, 8);
    let sb = nat_to_bits(b as nat, 8);
    let c = a & b;
    assert forall|i: int| 0 <= i < 8 implies cellwise_and(sa, sb)[i] == nth_bit(
        c as nat,
        i as nat,
    ) by {
        let iu = i as u8;
        lemma_nth_bit_u8(a, iu);
        lemma_nth_bit_u8(b, iu);
        lemma_nth_bit_u8(c, iu);
        assert((((a & b) >> iu) & 1 == 1) == (((a >> iu) & 1 == 1) && ((b >> iu) & 1 == 1)))
            by (bit_vector);
    }
    assert(cellwise_and(sa, sb) =~= nat_to_bits(c as nat, 8));
    lemma2_to64();
    lemma_nat_to_bits_to_nat(c as nat, 8);
}

/// Bitwise-or agreement with integer semantics: combining the cells of two
/// 8-bit values cellwise with boolean or yields the bits of the integer
/// `a | b`.
pub proof fn lemma_bitor_matches_u8(a: u8, b: u8)
    ensures
        bits_to_nat(cellwise_or(nat_to_bits(a as nat, 8), nat_to_bits(b as nat, 8))) == (a
            | b) as nat,
{
    let sa = nat_to_bits(a as nat, 8);
    let sb = nat_to_bits(b as nat, 8);
    let c = a | b;
    assert forall|i: int| 0 <= i < 8 implies cellwise_or(sa, sb)[i] == nth_bit(
        c as nat,
        i as nat,
    ) by {
        let iu = i as u8;
        lemma_nth_bit_u8(a, iu);
        lemma_nth_bit_u8(b, iu);
        lemma_nth_bit_u8(c, iu);
        assert((((a | b) >> iu) & 1 == 1) == (((a >> iu) & 1 == 1) || ((b >> iu) & 1 == 1)))
            by (bit_vector);
    }
    assert(cellwise_or(sa, sb) =~= nat_to_bits(c as nat, 8));
    lemma2_to64();
    lemma_nat_to_bits_to_nat(c as nat, 8);
}

/// Bitwise-xor agreement with integer semantics: combining the cells of two
/// 8-bit values cellwise with boolean exclusive or yields the bits of the
/// integer `a ^ b`.
pub proof fn lemma_bitxor_matches_u8(a: u8, b: u8)
    ensures
        bits_to_nat(cellwise_xor(nat_to_bits(a as nat, 8), nat_to_bits(b as nat, 8))) == (a
            ^ b) as nat,
{
    let sa = nat_to_bits(a as nat, 8);
    let sb = nat_to_bits(b as nat, 8);
    let c = a ^ b;
    assert forall|i: int| 0 <= i < 8 implies cellwise_xor(sa, sb)[i] == nth_bit(
        c as nat,
        i as nat,
    ) by {
        let iu = i as u8;
        lemma_nth_bit_u8(a, iu);
        lemma_nth_bit_u8(b, iu);
        lemma_nth_bit_u8(c, iu);
        assert((((a ^ b) >> iu) & 1 == 1) == (((a >> iu) & 1 == 1) != ((b >> iu) & 1 == 1)))
            by (bit_vector);
    }
    assert(cellwise_xor(sa, sb) =~= nat_to_bits(c as nat, 8));
    lemma2_to64();
    lemma_nat_to_bits_to_nat(c as nat, 8);
}

} // verus!
