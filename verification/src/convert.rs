//! Lossless conversions between bit sets and fixed-width unsigned integers.
//!
//! A bit set converts *to* a width-`W` integer only when all of its `N`
//! cells fit, `N <= W`, and *from* one only when every bit of the integer
//! has a cell to land in, `N >= W`. Both directions are total under that
//! rule, so converting can never silently truncate; Verus rejects any call
//! outside the rule at verification time.

use vstd::prelude::*;

verus! {

use vstd::arithmetic::div_mod::lemma_div_basics;
use vstd::arithmetic::div_mod::lemma_div_denominator;
use vstd::arithmetic::power2::lemma2_to64;
use vstd::arithmetic::power2::lemma2_to64_rest;
use vstd::arithmetic::power2::lemma_pow2_adds;
use vstd::arithmetic::power2::lemma_pow2_pos;
use vstd::arithmetic::power2::lemma_pow2_unfold;
use vstd::arithmetic::power2::pow2;

use crate::bitset::SizedBitset;
use crate::model::bits_to_nat;
use crate::model::lemma_bits_to_nat_bound;
use crate::model::lemma_nat_to_bits_to_nat;
use crate::model::lemma_pow2_le;
use crate::model::nat_to_bits;
use crate::model::nth_bit;

/// Conversion to `u8`: defined for bit sets of at most 8 cells, which all
/// fit losslessly. The result is the integer the cells stand for.
pub trait To8: View<V = Seq<bool>> {
    /// The integer interpretation of the cells, as a `u8`.
    fn to_u8(&self) -> (r: u8)
        requires
            self@.len() <= 8,
        ensures
            r as nat == bits_to_nat(self@),
    ;
}

/// Conversion to `u16`: defined for bit sets of at most 16 cells, which all
/// fit losslessly. The result is the integer the cells stand for.
pub trait To16: View<V = Seq<bool>> {
    /// The integer interpretation of the cells, as a `u16`.
    fn to_u16(&self) -> (r: u16)
        requires
            self@.len() <= 16,
        ensures
            r as nat == bits_to_nat(self@),
    ;
}

/// Conversion to `u32`: defined for bit sets of at most 32 cells, which all
/// fit losslessly. The result is the integer the cells stand for.
pub trait To32: View<V = Seq<bool>> {
    /// The integer interpretation of the cells, as a `u32`.
    fn to_u32(&self) -> (r: u32)
        requires
            self@.len() <= 32,
        ensures
            r as nat == bits_to_nat(self@),
    ;
}

/// Conversion to `u64`: defined for bit sets of at most 64 cells, which all
/// fit losslessly. The result is the integer the cells stand for.
pub trait To64: View<V = Seq<bool>> {
    /// The integer interpretation of the cells, as a `u64`.
    fn to_u64(&self) -> (r: u64)
        requires
            self@.len() <= 64,
        ensures
            r as nat == bits_to_nat(self@),
    ;
}

/// Conversion to `u128`: defined for bit sets of at most 128 cells, which
/// all fit losslessly. The result is the integer the cells stand for.
pub trait To128: View<V = Seq<bool>> {
    /// The integer interpretation of the cells, as a `u128`.
    fn to_u128(&self) -> (r: u128)
        requires
            self@.len() <= 128,
        ensures
            r as nat == bits_to_nat(self@),
    ;
}

impl<const N: usize> SizedBitset<N> {
    /// The integer the cells stand for, accumulated most-significant cell
    /// first so that the running value always fits in 128 bits.
    fn to_uint(&self) -> (r: u128)
        requires
            N <= 128,
        ensures
            r as nat == bits_to_nat(self@),
    {
        let n = self.len();
        let mut acc: u128 = 0;
        let mut j: usize = n;
        while j > 0
            invariant
                N <= 128,
                n == N,
                self@.len() == N,
                j <= N,
                acc as nat == bits_to_nat(self@.skip(j as int)),
            decreases j,
        {
            j = j - 1;
            proof {
                lemma_bits_to_nat_bound(self@.skip(j + 1));
                lemma_pow2_le((N - j - 1) as nat, 127);
                lemma2_to64();
                lemma2_to64_rest();
                lemma_pow2_adds(64, 63);
                assert(self@.skip(j as int).drop_first() =~= self@.skip(j + 1));
            }
            let bit: u128 = if self.get(j) {
                1
            } else {
                0
            };
            acc = 2 * acc + bit;
        }
        proof {
            assert(self@.skip(0) =~= self@);
        }
        acc
    }

    /// Builds the bit set whose cell `i`, for `i < width`, is bit `i` of
    /// `value`, and whose remaining cells are false.
    fn from_uint(value: u128, width: usize) -> (r: Self)
        requires
            width <= N,
            (value as nat) < pow2(width as nat),
        ensures
            r@ == nat_to_bits(value as nat, N as nat),
            bits_to_nat(r@) == value as nat,
            r@.len() == N,
    {
        let mut cells: Vec<bool> = Vec::new();
        let mut cur: u128 = value;
        proof {
            lemma2_to64();
            lemma_div_basics(value as int);
        }
        for i in 0..N
            invariant
                width <= N,
                (value as nat) < pow2(width as nat),
                cells@.len() == i,
                forall|k: int| 0 <= k < i ==> cells@[k] == nth_bit(value as nat, k as nat),
                cur as nat == (value as nat) / pow2(i as nat),
        {
            cells.push(cur % 2 == 1);
            proof {
                lemma_pow2_unfold((i + 1) as nat);
                lemma_pow2_pos(i as nat);
                lemma_div_denominator(value as int, pow2(i as nat) as int, 2);
            }
            cur = cur / 2;
        }
        proof {
            assert(cells@ =~= nat_to_bits(value as nat, N as nat));
            lemma_pow2_le(width as nat, N as nat);
            lemma_nat_to_bits_to_nat(value as nat, N as nat);
        }
        SizedBitset { bits: cells }
    }

    /// Builds the bit set whose low 8 cells are the bits of `value`, least
    /// significant at cell 0, and whose remaining cells are false; defined
    /// only when every bit has a cell, `N >= 8`.
    pub fn from_u8(value: u8) -> (r: Self)
        requires
            N >= 8,
        ensures
            r@ == nat_to_bits(value as nat, N as nat),
            bits_to_nat(r@) == value as nat,
            r@.len() == N,
    {
        proof {
            lemma2_to64();
        }
        Self::from_uint(value as u128, 8)
    }

    /// Builds the bit set whose low 16 cells are the bits of `value`, least
    /// significant at cell 0, and whose remaining cells are false; defined
    /// only when every bit has a cell, `N >= 16`.
    pub fn from_u16(value: u16) -> (r: Self)
        requires
            N >= 16,
        ensures
            r@ == nat_to_bits(value as nat, N as nat),
            bits_to_nat(r@) == value as nat,
            r@.len() == N,
    {
        proof {
            lemma2_to64();
        }
        Self::from_uint(value as u128, 16)
    }

    /// Builds the bit set whose low 32 cells are the bits of `value`, least
    /// significant at cell 0, and whose remaining cells are false; defined
    /// only when every bit has a cell, `N >= 32`.
    pub fn from_u32(value: u32) -> (r: Self)
        requires
            N >= 32,
        ensures
            r@ == nat_to_bits(value as nat, N as nat),
            bits_to_nat(r@) == value as nat,
            r@.len() == N,
    {
        proof {
            lemma2_to64();
        }
        Self::from_uint(value as u128, 32)
    }

    /// Builds the bit set whose low 64 cells are the bits of `value`, least
    /// significant at cell 0, and whose remaining cells are false; defined
    /// only when every bit has a cell, `N >= 64`.
    pub fn from_u64(value: u64) -> (r: Self)
        requires
            N >= 64,
        ensures
            r@ == nat_to_bits(value as nat, N as nat),
            bits_to_nat(r@) == value as nat,
            r@.len() == N,
    {
        proof {
            lemma2_to64();
            lemma2_to64_rest();
        }
        Self::from_uint(value as u128, 64)
    }

    /// Builds the bit set whose 128 cells are the bits of `value`, least
    /// significant at cell 0; defined only when every bit has a cell,
    /// `N >= 128`.
    pub fn from_u128(value: u128) -> (r: Self)
        requires
            N >= 128,
        ensures
            r@ == nat_to_bits(value as nat, N as nat),
            bits_to_nat(r@) == value as nat,
            r@.len() == N,
    {
        proof {
            lemma2_to64();
            lemma_pow2_adds(64, 64);
        }
        Self::from_uint(value, 128)
    }
}

impl<const N: usize> To8 for SizedBitset<N> {
    fn to_u8(&self) -> (r: u8) {
        proof {
            use_type_invariant(self);
            lemma_bits_to_nat_bound(self@);
            lemma_pow2_le(self@.len(), 8);
            lemma2_to64();
        }
        self.to_uint() as u8
    }
}

impl<const N: usize> To16 for SizedBitset<N> {
    fn to_u16(&self) -> (r: u16) {
        proof {
            use_type_invariant(self);
            lemma_bits_to_nat_bound(self@);
            lemma_pow2_le(self@.len(), 16);
            lemma2_to64();
        }
        self.to_uint() as u16
    }
}

impl<const N: usize> To32 for SizedBitset<N> {
    fn to_u32(&self) -> (r: u32) {
        proof {
            use_type_invariant(self);
            lemma_bits_to_nat_bound(self@);
            lemma_pow2_le(self@.len(), 32);
            lemma2_to64();
        }
        self.to_uint() as u32
    }
}

impl<const N: usize> To64 for SizedBitset<N> {
    fn to_u64(&self) -> (r: u64) {
        proof {
            use_type_invariant(self);
            lemma_bits_to_nat_bound(self@);
            lemma_pow2_le(self@.len(), 64);
            lemma2_to64();
        }
        self.to_uint() as u64
    }
}

impl<const N: usize> To128 for SizedBitset<N> {
    fn to_u128(&self) -> (r: u128) {
        proof {
            use_type_invariant(self);
            lemma_bits_to_nat_bound(self@);
            lemma_pow2_le(self@.len(), 128);
            lemma2_to64();
            lemma_pow2_adds(64, 64);
        }
        self.to_uint()
    }
}

} // verus!
