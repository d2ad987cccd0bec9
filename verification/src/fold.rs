//! The 64-bit fold that combines a hasher's cells and routes names, and the standard
//! digest that gives identifiers.

use vstd::prelude::*;
use vstd::std_specs::hash::DefaultHasherAdditionalSpecFns;
use vstd::string::StringSliceAdditionalSpecFns;
use vstd::arithmetic::div_mod::lemma_add_mod_noop;
use vstd::arithmetic::div_mod::lemma_mul_mod_noop_right;
use vstd::arithmetic::div_mod::lemma_small_mod;
use std::collections::hash_map::DefaultHasher;
use std::hash::Hasher;

verus! {

/// Two to the sixty-fourth.
pub open spec fn word_range() -> int {
    0x1_0000_0000_0000_0000
}

/// Thirty-one to the power `n`.
pub open spec fn pow31(n: nat) -> int
    decreases n,
{
    if n == 0 {
        1
    } else {
        31 * pow31((n - 1) as nat)
    }
}

/// The polynomial `cells[0] + cells[1]*31 + ... + cells[n-1]*31^(n-1)` over the integers.
pub open spec fn poly31(cells: Seq<u64>, n: nat) -> int
    decreases n,
{
    if n == 0 {
        0
    } else {
        poly31(cells, (n - 1) as nat) + cells[n - 1] * pow31((n - 1) as nat)
    }
}

/// The 64-bit fold of a sequence of words: its base-31 polynomial, modulo two to the
/// sixty-fourth.
pub open spec fn fold64(cells: Seq<u64>) -> u64 {
    (poly31(cells, cells.len()) % word_range()) as u64
}

/// The fold of a byte string, each byte taken as one word.
pub open spec fn fold64_bytes(bytes: Seq<u8>) -> u64 {
    fold64(bytes.map_values(|b: u8| b as u64))
}

/// The fold of signed cells, each reinterpreted as an unsigned word.
pub open spec fn fold64_signed(cells: Seq<i64>) -> u64 {
    fold64(cells.map_values(|c: i64| c as u64))
}

/// One step of the fold: adding `c * 31^i` to the running value and advancing the multiplier.
proof fn lemma_fold_step(h: u64, m: u64, c: u64, poly: int, pw: int)
    requires
        h == poly % word_range(),
        m == pw % word_range(),
    ensures
        vstd::wrapping::u64_specs::wrapping_add(h, vstd::wrapping::u64_specs::wrapping_mul(c, m))
            == (poly + c * pw) % word_range(),
        vstd::wrapping::u64_specs::wrapping_mul(m, 31) == (31 * pw) % word_range(),
{
    let r = word_range();
    let x = vstd::wrapping::u64_specs::wrapping_mul(c, m);
    assert((c as nat * m as nat) as int == c * m) by (nonlinear_arith);
    assert(x == (c * m) % r);
    lemma_mul_mod_noop_right(c as int, pw, r);
    assert(x == (c * pw) % r);
    lemma_add_mod_noop(poly, c * pw, r);
    assert((h + x) % r == (poly + c * pw) % r);
    if h + x > u64::MAX {
        assert(0 <= h + x - r < r);
        lemma_small_mod((h + x - r) as nat, r as nat);
        vstd::arithmetic::div_mod::lemma_mod_sub_multiples_vanish(h + x, r);
    } else {
        lemma_small_mod((h + x) as nat, r as nat);
    }
    assert((m as nat * 31nat) as int == m * 31) by (nonlinear_arith);
    lemma_mul_mod_noop_right(31, pw, r);
    assert(m * 31 == 31 * m) by (nonlinear_arith);
}

/// Folds a sequence of words into one: `H <- H + cell * M`, `M <- M * 31`, from `H = 0`,
/// `M = 1`, all modulo two to the sixty-fourth.
pub fn fold_words(cells: &[u64]) -> (h: u64)
    ensures
        h == fold64(cells@),
{
    let mut h: u64 = 0;
    let mut m: u64 = 1;
    let mut i: usize = 0;
    proof {
        lemma_small_mod(1, word_range() as nat);
        lemma_small_mod(0, word_range() as nat);
    }
    while i < cells.len()
        invariant
            0 <= i <= cells.len(),
            h == poly31(cells@, i as nat) % word_range(),
            m == pow31(i as nat) % word_range(),
        decreases cells.len() - i,
    {
        proof {
            lemma_fold_step(h, m, cells@[i as int], poly31(cells@, i as nat), pow31(i as nat));
        }
        h = h.wrapping_add(cells[i].wrapping_mul(m));
        m = m.wrapping_mul(31);
        i += 1;
    }
    h
}

/// Folds signed cells, each cast to an unsigned word.
pub fn fold_cells(cells: &[i64]) -> (h: u64)
    ensures
        h == fold64_signed(cells@),
{
    let mut words: Vec<u64> = Vec::new();
    let mut i: usize = 0;
    while i < cells.len()
        invariant
            0 <= i <= cells.len(),
            words@ == cells@.take(i as int).map_values(|c: i64| c as u64),
        decreases cells.len() - i,
    {
        let w: u64 = #[verifier::truncate] (cells[i] as u64);
        words.push(w);
        proof {
            assert(cells@.take(i + 1) == cells@.take(i as int).push(cells@[i as int]));
            assert(words@ =~= cells@.take(i + 1).map_values(|c: i64| c as u64));
        }
        i += 1;
    }
    assert(cells@.take(i as int) == cells@);
    fold_words(words.as_slice())
}

/// Folds the UTF-8 bytes of a name.
pub fn fold_str(name: &str) -> (h: u64)
    ensures
        h == fold64_bytes(name.spec_bytes()),
{
    let bytes = name.as_bytes();
    let mut words: Vec<u64> = Vec::new();
    let mut i: usize = 0;
    while i < bytes.len()
        invariant
            0 <= i <= bytes.len(),
            words@ == bytes@.take(i as int).map_values(|b: u8| b as u64),
        decreases bytes.len() - i,
    {
        words.push(bytes[i] as u64);
        proof {
            assert(bytes@.take(i + 1) == bytes@.take(i as int).push(bytes@[i as int]));
            assert(words@ =~= bytes@.take(i + 1).map_values(|b: u8| b as u64));
        }
        i += 1;
    }
    assert(bytes@.take(i as int) == bytes@);
    fold_words(words.as_slice())
}

/// The digest that the standard hasher gives to one write of `bytes`.
pub open spec fn digest(bytes: Seq<u8>) -> u64 {
    DefaultHasher::spec_finish(seq![bytes])
}

/// Hashes a byte string with the standard hasher.
pub fn calculate_hash(bytes: &[u8]) -> (h: u64)
    ensures
        h == digest(bytes@),
{
    let mut state = DefaultHasher::new();
    state.write(bytes);
    assert(state@ =~= seq![bytes@]);
    state.finish()
}

} // verus!
