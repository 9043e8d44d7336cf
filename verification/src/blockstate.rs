//! The packed block-state encoding: palette indices laid into 64-bit words
//! at the minimum bit width able to represent the palette, packed
//! low-bit-first within each word, and never split across a word boundary.
//! A word is exactly the base-2^bits value of its group of indices, so
//! packing and unpacking are proved inverse.
use vstd::prelude::*;

use vstd::arithmetic::div_mod::{
    lemma_div_basics_2, lemma_div_denominator, lemma_div_multiples_vanish_fancy,
    lemma_fundamental_div_mod, lemma_mod_multiples_vanish, lemma_small_mod,
};
use vstd::arithmetic::power::{lemma_pow_positive, pow};
use vstd::arithmetic::power2::{
    lemma_pow2, lemma_pow2_adds, lemma_pow2_pos, lemma_pow2_strictly_increases, lemma2_to64,
    pow2,
};
use vstd::bits::{
    lemma_u64_low_bits_mask_is_mod, lemma_u64_shl_is_mul, lemma_u64_shr_is_div, low_bits_mask,
};

verus! {

/// The bit widths the encoding supports: each divides 64, so no entry is
/// ever split across a word boundary.
pub open spec fn valid_bits(bits: u64) -> bool {
    bits == 1 || bits == 2 || bits == 4 || bits == 8
}

/// Entries carried by one 64-bit word.
pub open spec fn spec_per_word(bits: u64) -> int {
    64 as int / bits as int
}

/// Value of a little-endian sequence of base-`p` digits.
pub open spec fn word_val(digits: Seq<u8>, p: nat) -> int
    decreases digits.len(),
{
    if digits.len() == 0 {
        0
    } else {
        digits[0] + p * word_val(digits.drop_first(), p)
    }
}

/// The group of entries that word `w` carries.
pub open spec fn word_digits(s: Seq<u8>, w: int, per: int) -> Seq<u8> {
    s.subrange(
        w * per,
        if s.len() < (w + 1) * per {
            s.len() as int
        } else {
            (w + 1) * per
        },
    )
}

/// `words` is the packed form of `s` at `bits` per entry: one word per
/// group of `64 / bits` entries, each word the base-2^bits value of its
/// group, low entry in the low bits.
pub open spec fn is_packing(s: Seq<u8>, bits: u64, words: Seq<u64>) -> bool {
    let per = spec_per_word(bits);
    &&& words.len() == (s.len() + per - 1) / per
    &&& forall|w: int|
        0 <= w < words.len() ==> words[w] == word_val(
            word_digits(s, w, per),
            pow2(bits as nat),
        )
}

/// The packed words of `s` at `bits` per entry, as a function: word `w`
/// is the base-2^bits value of its group of entries.
pub open spec fn spec_packed_words(s: Seq<u8>, bits: u64) -> Seq<u64> {
    let per = spec_per_word(bits);
    Seq::new(
        (((s.len() + per - 1) / per) as nat),
        |w: int| word_val(word_digits(s, w, per), pow2(bits as nat)) as u64,
    )
}

/// Any sequence of words satisfying `is_packing` is exactly
/// `spec_packed_words`: the packed form is unique.
pub proof fn lemma_packing_unique(s: Seq<u8>, bits: u64, words: Seq<u64>)
    requires
        valid_bits(bits),
        forall|k: int| 0 <= k < s.len() ==> s[k] < pow2(bits as nat),
        is_packing(s, bits, words),
    ensures
        words == spec_packed_words(s, bits),
{
    let per = spec_per_word(bits);
    let p = pow2(bits as nat);
    lemma_pow2_pos(bits as nat);
    assert forall|w: int| 0 <= w < words.len() implies words[w] == spec_packed_words(s, bits)[w] by {
        let len = s.len() as int;
        let nw = words.len() as int;
        lemma_fundamental_div_mod(len + per - 1, per);
        vstd::arithmetic::div_mod::lemma_mod_division_less_than_divisor(len + per - 1, per);
        assert(per * nw <= len + per - 1);
        vstd::arithmetic::mul::lemma_mul_inequality(w + 1, nw, per);
        assert(w * per + per == (w + 1) * per && per * nw == nw * per) by (nonlinear_arith);
        assert(0 <= w * per) by (nonlinear_arith)
            requires
                w >= 0,
                per > 0,
        ;
        assert(w * per < len);
        let digits = word_digits(s, w, per);
        assert forall|n: int| 0 <= n < digits.len() implies digits[n] < p by {
            assert(digits[n] == s[w * per + n]);
        }
        lemma_word_val_bound(digits, p);
        assert(digits.len() <= per) by {
            lemma2_to64();
        }
        assert(pow(p as int, digits.len()) <= pow(p as int, per as nat)) by {
            lemma_pow_le(p, digits.len(), per as nat);
        }
        assert(pow(p as int, per as nat) == pow2(64)) by {
            lemma_pow2_is_pow_of_pow2(bits, per as nat);
            assert(bits as nat * (per as nat) == 64) by (nonlinear_arith)
                requires
                    valid_bits(bits),
                    per == 64int / (bits as int),
            ;
        }
        lemma2_to64();
        assert(0 <= word_val(digits, p) < pow2(64));
        assert(words[w] as int == word_val(digits, p));
    }
    assert(words =~= spec_packed_words(s, bits));
}

/// Monotonicity of `pow` in the exponent, for a base of at least one.
proof fn lemma_pow_le(p: nat, e1: nat, e2: nat)
    requires
        p >= 1,
        e1 <= e2,
    ensures
        pow(p as int, e1) <= pow(p as int, e2),
    decreases e2 - e1,
{
    reveal(pow);
    lemma_pow_positive(p as int, e1);
    if e1 < e2 {
        lemma_pow_le(p, e1, (e2 - 1) as nat);
        lemma_pow_positive(p as int, (e2 - 1) as nat);
        assert(pow(p as int, e2) == p * pow(p as int, (e2 - 1) as nat));
        assert(p * pow(p as int, (e2 - 1) as nat) >= pow(p as int, (e2 - 1) as nat)) by (
        nonlinear_arith)
            requires
                p >= 1,
                pow(p as int, (e2 - 1) as nat) >= 0,
        ;
    }
}

/// The entry at position `i` of the packed `words`: the base-2^bits digit
/// of its word at position `i` within the word's group.
pub open spec fn packed_entry(words: Seq<u64>, bits: u64, i: int) -> int {
    let per = spec_per_word(bits);
    (words[i / per] as int) / pow2((bits * ((i % per) as u64)) as nat) as int % pow2(
        bits as nat,
    ) as int
}

/// Appending a digit adds its value at the next position's weight.
proof fn lemma_word_val_push(s: Seq<u8>, d: u8, p: nat)
    requires
        p >= 1,
    ensures
        word_val(s.push(d), p) == word_val(s, p) + d * pow(p as int, s.len()),
    decreases s.len(),
{
    reveal(pow);
    if s.len() == 0 {
        assert(s.push(d).len() == 1);
        assert(s.push(d)[0] == d);
        assert(s.push(d).drop_first() =~= Seq::<u8>::empty());
        assert(word_val(s.push(d).drop_first(), p) == 0);
        assert(word_val(s.push(d), p) == d + p * 0);
        assert(word_val(s, p) == 0);
        assert(pow(p as int, 0) == 1);
        assert(d * pow(p as int, s.len()) == d);
    } else {
        assert(s.push(d).drop_first() =~= s.drop_first().push(d));
        lemma_word_val_push(s.drop_first(), d, p);
        let wv = word_val(s.drop_first(), p);
        let q = pow(p as int, (s.len() - 1) as nat);
        assert(s.drop_first().len() == s.len() - 1);
        assert(word_val(s.drop_first().push(d), p) == wv + d * q);
        assert(word_val(s.push(d), p) == s[0] + p * (wv + d * q));
        assert(pow(p as int, s.len()) == p * q);
        assert(p * (wv + d * q) == p * wv + d * (p * q)) by (nonlinear_arith);
        assert(word_val(s, p) == s[0] + p * wv);
        assert(word_val(s.push(d), p) == word_val(s, p) + d * (p * q));
    }
}

/// A sequence of digits below `p` has value below `p^len`.
proof fn lemma_word_val_bound(s: Seq<u8>, p: nat)
    requires
        p >= 1,
        forall|k: int| 0 <= k < s.len() ==> s[k] < p,
    ensures
        0 <= word_val(s, p) < pow(p as int, s.len()),
    decreases s.len(),
{
    reveal(pow);
    if s.len() == 0 {
        assert(pow(p as int, 0) == 1);
    } else {
        lemma_word_val_bound(s.drop_first(), p);
        let r = word_val(s.drop_first(), p);
        let q = pow(p as int, (s.len() - 1) as nat);
        assert(pow(p as int, s.len()) == p * q);
        assert(s[0] + p * r < p * q) by (nonlinear_arith)
            requires
                0 <= s[0] < p,
                0 <= r < q,
        ;
        assert(0 <= p * r) by (nonlinear_arith)
            requires
                p >= 1,
                r >= 0,
        ;
    }
}

/// Digit extraction inverts the positional value: dividing by `p^m` and
/// taking the remainder by `p` yields the digit at position `m`.
proof fn lemma_word_val_digit(s: Seq<u8>, p: nat, m: int)
    requires
        p >= 2,
        forall|k: int| 0 <= k < s.len() ==> s[k] < p,
        0 <= m < s.len(),
    ensures
        word_val(s, p) / pow(p as int, m as nat) % (p as int) == s[m],
    decreases m,
{
    reveal(pow);
    let wv = word_val(s, p);
    let r = word_val(s.drop_first(), p);
    lemma_word_val_bound(s.drop_first(), p);
    if m == 0 {
        assert(pow(p as int, 0) == 1);
        lemma_div_basics_2(wv);
        assert((p * r + s[0]) % (p as int) == (s[0] as int) % (p as int)) by {
            lemma_mod_multiples_vanish(r, s[0] as int, p as int);
        }
        lemma_small_mod(s[0] as nat, p);
    } else {
        assert(wv / (p as int) == r) by {
            lemma_div_multiples_vanish_fancy(r, s[0] as int, p as int);
        }
        let q1 = pow(p as int, (m - 1) as nat);
        assert(pow(p as int, m as nat) == p * q1);
        lemma_pow_positive(p as int, (m - 1) as nat);
        assert(wv / pow(p as int, m as nat) == r / q1) by {
            lemma_div_denominator(wv, p as int, q1);
        }
        lemma_word_val_digit(s.drop_first(), p, m - 1);
    }
}

/// Packing then reading every entry back yields the input sequence
/// unchanged: the round trip is exact for every grid of entries below
/// 2^bits and every supported width.
pub proof fn lemma_round_trip(s: Seq<u8>, bits: u64, words: Seq<u64>)
    requires
        valid_bits(bits),
        forall|k: int| 0 <= k < s.len() ==> s[k] < pow2(bits as nat),
        is_packing(s, bits, words),
    ensures
        forall|i: int| 0 <= i < s.len() ==> packed_entry(words, bits, i) == s[i],
{
    let per = spec_per_word(bits);
    let p = pow2(bits as nat);
    lemma2_to64();
    assert forall|i: int| 0 <= i < s.len() implies packed_entry(words, bits, i) == s[i] by {
        let w = i / per;
        let k = i % per;
        lemma_fundamental_div_mod(i, per);
        vstd::arithmetic::div_mod::lemma_mod_division_less_than_divisor(i, per);
        assert(0 <= w) by (nonlinear_arith)
            requires
                per * w + k == i,
                0 <= i,
                0 <= k < per,
                per > 0,
        ;
        assert(w * per == per * w && per * (w + 1) == per * w + per && (w + 1) * per == per * (w
            + 1)) by (nonlinear_arith);
        assert(per * (w + 1) <= s.len() + per - 1);
        assert(w < words.len()) by {
            vstd::arithmetic::div_mod::lemma_div_is_ordered(
                per * (w + 1),
                s.len() + per - 1,
                per,
            );
            vstd::arithmetic::div_mod::lemma_div_by_multiple(w + 1, per);
            assert((w + 1) * per / per == w + 1);
            assert(words.len() == (s.len() + per - 1) / per);
        }
        let digits = word_digits(s, w, per);
        assert(0 <= k < digits.len());
        assert(digits[k] == s[w * per + k]);
        assert(w * per + k == i);
        assert(forall|n: int| 0 <= n < digits.len() ==> digits[n] < p);
        lemma_word_val_digit(digits, p, k);

        assert(words[w] == word_val(digits, p));
        assert(pow(p as int, k as nat) == pow2((bits * (k as u64)) as nat)) by {
            lemma_pow2_is_pow_of_pow2(bits, k as nat);
        }
    }
}

/// `(2^bits)^k == 2^(bits*k)`.
proof fn lemma_pow2_is_pow_of_pow2(bits: u64, k: nat)
    ensures
        pow(pow2(bits as nat) as int, k) == pow2((bits as nat * k) as nat),
    decreases k,
{
    reveal(pow);
    if k == 0 {
        assert(pow(pow2(bits as nat) as int, 0) == 1);
        assert(pow2(0) == 1) by {
            lemma_pow2(0);
            assert(pow(2, 0) == 1);
        }
    } else {
        lemma_pow2_is_pow_of_pow2(bits, (k - 1) as nat);
        lemma_pow2_adds(bits as nat, (bits as nat * (k - 1) as nat) as nat);
        assert(bits as nat * k == bits as nat + bits as nat * (k - 1) as nat) by (
        nonlinear_arith)
            requires
                k >= 1,
        ;
    }
}

/// Packs each entry of `indices` into `64 / bits` wide slots of 64-bit
/// words, low entry in the low bits of its word, never splitting an entry
/// across words. The words are exactly the base-2^bits values of the
/// entry groups.
pub fn pack_block_states(indices: &Vec<u8>, bits: u64) -> (words: Vec<u64>)
    requires
        valid_bits(bits),
        forall|i: int| 0 <= i < indices@.len() ==> (#[trigger] indices@[i]) < pow2(bits as nat),
        indices@.len() + 64 <= usize::MAX,
    ensures
        is_packing(indices@, bits, words@),
{
    let ghost p = pow2(bits as nat);
    let per: usize = (64 / bits) as usize;
    let mut words: Vec<u64> = Vec::new();
    let mut base: usize = 0;
    proof {
        assert(words@.len() * per == 0) by (nonlinear_arith)
            requires
                words@.len() == 0,
        ;
    }
    while base < indices.len()
        invariant
            valid_bits(bits),
            per == spec_per_word(bits),
            1 <= per <= 64,
            p == pow2(bits as nat),
            forall|i: int|
                0 <= i < indices@.len() ==> (#[trigger] indices@[i]) < pow2(bits as nat),
            indices@.len() + 64 <= usize::MAX,
            base == words@.len() * per,
            base < indices@.len() + per,
            forall|w: int|
                0 <= w < words@.len() ==> words@[w] == word_val(
                    word_digits(indices@, w, per as int),
                    p,
                ),
        decreases indices@.len() + per - base,
    {
        let cnt: usize = if indices.len() - base < per {
            indices.len() - base
        } else {
            per
        };
        let mut acc: u64 = 0;
        let mut k: usize = 0;
        proof {
            reveal(pow);
            assert(indices@.subrange(base as int, base as int) =~= Seq::<u8>::empty());
            assert(pow(p as int, 0) == 1);
        }
        while k < cnt
            invariant
                valid_bits(bits),
                per == spec_per_word(bits),
                p == pow2(bits as nat),
                forall|i: int|
                    0 <= i < indices@.len() ==> (#[trigger] indices@[i]) < pow2(bits as nat),
                0 <= k <= cnt,
                cnt <= per,
                base + cnt <= indices@.len(),
                base + cnt <= usize::MAX,
                acc == word_val(indices@.subrange(base as int, base as int + k), p),
                0 <= acc < pow(p as int, k as nat),
            decreases cnt - k,
        {
            let shift: u64 = bits * (k as u64);
            let v: u64 = indices[base + k] as u64;
            proof {
                lemma2_to64();
                let sh = (bits * (k as u64)) as nat;
                assert(bits * (k as u64) < 64 && (k as int) * (bits as int) + bits <= 64) by (
                nonlinear_arith)
                    requires
                        valid_bits(bits),
                        0 <= (k as int) < 64int / (bits as int),
                ;
                lemma_pow2_is_pow_of_pow2(bits, k as nat);
                lemma_pow2_is_pow_of_pow2(bits, (k + 1) as nat);
                assert(sh == bits as nat * (k as nat));
                assert(bits as nat * ((k + 1) as nat) == sh + bits as nat) by (nonlinear_arith)
                    requires
                        sh == bits as nat * (k as nat),
                ;
                lemma_pow2_adds(sh, bits as nat);
                let pk = pow(p as int, k as nat);
                let pk1 = pow(p as int, (k + 1) as nat);
                assert(pk == pow2(sh));
                assert(pk1 == pow2((sh + bits as nat) as nat));
                assert(pk1 == pow2(sh) * p);
                let sb: nat = sh + bits as nat;
                assert(pow2(sb) <= pow2(64)) by {
                    if sb < 64 {
                        lemma_pow2_strictly_increases(sb, 64);
                    }
                }
                lemma_pow2_pos(sh);
                assert(v * pow2(sh) <= u64::MAX) by (nonlinear_arith)
                    requires
                        v < p,
                        pow2(sh) > 0,
                        pow2(sh) * p == pow2((sh + bits as nat) as nat),
                        pow2((sh + bits as nat) as nat) <= pow2(64),
                        pow2(64) == 0x10000000000000000,
                ;
                lemma_u64_shl_is_mul(v, shift);
                let pre = indices@.subrange(base as int, base as int + k);
                assert(indices@.subrange(base as int, base as int + k + 1) =~= pre.push(
                    indices@[base as int + k],
                ));
                lemma_word_val_push(pre, indices@[base as int + k], p);
                assert(pre.len() == k);
                assert(acc + v * pow2(sh) < pk1) by (nonlinear_arith)
                    requires
                        0 <= acc < pow2(sh),
                        0 <= v < p,
                        pow2(sh) > 0,
                        pk1 == pow2(sh) * p,
                ;
            }
            acc = acc + (v << shift);
            k = k + 1;
        }
        proof {
            assert((words@.len() as int + 1) * (per as int) == base + per) by (nonlinear_arith)
                requires
                    base == words@.len() * (per as int),
            ;
            assert(indices@.subrange(base as int, base as int + cnt) =~= word_digits(
                indices@,
                words@.len() as int,
                per as int,
            ));
        }
        words.push(acc);
        base = base + per;
        proof {
            assert(base == words@.len() * per) by (nonlinear_arith)
                requires
                    base == (words@.len() - 1) * per + per,
            ;
        }
    }
    proof {
        let len = indices@.len() as int;
        let n = words@.len() as int;
        let pi = per as int;
        assert(n * pi >= len);
        assert(n == (len + pi - 1) / pi) by {
            if n == 0 {
                assert(len == 0);
                assert((pi - 1) / pi == 0) by {
                    vstd::arithmetic::div_mod::lemma_basic_div(pi - 1, pi);
                }
            } else {
                assert((n - 1) * pi < len) by (nonlinear_arith)
                    requires
                        n * pi < len + pi,
                        pi > 0,
                        n >= 1,
                ;
                let r = len + pi - 1 - pi * n;
                assert(0 <= r < pi) by (nonlinear_arith)
                    requires
                        n * pi >= len,
                        (n - 1) * pi < len,
                        pi > 0,
                        r == len + pi - 1 - pi * n,
                ;
                assert(len + pi - 1 == pi * n + r);
                lemma_div_multiples_vanish_fancy(n, r, pi);
            }
        }
    }
    words
}

/// Reads `count` entries back out of packed `words`: entry `i` is the
/// base-2^bits digit of word `i / per` at position `i % per`.
pub fn unpack_block_states(words: &Vec<u64>, bits: u64, count: usize) -> (out: Vec<u8>)
    requires
        valid_bits(bits),
        count <= words@.len() * spec_per_word(bits),
    ensures
        out@.len() == count,
        forall|i: int| 0 <= i < count ==> (#[trigger] out@[i]) == packed_entry(words@, bits, i),
{
    let per: usize = (64 / bits) as usize;
    proof {
        lemma2_to64();
        lemma_u64_shl_is_mul(1u64, bits);
        assert(1u64 << bits == pow2(bits as nat));
    }
    let mask: u64 = (1u64 << bits) - 1;
    proof {
        assert(mask == low_bits_mask(bits as nat)) by {
            assert(low_bits_mask(bits as nat) == (pow2(bits as nat) - 1) as nat);
        }
    }
    let mut out: Vec<u8> = Vec::new();
    let mut i: usize = 0;
    while i < count
        invariant
            valid_bits(bits),
            per == spec_per_word(bits),
            mask == low_bits_mask(bits as nat),
            count <= words@.len() * spec_per_word(bits),
            0 <= i <= count,
            out@.len() == i,
            forall|n: int|
                0 <= n < i ==> (#[trigger] out@[n]) == packed_entry(words@, bits, n),
        decreases count - i,
    {
        let w: usize = i / per;
        let k: usize = i % per;
        proof {
            lemma_fundamental_div_mod(i as int, per as int);
            assert(w < words@.len()) by (nonlinear_arith)
                requires
                    per as int * (w as int) + (k as int) == i as int,
                    0 <= k < per,
                    (i as int) < words@.len() * (per as int),
                    per > 0,
            ;
        }
        let shift: u64 = bits * (k as u64);
        proof {
            assert(shift < 64) by (nonlinear_arith)
                requires
                    valid_bits(bits),
                    shift == bits * k as u64,
                    k < spec_per_word(bits),
            ;
            lemma2_to64();
            lemma_u64_shr_is_div(words@[w as int], shift);
            lemma_u64_low_bits_mask_is_mod((words@[w as int] >> shift), bits as nat);
            lemma_pow2_pos(shift as nat);
            lemma_pow2_pos(bits as nat);
            assert(((words@[w as int] >> shift) & mask) < pow2(bits as nat)) by {
                vstd::arithmetic::div_mod::lemma_mod_division_less_than_divisor(
                    (words@[w as int] >> shift) as int,
                    pow2(bits as nat) as int,
                );
            }
        }
        let val: u64 = (words[w] >> shift) & mask;
        proof {
            lemma2_to64();
            assert(val < 256);
            assert(val as u8 as int == packed_entry(words@, bits, i as int));
        }
        out.push(val as u8);
        i = i + 1;
    }
    out
}

} // verus!
