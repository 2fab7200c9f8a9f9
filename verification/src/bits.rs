//! Mathematical model of bit strings and of the Exponential-Golomb codes.
//!
//! A byte stream is modelled as a `Seq<bool>` of its bits, most significant
//! bit first. The spec functions here define that correspondence, the
//! fixed-width binary code, and the unsigned/signed Exponential-Golomb
//! codes together with their decoders; the proof functions establish the
//! round-trip laws the executable reader and writer are specified against.
use vstd::prelude::*;
use vstd::arithmetic::power2::*;
use vstd::arithmetic::div_mod::*;

verus! {

/// The `width`-bit binary encoding of `v % pow2(width)`, most significant
/// bit first.
pub open spec fn bin_bits(width: nat, v: nat) -> Seq<bool>
    decreases width,
{
    if width == 0 {
        Seq::empty()
    } else {
        bin_bits((width - 1) as nat, v / 2).push(v % 2 == 1)
    }
}

/// The value of a bit string read as a binary number, most significant
/// bit first.
pub open spec fn bin_val(bits: Seq<bool>) -> nat
    decreases bits.len(),
{
    if bits.len() == 0 {
        0
    } else {
        2 * bin_val(bits.take(bits.len() - 1)) + (if bits.last() { 1nat } else { 0nat })
    }
}

/// The eight bits of one byte, most significant first.
pub open spec fn byte_to_bits(b: u8) -> Seq<bool> {
    bin_bits(8, b as nat)
}

/// The bit string carried by a byte sequence.
pub open spec fn bits_of_bytes(s: Seq<u8>) -> Seq<bool>
    decreases s.len(),
{
    if s.len() == 0 {
        Seq::empty()
    } else {
        byte_to_bits(s[0]) + bits_of_bytes(s.skip(1))
    }
}

/// The byte sequence whose bits are `bits`; meaningful when `bits` is a
/// whole number of bytes long.
pub open spec fn bytes_of_bits(bits: Seq<bool>) -> Seq<u8>
    decreases bits.len(),
{
    if bits.len() < 8 {
        Seq::empty()
    } else {
        seq![bin_val(bits.take(8)) as u8] + bytes_of_bits(bits.skip(8))
    }
}

/// `n` zero bits.
pub open spec fn falses(n: nat) -> Seq<bool> {
    Seq::new(n, |i: int| false)
}

/// `bits` padded with zero bits up to the next byte boundary.
pub open spec fn pad_to_byte(bits: Seq<bool>) -> Seq<bool> {
    bits + falses(((8 - bits.len() % 8) % 8) as nat)
}

/// The two-byte big-endian encoding of `n < 65536`.
pub open spec fn be16(n: nat) -> Seq<u8> {
    seq![(n / 0x100) as u8, (n % 0x100) as u8]
}

/// The four-byte big-endian encoding of `n < 2^32`.
pub open spec fn be32(n: nat) -> Seq<u8> {
    seq![
        (n / 0x100_0000) as u8,
        (n / 0x1_0000 % 0x100) as u8,
        (n / 0x100 % 0x100) as u8,
        (n % 0x100) as u8,
    ]
}

/// The prefix length `k` of the unsigned Exponential-Golomb code of `n`:
/// the least `k` with `n <= pow2(k + 1) - 2`.
pub open spec fn ue_klen(n: nat) -> nat
    decreases n,
{
    if n == 0 {
        0
    } else {
        1 + ue_klen(((n - 1) / 2) as nat)
    }
}

/// The unsigned Exponential-Golomb code of `n`: `ue_klen(n)` zero bits,
/// a one bit, then `n - (pow2(k) - 1)` in `k` bits.
pub open spec fn ue_bits(n: nat) -> Seq<bool> {
    let k = ue_klen(n);
    falses(k) + seq![true] + bin_bits(k, (n - (pow2(k) - 1)) as nat)
}

/// How many `false` bits `bits` starts with.
pub open spec fn leading_false_count(bits: Seq<bool>) -> nat
    decreases bits.len(),
{
    if bits.len() == 0 {
        0
    } else if bits[0] {
        0
    } else {
        1 + leading_false_count(bits.skip(1))
    }
}

/// Decoding one unsigned Exponential-Golomb code from the front of `bits`:
/// the decoded value and the bits left over, or `None` when the code is
/// truncated or its value would not fit in 64 bits.
pub open spec fn ue_decode(bits: Seq<bool>) -> Option<(nat, Seq<bool>)> {
    let k = leading_false_count(bits);
    if k <= 63 && bits.len() >= 2 * k + 1 {
        Some(
            (
                (bin_val(bits.subrange(k + 1 as int, 2 * k + 1 as int)) + pow2(k) - 1) as nat,
                bits.skip(2 * k + 1 as int),
            ),
        )
    } else {
        None
    }
}

/// The signed-to-unsigned mapping of the signed Exponential-Golomb code:
/// positive `v` maps to `2v - 1`, non-positive `v` to `-2v`.
pub open spec fn se_code(v: int) -> nat {
    if v > 0 {
        (2 * v - 1) as nat
    } else {
        (-2 * v) as nat
    }
}

/// The inverse of `se_code`: odd codes are positive, even codes
/// non-positive.
pub open spec fn se_val(code: nat) -> int {
    if code % 2 == 1 {
        ((code + 1) / 2) as int
    } else {
        -((code / 2) as int)
    }
}

/// Taking one bit off the front of `bits`.
pub open spec fn bit_decode(bits: Seq<bool>) -> Option<(bool, Seq<bool>)> {
    if bits.len() == 0 {
        None
    } else {
        Some((bits[0], bits.skip(1)))
    }
}

/// Decoding one signed Exponential-Golomb code from the front of `bits`.
pub open spec fn se_decode(bits: Seq<bool>) -> Option<(int, Seq<bool>)> {
    match ue_decode(bits) {
        Some((code, rest)) => Some((se_val(code), rest)),
        None => None,
    }
}

/// `bin_bits` always yields exactly `width` bits.
pub proof fn lemma_bin_bits_len(width: nat, v: nat)
    ensures
        bin_bits(width, v).len() == width,
    decreases width,
{
    if width > 0 {
        lemma_bin_bits_len((width - 1) as nat, v / 2);
    }
}

/// Reading back a `width`-bit binary code yields the encoded value.
pub proof fn lemma_bin_val_of_bin_bits(width: nat, v: nat)
    requires
        v < pow2(width),
    ensures
        bin_val(bin_bits(width, v)) == v,
    decreases width,
{
    if width == 0 {
        lemma2_to64();
    } else {
        lemma_pow2_unfold(width);
        lemma_bin_bits_len((width - 1) as nat, v / 2);
        assert(v / 2 < pow2((width - 1) as nat));
        lemma_bin_val_of_bin_bits((width - 1) as nat, v / 2);
        let s = bin_bits((width - 1) as nat, v / 2);
        let w = s.push(v % 2 == 1);
        assert(w.take(w.len() - 1) =~= s);
        assert(w.last() == (v % 2 == 1));
        assert(v == 2 * (v / 2) + v % 2) by {
            lemma_fundamental_div_mod(v as int, 2);
        }
    }
}

/// The bit at position `i` of a binary code is the corresponding binary
/// digit of the encoded value.
pub proof fn lemma_bin_bits_index(width: nat, v: nat, i: int)
    requires
        0 <= i < width,
    ensures
        bin_bits(width, v)[i] == ((v / pow2((width - 1 - i) as nat)) % 2 == 1),
    decreases width,
{
    lemma_bin_bits_len((width - 1) as nat, v / 2);
    if i == width - 1 {
        assert(pow2(0) == 1) by {
            lemma2_to64();
        }
        assert((width - 1 - i) as nat == 0);
        assert(v / pow2((width - 1 - i) as nat) == v);
        assert(bin_bits(width, v)[i] == (v % 2 == 1));
    } else {
        lemma_bin_bits_index((width - 1) as nat, v / 2, i);
        let e = (width - 2 - i) as nat;
        assert(bin_bits((width - 1) as nat, v / 2)[i] == ((v / 2 / pow2(e)) % 2 == 1));
        lemma_pow2_unfold((e + 1) as nat);
        assert(pow2((e + 1) as nat) == 2 * pow2(e));
        lemma_pow2_pos(e);
        lemma_div_denominator(v as int, 2, pow2(e) as int);
        assert(v / 2 / pow2(e) == v / pow2((e + 1) as nat));
        assert((width - 1 - i) as nat == (e + 1) as nat);
        assert(bin_bits(width, v)[i] == bin_bits((width - 1) as nat, v / 2)[i]);
    }
}

/// Appending a byte appends its eight bits.
pub proof fn lemma_bits_of_bytes_push(s: Seq<u8>, b: u8)
    ensures
        bits_of_bytes(s.push(b)) == bits_of_bytes(s) + byte_to_bits(b),
    decreases s.len(),
{
    if s.len() == 0 {
        assert(s.push(b)[0] == b);
        assert(s.push(b).skip(1) =~= Seq::<u8>::empty());
        assert(bits_of_bytes(Seq::<u8>::empty()) =~= Seq::<bool>::empty());
        assert(bits_of_bytes(s.push(b)) =~= byte_to_bits(b));
        assert(bits_of_bytes(s) + byte_to_bits(b) =~= byte_to_bits(b));
    } else {
        assert(s.push(b).skip(1) =~= s.skip(1).push(b));
        lemma_bits_of_bytes_push(s.skip(1), b);
        assert(bits_of_bytes(s.push(b)) =~= bits_of_bytes(s) + byte_to_bits(b));
    }
}

/// A byte sequence carries eight bits per byte.
pub proof fn lemma_bits_of_bytes_len(s: Seq<u8>)
    ensures
        bits_of_bytes(s).len() == 8 * s.len(),
    decreases s.len(),
{
    if s.len() == 0 {
    } else {
        lemma_bits_of_bytes_len(s.skip(1));
        lemma_bin_bits_len(8, s[0] as nat);
    }
}

/// Unfolding the bit string of a byte sequence at byte `i`.
pub proof fn lemma_bits_of_bytes_skip_unfold(s: Seq<u8>, i: int)
    requires
        0 <= i < s.len(),
    ensures
        bits_of_bytes(s.skip(i)) == byte_to_bits(s[i]) + bits_of_bytes(s.skip(i + 1)),
{
    assert(s.skip(i).len() > 0);
    assert(s.skip(i)[0] == s[i]);
    assert(s.skip(i).skip(1) =~= s.skip(i + 1));
}

/// The binary code of zero is all zero bits.
pub proof fn lemma_bin_bits_zero(width: nat)
    ensures
        bin_bits(width, 0) == falses(width),
    decreases width,
{
    lemma_bin_bits_len(width, 0);
    if width == 0 {
        assert(bin_bits(width, 0) =~= falses(width));
    } else {
        lemma_bin_bits_zero((width - 1) as nat);
        assert(bin_bits(width, 0) =~= falses(width));
    }
}

/// Truncating to `n` bits and then splitting off the lowest bit commutes
/// with halving.
pub proof fn lemma_mod_pow2_split(v: nat, n: nat)
    requires
        n >= 1,
    ensures
        (v % pow2(n)) / 2 == (v / 2) % pow2((n - 1) as nat),
        (v % pow2(n)) % 2 == v % 2,
{
    let p = pow2((n - 1) as nat);
    lemma_pow2_pos((n - 1) as nat);
    lemma_pow2_unfold(n);
    assert(pow2(n) == 2 * p);
    lemma_breakdown(v as int, 2, p as int);
    assert(v as int % (2 * p as int) == 2 * ((v as int / 2) % p as int) + v as int % 2);
    let q = (v as int / 2) % p as int;
    let r = v as int % 2;
    lemma_fundamental_div_mod_converse(2 * q + r, 2, q, r);
}

/// Multiplying by `pow2(m)` appends `m` zero bits to the binary code.
pub proof fn lemma_bin_bits_mul_pow2(w: nat, m: nat, x: nat)
    requires
        m <= w,
    ensures
        bin_bits(w, x * pow2(m)) == bin_bits((w - m) as nat, x) + falses(m),
    decreases m,
{
    if m == 0 {
        lemma2_to64();
        assert(x * pow2(0) == x);
        assert(bin_bits(w, x) + falses(0) =~= bin_bits(w, x));
    } else {
        let p = pow2((m - 1) as nat);
        lemma_pow2_pos((m - 1) as nat);
        lemma_pow2_unfold(m);
        assert(x * pow2(m) == 2 * (x * p)) by (nonlinear_arith)
            requires
                pow2(m) == 2 * p,
        ;
        let y = x * pow2(m);
        lemma_fundamental_div_mod_converse(y as int, 2, (x * p) as int, 0);
        assert(y / 2 == x * p);
        assert(y % 2 == 0);
        lemma_bin_bits_mul_pow2((w - 1) as nat, (m - 1) as nat, x);
        assert(bin_bits(w, y) == bin_bits((w - 1) as nat, x * p).push(false));
        assert((bin_bits((w - m) as nat, x) + falses((m - 1) as nat)).push(false) =~= bin_bits(
            (w - m) as nat,
            x,
        ) + falses(m));
    }
}

/// Reading bytes back out of a byte sequence's bit string.
pub proof fn lemma_bytes_of_bits_of_bytes(s: Seq<u8>)
    ensures
        bytes_of_bits(bits_of_bytes(s)) == s,
    decreases s.len(),
{
    lemma_bits_of_bytes_len(s);
    if s.len() == 0 {
        assert(bytes_of_bits(bits_of_bytes(s)) =~= s);
    } else {
        let bits = bits_of_bytes(s);
        lemma_bits_of_bytes_len(s.skip(1));
        lemma_bin_bits_len(8, s[0] as nat);
        assert(bits.take(8) =~= byte_to_bits(s[0]));
        assert(bits.skip(8) =~= bits_of_bytes(s.skip(1)));
        lemma2_to64();
        lemma_bin_val_of_bin_bits(8, s[0] as nat);
        lemma_bytes_of_bits_of_bytes(s.skip(1));
        assert(bytes_of_bits(bits) =~= s);
    }
}

/// The bounds that pin down the Exponential-Golomb prefix length.
pub proof fn lemma_ue_klen_bounds(n: nat)
    ensures
        pow2(ue_klen(n)) - 1 <= n < pow2(ue_klen(n) + 1) - 1,
    decreases n,
{
    lemma2_to64();
    if n > 0 {
        let m = ((n - 1) / 2) as nat;
        let k1 = ue_klen(m);
        lemma_ue_klen_bounds(m);
        lemma_fundamental_div_mod(n - 1, 2);
        lemma_pow2_unfold(k1 + 1);
        lemma_pow2_unfold(k1 + 2);
    }
}

/// Any `k` meeting the bounds is the prefix length.
pub proof fn lemma_ue_klen_is_unique(n: nat, k: nat)
    requires
        pow2(k) - 1 <= n,
        n < pow2(k + 1) - 1,
    ensures
        ue_klen(n) == k,
{
    let kl = ue_klen(n);
    lemma_ue_klen_bounds(n);
    if kl < k {
        if kl + 1 < k {
            lemma_pow2_strictly_increases(kl + 1, k);
        }
        assert(false);
    } else if kl > k {
        if k + 1 < kl {
            lemma_pow2_strictly_increases(k + 1, kl);
        }
        assert(false);
    }
}

/// Values below `pow2(k + 1) - 1` need prefixes no longer than `k`.
pub proof fn lemma_ue_klen_le(n: nat, k: nat)
    requires
        n < pow2(k + 1) - 1,
    ensures
        ue_klen(n) <= k,
{
    let kl = ue_klen(n);
    lemma_ue_klen_bounds(n);
    if kl > k {
        if k + 1 < kl {
            lemma_pow2_strictly_increases(k + 1, kl);
        }
        assert(false);
    }
}

/// A bit string that is `false` up to a `true` at index `k` has leading
/// count `k`.
pub proof fn lemma_leading_false_count_from_index(s: Seq<bool>, k: int)
    requires
        0 <= k < s.len(),
        forall|j: int| 0 <= j < k ==> !s[j],
        s[k],
    ensures
        leading_false_count(s) == k,
    decreases k,
{
    if k == 0 {
    } else {
        assert(!s[0]);
        let t = s.skip(1);
        assert(forall|j: int| 0 <= j < k - 1 ==> !t[j]);
        assert(t[k - 1]);
        lemma_leading_false_count_from_index(t, k - 1);
    }
}

/// A bit string that is `false` on all of its first `k` positions has a
/// leading count of at least `k`.
pub proof fn lemma_leading_false_count_at_least(s: Seq<bool>, k: int)
    requires
        0 <= k <= s.len(),
        forall|j: int| 0 <= j < k ==> !s[j],
    ensures
        leading_false_count(s) >= k,
    decreases k,
{
    if k > 0 {
        assert(!s[0]);
        let t = s.skip(1);
        assert(forall|j: int| 0 <= j < k - 1 ==> !t[j]);
        lemma_leading_false_count_at_least(t, k - 1);
    }
}

/// A bit string with no `true` bit has leading count equal to its length.
pub proof fn lemma_leading_false_count_all(s: Seq<bool>)
    requires
        forall|j: int| 0 <= j < s.len() ==> !s[j],
    ensures
        leading_false_count(s) == s.len(),
    decreases s.len(),
{
    if s.len() > 0 {
        let t = s.skip(1);
        assert(forall|j: int| 0 <= j < t.len() ==> !t[j]);
        lemma_leading_false_count_all(t);
    }
}

/// Decoding the code of `n` yields `n` and leaves the trailing bits:
/// the unsigned Exponential-Golomb round trip.
pub proof fn lemma_ue_round_trip(n: nat, rest: Seq<bool>)
    requires
        n < pow2(64) - 1,
    ensures
        ue_decode(ue_bits(n) + rest) == Some((n, rest)),
{
    let k = ue_klen(n);
    lemma_ue_klen_bounds(n);
    lemma_ue_klen_le(n, 63);
    lemma_pow2_unfold(k + 1);
    let r = (n - (pow2(k) - 1)) as nat;
    assert(r < pow2(k));
    lemma_bin_bits_len(k, r);
    let enc = ue_bits(n);
    let full = enc + rest;
    assert(enc.len() == 2 * k + 1);
    assert(full[k as int]);
    assert(forall|j: int| 0 <= j < k ==> !full[j]);
    lemma_leading_false_count_from_index(full, k as int);
    assert(leading_false_count(full) == k);
    assert(full.len() >= 2 * k + 1);
    assert(full.subrange(k + 1 as int, 2 * k + 1 as int) =~= bin_bits(k, r));
    lemma_bin_val_of_bin_bits(k, r);
    assert(full.skip(2 * k + 1 as int) =~= rest);
}

/// The signed mapping is its own inverse.
pub proof fn lemma_se_val_of_se_code(v: int)
    ensures
        se_val(se_code(v)) == v,
{
    if v > 0 {
        let c = (2 * v - 1) as nat;
        assert(c % 2 == 1);
        assert((c + 1) / 2 == v);
    } else {
        let c = (-2 * v) as nat;
        assert(c % 2 == 0);
        assert(c / 2 == -v);
    }
}

/// Decoding the signed code of `v` yields `v` and leaves the trailing
/// bits: the signed Exponential-Golomb round trip.
pub proof fn lemma_se_round_trip(v: int, rest: Seq<bool>)
    requires
        -(pow2(63) as int) < v < pow2(63) as int,
    ensures
        se_decode(ue_bits(se_code(v)) + rest) == Some((v, rest)),
{
    lemma2_to64();
    assert(pow2(64) == 2 * pow2(63)) by {
        lemma_pow2_unfold(64);
    }
    lemma_ue_round_trip(se_code(v), rest);
    lemma_se_val_of_se_code(v);
}

} // verus!

