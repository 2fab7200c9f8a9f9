//! Bit-granular reading and writing over in-memory byte buffers.
//!
//! `AvcBitReader` consumes a byte buffer bit by bit, most significant bit
//! first, and decodes the Exponential-Golomb integer codes; `AvcBitWriter`
//! produces a byte buffer the same way. Both are specified against the bit
//! string model of `crate::bits`: a reader is described by the bits it has
//! left, a writer by the bits it has emitted so far.
use vstd::prelude::*;
use vstd::arithmetic::power2::*;
use vstd::arithmetic::div_mod::*;
use crate::bits::{
    bin_bits, bin_val, bits_of_bytes, byte_to_bits, falses, leading_false_count,
    lemma_bin_bits_index, lemma_bin_bits_len, lemma_bin_bits_mul_pow2, lemma_bin_bits_zero,
    lemma_bits_of_bytes_len, lemma_bits_of_bytes_push, lemma_bits_of_bytes_skip_unfold,
    lemma_leading_false_count_all, lemma_leading_false_count_at_least,
    lemma_leading_false_count_from_index, lemma_mod_pow2_split, lemma_ue_klen_is_unique,
    pad_to_byte, se_code, se_decode, se_val, ue_bits, ue_decode,
};
use crate::Error;

verus! {

/// `pow2(k)` for a bit index inside one byte.
fn pow2_u8(k: usize) -> (r: u8)
    requires
        k < 8,
    ensures
        r as nat == pow2(k as nat),
        r >= 1,
{
    proof {
        lemma2_to64();
    }
    match k {
        0 => 1,
        1 => 2,
        2 => 4,
        3 => 8,
        4 => 16,
        5 => 32,
        6 => 64,
        _ => 128,
    }
}

/// `pow2(k)` within a 64-bit word.
fn pow2_u64(k: u64) -> (r: u64)
    requires
        k <= 63,
    ensures
        r as nat == pow2(k as nat),
{
    proof {
        lemma2_to64();
    }
    let mut i: u64 = 0;
    let mut r: u64 = 1;
    while i < k
        invariant
            i <= k,
            k <= 63,
            r as nat == pow2(i as nat),
        decreases k - i,
    {
        proof {
            lemma_pow2_unfold((i + 1) as nat);
            if i + 1 < 64 {
                lemma_pow2_strictly_increases((i + 1) as nat, 64);
            }
            lemma2_to64();
            lemma2_to64_rest();
        }
        r = r * 2;
        i = i + 1;
    }
    r
}

/// A writer of individual bits into a byte buffer, most significant bit
/// first. Bits accumulate in a pending byte that is appended to `sink`
/// each time it fills; `flush` zero-pads and appends a final partial byte.
pub struct AvcBitWriter {
    /// The bytes emitted so far.
    pub sink: Vec<u8>,
    /// The pending, partially filled output byte; its written bits occupy
    /// the high end, the unwritten low bits are zero.
    pub byte: u8,
    /// How many bits of `byte` are filled (0 to 7).
    pub bit_position: usize,
}

impl AvcBitWriter {
    /// The writer's cursor state is consistent: the unwritten low bits of
    /// the pending byte are zero.
    pub open spec fn wf(self) -> bool {
        &&& self.bit_position < 8
        &&& (self.byte as nat) % pow2((8 - self.bit_position) as nat) == 0
    }

    /// The value carried by the written bits of the pending byte.
    pub open spec fn partial_val(self) -> nat {
        (self.byte as nat) / pow2((8 - self.bit_position) as nat)
    }

    /// Every bit written so far: the bits of the emitted bytes followed by
    /// the pending bits.
    pub open spec fn bits(self) -> Seq<bool> {
        bits_of_bytes(self.sink@) + bin_bits(self.bit_position as nat, self.partial_val())
    }

    /// A writer that appends to `sink`, with no pending bits.
    pub fn new(sink: Vec<u8>) -> (r: Self)
        ensures
            r.wf(),
            r.sink@ == sink@,
            r.bit_position == 0,
            r.bits() == bits_of_bytes(sink@),
    {
        let r = AvcBitWriter { sink, byte: 0, bit_position: 0 };
        proof {
            lemma2_to64();
            assert(r.bits() =~= bits_of_bytes(r.sink@));
        }
        r
    }

    /// Gives back the byte buffer built so far, dropping any pending bits
    /// that were never flushed.
    pub fn into_vec(self) -> (r: Vec<u8>)
        ensures
            r@ == self.sink@,
    {
        self.sink
    }

    /// Appends one bit (`value` must be 0 or 1), most significant bit of
    /// the current byte first.
    pub fn write_bit(&mut self, value: u8)
        requires
            old(self).wf(),
            value <= 1,
        ensures
            final(self).wf(),
            final(self).bits() == old(self).bits().push(value == 1),
    {
        let ghost pre = *self;
        let ghost pos = pre.bit_position as nat;
        let ghost v = pre.partial_val();
        let ghost bitv: nat = if value == 1 { 1 } else { 0 };
        let b = if value == 1 {
            pow2_u8(7 - self.bit_position)
        } else {
            0
        };
        proof {
            let p = pow2((8 - pos) as nat);
            let q = pow2((7 - pos) as nat);
            lemma_pow2_pos((7 - pos) as nat);
            lemma_pow2_unfold((8 - pos) as nat);
            assert(p == 2 * q);
            lemma_fundamental_div_mod(pre.byte as int, p as int);
            assert(pre.byte as nat == v * p) by (nonlinear_arith)
                requires
                    pre.byte as int == p * v + (pre.byte as nat) % p,
                    (pre.byte as nat) % p == 0,
            ;
            lemma_pow2_adds(pos, (8 - pos) as nat);
            lemma2_to64();
            assert(pre.byte < pow2(8));
            assert(v < pow2(pos)) by (nonlinear_arith)
                requires
                    pre.byte as nat == v * p,
                    (pre.byte as nat) < pow2(pos) * p,
                    p > 0,
            ;
            assert(pre.byte + b == (2 * v + bitv) * q) by (nonlinear_arith)
                requires
                    pre.byte as nat == v * p,
                    p == 2 * q,
                    b as nat == bitv * q,
            ;
            lemma_pow2_adds((pos + 1) as nat, (7 - pos) as nat);
            lemma_pow2_unfold((pos + 1) as nat);
            assert((2 * v + bitv) * q < pow2(pos + 1) * q) by (nonlinear_arith)
                requires
                    2 * v + bitv < pow2(pos + 1),
                    q > 0,
            ;
            assert(pre.byte + b < pow2(8));
        }
        self.byte = self.byte + b;
        self.bit_position = self.bit_position + 1;
        proof {
            let q = pow2((7 - pos) as nat);
            let v2 = 2 * v + bitv;
            lemma_pow2_pos((7 - pos) as nat);
            lemma_mod_multiples_basic(v2 as int, q as int);
            lemma_div_multiples_vanish(v2 as int, q as int);
            assert((self.byte as nat) % q == 0) by (nonlinear_arith)
                requires
                    self.byte as nat == v2 * q,
                    (v2 * q) as int % q as int == 0,
            ;
            assert((self.byte as nat) / q == v2) by (nonlinear_arith)
                requires
                    self.byte as nat == v2 * q,
                    (q as int * v2 as int) / q as int == v2 as int,
                    q > 0,
            ;
            lemma_fundamental_div_mod_converse(v2 as int, 2, v as int, bitv as int);
            assert(v2 / 2 == v);
            assert(v2 % 2 == bitv);
            assert(bin_bits((pos + 1) as nat, v2) == bin_bits(pos, v).push(value == 1));
        }
        if self.bit_position == 8 {
            let full = self.byte;
            self.sink.push(full);
            self.byte = 0;
            self.bit_position = 0;
            proof {
                lemma_bits_of_bytes_push(pre.sink@, full);
                lemma2_to64();
                assert(byte_to_bits(full) == bin_bits(8, 2 * v + bitv));
                assert(self.bits() =~= pre.bits().push(value == 1));
            }
        } else {
            proof {
                assert(self.bits() =~= pre.bits().push(value == 1));
            }
        }
    }

    /// Appends one bit given as a boolean.
    pub fn write_bool(&mut self, value: bool)
        requires
            old(self).wf(),
        ensures
            final(self).wf(),
            final(self).bits() == old(self).bits().push(value),
    {
        self.write_bit(if value {
            1
        } else {
            0
        });
    }

    /// Appends one aligned byte, silently discarding any pending bits of a
    /// partially written byte; callers must track alignment themselves.
    pub fn write_byte(&mut self, value: u8)
        requires
            old(self).wf(),
        ensures
            final(self).wf(),
            final(self).sink@ == old(self).sink@.push(value),
            final(self).bit_position == 0,
            final(self).byte == 0,
            final(self).bits() == bits_of_bytes(old(self).sink@.push(value)),
    {
        self.bit_position = 0;
        self.byte = 0;
        self.sink.push(value);
        proof {
            lemma2_to64();
            assert(self.bits() =~= bits_of_bytes(self.sink@));
        }
    }

    /// Appends the low `n` bits of `value`, most significant first,
    /// splitting across output bytes as needed.
    pub fn write_n_bits(&mut self, n: u32, value: u32)
        requires
            old(self).wf(),
            n <= 32,
        ensures
            final(self).wf(),
            final(self).bits() == old(self).bits() + bin_bits(
                n as nat,
                (value as nat) % pow2(n as nat),
            ),
        decreases n,
    {
        if n == 0 {
            proof {
                lemma_pow2_pos(0);
                assert(bin_bits(0, (value as nat) % pow2(0)) =~= Seq::<bool>::empty());
                assert(old(self).bits() + Seq::<bool>::empty() =~= old(self).bits());
            }
            return ;
        }
        let ghost pre = *self;
        self.write_n_bits(n - 1, value / 2);
        self.write_bit((value % 2) as u8);
        proof {
            lemma_pow2_pos(n as nat);
            lemma_pow2_pos((n - 1) as nat);
            lemma_mod_pow2_split(value as nat, n as nat);
            let low = (value as nat) % pow2(n as nat);
            assert(low / 2 == (value as nat / 2) % pow2((n - 1) as nat));
            assert(low % 2 == value as nat % 2);
            assert(bin_bits(n as nat, low) == bin_bits((n as nat - 1) as nat, low / 2).push(
                low % 2 == 1,
            ));
            assert((value % 2) as u8 == 1 <==> value as nat % 2 == 1);
            assert(self.bits() =~= pre.bits() + bin_bits(n as nat, low));
        }
    }

    /// Appends the unsigned Exponential-Golomb code of `value`.
    #[verifier::loop_isolation(false)]
    pub fn write_ue(&mut self, value: u64)
        requires
            old(self).wf(),
            value < 0xFFFF_FFFF,
        ensures
            final(self).wf(),
            final(self).bits() == old(self).bits() + ue_bits(value as nat),
    {
        let ghost pre = *self;
        let mut k: u64 = 0;
        let mut cuml: u64 = 0;
        proof {
            lemma2_to64();
        }
        loop
            invariant
                k <= 31,
                cuml as nat == pow2(k as nat) - 1,
                cuml <= value,
                *self == pre,
            decreases 32 - k,
        {
            let p = pow2_u64(k);
            if value < cuml + p {
                break ;
            }
            proof {
                lemma_pow2_unfold((k + 1) as nat);
                if k == 31 {
                    lemma2_to64();
                    assert(cuml + p == 0xFFFF_FFFF);
                    assert(false);
                }
            }
            cuml = cuml + p;
            k = k + 1;
        }
        proof {
            lemma_pow2_unfold((k + 1) as nat);
            lemma_ue_klen_is_unique(value as nat, k as nat);
        }
        self.write_n_bits(k as u32, 0);
        self.write_bit(1);
        let rem: u64 = value - cuml;
        self.write_n_bits(k as u32, rem as u32);
        proof {
            lemma_pow2_pos(k as nat);
            lemma_bin_bits_zero(k as nat);
            assert((0 as nat) % pow2(k as nat) == 0) by {
                lemma_small_mod(0, pow2(k as nat));
            }
            assert(rem < pow2(k as nat));
            assert(rem as u32 as nat == rem as nat) by {
                lemma2_to64();
                if k < 32 {
                    lemma_pow2_strictly_increases(k as nat, 32);
                }
            }
            lemma_small_mod(rem as nat, pow2(k as nat));
            assert(self.bits() =~= pre.bits() + ue_bits(value as nat));
        }
    }

    /// Appends the signed Exponential-Golomb code of `value`.
    pub fn write_se(&mut self, value: i64)
        requires
            old(self).wf(),
            -0x7FFF_FFFF <= value <= 0x7FFF_FFFF,
        ensures
            final(self).wf(),
            final(self).bits() == old(self).bits() + ue_bits(se_code(value as int)),
    {
        let code: u64 = if value > 0 {
            (value as u64) * 2 - 1
        } else {
            ((-value) as u64) * 2
        };
        proof {
            assert(code as nat == se_code(value as int));
        }
        self.write_ue(code);
    }

    /// Emits the pending partial byte, its unwritten low bits zero, if any
    /// bits are pending. Call exactly once, at the end of a bit-level
    /// write sequence; the cursor state is deliberately left as it was, as
    /// no further writes are expected.
    pub fn flush(&mut self)
        requires
            old(self).wf(),
        ensures
            final(self).wf(),
            final(self).byte == old(self).byte,
            final(self).bit_position == old(self).bit_position,
            final(self).sink@ == if old(self).bit_position > 0 {
                old(self).sink@.push(old(self).byte)
            } else {
                old(self).sink@
            },
            bits_of_bytes(final(self).sink@) == pad_to_byte(old(self).bits()),
    {
        let ghost pre = *self;
        let ghost pos = pre.bit_position as nat;
        let ghost v = pre.partial_val();
        proof {
            lemma_bits_of_bytes_len(pre.sink@);
            lemma_bin_bits_len(pos, v);
            lemma_mod_multiples_vanish(pre.sink@.len() as int, pos as int, 8);
            lemma_small_mod(pos, 8);
            assert(pre.bits().len() % 8 == pos);
        }
        if self.bit_position > 0 {
            let b = self.byte;
            self.sink.push(b);
            proof {
                lemma_bits_of_bytes_push(pre.sink@, b);
                let p = pow2((8 - pos) as nat);
                lemma_pow2_pos((8 - pos) as nat);
                lemma_fundamental_div_mod(b as int, p as int);
                assert(b as nat == v * p) by (nonlinear_arith)
                    requires
                        b as int == p * v + (b as nat) % p,
                        (b as nat) % p == 0,
                ;
                lemma_bin_bits_mul_pow2(8, (8 - pos) as nat, v);
                assert(byte_to_bits(b) == bin_bits(pos, v) + falses((8 - pos) as nat));
                assert(bits_of_bytes(self.sink@) =~= pad_to_byte(pre.bits()));
            }
        } else {
            proof {
                assert(bits_of_bytes(self.sink@) =~= pad_to_byte(pre.bits()));
            }
        }
    }
}

/// A reader of individual bits out of a byte buffer, most significant bit
/// first. One byte at a time is pulled into a cursor byte whose bits are
/// then handed out.
pub struct AvcBitReader {
    /// The whole input buffer.
    pub data: Vec<u8>,
    /// Index of the next byte to pull from `data`.
    pub pos: usize,
    /// The byte bits are currently being read from.
    pub byte: u8,
    /// How many bits of `byte` are already consumed; 8 means a fresh byte
    /// must be pulled first.
    pub bit_offset: usize,
}

impl AvcBitReader {
    /// The reader's cursor state is consistent.
    pub open spec fn wf(self) -> bool {
        &&& self.pos <= self.data@.len()
        &&& self.bit_offset <= 8
    }

    /// The bits not yet consumed: what is left of the cursor byte, then
    /// the bits of the bytes not yet pulled.
    pub open spec fn remaining(self) -> Seq<bool> {
        byte_to_bits(self.byte).skip(self.bit_offset as int) + bits_of_bytes(
            self.data@.skip(self.pos as int),
        )
    }

    /// A reader over the whole of `data`.
    pub fn new(data: Vec<u8>) -> (r: Self)
        ensures
            r.wf(),
            r.data@ == data@,
            r.pos == 0,
            r.remaining() == bits_of_bytes(data@),
    {
        let r = AvcBitReader { data, pos: 0, byte: 0, bit_offset: 8 };
        proof {
            lemma_bin_bits_len(8, 0);
            assert(r.data@.skip(0) =~= r.data@);
            assert(r.remaining() =~= bits_of_bytes(r.data@));
        }
        r
    }

    /// Consumes and returns the next bit; fails on an exhausted buffer.
    pub fn read_bit(&mut self) -> (r: Result<u8, Error>)
        requires
            old(self).wf(),
        ensures
            final(self).wf(),
            final(self).data@ == old(self).data@,
            old(self).remaining().len() > 0 ==> {
                &&& r matches Ok(b) && b <= 1 && ((b == 1) == old(self).remaining()[0])
                &&& final(self).remaining() == old(self).remaining().skip(1)
            },
            old(self).remaining().len() == 0 ==> r == Err::<u8, Error>(Error::InvalidInput)
                && *final(self) == *old(self),
    {
        let ghost pre = *self;
        proof {
            lemma_bin_bits_len(8, pre.byte as nat);
            lemma_bits_of_bytes_len(pre.data@.skip(pre.pos as int));
        }
        if self.bit_offset == 8 {
            if self.pos >= self.data.len() {
                proof {
                    assert(pre.data@.skip(pre.pos as int) =~= Seq::<u8>::empty());
                    assert(pre.remaining().len() == 0);
                }
                return Err(Error::InvalidInput);
            }
            let fresh = self.data[self.pos];
            self.byte = fresh;
            self.pos = self.pos + 1;
            self.bit_offset = 0;
            proof {
                lemma_bits_of_bytes_skip_unfold(pre.data@, pre.pos as int);
                lemma_bin_bits_len(8, fresh as nat);
                assert(byte_to_bits(fresh).skip(0) =~= byte_to_bits(fresh));
                assert(self.remaining() =~= pre.remaining());
            }
        }
        let ghost cur = *self;
        let off = self.bit_offset;
        let b = (self.byte / pow2_u8(7 - off)) % 2;
        self.bit_offset = off + 1;
        proof {
            lemma_bin_bits_len(8, cur.byte as nat);
            lemma_bin_bits_index(8, cur.byte as nat, off as int);
            assert(cur.remaining()[0] == byte_to_bits(cur.byte)[off as int]);
            assert((b == 1) == ((cur.byte as nat / pow2((7 - off) as nat)) % 2 == 1));
            assert(self.remaining() =~= cur.remaining().skip(1));
            assert(cur.remaining() == pre.remaining());
        }
        Ok(b)
    }

    /// Pulls the next whole byte directly, discarding whatever is left of
    /// the cursor byte; for grammar positions known to be byte-aligned.
    pub fn read_byte(&mut self) -> (r: Result<u8, Error>)
        requires
            old(self).wf(),
        ensures
            final(self).wf(),
            final(self).data@ == old(self).data@,
            old(self).pos < old(self).data@.len() ==> {
                &&& r == Ok::<u8, Error>(old(self).data@[old(self).pos as int])
                &&& final(self).pos == old(self).pos + 1
                &&& final(self).remaining() == bits_of_bytes(
                    old(self).data@.skip(old(self).pos + 1),
                )
            },
            old(self).pos >= old(self).data@.len() ==> r == Err::<u8, Error>(Error::InvalidInput)
                && *final(self) == *old(self),
    {
        if self.pos >= self.data.len() {
            return Err(Error::InvalidInput);
        }
        let b = self.data[self.pos];
        self.pos = self.pos + 1;
        self.byte = b;
        self.bit_offset = 8;
        proof {
            lemma_bin_bits_len(8, b as nat);
            assert(byte_to_bits(b).skip(8) =~= Seq::<bool>::empty());
            assert(self.remaining() =~= bits_of_bytes(self.data@.skip(self.pos as int)));
        }
        Ok(b)
    }

    /// Decodes one unsigned Exponential-Golomb code: counts the zero bits
    /// before the first one bit, then reads that many suffix bits.
    #[verifier::loop_isolation(false)]
    pub fn read_exp_golomb_code(&mut self) -> (r: Result<u64, Error>)
        requires
            old(self).wf(),
        ensures
            final(self).wf(),
            final(self).data@ == old(self).data@,
            match r {
                Ok(n) => {
                    &&& ue_decode(old(self).remaining()) == Some(
                        (n as nat, final(self).remaining()),
                    )
                    &&& n <= 0xFFFF_FFFF_FFFF_FFFEu64
                },
                Err(e) => e == Error::InvalidInput && ue_decode(old(self).remaining()) is None,
            },
    {
        let ghost orig = *self;
        let mut zeros: u64 = 0;
        loop
            invariant
                self.wf(),
                self.data@ == orig.data@,
                zeros <= 63,
                orig.remaining().len() >= zeros,
                forall|j: int| 0 <= j < zeros ==> !orig.remaining()[j],
                self.remaining() == orig.remaining().skip(zeros as int),
            decreases orig.remaining().len() - zeros,
        {
            let bit = match self.read_bit() {
                Ok(b) => b,
                Err(_) => {
                    proof {
                        assert(orig.remaining().len() == zeros);
                        lemma_leading_false_count_all(orig.remaining());
                        assert(ue_decode(orig.remaining()) is None);
                    }
                    return Err(Error::InvalidInput);
                },
            };
            if bit == 1 {
                proof {
                    assert(orig.remaining()[zeros as int]);
                    lemma_leading_false_count_from_index(orig.remaining(), zeros as int);
                }
                break ;
            }
            if zeros == 63 {
                proof {
                    assert(!orig.remaining()[63]);
                    assert(forall|j: int| 0 <= j < 64 ==> !orig.remaining()[j]);
                    lemma_leading_false_count_at_least(orig.remaining(), 64);
                }
                return Err(Error::InvalidInput);
            }
            proof {
                assert(self.remaining() =~= orig.remaining().skip(zeros + 1 as int));
            }
            zeros = zeros + 1;
        }
        let k = zeros;
        proof {
            assert(leading_false_count(orig.remaining()) == k);
            assert(self.remaining() =~= orig.remaining().skip(k + 1 as int));
        }
        let mut i: u64 = 0;
        let mut n: u64 = 0;
        proof {
            lemma2_to64();
            assert(orig.remaining().subrange(k + 1 as int, k + 1 as int) =~= Seq::<bool>::empty());
        }
        while i < k
            invariant
                self.wf(),
                self.data@ == orig.data@,
                i <= k,
                orig.remaining().len() >= k + 1 + i,
                self.remaining() == orig.remaining().skip(k + 1 + i as int),
                n as nat == bin_val(orig.remaining().subrange(k + 1 as int, k + 1 + i as int)),
                n < pow2(i as nat),
            decreases k - i,
        {
            let bit = match self.read_bit() {
                Ok(b) => b,
                Err(_) => {
                    proof {
                        assert(orig.remaining().len() == k + 1 + i);
                        assert(orig.remaining().len() < 2 * k + 1);
                        assert(ue_decode(orig.remaining()) is None);
                    }
                    return Err(Error::InvalidInput);
                },
            };
            proof {
                assert(i < 63);
                lemma_pow2_unfold((i + 1) as nat);
                if i + 1 < 64 {
                    lemma_pow2_strictly_increases((i + 1) as nat, 64);
                }
                lemma2_to64();
                lemma2_to64_rest();
                assert(2 * n + 1 < pow2((i + 1) as nat) <= pow2(64));
            }
            n = n * 2 + (bit as u64);
            proof {
                let s = orig.remaining();
                let prefix = s.subrange(k + 1 as int, k + 1 + i as int);
                let prefix2 = s.subrange(k + 1 as int, k + 2 + i as int);
                assert(prefix2.take(prefix2.len() - 1) =~= prefix);
                assert(prefix2.last() == s[k + 1 + i as int]);
                assert(s.skip(k + 1 + i as int)[0] == s[k + 1 + i as int]);
                assert((bit == 1) == s[k + 1 + i as int]);
                assert(n as nat == bin_val(prefix2));
                assert(self.remaining() =~= s.skip(k + 2 + i as int));
            }
            i = i + 1;
        }
        let p = pow2_u64(k);
        proof {
            lemma2_to64();
            lemma2_to64_rest();
            if k < 63 {
                lemma_pow2_strictly_increases(k as nat, 63);
            }
            assert(p <= pow2(63));
            assert(n + p - 1 <= 0xFFFF_FFFF_FFFF_FFFEu64);
        }
        let result = n + (p - 1);
        proof {
            assert(ue_decode(orig.remaining()) == Some((result as nat, self.remaining())));
        }
        Ok(result)
    }

    /// Decodes one unsigned Exponential-Golomb value (the `ue(v)` field
    /// type).
    pub fn read_ue(&mut self) -> (r: Result<u64, Error>)
        requires
            old(self).wf(),
        ensures
            final(self).wf(),
            final(self).data@ == old(self).data@,
            match r {
                Ok(n) => {
                    &&& ue_decode(old(self).remaining()) == Some(
                        (n as nat, final(self).remaining()),
                    )
                    &&& n <= 0xFFFF_FFFF_FFFF_FFFEu64
                },
                Err(e) => e == Error::InvalidInput && ue_decode(old(self).remaining()) is None,
            },
    {
        self.read_exp_golomb_code()
    }

    /// Decodes one signed Exponential-Golomb value (the `se(v)` field
    /// type): odd codes map to positive values, even codes to non-positive
    /// ones.
    pub fn read_se(&mut self) -> (r: Result<i64, Error>)
        requires
            old(self).wf(),
        ensures
            final(self).wf(),
            final(self).data@ == old(self).data@,
            match r {
                Ok(v) => se_decode(old(self).remaining()) == Some(
                    (v as int, final(self).remaining()),
                ),
                Err(e) => e == Error::InvalidInput && se_decode(old(self).remaining()) is None,
            },
    {
        let code = match self.read_exp_golomb_code() {
            Ok(c) => c,
            Err(e) => {
                return Err(e);
            },
        };
        let half = code / 2;
        if code % 2 == 1 {
            proof {
                assert(half + 1 == (code + 1) as nat / 2);
                assert(se_val(code as nat) == half + 1);
            }
            Ok((half + 1) as i64)
        } else {
            proof {
                assert(se_val(code as nat) == -(half as int));
            }
            Ok(-(half as i64))
        }
    }
}

/// Appends a whole buffer to a byte sink.
pub(crate) fn push_all(out: &mut Vec<u8>, buf: &Vec<u8>)
    ensures
        final(out)@ == old(out)@ + buf@,
{
    let ghost pre = out@;
    let mut j: usize = 0;
    while j < buf.len()
        invariant
            j <= buf@.len(),
            out@ == pre + buf@.subrange(0, j as int),
        decreases buf@.len() - j,
    {
        out.push(buf[j]);
        proof {
            assert(out@ =~= pre + buf@.subrange(0, j + 1));
        }
        j = j + 1;
    }
    proof {
        assert(pre + buf@.subrange(0, buf@.len() as int) =~= pre + buf@);
    }
}

/// Appends a 16-bit value in big-endian byte order.
pub(crate) fn push_be16(out: &mut Vec<u8>, v: u16)
    ensures
        final(out)@ == old(out)@ + crate::bits::be16(v as nat),
{
    let ghost pre = out@;
    out.push((v / 0x100) as u8);
    out.push((v % 0x100) as u8);
    proof {
        assert(out@ =~= pre + crate::bits::be16(v as nat));
    }
}

/// Appends a 32-bit value in big-endian byte order.
pub(crate) fn push_be32(out: &mut Vec<u8>, v: u32)
    ensures
        final(out)@ == old(out)@ + crate::bits::be32(v as nat),
{
    let ghost pre = out@;
    out.push((v / 0x100_0000) as u8);
    out.push((v / 0x1_0000 % 0x100) as u8);
    out.push((v / 0x100 % 0x100) as u8);
    out.push((v % 0x100) as u8);
    proof {
        assert(out@ =~= pre + crate::bits::be32(v as nat));
    }
}

/// A byte-count accumulator: stands in for a byte sink when only the size
/// of what would be written matters, counting the bytes handed to `write`.
pub struct ByteCounter<T> {
    /// The wrapped sink the counted bytes are destined for.
    pub inner: T,
    /// How many bytes have been counted so far.
    pub count: u64,
}

impl<T> ByteCounter<T> {
    /// A counter at zero, wrapping `inner`.
    pub fn new(inner: T) -> (r: Self)
        ensures
            r.count == 0,
    {
        ByteCounter { inner, count: 0 }
    }

    /// The number of bytes counted so far.
    pub fn count(&self) -> (r: u64)
        ensures
            r == self.count,
    {
        self.count
    }

    /// Counts a buffer as written, reporting its full length as accepted.
    pub fn write(&mut self, buf: &[u8]) -> (r: Result<usize, Error>)
        requires
            old(self).count + buf@.len() <= u64::MAX,
        ensures
            final(self).count == old(self).count + buf@.len(),
            final(self).inner == old(self).inner,
            r == Ok::<usize, Error>(buf@.len() as usize),
    {
        let len = buf.len();
        self.count = self.count + (len as u64);
        Ok(len)
    }
}

} // verus!


