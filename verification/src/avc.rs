//! H.264/AVC sequence parameter sets and decoder configuration records.
//!
//! `SpsSummary::read_from` walks an SPS payload field by field, in the
//! exact bit-consumption order of the standard's grammar, and keeps the
//! fields needed to derive picture dimensions; the spec functions here
//! define that grammar over the bit-string model of `crate::bits`, and
//! the parser is proved to return exactly what the grammar says.
//! `AvcDecoderConfigurationRecord::write_to` serializes a configuration
//! record body byte for byte.
use vstd::prelude::*;
use crate::bits::{
    be16, bit_decode, bits_of_bytes, bytes_of_bits, falses, pad_to_byte, se_decode, ue_bits,
    ue_decode,
};
use crate::extended_configuration_data::{
    ExtendedConfigurationData, ExtendedConfigurationDataView,
};
use crate::io::{push_all, push_be16, AvcBitReader, AvcBitWriter};
use crate::Error;

verus! {

/// The built-in default 4x4 intra scaling list.
pub open spec fn default_4x4_intra_list() -> Seq<i64> {
    seq![6i64, 13, 13, 20, 20, 20, 28, 28, 28, 28, 32, 32, 32, 32, 37, 37]
}

/// The built-in default 4x4 inter scaling list.
pub open spec fn default_4x4_inter_list() -> Seq<i64> {
    seq![10i64, 14, 14, 20, 20, 20, 24, 24, 24, 24, 27, 27, 27, 30, 30, 34]
}

/// The built-in default 8x8 intra scaling list.
pub open spec fn default_8x8_intra_list() -> Seq<i64> {
    seq![
        6i64, 10, 10, 13, 11, 13, 16, 16, 16, 16, 18, 18, 18, 18, 18, 23, 23, 23, 23, 23, 23, 25,
        25, 25, 25, 25, 25, 25, 27, 27, 27, 27, 27, 27, 27, 27, 29, 29, 29, 29, 29, 29, 29, 31,
        31, 31, 31, 31, 31, 33, 33, 33, 33, 33, 36, 36, 36, 36, 38, 38, 38, 40, 40, 42,
    ]
}

/// The built-in default 8x8 inter scaling list.
pub open spec fn default_8x8_inter_list() -> Seq<i64> {
    seq![
        9i64, 13, 13, 15, 13, 15, 17, 17, 17, 17, 19, 19, 19, 19, 19, 21, 21, 21, 21, 21, 21, 22,
        22, 22, 22, 22, 22, 22, 24, 24, 24, 24, 24, 24, 24, 24, 25, 25, 25, 25, 25, 25, 25, 27,
        27, 27, 27, 27, 27, 28, 28, 28, 28, 28, 30, 30, 30, 30, 32, 32, 32, 33, 33, 35,
    ]
}

/// Which built-in default table a scaling-matrix entry index selects:
/// indices 0 to 2 the 4x4 intra table, 3 to 5 the 4x4 inter table, even
/// indices from 6 the 8x8 intra table, odd ones the 8x8 inter table.
pub open spec fn spec_default_scaling_list_for_index(i: int) -> Seq<i64> {
    if i < 3 {
        default_4x4_intra_list()
    } else if i < 6 {
        default_4x4_inter_list()
    } else if i % 2 == 0 {
        default_8x8_intra_list()
    } else {
        default_8x8_inter_list()
    }
}

/// The scale wrap-around `(a) mod 256` with the sign behaviour of the
/// reader's arithmetic: the remainder takes the sign of `a`.
pub open spec fn wrap_scale(a: int) -> int {
    if a >= 0 {
        a % 256
    } else {
        -((-a) % 256)
    }
}

/// Decoding the remaining `count` entries of one differential scaling
/// list, after the entries already decoded left the running state
/// `(last, next)`: while `next` is non-zero each entry reads a signed
/// delta; once `next` hits zero the remaining entries repeat `last`.
pub open spec fn scaling_entries(bits: Seq<bool>, count: nat, last: int, next: int) -> Option<
    (Seq<i64>, Seq<bool>),
>
    decreases count,
{
    if count == 0 {
        Some((Seq::empty(), bits))
    } else if next != 0 {
        match se_decode(bits) {
            Some((delta, rest)) => {
                let nx = wrap_scale(last + delta + 256);
                let entry: i64 = if nx == 0 {
                    last as i64
                } else {
                    nx as i64
                };
                match scaling_entries(rest, (count - 1) as nat, entry as int, nx) {
                    Some((tail, r2)) => Some((seq![entry] + tail, r2)),
                    None => None,
                }
            },
            None => None,
        }
    } else {
        match scaling_entries(bits, (count - 1) as nat, last, next) {
            Some((tail, r2)) => Some((seq![last as i64] + tail, r2)),
            None => None,
        }
    }
}

/// Decoding one whole differential scaling list of `count` entries,
/// starting from the standard's initial state `last = next = 8`. The
/// "use built-in default" flag is set exactly when the first delta takes
/// the scale to zero.
pub open spec fn scaling_list_decode(bits: Seq<bool>, count: nat) -> Option<
    (Seq<i64>, bool, Seq<bool>),
> {
    match se_decode(bits) {
        Some((delta, rest)) => {
            let nx = wrap_scale(8 + delta + 256);
            let entry: i64 = if nx == 0 {
                8i64
            } else {
                nx as i64
            };
            match scaling_entries(rest, (count - 1) as nat, entry as int, nx) {
                Some((tail, r2)) => Some((seq![entry] + tail, nx == 0, r2)),
                None => None,
            }
        },
        None => None,
    }
}

/// `count` all-zero scaling-list rows of `width` entries each.
pub open spec fn zero_rows(count: nat, width: nat) -> Seq<Seq<i64>> {
    Seq::new(count, |i: int| Seq::new(width, |j: int| 0i64))
}

/// Decoding scaling-matrix entries `i` to `count - 1`: each entry reads
/// a presence bit; a present entry decodes a differential list (16
/// entries below index 6, 64 from it), an absent one falls back —
/// indices 0, 3, 6 and 7 to a built-in default table with the flag set,
/// the others to a copy of an earlier entry (rule A). Entries below
/// index 8 land in the 4x4-class arrays, the copies for 8 to 11 in the
/// 8x8 arrays.
pub open spec fn scaling_matrix_decode(
    bits: Seq<bool>,
    i: nat,
    count: nat,
    l4: Seq<Seq<i64>>,
    f4: Seq<bool>,
    l8: Seq<Seq<i64>>,
    f8: Seq<bool>,
) -> Option<(Seq<Seq<i64>>, Seq<bool>, Seq<Seq<i64>>, Seq<bool>, Seq<bool>)>
    decreases count - i,
{
    if i >= count {
        Some((l4, f4, l8, f8, bits))
    } else {
        match bit_decode(bits) {
            None => None,
            Some((present, rest)) => {
                if present {
                    let size: nat = if i < 6 {
                        16
                    } else {
                        64
                    };
                    match scaling_list_decode(rest, size) {
                        None => None,
                        Some((list, flag, r2)) => {
                            if i < 6 {
                                scaling_matrix_decode(
                                    r2,
                                    i + 1,
                                    count,
                                    l4.update(i as int, list),
                                    f4.update(i as int, flag),
                                    l8,
                                    f8,
                                )
                            } else {
                                scaling_matrix_decode(
                                    r2,
                                    i + 1,
                                    count,
                                    l4,
                                    f4,
                                    l8.update(i - 6, list),
                                    f8.update(i - 6, flag),
                                )
                            }
                        },
                    }
                } else {
                    if i == 0 || i == 3 || i == 6 || i == 7 {
                        scaling_matrix_decode(
                            rest,
                            i + 1,
                            count,
                            l4.update(i as int, spec_default_scaling_list_for_index(i as int)),
                            f4.update(i as int, true),
                            l8,
                            f8,
                        )
                    } else if i < 6 {
                        scaling_matrix_decode(
                            rest,
                            i + 1,
                            count,
                            l4.update(i as int, l4[i - 1]),
                            f4.update(i as int, f4[i - 1]),
                            l8,
                            f8,
                        )
                    } else {
                        scaling_matrix_decode(
                            rest,
                            i + 1,
                            count,
                            l4,
                            f4,
                            l8.update(i - 6, l8[i - 8]),
                            f8.update(i - 6, f8[i - 8]),
                        )
                    }
                }
            },
        }
    }
}

/// Decoding the high-profile extended section: chroma format, an extra
/// bit when the chroma format is 3, the bit-depth fields, the bypass
/// flag, and the optional scaling matrix (12 entries when the chroma
/// format is 3, 8 otherwise).
pub open spec fn ext_decode(bits: Seq<bool>) -> Option<
    (ExtendedConfigurationDataView, Seq<bool>),
> {
    match ue_decode(bits) {
        None => None,
        Some((chroma, b1)) => {
            let sep_step: Option<(Option<bool>, Seq<bool>)> = if chroma == 3 {
                match bit_decode(b1) {
                    None => None,
                    Some((s, b)) => Some((Some(s), b)),
                }
            } else {
                Some((None, b1))
            };
            match sep_step {
                None => None,
                Some((sep, b2)) => match ue_decode(b2) {
                    None => None,
                    Some((luma, b3)) => match ue_decode(b3) {
                        None => None,
                        Some((chromad, b4)) => match bit_decode(b4) {
                            None => None,
                            Some((bypass, b5)) => match bit_decode(b5) {
                                None => None,
                                Some((matrix_present, b6)) => {
                                    if matrix_present {
                                        let count: nat = if chroma == 3 {
                                            12
                                        } else {
                                            8
                                        };
                                        match scaling_matrix_decode(
                                            b6,
                                            0,
                                            count,
                                            zero_rows(count, 16),
                                            falses(count),
                                            zero_rows(count, 64),
                                            falses(count),
                                        ) {
                                            None => None,
                                            Some((l4, f4, l8, f8, b7)) => Some(
                                                (
                                                    ExtendedConfigurationDataView {
                                                        chroma_format: chroma as u64,
                                                        separate_color_plane: sep,
                                                        bit_depth_luma_minus_8: luma as u64,
                                                        bit_depth_chroma_minus_8: chromad as u64,
                                                        qp_prime_y_zero_transform_bypass: bypass,
                                                        seq_scaling_matrix_present: true,
                                                        seq_scaling_list_4x4: Some(l4),
                                                        seq_scaling_list_4x4_use_default: Some(f4),
                                                        seq_scaling_list_8x8: Some(l8),
                                                        seq_scaling_list_8x8_use_default: Some(f8),
                                                    },
                                                    b7,
                                                ),
                                            ),
                                        }
                                    } else {
                                        Some(
                                            (
                                                ExtendedConfigurationDataView {
                                                    chroma_format: chroma as u64,
                                                    separate_color_plane: sep,
                                                    bit_depth_luma_minus_8: luma as u64,
                                                    bit_depth_chroma_minus_8: chromad as u64,
                                                    qp_prime_y_zero_transform_bypass: bypass,
                                                    seq_scaling_matrix_present: false,
                                                    seq_scaling_list_4x4: None,
                                                    seq_scaling_list_4x4_use_default: None,
                                                    seq_scaling_list_8x8: None,
                                                    seq_scaling_list_8x8_use_default: None,
                                                },
                                                b6,
                                            ),
                                        )
                                    }
                                },
                            },
                        },
                    },
                },
            }
        },
    }
}

/// Skipping `n` signed Exponential-Golomb codes.
pub open spec fn skip_ses(bits: Seq<bool>, n: nat) -> Option<Seq<bool>>
    decreases n,
{
    if n == 0 {
        Some(bits)
    } else {
        match se_decode(bits) {
            None => None,
            Some((_v, rest)) => skip_ses(rest, (n - 1) as nat),
        }
    }
}

/// Decoding the picture-order-count section: type 0 reads one further
/// unsigned code, type 1 a flag, two signed offsets and a counted list
/// of signed offsets, type 2 nothing; any other type value is a format
/// error.
pub open spec fn poc_decode(bits: Seq<bool>) -> Option<Seq<bool>> {
    match ue_decode(bits) {
        None => None,
        Some((t, b)) => {
            if t == 0 {
                match ue_decode(b) {
                    None => None,
                    Some((_lsb, r)) => Some(r),
                }
            } else if t == 1 {
                match bit_decode(b) {
                    None => None,
                    Some((_always_zero, b1)) => match se_decode(b1) {
                        None => None,
                        Some((_non_ref, b2)) => match se_decode(b2) {
                            None => None,
                            Some((_top_bottom, b3)) => match ue_decode(b3) {
                                None => None,
                                Some((cnt, b4)) => skip_ses(b4, cnt),
                            },
                        },
                    },
                }
            } else if t == 2 {
                Some(b)
            } else {
                None
            }
        },
    }
}

/// The result of one scaling-list decode once `done` entries are already
/// decoded, the flag settled to `flag`, and the running state `(last,
/// next)` reached.
pub open spec fn scaling_tail(
    done: Seq<i64>,
    flag: bool,
    bits: Seq<bool>,
    count: nat,
    last: int,
    next: int,
) -> Option<(Seq<i64>, bool, Seq<bool>)> {
    match scaling_entries(bits, count, last, next) {
        Some((tail, rest)) => Some((done + tail, flag, rest)),
        None => None,
    }
}

/// The reader's scale arithmetic: `(last + delta + 256)` wrapped to a
/// remainder of 256 that keeps the sign of the sum.
fn wrap_add(last: i64, delta: i64) -> (r: i64)
    requires
        -255 <= last <= 255,
    ensures
        r == wrap_scale(last + delta + 256),
        -255 <= r <= 255,
{
    let sum: i128 = last as i128 + delta as i128 + 256;
    if sum >= 0 {
        (sum % 256) as i64
    } else {
        (-((-sum) % 256)) as i64
    }
}

/// Reads one differential scaling list of `count` entries.
#[verifier::loop_isolation(false)]
#[verifier::rlimit(50)]
fn read_scaling_list(r: &mut AvcBitReader, count: usize) -> (res: Result<(Vec<i64>, bool), Error>)
    requires
        old(r).wf(),
        count >= 1,
    ensures
        final(r).wf(),
        final(r).data@ == old(r).data@,
        match res {
            Ok(lf) => scaling_list_decode(old(r).remaining(), count as nat) == Some(
                (lf.0@, lf.1, final(r).remaining()),
            ),
            Err(e) => e == Error::InvalidInput && scaling_list_decode(
                old(r).remaining(),
                count as nat,
            ) is None,
        },
{
    let ghost orig = *r;
    let first_delta = match r.read_se() {
        Ok(d) => d,
        Err(e) => {
            return Err(e);
        },
    };
    let nx0 = wrap_add(8, first_delta);
    let entry0: i64 = if nx0 == 0 {
        8
    } else {
        nx0
    };
    let flag = nx0 == 0;
    let mut list: Vec<i64> = Vec::new();
    list.push(entry0);
    let mut last: i64 = entry0;
    let mut next: i64 = nx0;
    let mut j: usize = 1;
    proof {
        assert(list@ =~= seq![entry0]);
    }
    while j < count
        invariant
            r.wf(),
            r.data@ == orig.data@,
            1 <= j <= count,
            -255 <= last <= 255,
            -255 <= next <= 255,
            list@.len() == j,
            scaling_list_decode(orig.remaining(), count as nat) == scaling_tail(
                list@,
                flag,
                r.remaining(),
                (count - j) as nat,
                last as int,
                next as int,
            ),
        decreases count - j,
    {
        let ghost old_last = last;
        let ghost old_next = next;
        let ghost pre_list = list@;
        let ghost pre_rem = r.remaining();
        let ghost c = (count - j) as nat;
        if next != 0 {
            let delta = match r.read_se() {
                Ok(d) => d,
                Err(e) => {
                    proof {
                        assert(scaling_entries(pre_rem, c, last as int, next as int) is None);
                    }
                    return Err(e);
                },
            };
            let nx = wrap_add(last, delta);
            let entry: i64 = if nx == 0 {
                last
            } else {
                nx
            };
            list.push(entry);
            last = entry;
            next = nx;
            proof {
                let sub = scaling_entries(r.remaining(), (c - 1) as nat, entry as int, nx as int);
                assert(scaling_entries(pre_rem, c, old_last as int, old_next as int) == (match sub {
                    Some(p) => Some((seq![entry] + p.0, p.1)),
                    None => None,
                }));
                match sub {
                    Some(p) => {
                        assert(pre_list + (seq![entry] + p.0) =~= list@ + p.0);
                    },
                    None => {},
                }
            }
        } else {
            list.push(last);
            proof {
                let sub = scaling_entries(r.remaining(), (c - 1) as nat, last as int, next as int);
                assert(scaling_entries(pre_rem, c, last as int, next as int) == (match sub {
                    Some(p) => Some((seq![last as i64] + p.0, p.1)),
                    None => None,
                }));
                match sub {
                    Some(p) => {
                        assert(pre_list + (seq![last as i64] + p.0) =~= list@ + p.0);
                    },
                    None => {},
                }
            }
        }
        j = j + 1;
    }
    proof {
        assert(scaling_entries(r.remaining(), 0, last as int, next as int) == Some(
            (Seq::<i64>::empty(), r.remaining()),
        ));
        assert(list@ + Seq::<i64>::empty() =~= list@);
    }
    Ok((list, flag))
}

/// A fresh all-zero scaling-list row of `width` entries.
fn zeros_row(width: usize) -> (r: Vec<i64>)
    ensures
        r@ == Seq::new(width as nat, |j: int| 0i64),
{
    let mut v: Vec<i64> = Vec::new();
    let mut j: usize = 0;
    while j < width
        invariant
            j <= width,
            v@ == Seq::new(j as nat, |x: int| 0i64),
        decreases width - j,
    {
        v.push(0);
        proof {
            assert(v@ =~= Seq::new((j + 1) as nat, |x: int| 0i64));
        }
        j = j + 1;
    }
    v
}

/// A copy of one scaling-list row.
fn copy_row(v: &Vec<i64>) -> (r: Vec<i64>)
    ensures
        r@ == v@,
{
    let mut out: Vec<i64> = Vec::new();
    let mut j: usize = 0;
    while j < v.len()
        invariant
            j <= v@.len(),
            out@ == v@.subrange(0, j as int),
        decreases v@.len() - j,
    {
        out.push(v[j]);
        proof {
            assert(out@ =~= v@.subrange(0, j + 1));
        }
        j = j + 1;
    }
    proof {
        assert(v@.subrange(0, v@.len() as int) =~= v@);
    }
    out
}

/// A row vector's deep view is its plain view.
proof fn lemma_row_deep_view(v: Vec<i64>)
    ensures
        v.deep_view() == v@,
{
    assert(v.deep_view() =~= v@);
}

/// A flag vector's deep view is its plain view.
proof fn lemma_flags_deep_view(v: Vec<bool>)
    ensures
        v.deep_view() == v@,
{
    assert(v.deep_view() =~= v@);
}

/// Updating one row of a row matrix updates its deep view pointwise.
proof fn lemma_rows_deep_view_update(pre: Vec<Vec<i64>>, post: Vec<Vec<i64>>, i: int, row: Vec<i64>)
    requires
        0 <= i < pre@.len(),
        post@ == pre@.update(i, row),
    ensures
        post.deep_view() == pre.deep_view().update(i, row@),
{
    assert forall|j: int| 0 <= j < post@.len() implies post.deep_view()[j]
        == pre.deep_view().update(i, row@)[j] by {
        if j == i {
            lemma_row_deep_view(row);
        } else {
            assert(post@[j] == pre@[j]);
        }
    }
    assert(post.deep_view() =~= pre.deep_view().update(i, row@));
}

/// Reads the whole scaling matrix of `count` entries, applying fallback
/// rule A for absent entries.
#[verifier::loop_isolation(false)]
#[verifier::rlimit(80)]
fn read_scaling_matrix(r: &mut AvcBitReader, count: usize) -> (res: Result<
    (Vec<Vec<i64>>, Vec<bool>, Vec<Vec<i64>>, Vec<bool>),
    Error,
>)
    requires
        old(r).wf(),
        count == 8 || count == 12,
    ensures
        final(r).wf(),
        final(r).data@ == old(r).data@,
        match res {
            Ok(t) => scaling_matrix_decode(
                old(r).remaining(),
                0,
                count as nat,
                zero_rows(count as nat, 16),
                falses(count as nat),
                zero_rows(count as nat, 64),
                falses(count as nat),
            ) == Some((t.0.deep_view(), t.1@, t.2.deep_view(), t.3@, final(r).remaining())),
            Err(e) => e == Error::InvalidInput && scaling_matrix_decode(
                old(r).remaining(),
                0,
                count as nat,
                zero_rows(count as nat, 16),
                falses(count as nat),
                zero_rows(count as nat, 64),
                falses(count as nat),
            ) is None,
        },
{
    let ghost orig = *r;
    let mut l4: Vec<Vec<i64>> = Vec::new();
    let mut f4: Vec<bool> = Vec::new();
    let mut l8: Vec<Vec<i64>> = Vec::new();
    let mut f8: Vec<bool> = Vec::new();
    let mut i0: usize = 0;
    while i0 < count
        invariant
            i0 <= count,
            l4.deep_view() == zero_rows(i0 as nat, 16),
            f4@ == falses(i0 as nat),
            l8.deep_view() == zero_rows(i0 as nat, 64),
            f8@ == falses(i0 as nat),
            l4@.len() == i0,
            l8@.len() == i0,
        decreases count - i0,
    {
        let ghost pre4 = l4.deep_view();
        let ghost pre8 = l8.deep_view();
        let row16 = zeros_row(16);
        let row64 = zeros_row(64);
        proof {
            lemma_row_deep_view(row16);
            lemma_row_deep_view(row64);
        }
        l4.push(row16);
        f4.push(false);
        l8.push(row64);
        f8.push(false);
        proof {
            assert forall|j: int| 0 <= j < l4@.len() implies l4.deep_view()[j] == zero_rows(
                (i0 + 1) as nat,
                16,
            )[j] by {
                if j < i0 {
                    assert(l4.deep_view()[j] == pre4[j]);
                }
            }
            assert(l4.deep_view() =~= zero_rows((i0 + 1) as nat, 16));
            assert forall|j: int| 0 <= j < l8@.len() implies l8.deep_view()[j] == zero_rows(
                (i0 + 1) as nat,
                64,
            )[j] by {
                if j < i0 {
                    assert(l8.deep_view()[j] == pre8[j]);
                }
            }
            assert(l8.deep_view() =~= zero_rows((i0 + 1) as nat, 64));
            assert(f4@ =~= falses((i0 + 1) as nat));
            assert(f8@ =~= falses((i0 + 1) as nat));
        }
        i0 = i0 + 1;
    }
    let mut i: usize = 0;
    while i < count
        invariant
            r.wf(),
            r.data@ == orig.data@,
            i <= count,
            count == 8 || count == 12,
            l4@.len() == count,
            f4@.len() == count,
            l8@.len() == count,
            f8@.len() == count,
            scaling_matrix_decode(
                orig.remaining(),
                0,
                count as nat,
                zero_rows(count as nat, 16),
                falses(count as nat),
                zero_rows(count as nat, 64),
                falses(count as nat),
            ) == scaling_matrix_decode(
                r.remaining(),
                i as nat,
                count as nat,
                l4.deep_view(),
                f4@,
                l8.deep_view(),
                f8@,
            ),
        decreases count - i,
    {
        let ghost pre_rem = r.remaining();
        let present = match r.read_bit() {
            Ok(b) => b == 1,
            Err(e) => {
                proof {
                    assert(bit_decode(pre_rem) is None);
                }
                return Err(e);
            },
        };
        if present {
            let size: usize = if i < 6 {
                16
            } else {
                64
            };
            let (list, flag) = match read_scaling_list(r, size) {
                Ok(lf) => lf,
                Err(e) => {
                    return Err(e);
                },
            };
            let ghost pre4 = l4.deep_view();
            let ghost pre8 = l8.deep_view();
            if i < 6 {
                proof {
                    lemma_row_deep_view(list);
                }
                let ghost snap4 = l4;
                l4[i] = list;
                f4[i] = flag;
                proof {
                    lemma_rows_deep_view_update(snap4, l4, i as int, l4@[i as int]);
                }
            } else {
                proof {
                    lemma_row_deep_view(list);
                }
                let ghost snap8 = l8;
                l8[i - 6] = list;
                f8[i - 6] = flag;
                proof {
                    lemma_rows_deep_view_update(snap8, l8, i - 6, l8@[i - 6]);
                }
            }
        } else {
            if i == 0 || i == 3 || i == 6 || i == 7 {
                let row = SpsSummary::default_scaling_list_for_index(i);
                let ghost snap4 = l4;
                proof {
                    lemma_row_deep_view(row);
                }
                l4[i] = row;
                f4[i] = true;
                proof {
                    lemma_rows_deep_view_update(snap4, l4, i as int, l4@[i as int]);
                }
            } else if i < 6 {
                let row = copy_row(&l4[i - 1]);
                let prev_flag = f4[i - 1];
                let ghost snap4 = l4;
                proof {
                    lemma_row_deep_view(row);
                    lemma_row_deep_view(snap4@[i - 1]);
                }
                l4[i] = row;
                f4[i] = prev_flag;
                proof {
                    lemma_rows_deep_view_update(snap4, l4, i as int, l4@[i as int]);
                }
            } else {
                let row = copy_row(&l8[i - 8]);
                let prev_flag = f8[i - 8];
                let ghost snap8 = l8;
                proof {
                    lemma_row_deep_view(row);
                    lemma_row_deep_view(snap8@[i - 8]);
                }
                l8[i - 6] = row;
                f8[i - 6] = prev_flag;
                proof {
                    lemma_rows_deep_view_update(snap8, l8, i - 6, l8@[i - 6]);
                }
            }
        }
        i = i + 1;
    }
    Ok((l4, f4, l8, f8))
}

/// Reads the high-profile extended configuration section.
#[verifier::rlimit(100)]
fn read_extended(r: &mut AvcBitReader) -> (res: Result<ExtendedConfigurationData, Error>)
    requires
        old(r).wf(),
    ensures
        final(r).wf(),
        final(r).data@ == old(r).data@,
        match res {
            Ok(e) => ext_decode(old(r).remaining()) == Some((e@, final(r).remaining())),
            Err(err) => err == Error::InvalidInput && ext_decode(old(r).remaining()) is None,
        },
{
    let ghost orig = *r;
    let chroma_format = match r.read_ue() {
        Ok(v) => v,
        Err(e) => {
            return Err(e);
        },
    };
    let separate_color_plane = if chroma_format == 3 {
        let ghost pre = r.remaining();
        match r.read_bit() {
            Ok(b) => Some(b == 1),
            Err(e) => {
                proof {
                    assert(bit_decode(pre) is None);
                }
                return Err(e);
            },
        }
    } else {
        None
    };
    let bit_depth_luma_minus_8 = match r.read_ue() {
        Ok(v) => v,
        Err(e) => {
            return Err(e);
        },
    };
    let bit_depth_chroma_minus_8 = match r.read_ue() {
        Ok(v) => v,
        Err(e) => {
            return Err(e);
        },
    };
    let ghost pre_bypass = r.remaining();
    let qp_prime_y_zero_transform_bypass = match r.read_bit() {
        Ok(b) => b == 1,
        Err(e) => {
            proof {
                assert(bit_decode(pre_bypass) is None);
            }
            return Err(e);
        },
    };
    let ghost pre_present = r.remaining();
    let seq_scaling_matrix_present = match r.read_bit() {
        Ok(b) => b == 1,
        Err(e) => {
            proof {
                assert(bit_decode(pre_present) is None);
            }
            return Err(e);
        },
    };
    if seq_scaling_matrix_present {
        let count: usize = if chroma_format == 3 {
            12
        } else {
            8
        };
        let (l4, f4, l8, f8) = match read_scaling_matrix(r, count) {
            Ok(t) => t,
            Err(e) => {
                return Err(e);
            },
        };
        proof {
            lemma_flags_deep_view(f4);
            lemma_flags_deep_view(f8);
        }
        let e = ExtendedConfigurationData {
            chroma_format,
            separate_color_plane,
            bit_depth_luma_minus_8,
            bit_depth_chroma_minus_8,
            qp_prime_y_zero_transform_bypass,
            seq_scaling_matrix_present: true,
            seq_scaling_list_4x4: Some(l4),
            seq_scaling_list_4x4_use_default: Some(f4),
            seq_scaling_list_8x8: Some(l8),
            seq_scaling_list_8x8_use_default: Some(f8),
        };
        Ok(e)
    } else {
        let e = ExtendedConfigurationData {
            chroma_format,
            separate_color_plane,
            bit_depth_luma_minus_8,
            bit_depth_chroma_minus_8,
            qp_prime_y_zero_transform_bypass,
            seq_scaling_matrix_present: false,
            seq_scaling_list_4x4: None,
            seq_scaling_list_4x4_use_default: None,
            seq_scaling_list_8x8: None,
            seq_scaling_list_8x8_use_default: None,
        };
        Ok(e)
    }
}

/// Walks the picture-order-count section without keeping its values.
#[verifier::loop_isolation(false)]
#[verifier::rlimit(50)]
fn skip_poc(r: &mut AvcBitReader) -> (res: Result<(), Error>)
    requires
        old(r).wf(),
    ensures
        final(r).wf(),
        final(r).data@ == old(r).data@,
        match res {
            Ok(u) => poc_decode(old(r).remaining()) == Some(final(r).remaining()),
            Err(e) => e == Error::InvalidInput && poc_decode(old(r).remaining()) is None,
        },
{
    let t = match r.read_ue() {
        Ok(v) => v,
        Err(e) => {
            return Err(e);
        },
    };
    if t == 0 {
        match r.read_ue() {
            Ok(_lsb) => Ok(()),
            Err(e) => Err(e),
        }
    } else if t == 1 {
        let ghost pre = r.remaining();
        match r.read_bit() {
            Ok(_always_zero) => (),
            Err(e) => {
                proof {
                    assert(bit_decode(pre) is None);
                }
                return Err(e);
            },
        }
        match r.read_se() {
            Ok(_non_ref) => (),
            Err(e) => {
                return Err(e);
            },
        }
        match r.read_se() {
            Ok(_top_bottom) => (),
            Err(e) => {
                return Err(e);
            },
        }
        let cnt = match r.read_ue() {
            Ok(v) => v,
            Err(e) => {
                return Err(e);
            },
        };
        let ghost start = r.remaining();
        let mut i: u64 = 0;
        while i < cnt
            invariant
                r.wf(),
                r.data@ == old(r).data@,
                i <= cnt,
                skip_ses(start, cnt as nat) == skip_ses(r.remaining(), (cnt - i) as nat),
            decreases cnt - i,
        {
            match r.read_se() {
                Ok(_offset) => (),
                Err(e) => {
                    return Err(e);
                },
            }
            i = i + 1;
        }
        Ok(())
    } else if t == 2 {
        Ok(())
    } else {
        Err(Error::InvalidInput)
    }
}

/// The mathematical shape of an `SpsSummary`.
pub ghost struct SpsSummaryView {
    pub profile_idc: u8,
    pub constraint_set_flag: u8,
    pub level_idc: u8,
    pub pic_width_in_mbs_minus_1: u64,
    pub pic_height_in_map_units_minus_1: u64,
    pub frame_mbs_only_flag: u8,
    pub frame_crop_left_offset: u64,
    pub frame_crop_right_offset: u64,
    pub frame_crop_top_offset: u64,
    pub frame_crop_bottom_offset: u64,
    pub extended_configuration_data: Option<ExtendedConfigurationDataView>,
}

/// Whether a profile indicator belongs to the high-profile family.
pub open spec fn is_high_profile(p: u8) -> bool {
    p == 100 || p == 110 || p == 122 || p == 144
}

/// The whole SPS summary grammar over a payload: three aligned header
/// bytes, then bit-level fields in the standard's order. `None` is a
/// malformed or truncated payload.
pub open spec fn sps_parse(bytes: Seq<u8>) -> Option<SpsSummaryView> {
    if bytes.len() < 3 {
        None
    } else {
        let profile = bytes[0];
        let constraint = bytes[1];
        let level = bytes[2];
        let bits = bits_of_bytes(bytes.skip(3));
        match ue_decode(bits) {
            None => None,
            Some((_sps_id, b0)) => {
                let ext_step: Option<(Option<ExtendedConfigurationDataView>, Seq<bool>)> =
                    if is_high_profile(profile) {
                    match ext_decode(b0) {
                        None => None,
                        Some((e, b)) => Some((Some(e), b)),
                    }
                } else {
                    Some((None, b0))
                };
                match ext_step {
                    None => None,
                    Some((ext, b1)) => sps_tail_parse(profile, constraint, level, ext, b1),
                }
            },
        }
    }
}

/// The SPS grammar after the extended section: the frame-number and
/// picture-order-count fields, the dimension fields, the interlace
/// flags, and the cropping section.
pub open spec fn sps_tail_parse(
    profile: u8,
    constraint: u8,
    level: u8,
    ext: Option<ExtendedConfigurationDataView>,
    bits: Seq<bool>,
) -> Option<SpsSummaryView> {
    match ue_decode(bits) {
        None => None,
        Some((_log2_max_frame_num, b2)) => match poc_decode(b2) {
            None => None,
            Some(b3) => match ue_decode(b3) {
                None => None,
                Some((_num_ref_frames, b4)) => match bit_decode(b4) {
                    None => None,
                    Some((_gaps_allowed, b5)) => sps_dims_parse(
                        profile,
                        constraint,
                        level,
                        ext,
                        b5,
                    ),
                },
            },
        },
    }
}

/// The SPS grammar from the dimension fields on: width and height in
/// macroblock units, the interlace flags, and the cropping section.
pub open spec fn sps_dims_parse(
    profile: u8,
    constraint: u8,
    level: u8,
    ext: Option<ExtendedConfigurationDataView>,
    bits: Seq<bool>,
) -> Option<SpsSummaryView> {
    match ue_decode(bits) {
        None => None,
        Some((w, b6)) => match ue_decode(b6) {
            None => None,
            Some((h, b7)) => match bit_decode(b7) {
                None => None,
                Some((fmo, b8)) => {
                    let after_mbs: Option<Seq<bool>> = if !fmo {
                        match bit_decode(b8) {
                            None => None,
                            Some((_adaptive, b)) => Some(b),
                        }
                    } else {
                        Some(b8)
                    };
                    match after_mbs {
                        None => None,
                        Some(b9) => match bit_decode(b9) {
                            None => None,
                            Some((_direct, b10)) => match bit_decode(b10) {
                                None => None,
                                Some((cropping, b11)) => sps_crops(
                                    profile,
                                    constraint,
                                    level,
                                    w as u64,
                                    h as u64,
                                    fmo,
                                    ext,
                                    cropping,
                                    b11,
                                ),
                            },
                        },
                    }
                },
            },
        },
    }
}

/// The view of an optional extended section.
pub open spec fn opt_ext_view(ext: Option<ExtendedConfigurationData>) -> Option<
    ExtendedConfigurationDataView,
> {
    match ext {
        Some(e) => Some(e@),
        None => None,
    }
}

/// The tail of the SPS grammar: four unsigned crop offsets when the
/// cropping flag is set, zero offsets otherwise.
pub open spec fn sps_crops(
    profile: u8,
    constraint: u8,
    level: u8,
    w: u64,
    h: u64,
    fmo: bool,
    ext: Option<ExtendedConfigurationDataView>,
    cropping: bool,
    bits: Seq<bool>,
) -> Option<SpsSummaryView> {
    if cropping {
        match ue_decode(bits) {
            None => None,
            Some((cl, c1)) => match ue_decode(c1) {
                None => None,
                Some((cr, c2)) => match ue_decode(c2) {
                    None => None,
                    Some((ct, c3)) => match ue_decode(c3) {
                        None => None,
                        Some((cb, _c4)) => Some(
                            SpsSummaryView {
                                profile_idc: profile,
                                constraint_set_flag: constraint,
                                level_idc: level,
                                pic_width_in_mbs_minus_1: w,
                                pic_height_in_map_units_minus_1: h,
                                frame_mbs_only_flag: if fmo {
                                    1
                                } else {
                                    0
                                },
                                frame_crop_left_offset: cl as u64,
                                frame_crop_right_offset: cr as u64,
                                frame_crop_top_offset: ct as u64,
                                frame_crop_bottom_offset: cb as u64,
                                extended_configuration_data: ext,
                            },
                        ),
                    },
                },
            },
        }
    } else {
        Some(
            SpsSummaryView {
                profile_idc: profile,
                constraint_set_flag: constraint,
                level_idc: level,
                pic_width_in_mbs_minus_1: w,
                pic_height_in_map_units_minus_1: h,
                frame_mbs_only_flag: if fmo {
                    1
                } else {
                    0
                },
                frame_crop_left_offset: 0,
                frame_crop_right_offset: 0,
                frame_crop_top_offset: 0,
                frame_crop_bottom_offset: 0,
                extended_configuration_data: ext,
            },
        )
    }
}

/// The derived picture width, in pixels.
pub open spec fn spec_width(v: SpsSummaryView) -> int {
    (v.pic_width_in_mbs_minus_1 + 1) * 16 - 2 * v.frame_crop_right_offset - 2
        * v.frame_crop_left_offset
}

/// The derived picture height, in pixels.
pub open spec fn spec_height(v: SpsSummaryView) -> int {
    (2 - v.frame_mbs_only_flag as int) * ((v.pic_height_in_map_units_minus_1 + 1) * 16) - 2
        * v.frame_crop_bottom_offset - 2 * v.frame_crop_top_offset
}

/// The fields of a sequence parameter set needed to derive picture
/// dimensions, decoded once and never re-parsed.
#[derive(Debug)]
pub struct SpsSummary {
    /// The profile indicator.
    pub profile_idc: u8,
    /// The constraint-set flags byte.
    pub constraint_set_flag: u8,
    /// The level indicator.
    pub level_idc: u8,
    pic_width_in_mbs_minus_1: u64,
    pic_height_in_map_units_minus_1: u64,
    frame_mbs_only_flag: u8,
    frame_crop_left_offset: u64,
    frame_crop_right_offset: u64,
    frame_crop_top_offset: u64,
    frame_crop_bottom_offset: u64,
    /// The extended section, present exactly for high-profile streams.
    pub extended_configuration_data: Option<ExtendedConfigurationData>,
}

impl View for SpsSummary {
    type V = SpsSummaryView;

    closed spec fn view(&self) -> SpsSummaryView {
        SpsSummaryView {
            profile_idc: self.profile_idc,
            constraint_set_flag: self.constraint_set_flag,
            level_idc: self.level_idc,
            pic_width_in_mbs_minus_1: self.pic_width_in_mbs_minus_1,
            pic_height_in_map_units_minus_1: self.pic_height_in_map_units_minus_1,
            frame_mbs_only_flag: self.frame_mbs_only_flag,
            frame_crop_left_offset: self.frame_crop_left_offset,
            frame_crop_right_offset: self.frame_crop_right_offset,
            frame_crop_top_offset: self.frame_crop_top_offset,
            frame_crop_bottom_offset: self.frame_crop_bottom_offset,
            extended_configuration_data: match &self.extended_configuration_data {
                Some(e) => Some(e@),
                None => None,
            },
        }
    }
}

impl SpsSummary {
    /// The width computation stays within `usize` and never goes
    /// negative.
    pub open spec fn width_in_range(self) -> bool {
        let v = self@;
        &&& (v.pic_width_in_mbs_minus_1 + 1) * 16 <= usize::MAX
        &&& 2 * v.frame_crop_right_offset + 2 * v.frame_crop_left_offset <= (
        v.pic_width_in_mbs_minus_1 + 1) * 16
    }

    /// The derived picture width: sixteen pixels per macroblock column,
    /// less the left and right crops.
    pub fn width(&self) -> (r: usize)
        requires
            self.width_in_range(),
        ensures
            r == spec_width(self@),
    {
        proof {
            let w = self@.pic_width_in_mbs_minus_1 as int;
            assert(w + 1 <= (w + 1) * 16) by (nonlinear_arith)
                requires
                    w >= 0,
            ;
        }
        (self.pic_width_in_mbs_minus_1 as usize + 1) * 16 - (self.frame_crop_right_offset
            as usize) * 2 - (self.frame_crop_left_offset as usize) * 2
    }

    /// The height computation stays within `usize` and never goes
    /// negative.
    pub open spec fn height_in_range(self) -> bool {
        let v = self@;
        &&& v.frame_mbs_only_flag <= 1
        &&& (2 - v.frame_mbs_only_flag as int) * ((v.pic_height_in_map_units_minus_1 + 1) * 16)
            <= usize::MAX
        &&& 2 * v.frame_crop_bottom_offset + 2 * v.frame_crop_top_offset <= (2
        - v.frame_mbs_only_flag as int) * ((v.pic_height_in_map_units_minus_1 + 1) * 16)
    }

    /// The derived picture height: sixteen pixels per map unit row,
    /// doubled for interlaced streams, less the top and bottom crops.
    pub fn height(&self) -> (r: usize)
        requires
            self.height_in_range(),
        ensures
            r == spec_height(self@),
    {
        proof {
            let h = self@.pic_height_in_map_units_minus_1 as int;
            let m = 2 - self@.frame_mbs_only_flag as int;
            assert((h + 1) * 16 <= m * ((h + 1) * 16) && h + 1 <= (h + 1) * 16) by (
            nonlinear_arith)
                requires
                    h >= 0,
                    m == 1 || m == 2,
            ;
        }
        (2 - self.frame_mbs_only_flag as usize) * ((self.pic_height_in_map_units_minus_1 as usize
            + 1) * 16) - (self.frame_crop_bottom_offset as usize) * 2 - (self.frame_crop_top_offset
            as usize) * 2
    }

    /// Parses an SPS payload: three aligned header bytes, then the
    /// bit-level fields of the grammar in the standard's order. Returns
    /// exactly what the grammar `sps_parse` yields; a malformed or
    /// truncated payload is an error and leaves no partial summary.
    #[verifier::loop_isolation(false)]
    #[verifier::rlimit(100)]
    pub fn read_from(bytes: &Vec<u8>) -> (r: Result<SpsSummary, Error>)
        ensures
            match r {
                Ok(s) => sps_parse(bytes@) == Some(s@),
                Err(e) => e == Error::InvalidInput && sps_parse(bytes@) is None,
            },
    {
        if bytes.len() < 3 {
            return Err(Error::InvalidInput);
        }
        let profile_idc = bytes[0];
        let constraint_set_flag = bytes[1];
        let level_idc = bytes[2];
        let mut tail: Vec<u8> = Vec::new();
        let mut j: usize = 3;
        while j < bytes.len()
            invariant
                3 <= j <= bytes@.len(),
                tail@ == bytes@.subrange(3, j as int),
            decreases bytes@.len() - j,
        {
            tail.push(bytes[j]);
            proof {
                assert(tail@ =~= bytes@.subrange(3, j + 1));
            }
            j = j + 1;
        }
        proof {
            assert(bytes@.subrange(3, bytes@.len() as int) =~= bytes@.skip(3));
        }
        let mut reader = AvcBitReader::new(tail);
        let _seq_parameter_set_id = match reader.read_ue() {
            Ok(v) => v,
            Err(e) => {
                return Err(e);
            },
        };
        let high = profile_idc == 100 || profile_idc == 110 || profile_idc == 122 || profile_idc
            == 144;
        let extended_configuration_data = if high {
            match read_extended(&mut reader) {
                Ok(e) => Some(e),
                Err(e) => {
                    return Err(e);
                },
            }
        } else {
            None
        };
        let s = match read_sps_tail(
            &mut reader,
            profile_idc,
            constraint_set_flag,
            level_idc,
            extended_configuration_data,
        ) {
            Ok(s) => s,
            Err(e) => {
                return Err(e);
            },
        };
        proof {
            assert(sps_parse(bytes@) == Some(s@));
        }
        Ok(s)
    }

    /// The built-in default scaling list an entry index selects.
    pub fn default_scaling_list_for_index(index: usize) -> (r: Vec<i64>)
        ensures
            r@ == spec_default_scaling_list_for_index(index as int),
    {
        if index < 3 {
            let v = vec![6i64, 13, 13, 20, 20, 20, 28, 28, 28, 28, 32, 32, 32, 32, 37, 37];
            proof {
                assert(v@ =~= default_4x4_intra_list());
            }
            v
        } else if index < 6 {
            let v = vec![10i64, 14, 14, 20, 20, 20, 24, 24, 24, 24, 27, 27, 27, 30, 30, 34];
            proof {
                assert(v@ =~= default_4x4_inter_list());
            }
            v
        } else if index % 2 == 0 {
            let v = vec![
                6i64, 10, 10, 13, 11, 13, 16, 16, 16, 16, 18, 18, 18, 18, 18, 23, 23, 23, 23, 23,
                23, 25, 25, 25, 25, 25, 25, 25, 27, 27, 27, 27, 27, 27, 27, 27, 29, 29, 29, 29,
                29, 29, 29, 31, 31, 31, 31, 31, 31, 33, 33, 33, 33, 33, 36, 36, 36, 36, 38, 38,
                38, 40, 40, 42,
            ];
            proof {
                assert(v@ =~= default_8x8_intra_list());
            }
            v
        } else {
            let v = vec![
                9i64, 13, 13, 15, 13, 15, 17, 17, 17, 17, 19, 19, 19, 19, 19, 21, 21, 21, 21, 21,
                21, 22, 22, 22, 22, 22, 22, 22, 24, 24, 24, 24, 24, 24, 24, 24, 25, 25, 25, 25,
                25, 25, 25, 27, 27, 27, 27, 27, 27, 28, 28, 28, 28, 28, 30, 30, 30, 30, 32, 32,
                32, 33, 33, 35,
            ];
            proof {
                assert(v@ =~= default_8x8_inter_list());
            }
            v
        }
    }
}

/// Reads the SPS fields after the extended section and assembles the
/// summary.
#[verifier::loop_isolation(false)]
#[verifier::rlimit(100)]
fn read_sps_tail(
    reader: &mut AvcBitReader,
    profile_idc: u8,
    constraint_set_flag: u8,
    level_idc: u8,
    extended_configuration_data: Option<ExtendedConfigurationData>,
) -> (r: Result<SpsSummary, Error>)
    requires
        old(reader).wf(),
    ensures
        final(reader).wf(),
        match r {
            Ok(s) => sps_tail_parse(
                profile_idc,
                constraint_set_flag,
                level_idc,
                opt_ext_view(extended_configuration_data),
                old(reader).remaining(),
            ) == Some(s@),
            Err(e) => e == Error::InvalidInput && sps_tail_parse(
                profile_idc,
                constraint_set_flag,
                level_idc,
                opt_ext_view(extended_configuration_data),
                old(reader).remaining(),
            ) is None,
        },
{
    let _log2_max_frame_num_minus4 = match reader.read_ue() {
        Ok(v) => v,
        Err(e) => {
            return Err(e);
        },
    };
    match skip_poc(reader) {
        Ok(u) => u,
        Err(e) => {
            return Err(e);
        },
    };
    let _num_ref_frames = match reader.read_ue() {
        Ok(v) => v,
        Err(e) => {
            return Err(e);
        },
    };
    let ghost pre_gaps = reader.remaining();
    let _gaps_in_frame_num_value_allowed_flag = match reader.read_bit() {
        Ok(b) => b,
        Err(e) => {
            proof {
                assert(bit_decode(pre_gaps) is None);
            }
            return Err(e);
        },
    };
    read_sps_dims(reader, profile_idc, constraint_set_flag, level_idc, extended_configuration_data)
}

/// Reads the SPS dimension and cropping fields and assembles the
/// summary.
#[verifier::rlimit(100)]
fn read_sps_dims(
    reader: &mut AvcBitReader,
    profile_idc: u8,
    constraint_set_flag: u8,
    level_idc: u8,
    extended_configuration_data: Option<ExtendedConfigurationData>,
) -> (r: Result<SpsSummary, Error>)
    requires
        old(reader).wf(),
    ensures
        final(reader).wf(),
        match r {
            Ok(s) => sps_dims_parse(
                profile_idc,
                constraint_set_flag,
                level_idc,
                opt_ext_view(extended_configuration_data),
                old(reader).remaining(),
            ) == Some(s@),
            Err(e) => e == Error::InvalidInput && sps_dims_parse(
                profile_idc,
                constraint_set_flag,
                level_idc,
                opt_ext_view(extended_configuration_data),
                old(reader).remaining(),
            ) is None,
        },
{
    let pic_width_in_mbs_minus_1 = match reader.read_ue() {
        Ok(v) => v,
        Err(e) => {
            return Err(e);
        },
    };
    let pic_height_in_map_units_minus_1 = match reader.read_ue() {
        Ok(v) => v,
        Err(e) => {
            return Err(e);
        },
    };
    let ghost pre_fmo = reader.remaining();
    let frame_mbs_only_flag = match reader.read_bit() {
        Ok(b) => b,
        Err(e) => {
            proof {
                assert(bit_decode(pre_fmo) is None);
            }
            return Err(e);
        },
    };
    if frame_mbs_only_flag == 0 {
        let ghost pre_adaptive = reader.remaining();
        let _mb_adaptive_frame_field_flag = match reader.read_bit() {
            Ok(b) => b,
            Err(e) => {
                proof {
                    assert(bit_decode(pre_adaptive) is None);
                }
                return Err(e);
            },
        };
    }
    let ghost pre_direct = reader.remaining();
    let _direct_8x8_inference_flag = match reader.read_bit() {
        Ok(b) => b,
        Err(e) => {
            proof {
                assert(bit_decode(pre_direct) is None);
            }
            return Err(e);
        },
    };
    let ghost pre_crop = reader.remaining();
    let frame_cropping_flag = match reader.read_bit() {
        Ok(b) => b,
        Err(e) => {
            proof {
                assert(bit_decode(pre_crop) is None);
            }
            return Err(e);
        },
    };
    let mut frame_crop_left_offset: u64 = 0;
    let mut frame_crop_right_offset: u64 = 0;
    let mut frame_crop_top_offset: u64 = 0;
    let mut frame_crop_bottom_offset: u64 = 0;
    if frame_cropping_flag == 1 {
        frame_crop_left_offset = match reader.read_ue() {
            Ok(v) => v,
            Err(e) => {
                return Err(e);
            },
        };
        frame_crop_right_offset = match reader.read_ue() {
            Ok(v) => v,
            Err(e) => {
                return Err(e);
            },
        };
        frame_crop_top_offset = match reader.read_ue() {
            Ok(v) => v,
            Err(e) => {
                return Err(e);
            },
        };
        frame_crop_bottom_offset = match reader.read_ue() {
            Ok(v) => v,
            Err(e) => {
                return Err(e);
            },
        };
    }
    let s = SpsSummary {
        profile_idc,
        constraint_set_flag,
        level_idc,
        pic_width_in_mbs_minus_1,
        pic_height_in_map_units_minus_1,
        frame_mbs_only_flag,
        frame_crop_left_offset,
        frame_crop_right_offset,
        frame_crop_top_offset,
        frame_crop_bottom_offset,
        extended_configuration_data,
    };
    Ok(s)
}

/// One absent presence bit at the front of an all-zero prefix.
proof fn lemma_bit_decode_falses(k: nat, rest: Seq<bool>)
    requires
        k >= 1,
    ensures
        bit_decode(falses(k) + rest) == Some((false, falses((k - 1) as nat) + rest)),
{
    assert((falses(k) + rest).skip(1) =~= falses((k - 1) as nat) + rest);
}

/// Scaling-list fallback on an entirely absent matrix: when the
/// scaling-matrix-present flag is set but all presence bits are zero,
/// decoding distributes the four built-in default tables over the first
/// eight entries according to fallback rule A, marks each of those
/// entries as using a default, consumes exactly the presence bits, and
/// leaves the 8x8 copy slots (entries 8 to 11 of a 12-entry matrix) as
/// copies of the untouched all-zero rows with their flags clear.
pub proof fn lemma_scaling_matrix_all_absent(count: nat, rest: Seq<bool>)
    requires
        count == 8 || count == 12,
    ensures
        ({
            let r = scaling_matrix_decode(
                falses(count) + rest,
                0,
                count,
                zero_rows(count, 16),
                falses(count),
                zero_rows(count, 64),
                falses(count),
            );
            &&& r matches Some(t)
            &&& t.4 == rest
            &&& t.0.len() == count
            &&& forall|i: int| 0 <= i < 8 ==> t.0[i] == spec_default_scaling_list_for_index(i)
            &&& forall|i: int| 8 <= i < count ==> t.0[i] == Seq::new(16, |j: int| 0i64)
            &&& forall|i: int| 0 <= i < 8 ==> t.1[i]
            &&& forall|i: int| 8 <= i < count ==> !t.1[i]
            &&& t.2 == zero_rows(count, 64)
            &&& t.3 == falses(count)
        }),
{
    let l4_0 = zero_rows(count, 16);
    let f4_0 = falses(count);
    let l8_0 = zero_rows(count, 64);
    let f8_0 = falses(count);
    lemma_bit_decode_falses(count, rest);
    let l4_1 = l4_0.update(0, spec_default_scaling_list_for_index(0));
    let f4_1 = f4_0.update(0, true);
    lemma_bit_decode_falses((count - 1) as nat, rest);
    let l4_2 = l4_1.update(1, l4_1[0]);
    let f4_2 = f4_1.update(1, f4_1[0]);
    lemma_bit_decode_falses((count - 2) as nat, rest);
    let l4_3 = l4_2.update(2, l4_2[1]);
    let f4_3 = f4_2.update(2, f4_2[1]);
    lemma_bit_decode_falses((count - 3) as nat, rest);
    let l4_4 = l4_3.update(3, spec_default_scaling_list_for_index(3));
    let f4_4 = f4_3.update(3, true);
    lemma_bit_decode_falses((count - 4) as nat, rest);
    let l4_5 = l4_4.update(4, l4_4[3]);
    let f4_5 = f4_4.update(4, f4_4[3]);
    lemma_bit_decode_falses((count - 5) as nat, rest);
    let l4_6 = l4_5.update(5, l4_5[4]);
    let f4_6 = f4_5.update(5, f4_5[4]);
    lemma_bit_decode_falses((count - 6) as nat, rest);
    let l4_7 = l4_6.update(6, spec_default_scaling_list_for_index(6));
    let f4_7 = f4_6.update(6, true);
    lemma_bit_decode_falses((count - 7) as nat, rest);
    let l4_8 = l4_7.update(7, spec_default_scaling_list_for_index(7));
    let f4_8 = f4_7.update(7, true);
    assert(falses(count) + rest =~= falses((count - 0) as nat) + rest);
    assert(scaling_matrix_decode(falses((count - 0) as nat) + rest, 0, count, l4_0, f4_0, l8_0, f8_0)
        == scaling_matrix_decode(falses((count - 1) as nat) + rest, 1, count, l4_1, f4_1, l8_0, f8_0));
    assert(scaling_matrix_decode(falses((count - 1) as nat) + rest, 1, count, l4_1, f4_1, l8_0, f8_0)
        == scaling_matrix_decode(falses((count - 2) as nat) + rest, 2, count, l4_2, f4_2, l8_0, f8_0));
    assert(scaling_matrix_decode(falses((count - 2) as nat) + rest, 2, count, l4_2, f4_2, l8_0, f8_0)
        == scaling_matrix_decode(falses((count - 3) as nat) + rest, 3, count, l4_3, f4_3, l8_0, f8_0));
    assert(scaling_matrix_decode(falses((count - 3) as nat) + rest, 3, count, l4_3, f4_3, l8_0, f8_0)
        == scaling_matrix_decode(falses((count - 4) as nat) + rest, 4, count, l4_4, f4_4, l8_0, f8_0));
    assert(scaling_matrix_decode(falses((count - 4) as nat) + rest, 4, count, l4_4, f4_4, l8_0, f8_0)
        == scaling_matrix_decode(falses((count - 5) as nat) + rest, 5, count, l4_5, f4_5, l8_0, f8_0));
    assert(scaling_matrix_decode(falses((count - 5) as nat) + rest, 5, count, l4_5, f4_5, l8_0, f8_0)
        == scaling_matrix_decode(falses((count - 6) as nat) + rest, 6, count, l4_6, f4_6, l8_0, f8_0));
    assert(scaling_matrix_decode(falses((count - 6) as nat) + rest, 6, count, l4_6, f4_6, l8_0, f8_0)
        == scaling_matrix_decode(falses((count - 7) as nat) + rest, 7, count, l4_7, f4_7, l8_0, f8_0));
    assert(scaling_matrix_decode(falses((count - 7) as nat) + rest, 7, count, l4_7, f4_7, l8_0, f8_0)
        == scaling_matrix_decode(falses((count - 8) as nat) + rest, 8, count, l4_8, f4_8, l8_0, f8_0));

    if count == 8 {
        assert(falses(0) + rest =~= rest);
        assert(scaling_matrix_decode(rest, 8, count, l4_8, f4_8, l8_0, f8_0) == Some(
            (l4_8, f4_8, l8_0, f8_0, rest),
        ));
    } else {
        lemma_bit_decode_falses(4, rest);
        let l8_1 = l8_0.update(2, l8_0[0]);
        let f8_1 = f8_0.update(2, f8_0[0]);
        lemma_bit_decode_falses(3, rest);
        let l8_2 = l8_1.update(3, l8_1[1]);
        let f8_2 = f8_1.update(3, f8_1[1]);
        lemma_bit_decode_falses(2, rest);
        let l8_3 = l8_2.update(4, l8_2[2]);
        let f8_3 = f8_2.update(4, f8_2[2]);
        lemma_bit_decode_falses(1, rest);
        let l8_4 = l8_3.update(5, l8_3[3]);
        let f8_4 = f8_3.update(5, f8_3[3]);
        assert(falses((count - 8) as nat) + rest =~= falses(4) + rest);
        assert(falses(0) + rest =~= rest);
        assert(scaling_matrix_decode(falses(4) + rest, 8, count, l4_8, f4_8, l8_0, f8_0)
            == scaling_matrix_decode(falses(3) + rest, 9, count, l4_8, f4_8, l8_1, f8_1));
        assert(scaling_matrix_decode(falses(3) + rest, 9, count, l4_8, f4_8, l8_1, f8_1)
            == scaling_matrix_decode(falses(2) + rest, 10, count, l4_8, f4_8, l8_2, f8_2));
        assert(scaling_matrix_decode(falses(2) + rest, 10, count, l4_8, f4_8, l8_2, f8_2)
            == scaling_matrix_decode(falses(1) + rest, 11, count, l4_8, f4_8, l8_3, f8_3));
        assert(scaling_matrix_decode(falses(1) + rest, 11, count, l4_8, f4_8, l8_3, f8_3)
            == scaling_matrix_decode(falses(0) + rest, 12, count, l4_8, f4_8, l8_4, f8_4));
        assert(scaling_matrix_decode(falses(0) + rest, 12, count, l4_8, f4_8, l8_4, f8_4)
            == Some((l4_8, f4_8, l8_4, f8_4, rest)));
        assert(l8_4 =~= zero_rows(count, 64));
        assert(f8_4 =~= falses(count));
    }
}

/// The success condition of the AVC record writer: a high-profile record
/// must carry extended configuration data, and a 4:4:4 record the
/// separate-colour-plane flag.
pub open spec fn avc_write_ok(r: AvcDecoderConfigurationRecord) -> bool {
    is_high_profile(r.profile_idc) ==> (r.extended_configuration_data matches Some(e) && (
    e.chroma_format == 3 ==> e.separate_color_plane is Some))
}

/// The byte-aligned front of the AVC decoder configuration record body:
/// version, profile, constraint flags, level, the reserved bits with the
/// four-byte length-field indicator, the reserved bits with the single
/// SPS count, the length-prefixed SPS, the single PPS count, and the
/// length-prefixed PPS.
pub open spec fn avc_header_bytes(r: AvcDecoderConfigurationRecord) -> Seq<u8> {
    seq![1u8, r.profile_idc, r.constraint_set_flag, r.level_idc, 0xFFu8, 0xE1u8] + be16(
        r.sequence_parameter_set@.len(),
    ) + r.sequence_parameter_set@ + seq![0x01u8] + be16(r.picture_parameter_set@.len())
        + r.picture_parameter_set@
}

/// The bit-level extended section of the record: chroma format, the
/// separate-colour-plane bit for 4:4:4, the bit depths, the bypass bit,
/// and a scaling-matrix-present bit fixed to zero (previously parsed
/// scaling lists are never re-emitted).
pub open spec fn avc_ext_bits(e: ExtendedConfigurationDataView) -> Seq<bool> {
    ue_bits(e.chroma_format as nat) + (if e.chroma_format == 3 {
        match e.separate_color_plane {
            Some(b) => seq![b],
            None => Seq::<bool>::empty(),
        }
    } else {
        Seq::<bool>::empty()
    }) + ue_bits(e.bit_depth_luma_minus_8 as nat) + ue_bits(e.bit_depth_chroma_minus_8 as nat)
        + seq![e.qp_prime_y_zero_transform_bypass] + seq![false]
}

/// The whole AVC decoder configuration record body: the byte-aligned
/// front, then for high profiles the extended section, zero-padded to a
/// byte boundary.
pub open spec fn avc_record_bytes(r: AvcDecoderConfigurationRecord) -> Seq<u8> {
    avc_header_bytes(r) + (if is_high_profile(r.profile_idc) {
        match r.extended_configuration_data {
            Some(e) => bytes_of_bits(pad_to_byte(avc_ext_bits(e@))),
            None => Seq::<u8>::empty(),
        }
    } else {
        Seq::<u8>::empty()
    })
}

/// An AVC decoder configuration record: profile and level, one SPS and
/// one PPS, and for high profiles the extended section. Constructed by
/// the caller and serialized by `write_to`.
#[derive(Debug, Clone)]
pub struct AvcDecoderConfigurationRecord {
    /// The profile indicator.
    pub profile_idc: u8,
    /// The constraint-set flags byte.
    pub constraint_set_flag: u8,
    /// The level indicator.
    pub level_idc: u8,
    /// The raw SPS bytes to embed.
    pub sequence_parameter_set: Vec<u8>,
    /// The raw PPS bytes to embed.
    pub picture_parameter_set: Vec<u8>,
    /// The extended section; required for high-profile records.
    pub extended_configuration_data: Option<ExtendedConfigurationData>,
}

impl AvcDecoderConfigurationRecord {
    /// The record's fields fit their wire encoding: 16-bit parameter-set
    /// lengths, and extended values inside the writer's
    /// Exponential-Golomb range.
    pub open spec fn write_in_range(self) -> bool {
        &&& self.sequence_parameter_set@.len() <= 0xFFFF
        &&& self.picture_parameter_set@.len() <= 0xFFFF
        &&& (self.extended_configuration_data matches Some(e) ==> e.chroma_format < 0xFFFF_FFFF
            && e.bit_depth_luma_minus_8 < 0xFFFF_FFFF && e.bit_depth_chroma_minus_8
            < 0xFFFF_FFFF)
    }

    /// Appends the serialized record body to `out`. Fails, appending
    /// nothing, exactly when a high-profile record lacks its extended
    /// data or a 4:4:4 record its separate-colour-plane flag; nothing is
    /// silently defaulted.
    #[verifier::rlimit(100)]
    pub fn write_to(&self, out: &mut Vec<u8>) -> (r: Result<(), Error>)
        requires
            self.write_in_range(),
        ensures
            avc_write_ok(*self) ==> r == Ok::<(), Error>(()) && final(out)@ == old(out)@
                + avc_record_bytes(*self),
            !avc_write_ok(*self) ==> r == Err::<(), Error>(Error::Unsupported) && final(out)@
                == old(out)@,
    {
        let high = self.profile_idc == 100 || self.profile_idc == 110 || self.profile_idc == 122
            || self.profile_idc == 144;
        if high {
            match &self.extended_configuration_data {
                None => {
                    return Err(Error::Unsupported);
                },
                Some(e) => {
                    if e.chroma_format == 3 && e.separate_color_plane.is_none() {
                        return Err(Error::Unsupported);
                    }
                },
            }
        }
        let ghost pre = out@;
        out.push(1);
        out.push(self.profile_idc);
        out.push(self.constraint_set_flag);
        out.push(self.level_idc);
        out.push(0xFF);  // reserved bits and the four-byte length-field indicator
        out.push(0xE1);  // reserved bits and the single-SPS count
        push_be16(out, self.sequence_parameter_set.len() as u16);
        push_all(out, &self.sequence_parameter_set);
        out.push(0x01);  // the single-PPS count
        push_be16(out, self.picture_parameter_set.len() as u16);
        push_all(out, &self.picture_parameter_set);
        proof {
            assert(out@ =~= pre + avc_header_bytes(*self));
        }
        if high {
            match &self.extended_configuration_data {
                None => {
                    proof {
                        assert(false);
                    }
                },
                Some(e) => {
                    let mut bit_writer = AvcBitWriter::new(Vec::new());
                    proof {
                        assert(bit_writer.bits() =~= Seq::<bool>::empty());
                    }
                    bit_writer.write_ue(e.chroma_format);
                    if e.chroma_format == 3 {
                        match e.separate_color_plane {
                            Some(b) => bit_writer.write_bool(b),
                            None => {
                                proof {
                                    assert(false);
                                }
                            },
                        }
                    }
                    bit_writer.write_ue(e.bit_depth_luma_minus_8);
                    bit_writer.write_ue(e.bit_depth_chroma_minus_8);
                    bit_writer.write_bool(e.qp_prime_y_zero_transform_bypass);
                    bit_writer.write_bool(false);
                    proof {
                        assert(bit_writer.bits() =~= avc_ext_bits(e@));
                    }
                    bit_writer.flush();
                    let tail = bit_writer.into_vec();
                    proof {
                        crate::bits::lemma_bytes_of_bits_of_bytes(tail@);
                        assert(tail@ == bytes_of_bits(pad_to_byte(avc_ext_bits(e@))));
                    }
                    push_all(out, &tail);
                    proof {
                        assert(out@ =~= pre + avc_record_bytes(*self));
                    }
                },
            }
        } else {
            proof {
                assert(pre + avc_header_bytes(*self) + Seq::<u8>::empty() =~= pre
                    + avc_header_bytes(*self));
                assert(out@ =~= pre + avc_record_bytes(*self));
            }
        }
        Ok(())
    }
}

} // verus!
