//! NAL unit headers and the Annex-B byte-stream splitter.
//!
//! An Annex-B stream is a byte buffer in which NAL units are delimited by
//! three- or four-byte start codes (`00 00 01` / `00 00 00 01`).
//! `ByteStreamFormatNalUnits` splits such a buffer into the units between
//! the start codes; `NalUnit` classifies a unit's leading header byte.
use vstd::prelude::*;
use crate::Error;

verus! {

/// The closed set of NAL unit type codes this crate accepts: values 1
/// through 15 and 19 through 21 of the standard's five-bit type field.
#[derive(Debug, Clone, Copy, PartialEq, Eq, Hash, Structural)]
pub enum NalUnitType {
    CodedSliceOfANonIdrPicture,
    CodedSliceDataPartitionA,
    CodedSliceDataPartitionB,
    CodedSliceDataPartitionC,
    CodedSliceOfAnIdrPicture,
    SupplementalEnhancementInformation,
    SequenceParameterSet,
    PictureParameterSet,
    AccessUnitDelimiter,
    EndOfSequence,
    EndOfStream,
    FilterData,
    SequenceParameterSetExtension,
    PrefixNalUnit,
    SubsetSequenceParameterSet,
    CodedSliceOfAnAuxiliaryCodedPictureWithoutPartitioning,
    CodedSliceExtension,
    CodedSliceExtensionForDepthViewComponents,
}

/// The five-bit code of each unit type.
pub open spec fn nal_unit_type_code(t: NalUnitType) -> u8 {
    match t {
        NalUnitType::CodedSliceOfANonIdrPicture => 1,
        NalUnitType::CodedSliceDataPartitionA => 2,
        NalUnitType::CodedSliceDataPartitionB => 3,
        NalUnitType::CodedSliceDataPartitionC => 4,
        NalUnitType::CodedSliceOfAnIdrPicture => 5,
        NalUnitType::SupplementalEnhancementInformation => 6,
        NalUnitType::SequenceParameterSet => 7,
        NalUnitType::PictureParameterSet => 8,
        NalUnitType::AccessUnitDelimiter => 9,
        NalUnitType::EndOfSequence => 10,
        NalUnitType::EndOfStream => 11,
        NalUnitType::FilterData => 12,
        NalUnitType::SequenceParameterSetExtension => 13,
        NalUnitType::PrefixNalUnit => 14,
        NalUnitType::SubsetSequenceParameterSet => 15,
        NalUnitType::CodedSliceOfAnAuxiliaryCodedPictureWithoutPartitioning => 19,
        NalUnitType::CodedSliceExtension => 20,
        NalUnitType::CodedSliceExtensionForDepthViewComponents => 21,
    }
}

/// Whether a five-bit code names a unit type of the closed enumeration.
pub open spec fn valid_nal_unit_type_code(n: u8) -> bool {
    1 <= n <= 15 || 19 <= n <= 21
}

impl NalUnitType {
    /// Maps a five-bit type code to its variant; any code outside the
    /// closed set is a format error, never a default.
    pub fn from_u8(n: u8) -> (r: Result<NalUnitType, Error>)
        ensures
            match r {
                Ok(t) => valid_nal_unit_type_code(n) && nal_unit_type_code(t) == n,
                Err(e) => e == Error::InvalidInput && !valid_nal_unit_type_code(n),
            },
    {
        match n {
            1 => Ok(NalUnitType::CodedSliceOfANonIdrPicture),
            2 => Ok(NalUnitType::CodedSliceDataPartitionA),
            3 => Ok(NalUnitType::CodedSliceDataPartitionB),
            4 => Ok(NalUnitType::CodedSliceDataPartitionC),
            5 => Ok(NalUnitType::CodedSliceOfAnIdrPicture),
            6 => Ok(NalUnitType::SupplementalEnhancementInformation),
            7 => Ok(NalUnitType::SequenceParameterSet),
            8 => Ok(NalUnitType::PictureParameterSet),
            9 => Ok(NalUnitType::AccessUnitDelimiter),
            10 => Ok(NalUnitType::EndOfSequence),
            11 => Ok(NalUnitType::EndOfStream),
            12 => Ok(NalUnitType::FilterData),
            13 => Ok(NalUnitType::SequenceParameterSetExtension),
            14 => Ok(NalUnitType::PrefixNalUnit),
            15 => Ok(NalUnitType::SubsetSequenceParameterSet),
            19 => Ok(NalUnitType::CodedSliceOfAnAuxiliaryCodedPictureWithoutPartitioning),
            20 => Ok(NalUnitType::CodedSliceExtension),
            21 => Ok(NalUnitType::CodedSliceExtensionForDepthViewComponents),
            _ => Err(Error::InvalidInput),
        }
    }
}

/// A classified NAL unit header: the reference-importance field and the
/// unit type of one leading header byte.
#[derive(Debug, Clone, Copy, PartialEq, Eq, Structural)]
pub struct NalUnit {
    /// Bits 6 and 5 of the header byte: how important the unit is as a
    /// reference (0 to 3).
    pub nal_ref_idc: u8,
    /// Bits 4 to 0 of the header byte, mapped through the closed type
    /// enumeration.
    pub nal_unit_type: NalUnitType,
}

impl NalUnit {
    /// Classifies the leading byte of a NAL unit buffer. Fails on an
    /// empty buffer and on a type code outside the closed set.
    pub fn read_from(bytes: &Vec<u8>) -> (r: Result<NalUnit, Error>)
        ensures
            match r {
                Ok(u) => {
                    &&& bytes@.len() > 0
                    &&& valid_nal_unit_type_code((bytes@[0] % 32) as u8)
                    &&& u.nal_ref_idc == (bytes@[0] as int / 32) % 4
                    &&& nal_unit_type_code(u.nal_unit_type) == bytes@[0] % 32
                },
                Err(e) => e == Error::InvalidInput && (bytes@.len() == 0
                    || !valid_nal_unit_type_code((bytes@[0] % 32) as u8)),
            },
    {
        if bytes.len() == 0 {
            return Err(Error::InvalidInput);
        }
        let b = bytes[0];
        let nal_unit_type = match NalUnitType::from_u8(b % 32) {
            Ok(t) => t,
            Err(e) => {
                return Err(e);
            },
        };
        Ok(NalUnit { nal_ref_idc: (b / 32) % 4, nal_unit_type })
    }
}

/// A four-byte start code `00 00 00 01` begins at index `i` of `s`.
pub open spec fn start4_at(s: Seq<u8>, i: int) -> bool {
    &&& i + 4 <= s.len()
    &&& s[i] == 0
    &&& s[i + 1] == 0
    &&& s[i + 2] == 0
    &&& s[i + 3] == 1
}

/// A three-byte start code `00 00 01` begins at index `i` of `s`.
pub open spec fn start3_at(s: Seq<u8>, i: int) -> bool {
    &&& i + 3 <= s.len()
    &&& s[i] == 0
    &&& s[i + 1] == 0
    &&& s[i + 2] == 1
}

/// Either start code begins at index `i` of `s`.
pub open spec fn start_at(s: Seq<u8>, i: int) -> bool {
    start4_at(s, i) || start3_at(s, i)
}

/// The index of the first start code at or after `i`, or the buffer's
/// length when none follows.
pub open spec fn next_start(s: Seq<u8>, i: int) -> int
    decreases s.len() - i,
{
    if i >= s.len() {
        s.len() as int
    } else if start_at(s, i) {
        i
    } else {
        next_start(s, i + 1)
    }
}

/// The first start code at or after `i` is at `k`, given that none sits
/// in between.
proof fn lemma_next_start_from(s: Seq<u8>, i: int, k: int)
    requires
        0 <= i <= k <= s.len(),
        forall|j: int| i <= j < k ==> !start_at(s, j),
        k == s.len() || start_at(s, k),
    ensures
        next_start(s, i) == k,
    decreases k - i,
{
    if i < k {
        lemma_next_start_from(s, i + 1, k);
    }
}

/// Whether a four-byte start code begins at index `i` of `v`.
fn starts4_here(v: &Vec<u8>, i: usize) -> (r: bool)
    requires
        i <= v@.len(),
    ensures
        r == start4_at(v@, i as int),
{
    v.len() - i >= 4 && v[i] == 0 && v[i + 1] == 0 && v[i + 2] == 0 && v[i + 3] == 1
}

/// Whether a three-byte start code begins at index `i` of `v`.
fn starts3_here(v: &Vec<u8>, i: usize) -> (r: bool)
    requires
        i <= v@.len(),
    ensures
        r == start3_at(v@, i as int),
{
    v.len() - i >= 3 && v[i] == 0 && v[i + 1] == 0 && v[i + 2] == 1
}

/// A single-pass splitter over an Annex-B byte stream: repeated calls to
/// `next` yield the NAL units between the start codes, in order, start
/// codes excluded and emulation-prevention bytes untouched.
#[derive(Debug)]
pub struct ByteStreamFormatNalUnits {
    /// What is left of the stream: everything after the start codes
    /// consumed so far.
    pub bytes: Vec<u8>,
}

impl ByteStreamFormatNalUnits {
    /// Accepts a buffer beginning with a three- or four-byte start code
    /// and positions the splitter after it; any other prefix is a format
    /// error.
    pub fn new(bytes: &Vec<u8>) -> (r: Result<ByteStreamFormatNalUnits, Error>)
        ensures
            match r {
                Ok(u) => {
                    &&& start_at(bytes@, 0)
                    &&& u.bytes@ == (if start3_at(bytes@, 0) {
                        bytes@.skip(3)
                    } else {
                        bytes@.skip(4)
                    })
                },
                Err(e) => e == Error::InvalidInput && !start_at(bytes@, 0),
            },
    {
        let skip: usize = if starts3_here(bytes, 0) {
            3
        } else if starts4_here(bytes, 0) {
            4
        } else {
            return Err(Error::InvalidInput);
        };
        let mut rest: Vec<u8> = Vec::new();
        let mut j: usize = skip;
        while j < bytes.len()
            invariant
                skip <= j <= bytes@.len(),
                rest@ == bytes@.subrange(skip as int, j as int),
            decreases bytes@.len() - j,
        {
            rest.push(bytes[j]);
            proof {
                assert(rest@ =~= bytes@.subrange(skip as int, j + 1));
            }
            j = j + 1;
        }
        proof {
            assert(bytes@.subrange(skip as int, bytes@.len() as int) =~= bytes@.skip(skip as int));
        }
        Ok(ByteStreamFormatNalUnits { bytes: rest })
    }

    /// Yields the next NAL unit: the bytes up to (not including) the next
    /// start code, or to the end of the buffer; `None` once the buffer is
    /// exhausted.
    pub fn next(&mut self) -> (r: Option<Vec<u8>>)
        ensures
            old(self).bytes@.len() == 0 ==> r is None && *final(self) == *old(self),
            old(self).bytes@.len() > 0 ==> ({
                let s = old(self).bytes@;
                let end = next_start(s, 0);
                &&& r matches Some(u) && u@ == s.take(end)
                &&& final(self).bytes@ == (if end == s.len() {
                    Seq::<u8>::empty()
                } else if start4_at(s, end) {
                    s.skip(end + 4)
                } else {
                    s.skip(end + 3)
                })
            }),
    {
        if self.bytes.len() == 0 {
            return None;
        }
        let ghost s = self.bytes@;
        let n = self.bytes.len();
        let mut i: usize = 0;
        let mut end: usize = n;
        let mut nxt: usize = n;
        let mut found = false;
        while i < n && !found
            invariant
                i <= n,
                n == self.bytes@.len(),
                self.bytes@ == s,
                forall|j: int| 0 <= j < i ==> !start_at(s, j),
                !found ==> end == n && nxt == n,
                found ==> start_at(s, i as int) && end == i && nxt == (if start4_at(s, i as int) {
                    i + 4
                } else {
                    i + 3
                }) && nxt <= n,
            decreases n - i, (if found { 0int } else { 1int }),
        {
            if starts4_here(&self.bytes, i) {
                end = i;
                nxt = i + 4;
                found = true;
            } else if starts3_here(&self.bytes, i) {
                end = i;
                nxt = i + 3;
                found = true;
            } else {
                i = i + 1;
            }
        }
        proof {
            if found {
                lemma_next_start_from(s, 0, i as int);
            } else {
                lemma_next_start_from(s, 0, n as int);
            }
            assert(next_start(s, 0) == end);
        }
        let mut unit: Vec<u8> = Vec::new();
        let mut j: usize = 0;
        while j < end
            invariant
                j <= end <= n,
                n == self.bytes@.len(),
                self.bytes@ == s,
                unit@ == s.subrange(0, j as int),
            decreases end - j,
        {
            unit.push(self.bytes[j]);
            proof {
                assert(unit@ =~= s.subrange(0, j + 1));
            }
            j = j + 1;
        }
        let mut rest: Vec<u8> = Vec::new();
        let mut j2: usize = nxt;
        while j2 < n
            invariant
                nxt <= j2 <= n,
                n == self.bytes@.len(),
                self.bytes@ == s,
                rest@ == s.subrange(nxt as int, j2 as int),
            decreases n - j2,
        {
            rest.push(self.bytes[j2]);
            proof {
                assert(rest@ =~= s.subrange(nxt as int, j2 + 1));
            }
            j2 = j2 + 1;
        }
        self.bytes = rest;
        proof {
            assert(unit@ =~= s.take(next_start(s, 0)));
            if end == n {
                assert(self.bytes@ =~= Seq::<u8>::empty());
            } else if start4_at(s, end as int) {
                assert(self.bytes@ =~= s.skip(end + 4));
            } else {
                assert(self.bytes@ =~= s.skip(end + 3));
            }
        }
        Some(unit)
    }
}

} // verus!
