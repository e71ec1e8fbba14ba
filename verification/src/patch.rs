//! The binary patcher: parse "ADDR:HEXDATA" segment arguments and apply
//! them to a binary image at word granularity.  ADDR is four hex digits
//! (a word address; the byte offset is twice that); HEXDATA is one or
//! more four-hex-digit little-endian words.

use vstd::prelude::*;
use vstd::string::StringSliceAdditionalSpecFns;

verus! {

/// Whether a character is a hex digit (either case).
pub open spec fn spec_hex_num(c: char) -> bool {
    ('0' <= c && c <= '9') || ('A' <= c && c <= 'F') || ('a' <= c && c <= 'f')
}

/// Whether a character is a hex digit (either case).
pub fn hex_num(c: char) -> (r: bool)
    ensures
        r == spec_hex_num(c),
{
    ('0' <= c && c <= '9') || ('A' <= c && c <= 'F') || ('a' <= c && c <= 'f')
}

/// Whether a byte is an ASCII hex digit (either case).
pub open spec fn spec_hex_byte(b: u8) -> bool {
    (0x30 <= b <= 0x39) || (0x41 <= b <= 0x46) || (0x61 <= b <= 0x66)
}

/// The value of an ASCII hex digit byte.
pub open spec fn spec_hex_byte_val(b: u8) -> u8 {
    if 0x30 <= b <= 0x39 {
        (b - 0x30) as u8
    } else if 0x41 <= b <= 0x46 {
        (b - 0x41 + 10) as u8
    } else if 0x61 <= b <= 0x66 {
        (b - 0x61 + 10) as u8
    } else {
        0
    }
}

/// One chunk of data to overwrite in a binary image.
#[derive(Debug, Clone, PartialEq, Eq)]
pub struct Segment {
    /// The word address the chunk starts at (byte offset: twice this).
    pub start_address: u16,
    /// The raw bytes to write there.
    pub data: Vec<u8>,
}

/// Why a segment argument was rejected.
#[derive(Debug, Clone, Copy, PartialEq, Eq, Structural)]
pub enum SegmentError {
    /// Too short, or the fifth character is no colon.
    MalformedArgument,
    /// The four address characters are not all hex digits.
    MalformedAddress,
    /// The data characters are not hex digits in groups of four.
    MalformedData,
}

/// Whether all bytes of the range are hex digits.
pub open spec fn spec_all_hex(bytes: Seq<u8>, from: int, to: int) -> bool {
    forall|i: int| from <= i < to ==> spec_hex_byte(#[trigger] bytes[i])
}

/// The value of four hex digit bytes starting at `i`.
pub open spec fn spec_hex4_val(bytes: Seq<u8>, i: int) -> u16 {
    (spec_hex_byte_val(bytes[i]) * 0x1000 + spec_hex_byte_val(bytes[i + 1]) * 0x100
        + spec_hex_byte_val(bytes[i + 2]) * 0x10 + spec_hex_byte_val(bytes[i + 3])) as u16
}

/// The patch bytes a data group of four hex characters contributes: the
/// second byte of the group text comes first (the words are given in
/// little-endian text order).
pub open spec fn spec_segment_bytes(bytes: Seq<u8>, from: int, groups: int) -> Seq<u8>
    decreases groups,
{
    if groups <= 0 {
        Seq::empty()
    } else {
        seq![
            (spec_hex_byte_val(bytes[from + 2]) * 16 + spec_hex_byte_val(bytes[from + 3])) as u8,
            (spec_hex_byte_val(bytes[from]) * 16 + spec_hex_byte_val(bytes[from + 1])) as u8,
        ] + spec_segment_bytes(bytes, from + 4, groups - 1)
    }
}

/// Whether a segment argument is well formed: at least nine bytes,
/// a colon after the four-hex-digit address, and hex data in groups of
/// four.
pub open spec fn spec_segment_ok(bytes: Seq<u8>) -> bool {
    &&& bytes.len() >= 9
    &&& bytes[4] == 0x3Au8
    &&& spec_all_hex(bytes, 0, 4)
    &&& spec_all_hex(bytes, 5, bytes.len() as int)
    &&& (bytes.len() - 5) % 4 == 0
}

impl Segment {
    /// Parse one "ADDR:HEXDATA" argument.  `Ok` exactly on well-formed
    /// arguments; the errors tell which part was rejected first.
    pub fn parse_arg(argument: &str) -> (r: Result<Segment, SegmentError>)
        ensures
            r matches Ok(seg) ==> {
                let bytes = vstd::utf8::encode_utf8(argument@);
                &&& spec_segment_ok(bytes)
                &&& seg.start_address == spec_hex4_val(bytes, 0)
                &&& seg.data@ == spec_segment_bytes(bytes, 5, (bytes.len() - 5) / 4)
            },
            r matches Err(e) ==> {
                let bytes = vstd::utf8::encode_utf8(argument@);
                &&& !spec_segment_ok(bytes)
                &&& (e == SegmentError::MalformedArgument <==> (bytes.len() < 9 || bytes[4]
                    != 0x3Au8))
                &&& (e == SegmentError::MalformedAddress <==> (bytes.len() >= 9 && bytes[4]
                    == 0x3Au8 && !spec_all_hex(bytes, 0, 4)))
            },
    {
        let bytes = argument.as_bytes();
        proof {
            assert(bytes@ == vstd::utf8::encode_utf8(argument@));
        }
        if bytes.len() < 9 || bytes[4] != 0x3A {
            return Err(SegmentError::MalformedArgument);
        }
        let mut i: usize = 0;
        while i < 4
            invariant
                i <= 4,
                bytes@.len() >= 9,
                bytes@ == vstd::utf8::encode_utf8(argument@),
                bytes@[4] == 0x3Au8,
                spec_all_hex(bytes@, 0, i as int),
            decreases 4 - i,
        {
            let b = bytes[i];
            if !((0x30 <= b && b <= 0x39) || (0x41 <= b && b <= 0x46) || (0x61 <= b && b
                <= 0x66)) {
                assert(!spec_hex_byte(bytes@[i as int]));
                assert(!spec_all_hex(bytes@, 0, 4));
                return Err(SegmentError::MalformedAddress);
            }
            i = i + 1;
        }
        if (bytes.len() - 5) % 4 != 0 {
            return Err(SegmentError::MalformedData);
        }
        let mut i: usize = 5;
        while i < bytes.len()
            invariant
                5 <= i <= bytes@.len(),
                bytes@.len() >= 9,
                bytes@ == vstd::utf8::encode_utf8(argument@),
                bytes@[4] == 0x3Au8,
                spec_all_hex(bytes@, 0, 4),
                (bytes@.len() - 5) % 4 == 0,
                spec_all_hex(bytes@, 5, i as int),
            decreases bytes@.len() - i,
        {
            let b = bytes[i];
            if !((0x30 <= b && b <= 0x39) || (0x41 <= b && b <= 0x46) || (0x61 <= b && b
                <= 0x66)) {
                assert(!spec_hex_byte(bytes@[i as int]));
                assert(!spec_all_hex(bytes@, 5, bytes@.len() as int));
                return Err(SegmentError::MalformedData);
            }
            i = i + 1;
        }
        let start_address = hex_val(bytes[0]) as u16 * 0x1000 + hex_val(bytes[1]) as u16 * 0x100
            + hex_val(bytes[2]) as u16 * 0x10 + hex_val(bytes[3]) as u16;
        let mut data: Vec<u8> = Vec::new();
        let mut from: usize = 5;
        while from < bytes.len()
            invariant
                5 <= from <= bytes@.len(),
                (from - 5) % 4 == 0,
                (bytes@.len() - 5) % 4 == 0,
                bytes@.len() >= 9,
                spec_all_hex(bytes@, 5, bytes@.len() as int),
                data@ =~= spec_segment_bytes(bytes@, 5, (from - 5) as int / 4),
            decreases bytes@.len() - from,
        {
            assert(from + 4 <= bytes@.len());
            data.push(hex_val(bytes[from + 2]) * 16 + hex_val(bytes[from + 3]));
            data.push(hex_val(bytes[from]) * 16 + hex_val(bytes[from + 1]));
            proof {
                let g = (from - 5) as int / 4;
                assert(5 + 4 * g == from);
                lemma_segment_bytes_snoc(bytes@, 5, g);
                assert(data@ =~= spec_segment_bytes(bytes@, 5, g + 1));
                assert((from + 4 - 5) as int / 4 == g + 1);
            }
            from = from + 4;
        }
        proof {
            assert((bytes@.len() - 5) as int / 4 == (bytes@.len() - 5) / 4);
        }
        Ok(Segment { start_address, data })
    }
}

/// One more group appends its two bytes.
proof fn lemma_segment_bytes_snoc(bytes: Seq<u8>, from: int, g: int)
    requires
        g >= 0,
    ensures
        spec_segment_bytes(bytes, from, g + 1) == spec_segment_bytes(bytes, from, g) + seq![
            (spec_hex_byte_val(bytes[from + 4 * g + 2]) * 16 + spec_hex_byte_val(
                bytes[from + 4 * g + 3],
            )) as u8,
            (spec_hex_byte_val(bytes[from + 4 * g]) * 16 + spec_hex_byte_val(
                bytes[from + 4 * g + 1],
            )) as u8,
        ],
    decreases g,
{
    if g == 0 {
        assert(spec_segment_bytes(bytes, from, 0) == Seq::<u8>::empty());
        assert(spec_segment_bytes(bytes, from + 4, 0) == Seq::<u8>::empty());
        assert(spec_segment_bytes(bytes, from, 1) =~= spec_segment_bytes(bytes, from, 0) + seq![
            (spec_hex_byte_val(bytes[from + 2]) * 16 + spec_hex_byte_val(bytes[from + 3])) as u8,
            (spec_hex_byte_val(bytes[from]) * 16 + spec_hex_byte_val(bytes[from + 1])) as u8,
        ]);
    } else {
        lemma_segment_bytes_snoc(bytes, from + 4, g - 1);
        assert(spec_segment_bytes(bytes, from, g + 1) =~= spec_segment_bytes(bytes, from, g)
            + seq![
            (spec_hex_byte_val(bytes[from + 4 * g + 2]) * 16 + spec_hex_byte_val(
                bytes[from + 4 * g + 3],
            )) as u8,
            (spec_hex_byte_val(bytes[from + 4 * g]) * 16 + spec_hex_byte_val(
                bytes[from + 4 * g + 1],
            )) as u8,
        ]);
    }
}

/// The ASCII hex digit's value (callers check the byte first).
fn hex_val(b: u8) -> (v: u8)
    ensures
        v == spec_hex_byte_val(b),
        v < 16,
{
    if 0x30 <= b && b <= 0x39 {
        b - 0x30
    } else if 0x41 <= b && b <= 0x46 {
        b - 0x41 + 10
    } else if 0x61 <= b && b <= 0x66 {
        b - 0x61 + 10
    } else {
        0
    }
}

/// A file image with one segment applied: the segment's bytes overwrite
/// the image starting at twice the segment's word address.
pub open spec fn spec_apply_segment(file: Seq<u8>, seg: Segment) -> Seq<u8> {
    Seq::new(file.len(), |i: int| if seg.start_address * 2 <= i < seg.start_address * 2
        + seg.data@.len() {
        seg.data@[i - seg.start_address * 2]
    } else {
        file[i]
    })
}

/// A file image with all segments applied in order: later segments win
/// on overlap.
pub open spec fn spec_apply_segments(file: Seq<u8>, segs: Seq<Segment>) -> Seq<u8>
    decreases segs.len(),
{
    if segs.len() == 0 {
        file
    } else {
        spec_apply_segments(spec_apply_segment(file, segs.first()), segs.drop_first())
    }
}

/// Whether every segment fits inside the file.
pub open spec fn spec_segments_fit(file_len: int, segs: Seq<Segment>) -> bool {
    forall|k: int| 0 <= k < segs.len() ==> (#[trigger] segs[k].start_address) * 2
        + segs[k].data@.len() <= file_len
}

/// Apply the segments to the file image in argument order.
pub fn apply_segments(file_data: &mut Vec<u8>, segments: &Vec<Segment>)
    requires
        spec_segments_fit(old(file_data)@.len() as int, segments@),
    ensures
        final(file_data)@ == spec_apply_segments(old(file_data)@, segments@),
{
    let ghost orig = file_data@;
    proof {
        assert(segments@.skip(0) =~= segments@);
    }
    let mut s: usize = 0;
    while s < segments.len()
        invariant
            s <= segments@.len(),
            file_data@.len() == orig.len(),
            spec_segments_fit(orig.len() as int, segments@),
            spec_apply_segments(orig, segments@) == spec_apply_segments(
                file_data@,
                segments@.skip(s as int),
            ),
        decreases segments@.len() - s,
    {
        proof {
            assert(segments@[s as int].start_address * 2 + segments@[s as int].data@.len()
                <= orig.len());
        }
        let start_index = (segments[s].start_address as usize) * 2;
        let dlen = segments[s].data.len();
        let ghost sdata = segments@[s as int].data@;
        let ghost before = file_data@;
        let flen = file_data.len();
        let mut index: usize = 0;
        while index < dlen
            invariant
                index <= sdata.len(),
                dlen == sdata.len(),
                flen == file_data@.len(),
                s < segments@.len(),
                sdata == segments@[s as int].data@,
                start_index == segments@[s as int].start_address * 2,
                start_index + sdata.len() <= file_data@.len(),
                file_data@.len() == before.len(),
                forall|i: int| 0 <= i < file_data@.len() ==> file_data@[i] == (if start_index
                    <= i < start_index + index {
                    sdata[i - start_index]
                } else {
                    before[i]
                }),
            decreases sdata.len() - index,
        {
            let b = segments[s].data[index];
            file_data[start_index + index] = b;
            index = index + 1;
        }
        proof {
            assert(file_data@ =~= spec_apply_segment(before, segments@[s as int]));
            assert(segments@.skip(s as int).first() == segments@[s as int]);
            assert(segments@.skip(s as int).drop_first() =~= segments@.skip(s + 1));
        }
        s = s + 1;
    }
    proof {
        assert(segments@.skip(segments@.len() as int) =~= Seq::<Segment>::empty());
    }
}

} // verus!
