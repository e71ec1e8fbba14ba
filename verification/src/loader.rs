//! The binary loader and its inverse: little-endian byte streams paired
//! into 16-bit words, and words flattened back to bytes.  A trailing odd
//! byte loads as a word whose high byte is zero.

use vstd::prelude::*;

verus! {

/// The word two little-endian bytes form: `high * 256 + low`.
pub open spec fn spec_word_of(low: u8, high: u8) -> u16 {
    (high * 256 + low) as u16
}

/// The words a little-endian byte stream loads to; a trailing odd byte
/// gets a zero high byte.
pub open spec fn spec_words_from_bytes(bytes: Seq<u8>) -> Seq<u16> {
    Seq::new(((bytes.len() + 1) / 2) as nat, |i: int| spec_word_of(
        bytes[2 * i],
        if 2 * i + 1 < bytes.len() {
            bytes[2 * i + 1]
        } else {
            0u8
        },
    ))
}

/// The little-endian byte stream of a word sequence: low byte first.
pub open spec fn spec_bytes_from_words(words: Seq<u16>) -> Seq<u8> {
    Seq::new((words.len() * 2) as nat, |i: int| if i % 2 == 0 {
        (words[i / 2] % 256) as u8
    } else {
        (words[i / 2] / 256) as u8
    })
}

/// Pair adjacent bytes `(low, high)` into words `high<<8 | low`; a missing
/// final high byte is taken as zero.
pub fn words_from_bytes(bytes: &[u8]) -> (words: Vec<u16>)
    ensures
        words@ == spec_words_from_bytes(bytes@),
{
    let mut words: Vec<u16> = Vec::new();
    let mut i: usize = 0;
    while i + 1 < bytes.len()
        invariant
            i % 2 == 0,
            i <= bytes.len() + 1,
            i + 1 < bytes.len() ==> i + 2 <= bytes.len(),
            words@ =~= spec_words_from_bytes(bytes@).take(i as int / 2),
        decreases bytes.len() - i,
    {
        let low = bytes[i];
        let high = bytes[i + 1];
        words.push((high as u16) * 256 + (low as u16));
        proof {
            assert(spec_words_from_bytes(bytes@).take((i + 2) as int / 2)
                =~= spec_words_from_bytes(bytes@).take(i as int / 2).push(
                spec_word_of(bytes@[i as int], bytes@[i as int + 1]),
            ));
        }
        i = i + 2;
    }
    if i < bytes.len() {
        let low = bytes[i];
        words.push(low as u16);
        proof {
            assert(spec_word_of(bytes@[i as int], 0u8) == low as u16);
        }
    }
    proof {
        assert(words@ =~= spec_words_from_bytes(bytes@));
    }
    words
}

/// Flatten words back to a little-endian byte stream, low byte first.
pub fn bytes_from_words(words: &[u16]) -> (bytes: Vec<u8>)
    ensures
        bytes@ == spec_bytes_from_words(words@),
{
    let mut bytes: Vec<u8> = Vec::new();
    let mut i: usize = 0;
    while i < words.len()
        invariant
            i <= words.len(),
            bytes@ =~= spec_bytes_from_words(words@).take(2 * i as int),
            bytes@.len() == 2 * i,
        decreases words.len() - i,
    {
        let w = words[i];
        bytes.push((w % 256) as u8);
        bytes.push((w / 256) as u8);
        proof {
            assert(spec_bytes_from_words(words@).take(2 * (i + 1) as int) =~= spec_bytes_from_words(
                words@,
            ).take(2 * i as int).push((words@[i as int] % 256) as u8).push(
                (words@[i as int] / 256) as u8,
            ));
        }
        i = i + 1;
    }
    proof {
        assert(bytes@ =~= spec_bytes_from_words(words@));
    }
    bytes
}

/// Loading then serializing is the identity on even-length byte streams;
/// an odd-length stream comes back with exactly one zero byte appended.
pub proof fn lemma_loader_round_trip(bytes: Seq<u8>)
    ensures
        bytes.len() % 2 == 0 ==> spec_bytes_from_words(spec_words_from_bytes(bytes)) == bytes,
        bytes.len() % 2 == 1 ==> spec_bytes_from_words(spec_words_from_bytes(bytes)) == bytes.push(
            0u8,
        ),
{
    let words = spec_words_from_bytes(bytes);
    let round = spec_bytes_from_words(words);
    assert forall|i: int| 0 <= i < round.len() implies round[i] == (if i < bytes.len() {
        bytes[i]
    } else {
        0u8
    }) by {
        let w = words[i / 2];
        let low = bytes[2 * (i / 2)];
        let high: u8 = if 2 * (i / 2) + 1 < bytes.len() {
            bytes[2 * (i / 2) + 1]
        } else {
            0u8
        };
        assert(w == high * 256 + low);
        assert(w % 256 == low && w / 256 == high) by (nonlinear_arith)
            requires
                w == high * 256 + low,
                0 <= low < 256,
                0 <= high < 256,
        ;
    }
    if bytes.len() % 2 == 0 {
        assert(round =~= bytes);
    } else {
        assert(round =~= bytes.push(0u8));
    }
}

/// Serializing then loading is the identity on word sequences.
pub proof fn lemma_words_round_trip(words: Seq<u16>)
    ensures
        spec_words_from_bytes(spec_bytes_from_words(words)) == words,
{
    let bytes = spec_bytes_from_words(words);
    let round = spec_words_from_bytes(bytes);
    assert forall|i: int| 0 <= i < round.len() implies round[i] == words[i] by {
        let w = words[i];
        assert(w / 256 < 256);
        assert((w / 256) * 256 + (w % 256) == w) by (nonlinear_arith);
    }
    assert(round =~= words);
}

/// The words a raw hex argument spells: each word is four hex digits,
/// low byte first ("0102" is the word 0x0201); trailing characters short
/// of a full group are ignored.
pub open spec fn spec_sequence_words(bytes: Seq<u8>, words: int) -> Seq<u16>
    decreases words,
{
    if words <= 0 {
        Seq::empty()
    } else {
        spec_sequence_words(bytes, words - 1).push(
            {
                let left = 4 * (words - 1);
                let low = crate::patch::spec_hex_byte_val(bytes[left]) * 16
                    + crate::patch::spec_hex_byte_val(bytes[left + 1]);
                let high = crate::patch::spec_hex_byte_val(bytes[left + 2]) * 16
                    + crate::patch::spec_hex_byte_val(bytes[left + 3]);
                (high * 256 + low) as u16
            },
        )
    }
}

/// Decode a raw hex word sequence ("treat the input as little-endian hex
/// words"): `Some` exactly when every character of the complete
/// four-digit groups is a hex digit.
pub fn sequence_decypher(input: &str) -> (r: Option<Vec<u16>>)
    ensures
        r matches Some(v) ==> {
            let bytes = vstd::utf8::encode_utf8(input@);
            &&& crate::patch::spec_all_hex(bytes, 0, 4 * (bytes.len() as int / 4))
            &&& v@ == spec_sequence_words(bytes, bytes.len() as int / 4)
        },
        r is None ==> !crate::patch::spec_all_hex(
            vstd::utf8::encode_utf8(input@),
            0,
            4 * (vstd::utf8::encode_utf8(input@).len() as int / 4),
        ),
{
    let bytes = input.as_bytes();
    proof {
        assert(bytes@ == vstd::utf8::encode_utf8(input@));
    }
    let blen = bytes.len();
    let words = blen / 4;
    let mut out: Vec<u16> = Vec::new();
    let mut w: usize = 0;
    while w < words
        invariant
            w <= words,
            blen == bytes@.len(),
            words == blen / 4,
            bytes@ == vstd::utf8::encode_utf8(input@),
            crate::patch::spec_all_hex(bytes@, 0, 4 * w as int),
            out@ =~= spec_sequence_words(bytes@, w as int),
        decreases words - w,
    {
        assert(4 * words <= blen);
        let left = 4 * w;
        let mut k: usize = 0;
        while k < 4
            invariant
                k <= 4,
                left == 4 * w,
                left + 4 <= bytes@.len(),
                bytes@ == vstd::utf8::encode_utf8(input@),
                words == bytes@.len() / 4,
                w < words,
                crate::patch::spec_all_hex(bytes@, 0, 4 * w as int),
                crate::patch::spec_all_hex(bytes@, left as int, left + k as int),
            decreases 4 - k,
        {
            let b = bytes[left + k];
            if !((0x30 <= b && b <= 0x39) || (0x41 <= b && b <= 0x46) || (0x61 <= b && b
                <= 0x66)) {
                assert(!crate::patch::spec_hex_byte(bytes@[left + k as int]));
                return None;
            }
            k = k + 1;
        }
        let low = (hex_digit_value(bytes[left]) as u16) * 16 + hex_digit_value(
            bytes[left + 1],
        ) as u16;
        let high = (hex_digit_value(bytes[left + 2]) as u16) * 16 + hex_digit_value(
            bytes[left + 3],
        ) as u16;
        out.push(high * 256 + low);
        proof {
            assert(crate::patch::spec_all_hex(bytes@, 0, 4 * (w + 1)));
            assert(out@ =~= spec_sequence_words(bytes@, w + 1 as int));
        }
        w = w + 1;
    }
    Some(out)
}

/// The hex digit's value (callers check the byte first).
fn hex_digit_value(b: u8) -> (v: u8)
    ensures
        v == crate::patch::spec_hex_byte_val(b),
        v < 16,
{
    if 0x30 <= b && b <= 0x39 {
        b - 0x30
    } else if 0x41 <= b && b <= 0x46 {
        b - 0x41 + 10
    } else if 0x61 <= b && b <= 0x66 {
        b - 0x61 + 10
    } else {
        0
    }
}

} // verus!
