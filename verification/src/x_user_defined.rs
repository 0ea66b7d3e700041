//! The x-user-defined codec: a stateless, one-byte-to-one-code-point
//! bijection between legacy bytes and Unicode scalar values.
//!
//! Decoding maps every byte to exactly one code point: bytes up to 0x7F pass
//! through as ASCII, bytes from 0x80 up map into the private-use range
//! 0xF780..=0xF7FF. Encoding inverts that mapping and stops, without consuming
//! it, at the first code point outside the reachable set. Both engines walk
//! their source in order, check destination space through a space-checked
//! handle before every write, and report an outcome with exact consumed and
//! written counts so the caller can resume with the remaining input.

use vstd::prelude::*;
use vstd::utf8::*;
use crate::handles::ByteDestination;
use crate::handles::Utf16Destination;
use crate::handles::Utf8Destination;

verus! {

/// The outcome of one decode call. Decoding for this encoding is total, so a
/// malformed-input outcome is never produced; the variant exists because the
/// outcome taxonomy is shared by every encoding of the streaming contract.
#[derive(Clone, Copy, Debug, PartialEq, Eq)]
pub enum DecoderResult {
    /// All available source bytes were consumed.
    InputEmpty,
    /// The destination cannot hold the text for the next source byte.
    OutputFull,
    /// A malformed byte sequence of the reported length was met (never for
    /// this encoding).
    Malformed(u8, u8),
}

/// The outcome of one encode call.
#[derive(Clone, Copy, Debug, PartialEq, Eq)]
pub enum EncoderResult {
    /// All available source code points were consumed.
    InputEmpty,
    /// The destination cannot hold the byte for the next code point.
    OutputFull,
    /// The next code point has no representation in this encoding; it was not
    /// consumed and is carried here for the caller's substitution policy.
    Unmappable(char),
}

/// The code point a legacy byte decodes to: ASCII passthrough below 0x80,
/// and an offset of 0xF700 into the private-use range above.
pub open spec fn decode_byte(b: u8) -> u32 {
    if b < 0x80 {
        b as u32
    } else {
        ((b as u32) + 0xF700) as u32
    }
}

/// Whether a code point has a representation in this encoding: exactly the
/// set reachable by `decode_byte`.
pub open spec fn cp_mappable(cp: u32) -> bool {
    cp <= 0x7F || (0xF780 <= cp <= 0xF7FF)
}

/// The legacy byte a mappable code point encodes to.
pub open spec fn encode_cp(cp: u32) -> u8
    recommends
        cp_mappable(cp),
{
    if cp <= 0x7F {
        cp as u8
    } else {
        ((cp as int) - 0xF700) as u8
    }
}

/// The UTF-16 text a byte sequence decodes to: one code unit per byte, since
/// every reachable code point lies in the Basic Multilingual Plane.
pub open spec fn decoded_utf16(s: Seq<u8>) -> Seq<u16> {
    Seq::new(s.len(), |i: int| decode_byte(s[i]) as u16)
}

/// The UTF-8 text a byte sequence decodes to: the concatenation of the UTF-8
/// encodings of the code points of its bytes, in order.
pub open spec fn decoded_utf8(s: Seq<u8>) -> Seq<u8>
    decreases s.len(),
{
    if s.len() == 0 {
        Seq::empty()
    } else {
        encode_scalar(decode_byte(s[0])) + decoded_utf8(s.drop_first())
    }
}

/// Whether a UTF-16 code unit is a high (leading) surrogate.
pub open spec fn is_high_surrogate(u: u16) -> bool {
    0xD800 <= u <= 0xDBFF
}

/// Whether a UTF-16 code unit is a low (trailing) surrogate.
pub open spec fn is_low_surrogate(u: u16) -> bool {
    0xDC00 <= u <= 0xDFFF
}

/// Whether a UTF-16 code unit is, on its own, a mappable code point. No
/// mappable code point is a surrogate, so progress through UTF-16 source is
/// always one code unit at a time.
pub open spec fn unit_mappable(u: u16) -> bool {
    cp_mappable(u as u32)
}

/// The legacy bytes a UTF-16 code unit sequence encodes to, one byte per
/// mappable code unit.
pub open spec fn encoded_units(s: Seq<u16>) -> Seq<u8> {
    Seq::new(s.len(), |i: int| encode_cp(s[i] as u32))
}

/// Whether a character is a mappable code point.
pub open spec fn char_mappable(c: char) -> bool {
    cp_mappable(c as u32)
}

/// The legacy bytes a character sequence encodes to, one byte per mappable
/// character.
pub open spec fn encoded_chars(s: Seq<char>) -> Seq<u8> {
    Seq::new(s.len(), |i: int| encode_cp(s[i] as u32))
}

/// The code point that starts at position `i` of UTF-16 source: a surrogate
/// pair combines into one supplementary-plane code point, a lone surrogate
/// stands for the replacement character, and any other unit is its own code
/// point. Used to name the code point an encode call reports as unmappable.
pub open spec fn utf16_code_point_at(s: Seq<u16>, i: int) -> u32
    recommends
        0 <= i < s.len(),
{
    let u = s[i];
    if is_high_surrogate(u) && i + 1 < s.len() && is_low_surrogate(s[i + 1]) {
        (0x10000 + ((u as int) - 0xD800) * 0x400 + ((s[i + 1] as int) - 0xDC00)) as u32
    } else if is_high_surrogate(u) || is_low_surrogate(u) {
        0xFFFD
    } else {
        u as u32
    }
}

/// A decoder for this encoding. It holds no state: every call is a pure
/// function of its source, its destination, and the continuation flag.
pub struct UserDefinedDecoder;

impl UserDefinedDecoder {
    /// A fresh decoder instance.
    pub fn new() -> UserDefinedDecoder {
        UserDefinedDecoder
    }

    /// Worst-case UTF-16 code units needed to decode `byte_length` bytes:
    /// exactly one unit per byte.
    pub fn max_utf16_buffer_length(&self, byte_length: usize) -> (n: usize)
        ensures
            n == byte_length,
    {
        byte_length
    }

    /// Worst-case UTF-8 bytes needed to decode `byte_length` bytes: three per
    /// byte, since bytes from 0x80 up decode to three-byte scalar values.
    pub fn max_utf8_buffer_length(&self, byte_length: usize) -> (n: usize)
        requires
            byte_length * 3 <= usize::MAX,
        ensures
            n == byte_length * 3,
    {
        byte_length * 3
    }

    /// Worst-case UTF-8 bytes needed to decode `byte_length` bytes when the
    /// caller may substitute replacement characters: still three per byte,
    /// since the replacement character itself takes three bytes.
    pub fn max_utf8_buffer_length_with_replacement(&self, byte_length: usize) -> (n: usize)
        requires
            byte_length * 3 <= usize::MAX,
        ensures
            n == byte_length * 3,
    {
        byte_length * 3
    }

    /// Decode source bytes into UTF-16 text, stopping when the source or the
    /// destination is exhausted.
    ///
    /// Decoding is total: the outcome is never `Malformed`, and the
    /// destination grows by exactly the decoded text of the consumed prefix.
    /// A destination sized by `max_utf16_buffer_length` always consumes the
    /// whole source. This encoding is stateless, so the continuation flag
    /// `_last` does not change the result.
    pub fn decode_to_utf16_raw(&self, src: &[u8], dst: &mut Utf16Destination, _last: bool) -> (r: (
        DecoderResult,
        usize,
        usize,
    ))
        requires
            old(dst).wf(),
        ensures
            final(dst).wf(),
            final(dst).capacity() == old(dst).capacity(),
            r.1 <= src@.len(),
            final(dst)@ == old(dst)@ + decoded_utf16(src@.take(r.1 as int)),
            r.2 == r.1,
            !(r.0 is Malformed),
            (r.0 is InputEmpty) <==> r.1 == src@.len(),
            (r.0 is OutputFull) ==> r.1 < src@.len() && final(dst)@.len() == old(dst).capacity(),
            old(dst)@.len() + src@.len() <= old(dst).capacity() ==> r.0 is InputEmpty,
    {
        let ghost start = dst@;
        let mut i: usize = 0;
        loop
            invariant
                i <= src@.len(),
                dst.wf(),
                dst.capacity() == old(dst).capacity(),
                dst@ == start + decoded_utf16(src@.take(i as int)),
                start == old(dst)@,
            decreases src@.len() - i,
        {
            if i == src.len() {
                return (DecoderResult::InputEmpty, i, i);
            }
            if !dst.space_for(1) {
                return (DecoderResult::OutputFull, i, i);
            }
            let b: u8 = src[i];
            let unit: u16 = if b < 0x80 {
                b as u16
            } else {
                b as u16 + 0xF700
            };
            assert(unit == decode_byte(b) as u16);
            dst.write_bmp(unit);
            i = i + 1;
            proof {
                assert(decoded_utf16(src@.take(i as int)) =~= decoded_utf16(
                    src@.take(i - 1),
                ).push(decode_byte(src@[i - 1]) as u16));
            }
        }
    }

    /// Decode source bytes into UTF-8 text, stopping when the source is
    /// exhausted or the next code point no longer fits the destination.
    ///
    /// Decoding is total: the outcome is never `Malformed`, and the
    /// destination grows by exactly the decoded text of the consumed prefix.
    /// A destination sized by `max_utf8_buffer_length` always consumes the
    /// whole source. This encoding is stateless, so the continuation flag
    /// `_last` does not change the result.
    pub fn decode_to_utf8_raw(&self, src: &[u8], dst: &mut Utf8Destination, _last: bool) -> (r: (
        DecoderResult,
        usize,
        usize,
    ))
        requires
            old(dst).wf(),
        ensures
            final(dst).wf(),
            final(dst).capacity() == old(dst).capacity(),
            r.1 <= src@.len(),
            final(dst)@ == old(dst)@ + decoded_utf8(src@.take(r.1 as int)),
            r.2 == final(dst)@.len() - old(dst)@.len(),
            !(r.0 is Malformed),
            (r.0 is InputEmpty) <==> r.1 == src@.len(),
            (r.0 is OutputFull) ==> r.1 < src@.len() && old(dst).capacity() < final(dst)@.len()
                + encode_scalar(decode_byte(src@[r.1 as int])).len(),
            old(dst)@.len() + 3 * src@.len() <= old(dst).capacity() ==> r.0 is InputEmpty,
    {
        let ghost start = dst@;
        let start_len: usize = dst.written();
        let mut i: usize = 0;
        loop
            invariant
                i <= src@.len(),
                dst.wf(),
                dst.capacity() == old(dst).capacity(),
                start == old(dst)@,
                start_len == start.len(),
                dst@ == start + decoded_utf8(src@.take(i as int)),
            decreases src@.len() - i,
        {
            if i == src.len() {
                let w: usize = dst.written();
                return (DecoderResult::InputEmpty, i, w - start_len);
            }
            let b: u8 = src[i];
            if b < 0x80 {
                if !dst.space_for(1) {
                    let w: usize = dst.written();
                    proof {
                        lemma_decoded_utf8_len(src@.take(i as int));
                    }
                    return (DecoderResult::OutputFull, i, w - start_len);
                }
                dst.write_ascii(b);
            } else {
                if !dst.space_for(3) {
                    let w: usize = dst.written();
                    proof {
                        lemma_decoded_utf8_len(src@.take(i as int));
                    }
                    return (DecoderResult::OutputFull, i, w - start_len);
                }
                let u: u16 = b as u16 + 0xF700;
                assert(u as u32 == decode_byte(b));
                dst.write_upper_bmp(u);
            }
            i = i + 1;
            proof {
                lemma_decoded_utf8_snoc(src@.take(i as int));
                assert(src@.take(i as int).drop_last() =~= src@.take(i - 1));
                assert(src@.take(i as int).last() == src@[i - 1]);
            }
        }
    }
}

/// An encoder for this encoding. It holds no state: every call is a pure
/// function of its source, its destination, and the continuation flag.
pub struct UserDefinedEncoder;

impl UserDefinedEncoder {
    /// A fresh encoder instance.
    pub fn new() -> UserDefinedEncoder {
        UserDefinedEncoder
    }

    /// Worst-case bytes needed to encode `u16_length` UTF-16 code units:
    /// exactly one byte per unit, since every mappable code point is a single
    /// code unit producing a single byte.
    pub fn max_buffer_length_from_utf16(&self, u16_length: usize) -> (n: usize)
        ensures
            n == u16_length,
    {
        u16_length
    }

    /// Worst-case bytes needed to encode text of `byte_length` UTF-8 bytes:
    /// one byte per source byte, since every mappable code point takes at
    /// least one UTF-8 byte and produces exactly one byte.
    pub fn max_buffer_length_from_utf8(&self, byte_length: usize) -> (n: usize)
        ensures
            n == byte_length,
    {
        byte_length
    }

    /// Encode UTF-16 source into legacy bytes, stopping when the source or
    /// the destination is exhausted, or at the first unmappable code point,
    /// which is reported without being consumed.
    ///
    /// Counts are in code units. Every consumed unit is a mappable code
    /// point, so the destination grows by exactly one byte per consumed unit,
    /// and a destination sized by `max_buffer_length_from_utf16` is never
    /// exhausted. A reported unmappable code point is the one that starts at
    /// the first unconsumed unit: a surrogate pair combined, or the
    /// replacement character for a lone surrogate. This encoding is
    /// stateless, so the continuation flag `_last` does not change the
    /// result.
    pub fn encode_from_utf16_raw(&self, src: &[u16], dst: &mut ByteDestination, _last: bool) -> (r:
        (EncoderResult, usize, usize))
        requires
            old(dst).wf(),
        ensures
            final(dst).wf(),
            final(dst).capacity() == old(dst).capacity(),
            r.1 <= src@.len(),
            forall|j: int| 0 <= j < r.1 ==> unit_mappable(#[trigger] src@[j]),
            final(dst)@ == old(dst)@ + encoded_units(src@.take(r.1 as int)),
            r.2 == r.1,
            (r.0 is InputEmpty) <==> r.1 == src@.len(),
            (r.0 is OutputFull) ==> r.1 < src@.len() && final(dst)@.len() == old(dst).capacity(),
            r.0 matches EncoderResult::Unmappable(c) ==> r.1 < src@.len() && !unit_mappable(
                src@[r.1 as int],
            ) && final(dst)@.len() < old(dst).capacity() && c as u32 == utf16_code_point_at(
                src@,
                r.1 as int,
            ),
            old(dst)@.len() + src@.len() <= old(dst).capacity() ==> !(r.0 is OutputFull),
    {
        let ghost start = dst@;
        let mut i: usize = 0;
        loop
            invariant
                i <= src@.len(),
                dst.wf(),
                dst.capacity() == old(dst).capacity(),
                start == old(dst)@,
                dst@ == start + encoded_units(src@.take(i as int)),
                forall|j: int| 0 <= j < i ==> unit_mappable(#[trigger] src@[j]),
            decreases src@.len() - i,
        {
            if i == src.len() {
                return (EncoderResult::InputEmpty, i, i);
            }
            if !dst.space_for(1) {
                return (EncoderResult::OutputFull, i, i);
            }
            let u: u16 = src[i];
            if u <= 0x7F {
                dst.write_one(u as u8);
            } else if 0xF780 <= u && u <= 0xF7FF {
                dst.write_one((u - 0xF700) as u8);
            } else {
                let cp: u32 = if u >= 0xD800 && u <= 0xDBFF && i + 1 < src.len() && src[i + 1]
                    >= 0xDC00 && src[i + 1] <= 0xDFFF {
                    0x10000 + (u as u32 - 0xD800) * 0x400 + (src[i + 1] as u32 - 0xDC00)
                } else if u >= 0xD800 && u <= 0xDFFF {
                    0xFFFD
                } else {
                    u as u32
                };
                assert(is_scalar(cp));
                assert(cp == utf16_code_point_at(src@, i as int));
                let c: char = char_from_scalar(cp);
                return (EncoderResult::Unmappable(c), i, i);
            }
            i = i + 1;
            proof {
                assert(encoded_units(src@.take(i as int)) =~= encoded_units(
                    src@.take(i - 1),
                ).push(encode_cp(src@[i - 1] as u32)));
            }
        }
    }

    /// Encode UTF-8 source into legacy bytes, stopping when the source or
    /// the destination is exhausted, or at the first unmappable character,
    /// which is reported without being consumed.
    ///
    /// Counts are in code points, the unit in which this source is walked.
    /// Every consumed character is mappable, so the destination grows by
    /// exactly one byte per consumed character. This encoding is stateless,
    /// so the continuation flag `_last` does not change the result.
    pub fn encode_from_utf8_raw(&self, src: &str, dst: &mut ByteDestination, _last: bool) -> (r: (
        EncoderResult,
        usize,
        usize,
    ))
        requires
            old(dst).wf(),
        ensures
            final(dst).wf(),
            final(dst).capacity() == old(dst).capacity(),
            r.1 <= src@.len(),
            forall|j: int| 0 <= j < r.1 ==> char_mappable(#[trigger] src@[j]),
            final(dst)@ == old(dst)@ + encoded_chars(src@.take(r.1 as int)),
            r.2 == r.1,
            (r.0 is InputEmpty) <==> r.1 == src@.len(),
            (r.0 is OutputFull) ==> r.1 < src@.len() && final(dst)@.len() == old(dst).capacity(),
            r.0 matches EncoderResult::Unmappable(c) ==> r.1 < src@.len() && c == src@[r.1 as int]
                && !char_mappable(c) && final(dst)@.len() < old(dst).capacity(),
            old(dst)@.len() + src@.len() <= old(dst).capacity() ==> !(r.0 is OutputFull),
    {
        let ghost start = dst@;
        let n: usize = src.unicode_len();
        let mut i: usize = 0;
        loop
            invariant
                i <= n == src@.len(),
                dst.wf(),
                dst.capacity() == old(dst).capacity(),
                start == old(dst)@,
                dst@ == start + encoded_chars(src@.take(i as int)),
                forall|j: int| 0 <= j < i ==> char_mappable(#[trigger] src@[j]),
            decreases n - i,
        {
            if i == n {
                return (EncoderResult::InputEmpty, i, i);
            }
            if !dst.space_for(1) {
                return (EncoderResult::OutputFull, i, i);
            }
            let c: char = src.get_char(i);
            let v: u32 = c as u32;
            if v <= 0x7F {
                dst.write_one(v as u8);
            } else if 0xF780 <= v && v <= 0xF7FF {
                dst.write_one((v - 0xF700) as u8);
            } else {
                return (EncoderResult::Unmappable(c), i, i);
            }
            i = i + 1;
            proof {
                assert(encoded_chars(src@.take(i as int)) =~= encoded_chars(
                    src@.take(i - 1),
                ).push(encode_cp(src@[i - 1] as u32)));
            }
        }
    }
}

/// Relies on `char::from_u32` of std: for every `u32` that is a Unicode
/// scalar value it returns `Some` of the character with exactly that value.
#[verifier::external_body]
fn char_from_scalar(v: u32) -> (c: char)
    requires
        is_scalar(v),
    ensures
        c as u32 == v,
{
    char::from_u32(v).unwrap()
}

/// Every byte decodes to exactly one Unicode scalar value: ASCII bytes to
/// themselves, all other bytes into the private-use range 0xF780..=0xF7FF.
/// Decoding is total and never signals a malformed input.
pub proof fn lemma_decode_total(b: u8)
    ensures
        is_scalar(decode_byte(b)),
        b < 0x80 ==> decode_byte(b) == b,
        b >= 0x80 ==> decode_byte(b) == b + 0xF700 && 0xF780 <= decode_byte(b) <= 0xF7FF,
{
}

/// Round trip: encoding the code point any byte decodes to gives back
/// exactly that byte, so the mapping is a bijection between bytes and the
/// reachable code-point set.
pub proof fn lemma_encode_decode_byte(b: u8)
    ensures
        cp_mappable(decode_byte(b)),
        encode_cp(decode_byte(b)) == b,
{
}

/// Round trip in the other direction: decoding the byte a mappable code
/// point encodes to gives back exactly that code point.
pub proof fn lemma_decode_encode_cp(cp: u32)
    requires
        cp_mappable(cp),
    ensures
        decode_byte(encode_cp(cp)) == cp,
{
}

/// The decoded code points of a byte sequence, as characters: one per byte.
pub open spec fn decoded_chars(s: Seq<u8>) -> Seq<char> {
    Seq::new(s.len(), |i: int| decode_byte(s[i]) as char)
}

/// The decoded UTF-8 text is the UTF-8 encoding of the decoded characters.
proof fn lemma_decoded_utf8_matches_chars(s: Seq<u8>)
    ensures
        decoded_utf8(s) == encode_utf8(decoded_chars(s)),
    decreases s.len(),
{
    if s.len() == 0 {
        assert(decoded_chars(s) =~= Seq::<char>::empty());
    } else {
        lemma_decoded_utf8_matches_chars(s.drop_first());
        assert(decoded_chars(s).drop_first() =~= decoded_chars(s.drop_first()));
        lemma_decode_total(s[0]);
        assert((decode_byte(s[0]) as char) as u32 == decode_byte(s[0]));
        assert(decoded_chars(s)[0] == decode_byte(s[0]) as char);
    }
}

/// Totality of decoding in the UTF-8 representation: the decoded text of any
/// source is well-formed UTF-8 and holds exactly one character per source
/// byte, the character of the code point that byte decodes to.
pub proof fn lemma_decode_yields_one_char_per_byte(s: Seq<u8>)
    ensures
        valid_utf8(decoded_utf8(s)),
        decode_utf8(decoded_utf8(s)) == decoded_chars(s),
        decoded_chars(s).len() == s.len(),
        forall|i: int| 0 <= i < s.len() ==> (#[trigger] decoded_chars(s)[i]) as u32 == decode_byte(
            s[i],
        ),
{
    lemma_decoded_utf8_matches_chars(s);
    encode_utf8_valid_utf8(decoded_chars(s));
    encode_utf8_decode_utf8(decoded_chars(s));
    assert forall|i: int| 0 <= i < s.len() implies (#[trigger] decoded_chars(s)[i]) as u32
        == decode_byte(s[i]) by {
        lemma_decode_total(s[i]);
    }
}

/// Sizing bound for UTF-8 decoding: the decoded text takes at least one and
/// at most three bytes per source byte, so a destination sized at three times
/// the source length is never exhausted.
pub proof fn lemma_decoded_utf8_len(s: Seq<u8>)
    ensures
        s.len() <= decoded_utf8(s).len() <= 3 * s.len(),
    decreases s.len(),
{
    if s.len() > 0 {
        lemma_decoded_utf8_len(s.drop_first());
    }
}

/// Splitting a decode into two calls loses nothing: the UTF-16 text of a
/// whole source equals the text of any prefix followed by the text of the
/// remainder, so resuming after an exhausted destination reproduces the
/// output of one unconstrained call.
pub proof fn lemma_decoded_utf16_concat(a: Seq<u8>, b: Seq<u8>)
    ensures
        decoded_utf16(a + b) == decoded_utf16(a) + decoded_utf16(b),
{
    assert(decoded_utf16(a + b) =~= decoded_utf16(a) + decoded_utf16(b));
}

/// Splitting a decode into two calls loses nothing in the UTF-8
/// representation either: the decoded bytes of a whole source equal the
/// decoded bytes of any prefix followed by those of the remainder.
pub proof fn lemma_decoded_utf8_concat(a: Seq<u8>, b: Seq<u8>)
    ensures
        decoded_utf8(a + b) == decoded_utf8(a) + decoded_utf8(b),
    decreases a.len(),
{
    if a.len() == 0 {
        assert(a + b =~= b);
        assert(decoded_utf8(a) + decoded_utf8(b) =~= decoded_utf8(b));
    } else {
        lemma_decoded_utf8_concat(a.drop_first(), b);
        assert((a + b).drop_first() =~= a.drop_first() + b);
        assert(decoded_utf8(a + b) =~= decoded_utf8(a) + decoded_utf8(b));
    }
}

/// Splitting an encode from UTF-16 into two calls loses nothing: the encoded
/// bytes of a whole source equal the encoded bytes of any prefix followed by
/// those of the remainder.
pub proof fn lemma_encoded_units_concat(a: Seq<u16>, b: Seq<u16>)
    ensures
        encoded_units(a + b) == encoded_units(a) + encoded_units(b),
{
    assert(encoded_units(a + b) =~= encoded_units(a) + encoded_units(b));
}

/// Splitting an encode of characters into two calls loses nothing: the
/// encoded bytes of a whole source equal the encoded bytes of any prefix
/// followed by those of the remainder.
pub proof fn lemma_encoded_chars_concat(a: Seq<char>, b: Seq<char>)
    ensures
        encoded_chars(a + b) == encoded_chars(a) + encoded_chars(b),
{
    assert(encoded_chars(a + b) =~= encoded_chars(a) + encoded_chars(b));
}

/// The last code point of a decode: peeling it off the end of the source
/// peels its UTF-8 encoding off the end of the decoded text.
proof fn lemma_decoded_utf8_snoc(s: Seq<u8>)
    requires
        s.len() > 0,
    ensures
        decoded_utf8(s) == decoded_utf8(s.drop_last()) + encode_scalar(decode_byte(s.last())),
    decreases s.len(),
{
    if s.len() == 1 {
        assert(s.drop_last() =~= Seq::<u8>::empty());
        assert(s.drop_first() =~= Seq::<u8>::empty());
        assert(decoded_utf8(s) =~= decoded_utf8(s.drop_last()) + encode_scalar(
            decode_byte(s.last()),
        ));
    } else {
        lemma_decoded_utf8_snoc(s.drop_first());
        assert(s.drop_first().drop_last() =~= s.drop_last().drop_first());
        assert(s.drop_first().last() == s.last());
        assert(s.drop_last().len() > 0 && s.drop_last()[0] == s[0]);
        assert(decoded_utf8(s) =~= decoded_utf8(s.drop_last()) + encode_scalar(
            decode_byte(s.last()),
        ));
    }
}

} // verus!
