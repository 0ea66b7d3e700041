use x_user_defined::handles::ByteDestination;
use x_user_defined::handles::Utf16Destination;
use x_user_defined::handles::Utf8Destination;
use x_user_defined::DecoderResult;
use x_user_defined::EncoderResult;
use x_user_defined::UserDefinedDecoder;
use x_user_defined::UserDefinedEncoder;

/// Decode fully into UTF-16, with a destination sized by the worst-case
/// formula, and check the outcome and the text.
fn decode_x_user_defined(bytes: &[u8], expect: &str) {
    let decoder = UserDefinedDecoder::new();

    let mut dst16 = Utf16Destination::new(decoder.max_utf16_buffer_length(bytes.len()));
    let (res, consumed, written) = decoder.decode_to_utf16_raw(bytes, &mut dst16, true);
    assert!(matches!(res, DecoderResult::InputEmpty));
    assert_eq!(consumed, bytes.len());
    let units = dst16.into_units();
    assert_eq!(written, units.len());
    let expect16: Vec<u16> = expect.encode_utf16().collect();
    assert_eq!(units, expect16);

    let mut dst8 = Utf8Destination::new(decoder.max_utf8_buffer_length(bytes.len()));
    let (res, consumed, written) = decoder.decode_to_utf8_raw(bytes, &mut dst8, true);
    assert!(matches!(res, DecoderResult::InputEmpty));
    assert_eq!(consumed, bytes.len());
    let out = dst8.into_bytes();
    assert_eq!(written, out.len());
    assert_eq!(out, expect.as_bytes().to_vec());
}

/// The outer driver's substitution policy for UTF-16 source: encode, and on
/// an unmappable code point append its decimal numeric character reference
/// and resume past that code point.
fn encode_from_utf16_with_ncr(units: &[u16]) -> Vec<u8> {
    let encoder = UserDefinedEncoder::new();
    let mut out: Vec<u8> = Vec::new();
    let mut pos: usize = 0;
    loop {
        let rest = &units[pos..];
        let mut dst = ByteDestination::new(encoder.max_buffer_length_from_utf16(rest.len()));
        let (res, consumed, _written) = encoder.encode_from_utf16_raw(rest, &mut dst, true);
        out.extend_from_slice(&dst.into_bytes());
        pos += consumed;
        match res {
            EncoderResult::InputEmpty => break,
            EncoderResult::OutputFull => unreachable!("sized destination was exhausted"),
            EncoderResult::Unmappable(c) => {
                out.extend_from_slice(format!("&#{};", c as u32).as_bytes());
                pos += c.len_utf16();
            }
        }
    }
    out
}

/// Byte offset of the code point numbered `k` in `s`, or the end of `s`.
fn byte_offset_of_char(s: &str, k: usize) -> usize {
    s.char_indices().nth(k).map(|(i, _)| i).unwrap_or(s.len())
}

/// The outer driver's substitution policy for UTF-8 source.
fn encode_from_utf8_with_ncr(s: &str) -> Vec<u8> {
    let encoder = UserDefinedEncoder::new();
    let mut out: Vec<u8> = Vec::new();
    let mut rest = s;
    loop {
        let mut dst = ByteDestination::new(encoder.max_buffer_length_from_utf8(rest.len()));
        let (res, consumed, _written) = encoder.encode_from_utf8_raw(rest, &mut dst, true);
        out.extend_from_slice(&dst.into_bytes());
        match res {
            EncoderResult::InputEmpty => break,
            EncoderResult::OutputFull => unreachable!("sized destination was exhausted"),
            EncoderResult::Unmappable(c) => {
                out.extend_from_slice(format!("&#{};", c as u32).as_bytes());
                rest = &rest[byte_offset_of_char(rest, consumed + 1)..];
            }
        }
    }
    out
}

/// Encode from both source representations and check the bytes.
fn encode_x_user_defined(string: &str, expect: &[u8]) {
    assert_eq!(encode_from_utf8_with_ncr(string), expect.to_vec());
    let units: Vec<u16> = string.encode_utf16().collect();
    assert_eq!(encode_from_utf16_with_ncr(&units), expect.to_vec());
}

#[test]
fn test_x_user_defined_decode() {
    // ASCII
    decode_x_user_defined(b"\x61\x62", "\u{0061}\u{0062}");

    decode_x_user_defined(b"\x80\xFF", "\u{F780}\u{F7FF}");
}

#[test]
fn test_x_user_defined_encode() {
    // ASCII
    encode_x_user_defined("\u{0061}\u{0062}", b"\x61\x62");

    encode_x_user_defined("\u{F780}\u{F7FF}", b"\x80\xFF");
    encode_x_user_defined("\u{F77F}\u{F800}", b"&#63359;&#63488;");
}

#[test]
fn decode_is_total_for_every_byte() {
    let decoder = UserDefinedDecoder::new();
    for b in 0..=255u8 {
        let expected: u16 = if b < 0x80 { b as u16 } else { b as u16 + 0xF700 };

        let mut dst16 = Utf16Destination::new(1);
        let (res, consumed, written) = decoder.decode_to_utf16_raw(&[b], &mut dst16, true);
        assert!(matches!(res, DecoderResult::InputEmpty));
        assert_eq!((consumed, written), (1, 1));
        assert_eq!(dst16.into_units(), vec![expected]);

        let mut dst8 = Utf8Destination::new(3);
        let (res, consumed, written) = decoder.decode_to_utf8_raw(&[b], &mut dst8, true);
        assert!(matches!(res, DecoderResult::InputEmpty));
        assert_eq!(consumed, 1);
        let bytes = dst8.into_bytes();
        assert_eq!(written, bytes.len());
        let text = std::str::from_utf8(&bytes).unwrap();
        let chars: Vec<char> = text.chars().collect();
        assert_eq!(chars.len(), 1);
        assert_eq!(chars[0] as u32, expected as u32);
    }
}

#[test]
fn encode_inverts_decode_for_every_byte() {
    let decoder = UserDefinedDecoder::new();
    let encoder = UserDefinedEncoder::new();
    for b in 0..=255u8 {
        let mut dst16 = Utf16Destination::new(1);
        let (res, _, _) = decoder.decode_to_utf16_raw(&[b], &mut dst16, true);
        assert!(matches!(res, DecoderResult::InputEmpty));
        let units = dst16.into_units();

        let mut back = ByteDestination::new(1);
        let (res, consumed, written) = encoder.encode_from_utf16_raw(&units, &mut back, true);
        assert!(matches!(res, EncoderResult::InputEmpty));
        assert_eq!((consumed, written), (1, 1));
        assert_eq!(back.into_bytes(), vec![b]);
    }
}

#[test]
fn unmappable_is_reported_without_being_consumed() {
    let encoder = UserDefinedEncoder::new();

    let units: Vec<u16> = "\u{F77F}\u{F800}".encode_utf16().collect();
    let mut dst = ByteDestination::new(2);
    let (res, consumed, written) = encoder.encode_from_utf16_raw(&units, &mut dst, true);
    assert_eq!((consumed, written), (0, 0));
    match res {
        EncoderResult::Unmappable(c) => assert_eq!(c, '\u{F77F}'),
        _ => panic!("expected an unmappable outcome"),
    }
    assert!(dst.into_bytes().is_empty());

    let mut dst = ByteDestination::new(2);
    let (res, consumed, written) = encoder.encode_from_utf8_raw("\u{F77F}\u{F800}", &mut dst, true);
    assert_eq!((consumed, written), (0, 0));
    match res {
        EncoderResult::Unmappable(c) => assert_eq!(c, '\u{F77F}'),
        _ => panic!("expected an unmappable outcome"),
    }
    assert!(dst.into_bytes().is_empty());
}

#[test]
fn surrogate_pairs_report_the_astral_code_point() {
    let encoder = UserDefinedEncoder::new();
    let units: Vec<u16> = "\u{61}\u{1F600}\u{62}".encode_utf16().collect();
    assert_eq!(units.len(), 4);

    let mut dst = ByteDestination::new(4);
    let (res, consumed, written) = encoder.encode_from_utf16_raw(&units, &mut dst, true);
    assert_eq!((consumed, written), (1, 1));
    let c = match res {
        EncoderResult::Unmappable(c) => c,
        _ => panic!("expected an unmappable outcome"),
    };
    assert_eq!(c, '\u{1F600}');
    assert_eq!(dst.into_bytes(), vec![0x61]);

    // resuming past the pair encodes the rest
    let rest = &units[consumed + c.len_utf16()..];
    let mut dst = ByteDestination::new(rest.len());
    let (res, consumed, _written) = encoder.encode_from_utf16_raw(rest, &mut dst, true);
    assert!(matches!(res, EncoderResult::InputEmpty));
    assert_eq!(consumed, 1);
    assert_eq!(dst.into_bytes(), vec![0x62]);
}

#[test]
fn lone_surrogates_report_the_replacement_character() {
    let encoder = UserDefinedEncoder::new();
    for units in [
        vec![0xD800u16],
        vec![0xDC00u16, 0x61],
        vec![0xDBFFu16, 0x62],
        vec![0xDC01u16, 0xD801],
    ] {
        let mut dst = ByteDestination::new(units.len());
        let (res, consumed, written) = encoder.encode_from_utf16_raw(&units, &mut dst, true);
        assert_eq!((consumed, written), (0, 0));
        match res {
            EncoderResult::Unmappable(c) => assert_eq!(c, '\u{FFFD}'),
            _ => panic!("expected an unmappable outcome"),
        }
    }
}

#[test]
fn output_exhausted_resumes_without_loss() {
    let decoder = UserDefinedDecoder::new();
    let src = b"\x61\x80\x62\xFF";

    // one unconstrained call
    let mut whole = Utf16Destination::new(4);
    let (res, _, _) = decoder.decode_to_utf16_raw(src, &mut whole, true);
    assert!(matches!(res, DecoderResult::InputEmpty));
    let whole = whole.into_units();

    // a destination too small: stops at the last unit that fits
    let mut first = Utf16Destination::new(2);
    let (res, consumed, written) = decoder.decode_to_utf16_raw(src, &mut first, false);
    assert!(matches!(res, DecoderResult::OutputFull));
    assert_eq!((consumed, written), (2, 2));

    // resuming with the remainder and the missing space reproduces the whole
    let mut second = Utf16Destination::new(2);
    let (res, consumed2, written2) = decoder.decode_to_utf16_raw(&src[consumed..], &mut second, true);
    assert!(matches!(res, DecoderResult::InputEmpty));
    assert_eq!((consumed2, written2), (2, 2));
    let mut resumed = first.into_units();
    resumed.extend(second.into_units());
    assert_eq!(resumed, whole);
}

#[test]
fn output_exhausted_utf8_counts_only_whole_code_points() {
    let decoder = UserDefinedDecoder::new();
    let src = b"\x61\x62\x80";

    // capacity 4: the two ASCII bytes fit, the three bytes for 0x80 do not
    let mut dst = Utf8Destination::new(4);
    let (res, consumed, written) = decoder.decode_to_utf8_raw(src, &mut dst, false);
    assert!(matches!(res, DecoderResult::OutputFull));
    assert_eq!((consumed, written), (2, 2));
    assert_eq!(dst.into_bytes(), b"\x61\x62".to_vec());

    // resuming with the missing space completes the text
    let mut second = Utf8Destination::new(3);
    let (res, consumed2, written2) = decoder.decode_to_utf8_raw(&src[consumed..], &mut second, true);
    assert!(matches!(res, DecoderResult::InputEmpty));
    assert_eq!((consumed2, written2), (1, 3));
    assert_eq!(second.into_bytes(), "\u{F780}".as_bytes().to_vec());
}

#[test]
fn encoder_output_exhausted_has_accurate_counts() {
    let encoder = UserDefinedEncoder::new();

    let units = [0x61u16, 0x62, 0x63];
    let mut dst = ByteDestination::new(1);
    let (res, consumed, written) = encoder.encode_from_utf16_raw(&units, &mut dst, true);
    assert!(matches!(res, EncoderResult::OutputFull));
    assert_eq!((consumed, written), (1, 1));
    assert_eq!(dst.into_bytes(), vec![0x61]);

    // the space check comes before classification: a full destination is
    // reported even when the next code point is unmappable
    let units = [0xF800u16];
    let mut dst = ByteDestination::new(0);
    let (res, consumed, written) = encoder.encode_from_utf16_raw(&units, &mut dst, true);
    assert!(matches!(res, EncoderResult::OutputFull));
    assert_eq!((consumed, written), (0, 0));
}

#[test]
fn empty_source_is_input_empty() {
    let decoder = UserDefinedDecoder::new();
    let encoder = UserDefinedEncoder::new();

    let mut dst16 = Utf16Destination::new(0);
    let (res, consumed, written) = decoder.decode_to_utf16_raw(b"", &mut dst16, true);
    assert!(matches!(res, DecoderResult::InputEmpty));
    assert_eq!((consumed, written), (0, 0));

    let mut dst8 = Utf8Destination::new(0);
    let (res, consumed, written) = decoder.decode_to_utf8_raw(b"", &mut dst8, true);
    assert!(matches!(res, DecoderResult::InputEmpty));
    assert_eq!((consumed, written), (0, 0));

    let mut dst = ByteDestination::new(0);
    let (res, consumed, written) = encoder.encode_from_utf16_raw(&[], &mut dst, true);
    assert!(matches!(res, EncoderResult::InputEmpty));
    assert_eq!((consumed, written), (0, 0));

    let mut dst = ByteDestination::new(0);
    let (res, consumed, written) = encoder.encode_from_utf8_raw("", &mut dst, true);
    assert!(matches!(res, EncoderResult::InputEmpty));
    assert_eq!((consumed, written), (0, 0));
}

#[test]
fn buffer_length_formulas() {
    let decoder = UserDefinedDecoder::new();
    let encoder = UserDefinedEncoder::new();
    assert_eq!(decoder.max_utf16_buffer_length(7), 7);
    assert_eq!(decoder.max_utf8_buffer_length(7), 21);
    assert_eq!(decoder.max_utf8_buffer_length_with_replacement(7), 21);
    assert_eq!(encoder.max_buffer_length_from_utf16(7), 7);
    assert_eq!(encoder.max_buffer_length_from_utf8(7), 7);
}

#[test]
fn sized_destinations_are_never_exhausted() {
    let decoder = UserDefinedDecoder::new();
    let encoder = UserDefinedEncoder::new();
    for len in 0..=64usize {
        // a worst-case mix: alternating ASCII and upper-range bytes
        let src: Vec<u8> = (0..len).map(|i| if i % 2 == 0 { 0x41 } else { 0xC0 }).collect();

        let mut dst16 = Utf16Destination::new(decoder.max_utf16_buffer_length(len));
        let (res, consumed, _) = decoder.decode_to_utf16_raw(&src, &mut dst16, true);
        assert!(matches!(res, DecoderResult::InputEmpty));
        assert_eq!(consumed, len);
        let units = dst16.into_units();

        let mut dst8 = Utf8Destination::new(decoder.max_utf8_buffer_length(len));
        let (res, consumed, _) = decoder.decode_to_utf8_raw(&src, &mut dst8, true);
        assert!(matches!(res, DecoderResult::InputEmpty));
        assert_eq!(consumed, len);

        let mut back = ByteDestination::new(encoder.max_buffer_length_from_utf16(units.len()));
        let (res, consumed, _) = encoder.encode_from_utf16_raw(&units, &mut back, true);
        assert!(matches!(res, EncoderResult::InputEmpty));
        assert_eq!(consumed, len);
        assert_eq!(back.into_bytes(), src);
    }
}
