use chatcore::codec::{decode, encode, FramingError, FRAME_WIDTH};

fn bytes(s: &str) -> Vec<u8> {
    s.as_bytes().to_vec()
}

#[test]
fn encode_pads_to_frame_width() {
    let frame = encode(&bytes("hello"));
    assert_eq!(frame.len(), FRAME_WIDTH);
    assert_eq!(&frame[..5], b"hello");
    assert!(frame[5..].iter().all(|&b| b == 0));
}

#[test]
fn encode_empty_text_gives_all_zero_frame() {
    let frame = encode(&bytes(""));
    assert_eq!(frame.len(), FRAME_WIDTH);
    assert!(frame.iter().all(|&b| b == 0));
}

#[test]
fn round_trip_short_text() {
    let text = bytes("hello world");
    assert_eq!(decode(&encode(&text)), Ok(text));
}

#[test]
fn round_trip_longest_fitting_text() {
    let text = vec![0x61; FRAME_WIDTH - 1];
    let frame = encode(&text);
    assert_eq!(frame.len(), FRAME_WIDTH);
    assert_eq!(frame[FRAME_WIDTH - 1], 0);
    assert_eq!(decode(&frame), Ok(text));
}

#[test]
fn round_trip_multibyte_text() {
    let text = bytes("héllo ☃");
    assert_eq!(decode(&encode(&text)), Ok(text));
}

#[test]
fn encode_truncates_at_exact_boundary() {
    let text: Vec<u8> = (0..100u8).map(|i| 0x30 + (i % 10)).collect();
    let frame = encode(&text);
    assert_eq!(frame.len(), FRAME_WIDTH);
    assert_eq!(&frame[..FRAME_WIDTH - 1], &text[..FRAME_WIDTH - 1]);
    assert_eq!(frame[FRAME_WIDTH - 1], 0);
    assert_eq!(decode(&frame), Ok(text[..FRAME_WIDTH - 1].to_vec()));
}

#[test]
fn encode_text_of_exactly_frame_width_loses_last_byte() {
    let text = vec![0x62; FRAME_WIDTH];
    let frame = encode(&text);
    assert_eq!(decode(&frame), Ok(vec![0x62; FRAME_WIDTH - 1]));
}

#[test]
fn decode_stops_at_first_zero() {
    let mut frame = vec![0u8; FRAME_WIDTH];
    frame[0] = 0x68;
    frame[1] = 0x69;
    frame[5] = 0x7a;
    assert_eq!(decode(&frame), Ok(bytes("hi")));
}

#[test]
fn decode_rejects_invalid_utf8() {
    let mut frame = vec![0u8; FRAME_WIDTH];
    frame[0] = 0xff;
    frame[1] = 0x68;
    assert_eq!(decode(&frame), Err(FramingError::NotUtf8));
}

#[test]
fn decode_rejects_lone_continuation_byte() {
    let mut frame = vec![0u8; FRAME_WIDTH];
    frame[0] = 0x80;
    assert_eq!(decode(&frame), Err(FramingError::NotUtf8));
}

#[test]
fn decode_rejects_truncated_multibyte_sequence() {
    let mut frame = vec![0u8; FRAME_WIDTH];
    // first byte of a two-byte encoding, then the terminator
    frame[0] = 0xc3;
    assert_eq!(decode(&frame), Err(FramingError::NotUtf8));
}

#[test]
fn decode_rejects_overlong_encoding() {
    let mut frame = vec![0u8; FRAME_WIDTH];
    // 0xc0 0xaf is an overlong encoding of '/'
    frame[0] = 0xc0;
    frame[1] = 0xaf;
    assert_eq!(decode(&frame), Err(FramingError::NotUtf8));
}

#[test]
fn decode_rejects_surrogate_encoding() {
    let mut frame = vec![0u8; FRAME_WIDTH];
    // 0xed 0xa0 0x80 encodes the surrogate U+D800
    frame[0] = 0xed;
    frame[1] = 0xa0;
    frame[2] = 0x80;
    assert_eq!(decode(&frame), Err(FramingError::NotUtf8));
}

#[test]
fn decode_accepts_four_byte_scalar() {
    let text = bytes("𝄞 clef");
    assert_eq!(decode(&encode(&text)), Ok(text));
}

#[test]
fn decode_matches_std_utf8_judgement() {
    // decode must agree with str::from_utf8 on every prefix it hands out
    let samples: Vec<Vec<u8>> = vec![
        bytes("plain"),
        bytes("ünïcode"),
        vec![0xf4, 0x90, 0x80, 0x80], // beyond U+10FFFF
        vec![0xe0, 0x80, 0x80],       // overlong
        vec![0xf0, 0x9f, 0x92, 0x96], // a four-byte emoji
    ];
    for text in samples {
        let frame = encode(&text);
        let prefix: Vec<u8> = frame.iter().copied().take_while(|&b| b != 0).collect();
        match decode(&frame) {
            Ok(t) => {
                assert_eq!(t, prefix);
                assert!(std::str::from_utf8(&t).is_ok());
            }
            Err(FramingError::NotUtf8) => {
                assert!(std::str::from_utf8(&prefix).is_err());
            }
        }
    }
}
