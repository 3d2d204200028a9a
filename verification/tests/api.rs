use echo::audio_transposition::api::{decode_request_audio, samples_from_le_bytes, Base64Error, TranscribeRequest};

#[test]
fn decodes_little_endian_samples() {
    let req = TranscribeRequest { audio: "AQD//w==".to_string() };
    assert_eq!(decode_request_audio(&req).ok().unwrap(), vec![1i16, -1]);
}

#[test]
fn odd_trailing_byte_is_ignored() {
    let req = TranscribeRequest { audio: "AQID".to_string() };
    assert_eq!(decode_request_audio(&req).ok().unwrap(), vec![513i16]);
}

#[test]
fn refused_base64_gives_an_error() {
    let req = TranscribeRequest { audio: "!!!!".to_string() };
    match decode_request_audio(&req) {
        Err(e) => assert!(e.message.starts_with("Base64 decoding error: ")),
        Ok(_) => panic!("invalid base64 must be refused"),
    }
}

#[test]
fn samples_match_from_le_bytes() {
    let bytes = [0x00u8, 0x80, 0xff, 0x7f, 0x34, 0x12, 0x99];
    let expected: Vec<i16> = bytes.chunks_exact(2).map(|c| i16::from_le_bytes([c[0], c[1]])).collect();
    assert_eq!(samples_from_le_bytes(&bytes), expected);
    assert!(samples_from_le_bytes(&[]).is_empty());
}

fn refusal(audio: &str) -> String {
    match decode_request_audio(&TranscribeRequest { audio: audio.to_string() }) {
        Err(e) => e.message,
        Ok(_) => panic!("{audio:?} must be refused"),
    }
}

#[test]
fn refused_base64_is_answered_with_the_decoder_text() {
    assert_eq!(refusal("!!!!"), "Base64 decoding error: Invalid byte 33, offset 0.");
    assert_eq!(refusal("QR=="), "Base64 decoding error: Invalid last symbol 82, offset 1.");
    assert_eq!(refusal("QQ"), "Base64 decoding error: Invalid padding");
    assert_eq!(refusal("QUJDR"), "Base64 decoding error: Encoded text cannot have a 6-bit remainder.");
    assert_eq!(refusal("AQID "), "Base64 decoding error: Invalid byte 32, offset 4.");
}

#[test]
fn base64_error_texts_match_the_decoder() {
    assert_eq!(Base64Error::InvalidByte(12, 255).message(), "Invalid byte 255, offset 12.");
    assert_eq!(Base64Error::InvalidLength.message(), "Encoded text cannot have a 6-bit remainder.");
    assert_eq!(Base64Error::InvalidLastSymbol(3, 66).message(), "Invalid last symbol 66, offset 3.");
    assert_eq!(Base64Error::InvalidPadding.message(), "Invalid padding");
    for e in [
        base64::DecodeError::InvalidByte(7, 9),
        base64::DecodeError::InvalidLength,
        base64::DecodeError::InvalidLastSymbol(0, 1),
        base64::DecodeError::InvalidPadding,
    ] {
        let mine = match e {
            base64::DecodeError::InvalidByte(i, b) => Base64Error::InvalidByte(i, b),
            base64::DecodeError::InvalidLength => Base64Error::InvalidLength,
            base64::DecodeError::InvalidLastSymbol(i, b) => Base64Error::InvalidLastSymbol(i, b),
            base64::DecodeError::InvalidPadding => Base64Error::InvalidPadding,
        };
        assert_eq!(mine.message(), e.to_string());
    }
}
