use merkle_membership::encoding::{decode_hex, encode_hex};
use merkle_membership::PipelineError;

#[test]
fn encode_hex_spells_bytes_in_lower_case() {
    assert_eq!(encode_hex(&[]), "");
    assert_eq!(encode_hex(&[0x00]), "00");
    assert_eq!(encode_hex(&[0xde, 0xad, 0xbe, 0xef]), "deadbeef");
    assert_eq!(encode_hex(&[0x0f, 0xf0, 0x1a]), "0ff01a");
}

#[test]
fn decode_hex_reads_both_cases() {
    assert_eq!(decode_hex(""), Ok(vec![]));
    assert_eq!(decode_hex("00ff"), Ok(vec![0, 255]));
    assert_eq!(decode_hex("DeadBEEF"), Ok(vec![0xde, 0xad, 0xbe, 0xef]));
    assert_eq!(decode_hex("0a10"), Ok(vec![10, 16]));
}

#[test]
fn decode_hex_refuses_odd_lengths_and_other_characters() {
    assert_eq!(decode_hex("0"), Err(PipelineError::MalformedHex));
    assert_eq!(decode_hex("abc"), Err(PipelineError::MalformedHex));
    assert_eq!(decode_hex("zz"), Err(PipelineError::MalformedHex));
    assert_eq!(decode_hex("0x"), Err(PipelineError::MalformedHex));
    assert_eq!(decode_hex("\u{e9}"), Err(PipelineError::MalformedHex));
    assert_eq!(decode_hex("a\u{e9}"), Err(PipelineError::MalformedHex));
}

#[test]
fn bytes_survive_a_round_trip() {
    let mut bytes = vec![];
    for i in 0..=255u8 {
        bytes.push(i);
    }
    let text = encode_hex(&bytes);
    assert_eq!(text.len(), 512);
    assert_eq!(decode_hex(&text), Ok(bytes));
}
