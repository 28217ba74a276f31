use asahi_nvram::codec::{decode, encode};
use asahi_nvram::error::Error;

#[test]
fn encode_escapes_non_printable_bytes() {
    assert_eq!(encode(&[0x00, b'A', 0xff, 0x7f, 0x1f, b' ', b'~']), b"%00A%ff%7f%1f ~".to_vec());
}

#[test]
fn encode_keeps_printable_text() {
    let text = b"Hello, world: a=b (1+2)".to_vec();
    assert_eq!(encode(&text), text);
}

#[test]
fn decode_reads_escapes_of_either_case() {
    assert_eq!(decode(b"%48%65%6c%6C%6f"), Ok(b"Hello".to_vec()));
    assert_eq!(decode(b"ba%72"), Ok(b"bar".to_vec()));
    assert_eq!(decode(b"%FF%00x"), Ok(vec![0xff, 0x00, b'x']));
    assert_eq!(decode(b""), Ok(Vec::new()));
}

#[test]
fn decode_rejects_bad_escapes() {
    assert_eq!(decode(b"%gg"), Err(Error::InvalidHex));
    assert_eq!(decode(b"ab%4"), Err(Error::InvalidHex));
    assert_eq!(decode(b"%"), Err(Error::InvalidHex));
    assert_eq!(decode(b"%+a"), Err(Error::InvalidHex));
}

#[test]
fn decode_of_encode_gives_bytes_back() {
    let all: Vec<u8> = (0u8..=255).filter(|b| *b != b'%').collect();
    assert_eq!(decode(&encode(&all)), Ok(all));
    let some = vec![0x00, 0x01, b'z', 0xfe, b'\n'];
    assert_eq!(decode(&encode(&some)), Ok(some));
}

#[test]
fn literal_percent_is_not_escaped() {
    assert_eq!(encode(b"%41"), b"%41".to_vec());
    assert_eq!(decode(&encode(b"%41")), Ok(b"A".to_vec()));
}

