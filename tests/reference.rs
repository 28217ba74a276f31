use asahi_nvram::codec::decode;
use asahi_nvram::error::Error;
use asahi_nvram::reference::{
    parse_assignment, parse_reference, resolve_partition, split_assignment, split_once, PartName,
};

#[test]
fn reference_token_splits_at_colon() {
    let r = parse_reference(b"common:foo").unwrap();
    assert_eq!(r.part, PartName::Common);
    assert_eq!(r.name, b"foo".to_vec());
    let r = parse_reference(b"system:a:b").unwrap();
    assert_eq!(r.part, PartName::System);
    assert_eq!(r.name, b"a:b".to_vec());
}

#[test]
fn assignment_token_splits_at_equals() {
    let (key, text) = split_assignment(b"common:foo=ba%72").unwrap();
    assert_eq!(key, b"common:foo".to_vec());
    assert_eq!(text, b"ba%72".to_vec());
    assert_eq!(decode(&text), Ok(vec![b'b', b'a', b'r']));
    let a = parse_assignment(b"common:foo=ba%72").unwrap();
    assert_eq!(a.part, PartName::Common);
    assert_eq!(a.name, b"foo".to_vec());
    assert_eq!(a.value, b"bar".to_vec());
    let a = parse_assignment(b"system:x=a=b").unwrap();
    assert_eq!(a.value, b"a=b".to_vec());
}

#[test]
fn malformed_tokens_are_rejected() {
    assert_eq!(parse_reference(b"foo").unwrap_err(), Error::MissingPartitionName);
    assert_eq!(split_assignment(b"common:foo").unwrap_err(), Error::MissingValue);
    assert_eq!(parse_assignment(b"common:foo").unwrap_err(), Error::MissingValue);
    assert_eq!(parse_assignment(b"foo=1").unwrap_err(), Error::MissingPartitionName);
    assert_eq!(parse_assignment(b"common:foo=%gg").unwrap_err(), Error::InvalidHex);
}

#[test]
fn unknown_partition_is_rejected() {
    assert_eq!(parse_reference(b"bogus:x").unwrap_err(), Error::UnknownPartition);
    assert_eq!(parse_assignment(b"bogus:x=1").unwrap_err(), Error::UnknownPartition);
    assert_eq!(parse_assignment(b"bogus:x=%gg").unwrap_err(), Error::UnknownPartition);
    assert_eq!(resolve_partition(b"Common"), Err(Error::UnknownPartition));
    assert_eq!(resolve_partition(b""), Err(Error::UnknownPartition));
    assert_eq!(resolve_partition(b"system"), Ok(PartName::System));
}

#[test]
fn split_uses_first_delimiter() {
    assert_eq!(split_once(b"a=b=c", b'='), Some((b"a".to_vec(), b"b=c".to_vec())));
    assert_eq!(split_once(b"=", b'='), Some((Vec::new(), Vec::new())));
    assert_eq!(split_once(b"abc", b'='), None);
}
