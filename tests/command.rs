use std::borrow::Cow;
use std::collections::HashMap;

use apple_nvram::{CHRPHeader, Nvram, Partition, Section, Variable};
use asahi_nvram::command::{
    delete_vars, format_line, parse_assignments, parse_references, read_vars, ready_for_write,
    selects_active_partition, write_vars,
};
use asahi_nvram::error::Error;
use asahi_nvram::reference::PartName;

fn section(name: &'static [u8]) -> Section<'static> {
    Section {
        header: CHRPHeader { name, size: 0x7ff, signature: 0x70 },
        values: HashMap::new(),
    }
}

fn empty_image() -> Nvram<'static> {
    let part = Partition {
        header: CHRPHeader { name: b"nvram", size: 0x1000, signature: 0x5a },
        generation: 1,
        common: section(b"common"),
        system: section(b"system"),
    };
    Nvram { partitions: [part.clone(), part], active: 0 }
}

fn toks(ts: &[&str]) -> Vec<Vec<u8>> {
    ts.iter().map(|t| t.as_bytes().to_vec()).collect()
}

fn text(lines: Vec<Vec<u8>>) -> Vec<String> {
    lines.into_iter().map(|l| String::from_utf8(l).unwrap()).collect()
}

#[test]
fn write_then_read_prints_decoded_value() {
    let edits = parse_assignments(&toks(&["common:test=%48%65%6c%6c%6f"])).unwrap();
    let mut nv = empty_image();
    let data = write_vars(&mut nv, &edits).unwrap();
    assert_eq!(data.len(), 0x20000);
    let lines = read_vars(&mut nv, &toks(&["common:test"])).unwrap();
    assert_eq!(text(lines), vec!["common:test=Hello".to_string()]);
    let mut again = Nvram::parse(&data).unwrap();
    let lines = read_vars(&mut again, &toks(&["common:test"])).unwrap();
    assert_eq!(text(lines), vec!["common:test=Hello".to_string()]);
}

#[test]
fn later_write_of_same_name_wins() {
    let edits = parse_assignments(&toks(&["common:x=1", "common:x=2", "system:x=3"])).unwrap();
    let mut nv = empty_image();
    write_vars(&mut nv, &edits).unwrap();
    let lines = read_vars(&mut nv, &toks(&["common:x", "system:x"])).unwrap();
    assert_eq!(text(lines), vec!["common:x=2".to_string(), "system:x=3".to_string()]);
}

#[test]
fn delete_of_absent_name_succeeds_and_serializes() {
    let mut nv = empty_image();
    let refs = parse_references(&toks(&["common:nothing", "system:nothing"])).unwrap();
    let data = delete_vars(&mut nv, &refs).unwrap();
    assert_eq!(data.len(), 0x20000);
    assert_eq!(read_vars(&mut nv, &toks(&[])).unwrap(), Vec::<Vec<u8>>::new());
}

#[test]
fn delete_removes_present_name() {
    let edits = parse_assignments(&toks(&["common:a=1", "common:b=2"])).unwrap();
    let mut nv = empty_image();
    write_vars(&mut nv, &edits).unwrap();
    let refs = parse_references(&toks(&["common:a"])).unwrap();
    delete_vars(&mut nv, &refs).unwrap();
    assert_eq!(read_vars(&mut nv, &toks(&["common:a"])), Err(Error::VariableNotFound));
    assert_eq!(text(read_vars(&mut nv, &toks(&["common:b"])).unwrap()), vec!["common:b=2"]);
}

#[test]
fn empty_batches_still_serialize() {
    let mut nv = empty_image();
    let edits = parse_assignments(&toks(&[])).unwrap();
    let data = write_vars(&mut nv, &edits).unwrap();
    assert_eq!(data.len(), 0x20000);
    let refs = parse_references(&toks(&[])).unwrap();
    let data = delete_vars(&mut nv, &refs).unwrap();
    assert_eq!(data.len(), 0x20000);
    let mut again = Nvram::parse(&data).unwrap();
    assert_eq!(again.active_part_mut().generation, 3);
}

#[test]
fn unknown_partition_fails_every_command() {
    let mut nv = empty_image();
    assert_eq!(read_vars(&mut nv, &toks(&["bogus:x"])), Err(Error::UnknownPartition));
    assert_eq!(parse_assignments(&toks(&["bogus:x=1"])).unwrap_err(), Error::UnknownPartition);
    assert_eq!(parse_references(&toks(&["bogus:x"])).unwrap_err(), Error::UnknownPartition);
}

#[test]
fn malformed_tokens_fail_commands() {
    let mut nv = empty_image();
    assert_eq!(read_vars(&mut nv, &toks(&["foo"])), Err(Error::MissingPartitionName));
    assert_eq!(parse_references(&toks(&["foo"])).unwrap_err(), Error::MissingPartitionName);
    assert_eq!(parse_assignments(&toks(&["common:foo"])).unwrap_err(), Error::MissingValue);
    assert_eq!(parse_assignments(&toks(&["common:a=1", "common:b=%gg"])).unwrap_err(), Error::InvalidHex);
}

#[test]
fn read_reports_first_failing_token() {
    let mut nv = empty_image();
    assert_eq!(read_vars(&mut nv, &toks(&["common:missing", "foo"])), Err(Error::VariableNotFound));
    assert_eq!(read_vars(&mut nv, &toks(&["foo", "common:missing"])), Err(Error::MissingPartitionName));
}

#[test]
fn read_without_tokens_lists_both_collections() {
    let edits = parse_assignments(&toks(&["system:s=%01", "common:c1=a", "common:c2=b"])).unwrap();
    let mut nv = empty_image();
    write_vars(&mut nv, &edits).unwrap();
    let lines = text(read_vars(&mut nv, &toks(&[])).unwrap());
    assert_eq!(lines.len(), 3);
    let mut common: Vec<String> = lines[..2].to_vec();
    common.sort();
    assert_eq!(common, vec!["common:c1=a".to_string(), "common:c2=b".to_string()]);
    assert_eq!(lines[2], "system:s=%01");
}

#[test]
fn stored_values_are_unescaped_before_printing() {
    let mut nv = empty_image();
    let raw: &'static [u8] = &[b'A', 0xff, 0x02, b'B', 0xff, 0x83];
    nv.active_part_mut()
        .common
        .values
        .insert(b"k", Variable { key: b"k", value: Cow::Borrowed(raw) });
    let lines = text(read_vars(&mut nv, &toks(&["common:k"])).unwrap());
    assert_eq!(lines, vec!["common:k=A%00%00B%ff%ff%ff".to_string()]);
}

#[test]
fn incomplete_container_escape_is_a_parse_error() {
    let mut nv = empty_image();
    let raw: &'static [u8] = &[b'A', 0xff, 0x80];
    nv.active_part_mut()
        .system
        .values
        .insert(b"k", Variable { key: b"k", value: Cow::Borrowed(raw) });
    assert_eq!(read_vars(&mut nv, &toks(&["system:k"])), Err(Error::Parse));
    assert_eq!(read_vars(&mut nv, &toks(&[])), Err(Error::Parse));
    assert_eq!(format_line(PartName::System, b"k", &[0xff]), Ok(b"system:k=".to_vec()));
}

#[test]
fn readiness_for_write_checks_generation_and_headers() {
    let mut nv = empty_image();
    assert!(ready_for_write(&mut nv));
    nv.partitions[0].generation = u32::MAX;
    assert!(!ready_for_write(&mut nv));
    let mut nv = empty_image();
    nv.partitions[1].system.header.size = 4096;
    assert!(!ready_for_write(&mut nv));
    let mut nv = empty_image();
    nv.partitions[1].header.name = b"a-name-too-long";
    assert!(!ready_for_write(&mut nv));
    let mut nv = empty_image();
    nv.active = 2;
    assert!(!selects_active_partition(&nv));
    assert!(!ready_for_write(&mut nv));
    nv.active = 1;
    assert!(selects_active_partition(&nv));
}
