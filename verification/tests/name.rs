use dns_parser::{Error, Name, NameDict};

fn labels(parts: &[&[u8]]) -> Vec<Vec<u8>> {
    parts.iter().map(|p| p.to_vec()).collect()
}

#[test]
fn parse_plain_name() {
    let buf = b"\x07example\x03com\x00";
    let (name, end) = Name::parse(buf, 0).unwrap();
    assert_eq!(name.labels(), &labels(&[b"example", b"com"]));
    assert_eq!(end, 13);
}

#[test]
fn parse_root_name() {
    let buf = b"\x00rest";
    let (name, end) = Name::parse(buf, 0).unwrap();
    assert!(name.labels().is_empty());
    assert_eq!(end, 1);
}

#[test]
fn parse_compressed_name() {
    // a name at offset 0, and at offset 13 a label "www" followed by a
    // pointer back to offset 0
    let buf = b"\x07example\x03com\x00\x03www\xC0\x00";
    let (name, end) = Name::parse(buf, 13).unwrap();
    assert_eq!(name.labels(), &labels(&[b"www", b"example", b"com"]));
    // the cursor stops right after the two pointer bytes
    assert_eq!(end, 19);
}

#[test]
fn forward_pointer_rejected() {
    // pointer at offset 0 pointing at itself
    let buf = b"\xC0\x00\x00";
    assert_eq!(Name::parse(buf, 0), Err(Error::BadPointer));
}

#[test]
fn forward_target_rejected() {
    // pointer at offset 0 pointing forward to offset 2
    let buf = b"\xC0\x02\x00";
    assert_eq!(Name::parse(buf, 0), Err(Error::BadPointer));
}

#[test]
fn pointer_cycle_runs_out_of_hops() {
    // label "a" at 0, then a pointer at 2 back to 0: decoding from 2 walks
    // 0..2 and lands on the same pointer again, burning one hop per lap
    let buf = b"\x01a\xC0\x00";
    assert_eq!(Name::parse(buf, 2), Err(Error::TooManyHops));
}

#[test]
fn reserved_label_bits_rejected() {
    let buf = b"\x41ab\x00";
    assert_eq!(Name::parse(buf, 0), Err(Error::UnknownLabelFormat));
}

#[test]
fn truncated_label_rejected() {
    let buf = b"\x07exam";
    assert_eq!(Name::parse(buf, 0), Err(Error::UnexpectedEOF));
}

#[test]
fn missing_terminator_rejected() {
    let buf = b"\x03com";
    assert_eq!(Name::parse(buf, 0), Err(Error::UnexpectedEOF));
}

#[test]
fn overlong_name_rejected() {
    // five labels of 63 bytes each encode to 5 * 64 + 1 = 321 bytes > 255
    let mut buf = Vec::new();
    for _ in 0..5 {
        buf.push(63u8);
        buf.extend_from_slice(&[b'x'; 63]);
    }
    buf.push(0);
    assert_eq!(Name::parse(&buf, 0), Err(Error::NameTooLong));
}

#[test]
fn from_labels_validates() {
    assert!(Name::from_labels(labels(&[b"example", b"com"])).is_ok());
    assert_eq!(
        Name::from_labels(labels(&[b"", b"com"])),
        Err(Error::UnknownLabelFormat)
    );
    assert_eq!(
        Name::from_labels(vec![vec![b'x'; 64]]),
        Err(Error::UnknownLabelFormat)
    );
    let too_long = vec![vec![b'x'; 63], vec![b'y'; 63], vec![b'z'; 63], vec![b'w'; 63]];
    assert_eq!(Name::from_labels(too_long), Err(Error::NameTooLong));
}

#[test]
fn encode_then_decode_roundtrip() {
    let name = Name::from_labels(labels(&[b"www", b"example", b"com"])).unwrap();
    let mut out = vec![0u8; 12];
    let mut dict = NameDict::new();
    dns_parser::write_name(&name, &mut out, &mut dict);
    // a fresh dictionary writes the name literally
    assert_eq!(&out[12..], b"\x03www\x07example\x03com\x00");
    let (parsed, end) = Name::parse(&out, 12).unwrap();
    assert_eq!(parsed.labels(), name.labels());
    assert_eq!(end, out.len());
}

#[test]
fn second_write_compresses_to_pointer() {
    let name = Name::from_labels(labels(&[b"example", b"com"])).unwrap();
    let mut out = vec![0u8; 12];
    let mut dict = NameDict::new();
    dns_parser::write_name(&name, &mut out, &mut dict);
    let first_end = out.len();
    assert_eq!(first_end, 12 + 13);
    dns_parser::write_name(&name, &mut out, &mut dict);
    // the second copy is exactly one two-byte backward pointer
    assert_eq!(out.len(), first_end + 2);
    assert_eq!(&out[first_end..], &[0xC0, 12]);
    let (parsed, end) = Name::parse(&out, first_end).unwrap();
    assert_eq!(parsed.labels(), name.labels());
    assert_eq!(end, out.len());
}

#[test]
fn suffix_reuse_compresses_tail() {
    let first = Name::from_labels(labels(&[b"example", b"com"])).unwrap();
    let second = Name::from_labels(labels(&[b"www", b"example", b"com"])).unwrap();
    let mut out = Vec::new();
    let mut dict = NameDict::new();
    dns_parser::write_name(&first, &mut out, &mut dict);
    let mid = out.len();
    dns_parser::write_name(&second, &mut out, &mut dict);
    // "www" written literally, then a pointer to the earlier "example.com"
    assert_eq!(&out[mid..], b"\x03www\xC0\x00");
    let (parsed, _) = Name::parse(&out, mid).unwrap();
    assert_eq!(parsed.labels(), second.labels());
}

#[test]
fn case_insensitive_equality() {
    let a = Name::from_labels(labels(&[b"Example", b"COM"])).unwrap();
    let b = Name::from_labels(labels(&[b"eXAMPLE", b"com"])).unwrap();
    let c = Name::from_labels(labels(&[b"other", b"com"])).unwrap();
    assert!(a.eq_ignore_case(&b));
    assert!(b.eq_ignore_case(&a));
    assert!(!a.eq_ignore_case(&c));
}

#[test]
fn encoded_size_counts_wire_bytes() {
    let name = Name::from_labels(labels(&[b"example", b"com"])).unwrap();
    assert_eq!(name.encoded_size(), 13);
    let root = Name::from_labels(Vec::new()).unwrap();
    assert_eq!(root.encoded_size(), 1);
}
