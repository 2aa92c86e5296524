use dns_parser::rdata::a;
use dns_parser::{Builder, Class, Name, Packet, QueryClass, QueryType, RData};

fn example_name() -> Name {
    Name::from_labels(vec![b"example".to_vec(), b"com".to_vec()]).unwrap()
}

fn a_record() -> RData {
    RData::A(a::Record { octets: vec![93, 184, 216, 34] })
}

#[test]
fn build_query_and_parse_it_back() {
    let mut builder = Builder::new_query(1573, true);
    assert!(builder.add_question(&example_name(), QueryType::A, QueryClass::IN));
    let out = builder.build();
    let expected = b"\x06%\x01\x00\x00\x01\x00\x00\x00\x00\x00\x00\
                     \x07example\x03com\x00\x00\x01\x00\x01";
    assert_eq!(&out[..], &expected[..]);
    let packet = Packet::parse(&out).unwrap();
    assert_eq!(packet.header.id, 1573);
    assert_eq!(packet.questions.len(), 1);
    assert_eq!(packet.questions[0].name, example_name());
}

#[test]
fn identical_names_share_one_encoding() {
    let name = example_name();
    let mut builder = Builder::new_query(7, false);
    assert!(builder.add_question(&name, QueryType::A, QueryClass::IN));
    assert!(builder.add_question(&name, QueryType::AAAA, QueryClass::IN));
    let out = builder.build();
    // first question: 13 literal name bytes + 4; second: 2 pointer bytes + 4
    assert_eq!(out.len(), 12 + 17 + 6);
    assert_eq!(&out[29..31], &[0xC0, 12]);
    let packet = Packet::parse(&out).unwrap();
    assert_eq!(packet.questions.len(), 2);
    assert_eq!(packet.questions[0].name, packet.questions[1].name);
}

#[test]
fn build_response_with_answer() {
    let name = example_name();
    let mut builder = Builder::new_query(1573, true);
    assert!(builder.add_question(&name, QueryType::A, QueryClass::IN));
    assert!(builder.add_answer(&name, Class::IN, 1272, &a_record()));
    let out = builder.build();
    let packet = Packet::parse(&out).unwrap();
    assert_eq!(packet.header.questions, 1);
    assert_eq!(packet.header.answers, 1);
    let answer = &packet.answers[0];
    assert_eq!(answer.name, name);
    assert_eq!(answer.ttl, 1272);
    assert_eq!(answer.data, a_record());
    // the answer's name was compressed to a pointer: name(13) + 4 fields,
    // then 2 pointer bytes + 10 fixed bytes + 4 rdata bytes
    assert_eq!(out.len(), 12 + 17 + 16);
}

#[test]
fn byte_budget_truncates_whole_records() {
    let name = example_name();
    // room for the header, the question and exactly one answer
    let mut builder = Builder::new_query(1, false);
    builder.set_max_size(12 + 17 + 16);
    assert!(builder.add_question(&name, QueryType::A, QueryClass::IN));
    let mut added: usize = 0;
    for _ in 0..5 {
        if builder.add_answer(&name, Class::IN, 60, &a_record()) {
            added += 1;
        }
    }
    assert_eq!(added, 1);
    let out = builder.build();
    assert!(out.len() <= 12 + 17 + 16);
    let packet = Packet::parse(&out).unwrap();
    // the counts match what was actually written, and truncation is flagged
    assert_eq!(packet.header.questions, 1);
    assert_eq!(packet.header.answers, 1);
    assert!(packet.header.truncated);
    assert_eq!(packet.answers.len(), 1);
}

#[test]
fn record_that_fits_the_budget_is_added() {
    let name = example_name();
    // enough room for the question and one uncompressed-size answer
    let mut builder = Builder::new_query(8, false);
    builder.set_max_size(12 + 17 + 13 + 10 + 4);
    assert!(builder.add_question(&name, QueryType::A, QueryClass::IN));
    // the budget admits even the uncompressed encoding, so this must be added
    assert!(builder.add_answer(&name, Class::IN, 60, &a_record()));
}

#[test]
fn no_budget_means_no_truncation() {
    let name = example_name();
    let mut builder = Builder::new_query(2, false);
    assert!(builder.add_question(&name, QueryType::A, QueryClass::IN));
    for _ in 0..5 {
        assert!(builder.add_answer(&name, Class::IN, 60, &a_record()));
    }
    let out = builder.build();
    let packet = Packet::parse(&out).unwrap();
    assert!(!packet.header.truncated);
    assert_eq!(packet.header.answers, 5);
    assert_eq!(packet.answers.len(), 5);
}

#[test]
fn sections_fill_in_order() {
    let name = example_name();
    let mut builder = Builder::new_query(3, false);
    assert!(builder.add_question(&name, QueryType::A, QueryClass::IN));
    assert!(builder.add_answer(&name, Class::IN, 60, &a_record()));
    assert!(builder.add_nameserver(
        &name,
        Class::IN,
        60,
        &RData::NS(Name::from_labels(vec![b"ns".to_vec(), b"example".to_vec(), b"com".to_vec()]).unwrap()),
    ));
    assert!(builder.add_additional(&name, Class::IN, 60, &a_record()));
    let out = builder.build();
    let packet = Packet::parse(&out).unwrap();
    assert_eq!(packet.header.questions, 1);
    assert_eq!(packet.header.answers, 1);
    assert_eq!(packet.header.nameservers, 1);
    assert_eq!(packet.header.additional, 1);
    match &packet.nameservers[0].data {
        RData::NS(n) => {
            assert_eq!(
                n.labels(),
                &vec![b"ns".to_vec(), b"example".to_vec(), b"com".to_vec()]
            );
        }
        other => panic!("expected NS, got {:?}", other),
    }
}

#[test]
fn build_txt_record() {
    let name = example_name();
    let mut builder = Builder::new_query(4, false);
    assert!(builder.add_answer(
        &name,
        Class::IN,
        60,
        &RData::TXT(vec![b"hello".to_vec(), b"world".to_vec()])
    ));
    let out = builder.build();
    let packet = Packet::parse(&out).unwrap();
    assert_eq!(
        packet.answers[0].data,
        RData::TXT(vec![b"hello".to_vec(), b"world".to_vec()])
    );
}
