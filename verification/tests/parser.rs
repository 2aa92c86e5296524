use dns_parser::rdata::a;
use dns_parser::{Class, Error, Packet, QueryClass, QueryType, RData, Type};

#[test]
fn parse_query_packet() {
    let query = b"\x06%\x01\x00\x00\x01\x00\x00\x00\x00\x00\x00\
                  \x07example\x03com\x00\x00\x01\x00\x01";
    let packet = Packet::parse(query).unwrap();
    assert_eq!(packet.header.id, 1573);
    assert_eq!(packet.header.questions, 1);
    assert_eq!(packet.questions.len(), 1);
    let q = &packet.questions[0];
    assert_eq!(q.name.labels(), &vec![b"example".to_vec(), b"com".to_vec()]);
    assert_eq!(q.qtype, QueryType::A);
    assert_eq!(q.qclass, QueryClass::IN);
    assert_eq!(packet.answers.len(), 0);
    assert_eq!(packet.nameservers.len(), 0);
    assert_eq!(packet.additional.len(), 0);
}

#[test]
fn parse_response_packet() {
    let response = b"\x06%\x81\x80\x00\x01\x00\x01\x00\x00\x00\x00\
                     \x07example\x03com\x00\x00\x01\x00\x01\
                     \xc0\x0c\x00\x01\x00\x01\x00\x00\x04\xf8\
                     \x00\x04]\xb8\xd8\"";
    let packet = Packet::parse(response).unwrap();
    assert_eq!(packet.questions.len(), 1);
    assert_eq!(packet.answers.len(), 1);
    let answer = &packet.answers[0];
    // the answer's name is a compression pointer back to the question's
    assert_eq!(answer.name, packet.questions[0].name);
    assert_eq!(answer.rtype, Type::A);
    assert_eq!(answer.cls, Class::IN);
    assert_eq!(answer.ttl, 1272);
    assert_eq!(
        answer.data,
        RData::A(a::Record { octets: vec![0x5d, 0xb8, 0xd8, 0x22] })
    );
}

#[test]
fn unknown_type_decodes_opaque() {
    // one record of type 0x1234 with 3 rdata bytes
    let msg = b"\x00\x01\x81\x80\x00\x00\x00\x01\x00\x00\x00\x00\
                \x03foo\x00\x12\x34\x00\x01\x00\x00\x00\x05\x00\x03abc";
    let packet = Packet::parse(msg).unwrap();
    let answer = &packet.answers[0];
    assert_eq!(answer.rtype, Type::Unknown(0x1234));
    assert_eq!(answer.data, RData::Unknown(b"abc".to_vec()));
}

#[test]
fn count_exceeding_buffer_rejected() {
    // header declares one question but the sections are empty
    let msg = b"\x06%\x01\x00\x00\x01\x00\x00\x00\x00\x00\x00";
    assert_eq!(Packet::parse(msg), Err(Error::UnexpectedEOF));
}

#[test]
fn large_counts_rejected() {
    // 0xFFFF questions declared over a body of a single question
    let msg = b"\x06%\x01\x00\xff\xff\x00\x00\x00\x00\x00\x00\
                \x07example\x03com\x00\x00\x01\x00\x01";
    assert_eq!(Packet::parse(msg), Err(Error::UnexpectedEOF));
}

#[test]
fn rdata_length_exceeding_buffer_rejected() {
    // the answer declares 200 rdata bytes but only 4 follow
    let msg = b"\x06%\x81\x80\x00\x00\x00\x01\x00\x00\x00\x00\
                \x07example\x03com\x00\x00\x01\x00\x01\x00\x00\x04\xf8\
                \x00\xc8]\xb8\xd8\"";
    assert_eq!(Packet::parse(msg), Err(Error::UnexpectedEOF));
}

#[test]
fn wrong_a_rdata_length_rejected() {
    // an A record whose rdata is 3 bytes instead of 4
    let msg = b"\x06%\x81\x80\x00\x00\x00\x01\x00\x00\x00\x00\
                \x03foo\x00\x00\x01\x00\x01\x00\x00\x00\x01\x00\x03abc";
    assert_eq!(Packet::parse(msg), Err(Error::WrongRdataLength));
}

#[test]
fn truncated_question_rejected() {
    let msg = b"\x06%\x01\x00\x00\x01\x00\x00\x00\x00\x00\x00\
                \x07example\x03com\x00\x00\x01";
    assert_eq!(Packet::parse(msg), Err(Error::UnexpectedEOF));
}

#[test]
fn parse_txt_record() {
    // a TXT record holding the strings "hi" and "yo"
    let msg = b"\x00\x01\x81\x80\x00\x00\x00\x01\x00\x00\x00\x00\
                \x03foo\x00\x00\x10\x00\x01\x00\x00\x00\x05\x00\x06\x02hi\x02yo";
    let packet = Packet::parse(msg).unwrap();
    assert_eq!(
        packet.answers[0].data,
        RData::TXT(vec![b"hi".to_vec(), b"yo".to_vec()])
    );
}

#[test]
fn empty_txt_rdata_rejected() {
    // a text record holds at least one string: a zero-length rdata span fails
    let msg = b"\x00\x01\x81\x80\x00\x00\x00\x01\x00\x00\x00\x00\
                \x03foo\x00\x00\x10\x00\x01\x00\x00\x00\x05\x00\x00";
    assert_eq!(Packet::parse(msg), Err(Error::WrongRdataLength));
}

#[test]
fn partial_txt_string_rejected() {
    // the trailing string claims 9 bytes but only 2 remain in the rdata
    let msg = b"\x00\x01\x81\x80\x00\x00\x00\x01\x00\x00\x00\x00\
                \x03foo\x00\x00\x10\x00\x01\x00\x00\x00\x05\x00\x06\x02hi\x09yo";
    assert_eq!(Packet::parse(msg), Err(Error::WrongRdataLength));
}

#[test]
fn parse_cname_with_compression() {
    // answer: foo.com CNAME pointing at the question name bar.com
    let msg = b"\x00\x01\x81\x80\x00\x01\x00\x01\x00\x00\x00\x00\
                \x03bar\x03com\x00\x00\x05\x00\x01\
                \x03foo\xc0\x10\x00\x05\x00\x01\x00\x00\x00\x05\x00\x02\xc0\x0c";
    let packet = Packet::parse(msg).unwrap();
    let answer = &packet.answers[0];
    match &answer.data {
        RData::CNAME(n) => {
            assert_eq!(n.labels(), &vec![b"bar".to_vec(), b"com".to_vec()]);
        }
        other => panic!("expected CNAME, got {:?}", other),
    }
}

#[test]
fn parse_mx_record() {
    let msg = b"\x00\x01\x81\x80\x00\x00\x00\x01\x00\x00\x00\x00\
                \x03foo\x00\x00\x0f\x00\x01\x00\x00\x00\x05\x00\x0c\
                \x00\x0a\x04mail\x03com\x00";
    let packet = Packet::parse(msg).unwrap();
    match &packet.answers[0].data {
        RData::MX(mx) => {
            assert_eq!(mx.preference, 10);
            assert_eq!(mx.exchange.labels(), &vec![b"mail".to_vec(), b"com".to_vec()]);
        }
        other => panic!("expected MX, got {:?}", other),
    }
}

#[test]
fn rdata_name_must_fill_rdata_exactly() {
    // CNAME whose name ends one byte before the declared rdata length
    let msg = b"\x00\x01\x81\x80\x00\x00\x00\x01\x00\x00\x00\x00\
                \x03foo\x00\x00\x05\x00\x01\x00\x00\x00\x05\x00\x06\x03bar\x00\xff";
    assert_eq!(Packet::parse(msg), Err(Error::WrongRdataLength));
}
