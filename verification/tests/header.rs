use dns_parser::{Error, Header, Opcode, ResponseCode};

#[test]
fn parse_example_query() {
    let query = b"\x06%\x01\x00\x00\x01\x00\x00\x00\x00\x00\x00\
                  \x07example\x03com\x00\x00\x01\x00\x01";
    let header = Header::parse(query).unwrap();
    assert_eq!(
        header,
        Header {
            id: 1573,
            query: true,
            opcode: Opcode::StandardQuery,
            authoritative: false,
            truncated: false,
            recursion_desired: true,
            recursion_available: false,
            authenticated_data: false,
            checking_disabled: false,
            response_code: ResponseCode::NoError,
            questions: 1,
            answers: 0,
            nameservers: 0,
            additional: 0,
        }
    );
}

#[test]
fn parse_example_response() {
    let response = b"\x06%\x81\x80\x00\x01\x00\x01\x00\x00\x00\x00\
                     \x07example\x03com\x00\x00\x01\x00\x01\
                     \xc0\x0c\x00\x01\x00\x01\x00\x00\x04\xf8\
                     \x00\x04]\xb8\xd8\"";
    let header = Header::parse(response).unwrap();
    assert_eq!(
        header,
        Header {
            id: 1573,
            query: false,
            opcode: Opcode::StandardQuery,
            authoritative: false,
            truncated: false,
            recursion_desired: true,
            recursion_available: true,
            authenticated_data: false,
            checking_disabled: false,
            response_code: ResponseCode::NoError,
            questions: 1,
            answers: 1,
            nameservers: 0,
            additional: 0,
        }
    );
}

#[test]
fn parse_query_with_ad_set() {
    let query = b"\x06%\x01\x20\x00\x01\x00\x00\x00\x00\x00\x00\
                  \x07example\x03com\x00\x00\x01\x00\x01";
    let header = Header::parse(query).unwrap();
    assert_eq!(
        header,
        Header {
            id: 1573,
            query: true,
            opcode: Opcode::StandardQuery,
            authoritative: false,
            truncated: false,
            recursion_desired: true,
            recursion_available: false,
            authenticated_data: true,
            checking_disabled: false,
            response_code: ResponseCode::NoError,
            questions: 1,
            answers: 0,
            nameservers: 0,
            additional: 0,
        }
    );
}

#[test]
fn parse_query_with_cd_set() {
    let query = b"\x06%\x01\x10\x00\x01\x00\x00\x00\x00\x00\x00\
                  \x07example\x03com\x00\x00\x01\x00\x01";
    let header = Header::parse(query).unwrap();
    assert_eq!(
        header,
        Header {
            id: 1573,
            query: true,
            opcode: Opcode::StandardQuery,
            authoritative: false,
            truncated: false,
            recursion_desired: true,
            recursion_available: false,
            authenticated_data: false,
            checking_disabled: true,
            response_code: ResponseCode::NoError,
            questions: 1,
            answers: 0,
            nameservers: 0,
            additional: 0,
        }
    );
}

#[test]
fn header_too_short() {
    assert_eq!(Header::parse(b"\x06%\x01"), Err(Error::HeaderTooShort));
}

#[test]
fn reserved_bits_rejected() {
    // bit 6 of the flag word is the reserved Z bit
    let query = b"\x06%\x01\x40\x00\x01\x00\x00\x00\x00\x00\x00";
    assert_eq!(Header::parse(query), Err(Error::ReservedBitsAreNonZero));
}

#[test]
fn write_then_parse_roundtrip() {
    let header = Header {
        id: 0xBEEF,
        query: false,
        opcode: Opcode::ServerStatusRequest,
        authoritative: true,
        truncated: true,
        recursion_desired: true,
        recursion_available: false,
        authenticated_data: true,
        checking_disabled: true,
        response_code: ResponseCode::Refused,
        questions: 3,
        answers: 7,
        nameservers: 1,
        additional: 2,
    };
    let mut buf = vec![0u8; 12];
    header.write(&mut buf);
    assert_eq!(Header::parse(&buf).unwrap(), header);
}

#[test]
fn set_truncated_in_place() {
    let mut buf = vec![0u8; 12];
    let header = Header {
        id: 9,
        query: true,
        opcode: Opcode::StandardQuery,
        authoritative: false,
        truncated: false,
        recursion_desired: true,
        recursion_available: false,
        authenticated_data: false,
        checking_disabled: false,
        response_code: ResponseCode::NoError,
        questions: 1,
        answers: 0,
        nameservers: 0,
        additional: 0,
    };
    header.write(&mut buf);
    Header::set_truncated(&mut buf);
    let reparsed = Header::parse(&buf).unwrap();
    assert!(reparsed.truncated);
    assert_eq!(reparsed.id, 9);
    assert!(reparsed.recursion_desired);
}

#[test]
fn size_is_twelve() {
    assert_eq!(Header::size(), 12);
}
