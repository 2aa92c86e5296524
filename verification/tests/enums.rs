use dns_parser::{Class, Opcode, QueryClass, QueryType, ResponseCode, Type};

#[test]
fn opcode_codes_roundtrip() {
    assert_eq!(Opcode::from_code(0), Opcode::StandardQuery);
    assert_eq!(Opcode::from_code(1), Opcode::InverseQuery);
    assert_eq!(Opcode::from_code(2), Opcode::ServerStatusRequest);
    assert_eq!(Opcode::from_code(9), Opcode::Reserved(9));
    for code in 0..16u16 {
        assert_eq!(Opcode::from_code(code).code(), code);
    }
}

#[test]
fn response_codes_roundtrip() {
    assert_eq!(ResponseCode::from_code(0), ResponseCode::NoError);
    assert_eq!(ResponseCode::from_code(3), ResponseCode::NameError);
    assert_eq!(ResponseCode::from_code(11), ResponseCode::Reserved(11));
    for code in 0..16u8 {
        assert_eq!(ResponseCode::from_code(code).code(), code);
    }
}

#[test]
fn type_codes_roundtrip() {
    assert_eq!(Type::from_code(1), Type::A);
    assert_eq!(Type::from_code(28), Type::AAAA);
    assert_eq!(Type::from_code(0x1234), Type::Unknown(0x1234));
    for code in 0..300u16 {
        assert_eq!(Type::from_code(code).code(), code);
    }
}

#[test]
fn query_type_codes_roundtrip() {
    assert_eq!(QueryType::from_code(255), QueryType::All);
    for code in 0..300u16 {
        assert_eq!(QueryType::from_code(code).code(), code);
    }
}

#[test]
fn class_codes_roundtrip() {
    assert_eq!(Class::from_code(1), Class::IN);
    assert_eq!(Class::from_code(250), Class::Unknown(250));
    for code in 0..300u16 {
        assert_eq!(Class::from_code(code).code(), code);
    }
}

#[test]
fn query_class_codes_roundtrip() {
    assert_eq!(QueryClass::from_code(255), QueryClass::Any);
    for code in 0..300u16 {
        assert_eq!(QueryClass::from_code(code).code(), code);
    }
}
