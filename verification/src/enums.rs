use vstd::prelude::*;

verus! {

/// The kind of query a message carries, a four-bit field of the header.
///
/// Integer values without a standardised meaning round-trip losslessly
/// through the `Reserved` variant.
#[derive(Debug, Clone, Copy, PartialEq, Eq, Structural)]
pub enum Opcode {
    StandardQuery,
    InverseQuery,
    ServerStatusRequest,
    Reserved(u16),
}

impl Opcode {
    pub open spec fn spec_code(self) -> u16 {
        match self {
            Opcode::StandardQuery => 0,
            Opcode::InverseQuery => 1,
            Opcode::ServerStatusRequest => 2,
            Opcode::Reserved(c) => c,
        }
    }

    pub open spec fn spec_from(code: u16) -> Opcode {
        if code == 0 {
            Opcode::StandardQuery
        } else if code == 1 {
            Opcode::InverseQuery
        } else if code == 2 {
            Opcode::ServerStatusRequest
        } else {
            Opcode::Reserved(code)
        }
    }

    /// A value is well formed when it is the canonical symbol for its code
    /// and the code fits the four-bit field.
    pub open spec fn wf(self) -> bool {
        Self::spec_from(self.spec_code()) == self && self.spec_code() <= 15
    }

    pub fn code(self) -> (r: u16)
        ensures
            r == self.spec_code(),
    {
        match self {
            Opcode::StandardQuery => 0,
            Opcode::InverseQuery => 1,
            Opcode::ServerStatusRequest => 2,
            Opcode::Reserved(c) => c,
        }
    }

    pub fn from_code(code: u16) -> (r: Opcode)
        ensures
            r == Self::spec_from(code),
    {
        if code == 0 {
            Opcode::StandardQuery
        } else if code == 1 {
            Opcode::InverseQuery
        } else if code == 2 {
            Opcode::ServerStatusRequest
        } else {
            Opcode::Reserved(code)
        }
    }
}

/// Every opcode decoded from the wire re-encodes to the same integer.
pub proof fn lemma_opcode_code_roundtrip(code: u16)
    ensures
        Opcode::spec_from(code).spec_code() == code,
{
}

/// The status a responder reports, a four-bit field of the header.
#[derive(Debug, Clone, Copy, PartialEq, Eq, Structural)]
pub enum ResponseCode {
    NoError,
    FormatError,
    ServerFailure,
    NameError,
    NotImplemented,
    Refused,
    Reserved(u8),
}

impl ResponseCode {
    pub open spec fn spec_code(self) -> u8 {
        match self {
            ResponseCode::NoError => 0,
            ResponseCode::FormatError => 1,
            ResponseCode::ServerFailure => 2,
            ResponseCode::NameError => 3,
            ResponseCode::NotImplemented => 4,
            ResponseCode::Refused => 5,
            ResponseCode::Reserved(c) => c,
        }
    }

    pub open spec fn spec_from(code: u8) -> ResponseCode {
        if code == 0 {
            ResponseCode::NoError
        } else if code == 1 {
            ResponseCode::FormatError
        } else if code == 2 {
            ResponseCode::ServerFailure
        } else if code == 3 {
            ResponseCode::NameError
        } else if code == 4 {
            ResponseCode::NotImplemented
        } else if code == 5 {
            ResponseCode::Refused
        } else {
            ResponseCode::Reserved(code)
        }
    }

    pub open spec fn wf(self) -> bool {
        Self::spec_from(self.spec_code()) == self && self.spec_code() <= 15
    }

    pub fn code(self) -> (r: u8)
        ensures
            r == self.spec_code(),
    {
        match self {
            ResponseCode::NoError => 0,
            ResponseCode::FormatError => 1,
            ResponseCode::ServerFailure => 2,
            ResponseCode::NameError => 3,
            ResponseCode::NotImplemented => 4,
            ResponseCode::Refused => 5,
            ResponseCode::Reserved(c) => c,
        }
    }

    pub fn from_code(code: u8) -> (r: ResponseCode)
        ensures
            r == Self::spec_from(code),
    {
        if code == 0 {
            ResponseCode::NoError
        } else if code == 1 {
            ResponseCode::FormatError
        } else if code == 2 {
            ResponseCode::ServerFailure
        } else if code == 3 {
            ResponseCode::NameError
        } else if code == 4 {
            ResponseCode::NotImplemented
        } else if code == 5 {
            ResponseCode::Refused
        } else {
            ResponseCode::Reserved(code)
        }
    }
}

/// Every response code decoded from the wire re-encodes to the same integer.
pub proof fn lemma_response_code_roundtrip(code: u8)
    ensures
        ResponseCode::spec_from(code).spec_code() == code,
{
}

/// The type of a resource record, as carried on the wire.
///
/// Codes without a registered decoder round-trip through `Unknown`.
#[derive(Debug, Clone, Copy, PartialEq, Eq, Structural)]
pub enum Type {
    A,
    NS,
    CNAME,
    SOA,
    PTR,
    MX,
    TXT,
    AAAA,
    SRV,
    OPT,
    Unknown(u16),
}

impl Type {
    pub open spec fn spec_code(self) -> u16 {
        match self {
            Type::A => 1,
            Type::NS => 2,
            Type::CNAME => 5,
            Type::SOA => 6,
            Type::PTR => 12,
            Type::MX => 15,
            Type::TXT => 16,
            Type::AAAA => 28,
            Type::SRV => 33,
            Type::OPT => 41,
            Type::Unknown(c) => c,
        }
    }

    pub open spec fn spec_from(code: u16) -> Type {
        if code == 1 {
            Type::A
        } else if code == 2 {
            Type::NS
        } else if code == 5 {
            Type::CNAME
        } else if code == 6 {
            Type::SOA
        } else if code == 12 {
            Type::PTR
        } else if code == 15 {
            Type::MX
        } else if code == 16 {
            Type::TXT
        } else if code == 28 {
            Type::AAAA
        } else if code == 33 {
            Type::SRV
        } else if code == 41 {
            Type::OPT
        } else {
            Type::Unknown(code)
        }
    }

    pub fn code(self) -> (r: u16)
        ensures
            r == self.spec_code(),
    {
        match self {
            Type::A => 1,
            Type::NS => 2,
            Type::CNAME => 5,
            Type::SOA => 6,
            Type::PTR => 12,
            Type::MX => 15,
            Type::TXT => 16,
            Type::AAAA => 28,
            Type::SRV => 33,
            Type::OPT => 41,
            Type::Unknown(c) => c,
        }
    }

    pub fn from_code(code: u16) -> (r: Type)
        ensures
            r == Self::spec_from(code),
    {
        if code == 1 {
            Type::A
        } else if code == 2 {
            Type::NS
        } else if code == 5 {
            Type::CNAME
        } else if code == 6 {
            Type::SOA
        } else if code == 12 {
            Type::PTR
        } else if code == 15 {
            Type::MX
        } else if code == 16 {
            Type::TXT
        } else if code == 28 {
            Type::AAAA
        } else if code == 33 {
            Type::SRV
        } else if code == 41 {
            Type::OPT
        } else {
            Type::Unknown(code)
        }
    }
}

/// Every record type decoded from the wire re-encodes to the same integer.
pub proof fn lemma_type_code_roundtrip(code: u16)
    ensures
        Type::spec_from(code).spec_code() == code,
{
}

/// The type field of a question: a record type or a query-only symbol.
#[derive(Debug, Clone, Copy, PartialEq, Eq, Structural)]
pub enum QueryType {
    A,
    NS,
    CNAME,
    SOA,
    PTR,
    MX,
    TXT,
    AAAA,
    SRV,
    All,
    Unknown(u16),
}

impl QueryType {
    pub open spec fn spec_code(self) -> u16 {
        match self {
            QueryType::A => 1,
            QueryType::NS => 2,
            QueryType::CNAME => 5,
            QueryType::SOA => 6,
            QueryType::PTR => 12,
            QueryType::MX => 15,
            QueryType::TXT => 16,
            QueryType::AAAA => 28,
            QueryType::SRV => 33,
            QueryType::All => 255,
            QueryType::Unknown(c) => c,
        }
    }

    pub open spec fn spec_from(code: u16) -> QueryType {
        if code == 1 {
            QueryType::A
        } else if code == 2 {
            QueryType::NS
        } else if code == 5 {
            QueryType::CNAME
        } else if code == 6 {
            QueryType::SOA
        } else if code == 12 {
            QueryType::PTR
        } else if code == 15 {
            QueryType::MX
        } else if code == 16 {
            QueryType::TXT
        } else if code == 28 {
            QueryType::AAAA
        } else if code == 33 {
            QueryType::SRV
        } else if code == 255 {
            QueryType::All
        } else {
            QueryType::Unknown(code)
        }
    }

    pub fn code(self) -> (r: u16)
        ensures
            r == self.spec_code(),
    {
        match self {
            QueryType::A => 1,
            QueryType::NS => 2,
            QueryType::CNAME => 5,
            QueryType::SOA => 6,
            QueryType::PTR => 12,
            QueryType::MX => 15,
            QueryType::TXT => 16,
            QueryType::AAAA => 28,
            QueryType::SRV => 33,
            QueryType::All => 255,
            QueryType::Unknown(c) => c,
        }
    }

    pub fn from_code(code: u16) -> (r: QueryType)
        ensures
            r == Self::spec_from(code),
    {
        if code == 1 {
            QueryType::A
        } else if code == 2 {
            QueryType::NS
        } else if code == 5 {
            QueryType::CNAME
        } else if code == 6 {
            QueryType::SOA
        } else if code == 12 {
            QueryType::PTR
        } else if code == 15 {
            QueryType::MX
        } else if code == 16 {
            QueryType::TXT
        } else if code == 28 {
            QueryType::AAAA
        } else if code == 33 {
            QueryType::SRV
        } else if code == 255 {
            QueryType::All
        } else {
            QueryType::Unknown(code)
        }
    }
}

/// Every query type decoded from the wire re-encodes to the same integer.
pub proof fn lemma_query_type_code_roundtrip(code: u16)
    ensures
        QueryType::spec_from(code).spec_code() == code,
{
}

/// The class of a resource record.
#[derive(Debug, Clone, Copy, PartialEq, Eq, Structural)]
pub enum Class {
    IN,
    CS,
    CH,
    HS,
    Unknown(u16),
}

impl Class {
    pub open spec fn spec_code(self) -> u16 {
        match self {
            Class::IN => 1,
            Class::CS => 2,
            Class::CH => 3,
            Class::HS => 4,
            Class::Unknown(c) => c,
        }
    }

    pub open spec fn spec_from(code: u16) -> Class {
        if code == 1 {
            Class::IN
        } else if code == 2 {
            Class::CS
        } else if code == 3 {
            Class::CH
        } else if code == 4 {
            Class::HS
        } else {
            Class::Unknown(code)
        }
    }

    pub fn code(self) -> (r: u16)
        ensures
            r == self.spec_code(),
    {
        match self {
            Class::IN => 1,
            Class::CS => 2,
            Class::CH => 3,
            Class::HS => 4,
            Class::Unknown(c) => c,
        }
    }

    pub fn from_code(code: u16) -> (r: Class)
        ensures
            r == Self::spec_from(code),
    {
        if code == 1 {
            Class::IN
        } else if code == 2 {
            Class::CS
        } else if code == 3 {
            Class::CH
        } else if code == 4 {
            Class::HS
        } else {
            Class::Unknown(code)
        }
    }
}

/// Every class decoded from the wire re-encodes to the same integer.
pub proof fn lemma_class_code_roundtrip(code: u16)
    ensures
        Class::spec_from(code).spec_code() == code,
{
}

/// The class field of a question: a record class or the query-only `Any`.
#[derive(Debug, Clone, Copy, PartialEq, Eq, Structural)]
pub enum QueryClass {
    IN,
    CS,
    CH,
    HS,
    Any,
    Unknown(u16),
}

impl QueryClass {
    pub open spec fn spec_code(self) -> u16 {
        match self {
            QueryClass::IN => 1,
            QueryClass::CS => 2,
            QueryClass::CH => 3,
            QueryClass::HS => 4,
            QueryClass::Any => 255,
            QueryClass::Unknown(c) => c,
        }
    }

    pub open spec fn spec_from(code: u16) -> QueryClass {
        if code == 1 {
            QueryClass::IN
        } else if code == 2 {
            QueryClass::CS
        } else if code == 3 {
            QueryClass::CH
        } else if code == 4 {
            QueryClass::HS
        } else if code == 255 {
            QueryClass::Any
        } else {
            QueryClass::Unknown(code)
        }
    }

    pub fn code(self) -> (r: u16)
        ensures
            r == self.spec_code(),
    {
        match self {
            QueryClass::IN => 1,
            QueryClass::CS => 2,
            QueryClass::CH => 3,
            QueryClass::HS => 4,
            QueryClass::Any => 255,
            QueryClass::Unknown(c) => c,
        }
    }

    pub fn from_code(code: u16) -> (r: QueryClass)
        ensures
            r == Self::spec_from(code),
    {
        if code == 1 {
            QueryClass::IN
        } else if code == 2 {
            QueryClass::CS
        } else if code == 3 {
            QueryClass::CH
        } else if code == 4 {
            QueryClass::HS
        } else if code == 255 {
            QueryClass::Any
        } else {
            QueryClass::Unknown(code)
        }
    }
}

/// Every query class decoded from the wire re-encodes to the same integer.
pub proof fn lemma_query_class_code_roundtrip(code: u16)
    ensures
        QueryClass::spec_from(code).spec_code() == code,
{
}

} // verus!
