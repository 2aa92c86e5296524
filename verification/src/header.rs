use vstd::prelude::*;

use crate::enums::{Opcode, ResponseCode};
use crate::error::Error;

verus! {

/// Reads the big-endian 16-bit field at byte offset `i`.
pub open spec fn be16(b: Seq<u8>, i: int) -> u16 {
    ((b[i] as int) * 256 + (b[i + 1] as int)) as u16
}

/// Reads the big-endian 32-bit field at byte offset `i`.
pub open spec fn be32(b: Seq<u8>, i: int) -> u32 {
    ((b[i] as int) * 0x1000000 + (b[i + 1] as int) * 0x10000 + (b[i + 2] as int) * 256 + (b[i
        + 3] as int)) as u32
}

/// Read the big-endian 16-bit field at byte offset `i`.
pub fn read_u16(buf: &[u8], i: usize) -> (r: u16)
    requires
        i + 2 <= buf@.len(),
    ensures
        r == be16(buf@, i as int),
{
    (buf[i] as u16) * 256 + (buf[i + 1] as u16)
}

/// Read the big-endian 32-bit field at byte offset `i`.
pub fn read_u32(buf: &[u8], i: usize) -> (r: u32)
    requires
        i + 4 <= buf@.len(),
    ensures
        r == be32(buf@, i as int),
{
    (buf[i] as u32) * 0x1000000 + (buf[i + 1] as u32) * 0x10000 + (buf[i + 2] as u32) * 256 + (
    buf[i + 3] as u32)
}

/// The parsed fixed twelve-byte header of a message.
#[derive(Debug, Clone, Copy, PartialEq, Eq, Structural)]
pub struct Header {
    pub id: u16,
    pub query: bool,
    pub opcode: Opcode,
    pub authoritative: bool,
    pub truncated: bool,
    pub recursion_desired: bool,
    pub recursion_available: bool,
    pub authenticated_data: bool,
    pub checking_disabled: bool,
    pub response_code: ResponseCode,
    pub questions: u16,
    pub answers: u16,
    pub nameservers: u16,
    pub additional: u16,
}

/// The sixteen-bit flag word a header serialises to.
pub open spec fn spec_header_flags(h: Header) -> u16 {
    0u16 | (h.opcode.spec_code() << 11u16) | (h.response_code.spec_code() as u16)
        | (if !h.query { 0x8000u16 } else { 0u16 })
        | (if h.authoritative { 0x0400u16 } else { 0u16 })
        | (if h.truncated { 0x0200u16 } else { 0u16 })
        | (if h.recursion_desired { 0x0100u16 } else { 0u16 })
        | (if h.recursion_available { 0x0080u16 } else { 0u16 })
        | (if h.authenticated_data { 0x0020u16 } else { 0u16 })
        | (if h.checking_disabled { 0x0010u16 } else { 0u16 })
}

/// The twelve bytes a header serialises to.
pub open spec fn spec_header_bytes(h: Header) -> Seq<u8> {
    let flags = spec_header_flags(h);
    seq![
        (h.id / 256) as u8,
        (h.id % 256) as u8,
        (flags / 256) as u8,
        (flags % 256) as u8,
        (h.questions / 256) as u8,
        (h.questions % 256) as u8,
        (h.answers / 256) as u8,
        (h.answers % 256) as u8,
        (h.nameservers / 256) as u8,
        (h.nameservers % 256) as u8,
        (h.additional / 256) as u8,
        (h.additional % 256) as u8,
    ]
}

/// What parsing the leading twelve bytes of `b` yields.
pub open spec fn spec_header_parse(b: Seq<u8>) -> Result<Header, Error> {
    if b.len() < 12 {
        Err(Error::HeaderTooShort)
    } else {
        let flags = be16(b, 2);
        if flags & 0x0040 != 0 {
            Err(Error::ReservedBitsAreNonZero)
        } else {
            Ok(
                Header {
                    id: be16(b, 0),
                    query: flags & 0x8000 == 0,
                    opcode: Opcode::spec_from((flags & 0x7800) >> 11u16),
                    authoritative: flags & 0x0400 != 0,
                    truncated: flags & 0x0200 != 0,
                    recursion_desired: flags & 0x0100 != 0,
                    recursion_available: flags & 0x0080 != 0,
                    authenticated_data: flags & 0x0020 != 0,
                    checking_disabled: flags & 0x0010 != 0,
                    response_code: ResponseCode::spec_from((flags & 0x000F) as u8),
                    questions: be16(b, 4),
                    answers: be16(b, 6),
                    nameservers: be16(b, 8),
                    additional: be16(b, 10),
                },
            )
        }
    }
}

impl Header {
    /// A header is well formed when its opcode and response code are the
    /// canonical symbols for values that fit their four-bit fields.
    pub open spec fn wf(self) -> bool {
        self.opcode.wf() && self.response_code.wf()
    }

    /// Parse the leading twelve bytes of `data` into a header.
    pub fn parse(data: &[u8]) -> (r: Result<Header, Error>)
        ensures
            r == spec_header_parse(data@),
            r matches Ok(h) ==> h.wf(),
    {
        if data.len() < 12 {
            return Err(Error::HeaderTooShort);
        }
        let flags: u16 = (data[2] as u16) * 256 + (data[3] as u16);
        if flags & 0x0040 != 0 {
            return Err(Error::ReservedBitsAreNonZero);
        }
        let opcode_bits: u16 = (flags & 0x7800) >> 11u16;
        let rcode_bits: u16 = flags & 0x000F;
        proof {
            assert((flags & 0x7800) >> 11u16 <= 15 && flags & 0x000F <= 15) by (bit_vector);
        }
        let header = Header {
            id: (data[0] as u16) * 256 + (data[1] as u16),
            query: flags & 0x8000 == 0,
            opcode: Opcode::from_code(opcode_bits),
            authoritative: flags & 0x0400 != 0,
            truncated: flags & 0x0200 != 0,
            recursion_desired: flags & 0x0100 != 0,
            recursion_available: flags & 0x0080 != 0,
            authenticated_data: flags & 0x0020 != 0,
            checking_disabled: flags & 0x0010 != 0,
            response_code: ResponseCode::from_code(rcode_bits as u8),
            questions: (data[4] as u16) * 256 + (data[5] as u16),
            answers: (data[6] as u16) * 256 + (data[7] as u16),
            nameservers: (data[8] as u16) * 256 + (data[9] as u16),
            additional: (data[10] as u16) * 256 + (data[11] as u16),
        };
        Ok(header)
    }

    /// Serialise the header into a buffer of exactly twelve bytes.
    pub fn write(&self, data: &mut Vec<u8>)
        requires
            old(data)@.len() == 12,
            self.wf(),
        ensures
            final(data)@ == spec_header_bytes(*self),
    {
        let op: u16 = self.opcode.code();
        let rc: u8 = self.response_code.code();
        assert(op <= 15);
        let flags: u16 = 0u16 | (op << 11u16) | (rc as u16)
            | (if !self.query { 0x8000u16 } else { 0u16 })
            | (if self.authoritative { 0x0400u16 } else { 0u16 })
            | (if self.truncated { 0x0200u16 } else { 0u16 })
            | (if self.recursion_desired { 0x0100u16 } else { 0u16 })
            | (if self.recursion_available { 0x0080u16 } else { 0u16 })
            | (if self.authenticated_data { 0x0020u16 } else { 0u16 })
            | (if self.checking_disabled { 0x0010u16 } else { 0u16 });
        assert(flags == spec_header_flags(*self));
        data[0] = (self.id / 256) as u8;
        data[1] = (self.id % 256) as u8;
        data[2] = (flags / 256) as u8;
        data[3] = (flags % 256) as u8;
        data[4] = (self.questions / 256) as u8;
        data[5] = (self.questions % 256) as u8;
        data[6] = (self.answers / 256) as u8;
        data[7] = (self.answers % 256) as u8;
        data[8] = (self.nameservers / 256) as u8;
        data[9] = (self.nameservers % 256) as u8;
        data[10] = (self.additional / 256) as u8;
        data[11] = (self.additional % 256) as u8;
        assert(data@ =~= spec_header_bytes(*self));
    }

    /// Set the truncation flag in an already-serialised message.
    pub fn set_truncated(data: &mut Vec<u8>)
        requires
            old(data)@.len() >= 4,
        ensures
            final(data)@ == old(data)@.update(2, old(data)@[2] | 0x02u8),
    {
        let b2 = data[2];
        data[2] = b2 | 0x02;
    }

    /// The size of the wire-format header: always twelve bytes.
    pub fn size() -> (r: usize)
        ensures
            r == 12,
    {
        12
    }
}

/// The flag word of a well-formed header decodes back to the very fields it
/// was built from, and its reserved bit is clear.
proof fn lemma_flags_roundtrip(op: u16, rc: u16, qm: u16, aam: u16, tcm: u16, rdm: u16, ram: u16, adm: u16, cdm: u16)
    by (bit_vector)
    requires
        op <= 15,
        rc <= 15,
        qm == 0x8000 || qm == 0,
        aam == 0x0400 || aam == 0,
        tcm == 0x0200 || tcm == 0,
        rdm == 0x0100 || rdm == 0,
        ram == 0x0080 || ram == 0,
        adm == 0x0020 || adm == 0,
        cdm == 0x0010 || cdm == 0,
    ensures
        ({
            let f = 0u16 | (op << 11u16) | rc | qm | aam | tcm | rdm | ram | adm | cdm;
            &&& f & 0x0040 == 0
            &&& f & 0x8000 == qm
            &&& f & 0x0400 == aam
            &&& f & 0x0200 == tcm
            &&& f & 0x0100 == rdm
            &&& f & 0x0080 == ram
            &&& f & 0x0020 == adm
            &&& f & 0x0010 == cdm
            &&& (f & 0x7800) >> 11u16 == op
            &&& (f & 0x000F) as u8 == rc as u8
            &&& f & 0x000F <= 15
        }),
{
}

/// Writing a well-formed header and parsing the result yields it back,
/// whatever bytes follow the twelve header bytes.
pub proof fn lemma_header_roundtrip(h: Header, rest: Seq<u8>)
    requires
        h.wf(),
    ensures
        spec_header_parse(spec_header_bytes(h) + rest) == Ok::<Header, Error>(h),
{
    let bytes = spec_header_bytes(h) + rest;
    let flags = spec_header_flags(h);
    assert(bytes.len() >= 12);
    assert(bytes[2] == (flags / 256) as u8 && bytes[3] == (flags % 256) as u8);
    assert(be16(bytes, 2) == flags) by {
        assert(flags / 256 < 256);
        assert(((flags / 256) as u8) as int == flags as int / 256);
        assert(((flags % 256) as u8) as int == flags as int % 256);
    }
    let op = h.opcode.spec_code();
    let rc = h.response_code.spec_code() as u16;
    let qm: u16 = if !h.query { 0x8000u16 } else { 0u16 };
    let aam: u16 = if h.authoritative { 0x0400u16 } else { 0u16 };
    let tcm: u16 = if h.truncated { 0x0200u16 } else { 0u16 };
    let rdm: u16 = if h.recursion_desired { 0x0100u16 } else { 0u16 };
    let ram: u16 = if h.recursion_available { 0x0080u16 } else { 0u16 };
    let adm: u16 = if h.authenticated_data { 0x0020u16 } else { 0u16 };
    let cdm: u16 = if h.checking_disabled { 0x0010u16 } else { 0u16 };
    lemma_flags_roundtrip(op, rc, qm, aam, tcm, rdm, ram, adm, cdm);
    assert(flags == 0u16 | (op << 11u16) | rc | qm | aam | tcm | rdm | ram | adm | cdm);
    lemma_be16_field(bytes, 0, h.id);
    lemma_be16_field(bytes, 4, h.questions);
    lemma_be16_field(bytes, 6, h.answers);
    lemma_be16_field(bytes, 8, h.nameservers);
    lemma_be16_field(bytes, 10, h.additional);
    assert(spec_header_parse(bytes) == Ok::<Header, Error>(h));
}

/// A thirty-two-bit value split into four bytes reads back as itself.
pub proof fn lemma_be32_field(b: Seq<u8>, i: int, v: u32)
    requires
        0 <= i,
        i + 3 < b.len(),
        b[i] == (v / 0x1000000) as u8,
        b[i + 1] == ((v / 0x10000) % 256) as u8,
        b[i + 2] == ((v / 256) % 256) as u8,
        b[i + 3] == (v % 256) as u8,
    ensures
        be32(b, i) == v,
{
    assert(v / 0x1000000 < 256);
    assert((v as int / 0x1000000) * 0x1000000 + ((v as int / 0x10000) % 256) * 0x10000 + ((
    v as int / 256) % 256) * 256 + (v as int % 256) == v as int) by (bit_vector);
}

/// A sixteen-bit value split into two bytes reads back as itself.
pub proof fn lemma_be16_field(b: Seq<u8>, i: int, v: u16)
    requires
        0 <= i,
        i + 1 < b.len(),
        b[i] == (v / 256) as u8,
        b[i + 1] == (v % 256) as u8,
    ensures
        be16(b, i) == v,
{
    assert(v / 256 < 256);
}

} // verus!
