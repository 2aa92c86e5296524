use vstd::prelude::*;

use crate::error::Error;
use crate::header::{be16, be32, read_u16, read_u32};
use crate::name::{spec_scan, Name};
use crate::rdata::a;

verus! {

/// A mail-exchange payload: a preference and the exchange's name.
#[derive(Debug, Clone, PartialEq, Eq)]
pub struct Mx {
    pub preference: u16,
    pub exchange: Name,
}

/// A start-of-authority payload: two names and five 32-bit fields.
#[derive(Debug, Clone, PartialEq, Eq)]
pub struct Soa {
    pub primary_ns: Name,
    pub mailbox: Name,
    pub serial: u32,
    pub refresh: u32,
    pub retry: u32,
    pub expire: u32,
    pub minimum_ttl: u32,
}

/// A service-location payload.
#[derive(Debug, Clone, PartialEq, Eq)]
pub struct Srv {
    pub priority: u16,
    pub weight: u16,
    pub port: u16,
    pub target: Name,
}

/// The decoded payload of a resource record.
///
/// Every registered type code decodes to its own variant; any other code
/// decodes to `Unknown` holding the raw rdata bytes — by design, never an
/// error.
#[derive(Debug, Clone, PartialEq, Eq)]
pub enum RData {
    A(a::Record),
    AAAA(Vec<u8>),
    CNAME(Name),
    MX(Mx),
    NS(Name),
    PTR(Name),
    SOA(Soa),
    SRV(Srv),
    TXT(Vec<Vec<u8>>),
    OPT(Vec<u8>),
    Unknown(Vec<u8>),
}

/// The mathematical model of a start-of-authority payload.
pub struct SoaV {
    pub primary_ns: Seq<Seq<u8>>,
    pub mailbox: Seq<Seq<u8>>,
    pub serial: u32,
    pub refresh: u32,
    pub retry: u32,
    pub expire: u32,
    pub minimum_ttl: u32,
}

/// The mathematical model of a service-location payload.
pub struct SrvV {
    pub priority: u16,
    pub weight: u16,
    pub port: u16,
    pub target: Seq<Seq<u8>>,
}

/// The mathematical model of a decoded payload.
pub enum RDataV {
    A(Seq<u8>),
    AAAA(Seq<u8>),
    CNAME(Seq<Seq<u8>>),
    MX(u16, Seq<Seq<u8>>),
    NS(Seq<Seq<u8>>),
    PTR(Seq<Seq<u8>>),
    SOA(SoaV),
    SRV(SrvV),
    TXT(Seq<Seq<u8>>),
    OPT(Seq<u8>),
    Unknown(Seq<u8>),
}

impl View for RData {
    type V = RDataV;

    open spec fn view(&self) -> RDataV {
        match self {
            RData::A(rec) => RDataV::A(rec@),
            RData::AAAA(o) => RDataV::AAAA(o@),
            RData::CNAME(n) => RDataV::CNAME(n@),
            RData::MX(m) => RDataV::MX(m.preference, m.exchange@),
            RData::NS(n) => RDataV::NS(n@),
            RData::PTR(n) => RDataV::PTR(n@),
            RData::SOA(s) => RDataV::SOA(
                SoaV {
                    primary_ns: s.primary_ns@,
                    mailbox: s.mailbox@,
                    serial: s.serial,
                    refresh: s.refresh,
                    retry: s.retry,
                    expire: s.expire,
                    minimum_ttl: s.minimum_ttl,
                },
            ),
            RData::SRV(s) => RDataV::SRV(
                SrvV { priority: s.priority, weight: s.weight, port: s.port, target: s.target@ },
            ),
            RData::TXT(ss) => RDataV::TXT(ss.deep_view()),
            RData::OPT(o) => RDataV::OPT(o@),
            RData::Unknown(o) => RDataV::Unknown(o@),
        }
    }
}

/// What decoding a name embedded in rdata yields: the name must end exactly
/// at the end of the rdata span, though its compression pointers may lead
/// anywhere earlier in the whole message.
pub open spec fn spec_name_exact(buf: Seq<u8>, pos: int, end: int) -> Result<Seq<Seq<u8>>, Error> {
    match spec_scan(buf, pos, buf.len() as int, 255) {
        Ok((ls, e)) => if e == end {
            Ok(ls)
        } else {
            Err(Error::WrongRdataLength)
        },
        Err(e) => Err(e),
    }
}

/// What decoding a text payload yields: length-prefixed strings that must
/// fill `[pos, end)` exactly; a partial trailing string is an error. A text
/// record holds at least one string, so the registry rejects a zero-length
/// span before walking it.
pub open spec fn spec_parse_txt(buf: Seq<u8>, pos: int, end: int) -> Result<Seq<Seq<u8>>, Error>
    decreases end - pos,
{
    if pos >= end {
        Ok(Seq::empty())
    } else {
        let l = buf[pos];
        if pos + 1 + l > end {
            Err(Error::WrongRdataLength)
        } else {
            match spec_parse_txt(buf, pos + 1 + l, end) {
                Ok(rest) => Ok(seq![buf.subrange(pos + 1, pos + 1 + l)] + rest),
                Err(e) => Err(e),
            }
        }
    }
}

/// How many bytes the wire form of a text payload takes: one length byte
/// per string plus the string bytes.
pub open spec fn txt_len(ss: Seq<Seq<u8>>) -> int
    decreases ss.len(),
{
    if ss.len() == 0 {
        0
    } else {
        1 + ss[0].len() + txt_len(ss.skip(1))
    }
}

pub proof fn lemma_txt_len_nonneg(ss: Seq<Seq<u8>>)
    ensures
        txt_len(ss) >= 0,
    decreases ss.len(),
{
    if ss.len() > 0 {
        lemma_txt_len_nonneg(ss.skip(1));
    }
}

pub proof fn lemma_txt_len_concat(a: Seq<Seq<u8>>, b: Seq<Seq<u8>>)
    ensures
        txt_len(a + b) == txt_len(a) + txt_len(b),
    decreases a.len(),
{
    if a.len() == 0 {
        assert(a + b =~= b);
    } else {
        assert((a + b)[0] == a[0]);
        assert((a + b).skip(1) =~= a.skip(1) + b);
        lemma_txt_len_concat(a.skip(1), b);
    }
}

/// What the payload registry yields for the rdata span `[start, start+len)`
/// of a record with type code `code`, inside the whole message `buf`.
pub open spec fn spec_parse_rdata(buf: Seq<u8>, start: int, len: int, code: u16) -> Result<
    RDataV,
    Error,
> {
    if code == 1 {
        if len == 4 {
            Ok(RDataV::A(buf.subrange(start, start + 4)))
        } else {
            Err(Error::WrongRdataLength)
        }
    } else if code == 28 {
        if len == 16 {
            Ok(RDataV::AAAA(buf.subrange(start, start + 16)))
        } else {
            Err(Error::WrongRdataLength)
        }
    } else if code == 5 {
        match spec_name_exact(buf, start, start + len) {
            Ok(ls) => Ok(RDataV::CNAME(ls)),
            Err(e) => Err(e),
        }
    } else if code == 2 {
        match spec_name_exact(buf, start, start + len) {
            Ok(ls) => Ok(RDataV::NS(ls)),
            Err(e) => Err(e),
        }
    } else if code == 12 {
        match spec_name_exact(buf, start, start + len) {
            Ok(ls) => Ok(RDataV::PTR(ls)),
            Err(e) => Err(e),
        }
    } else if code == 15 {
        if len < 2 {
            Err(Error::WrongRdataLength)
        } else {
            match spec_name_exact(buf, start + 2, start + len) {
                Ok(ls) => Ok(RDataV::MX(be16(buf, start), ls)),
                Err(e) => Err(e),
            }
        }
    } else if code == 6 {
        match spec_scan(buf, start, buf.len() as int, 255) {
            Ok((n1, e1)) => match spec_scan(buf, e1, buf.len() as int, 255) {
                Ok((n2, e2)) => if e2 + 20 == start + len {
                    Ok(
                        RDataV::SOA(
                            SoaV {
                                primary_ns: n1,
                                mailbox: n2,
                                serial: be32(buf, e2),
                                refresh: be32(buf, e2 + 4),
                                retry: be32(buf, e2 + 8),
                                expire: be32(buf, e2 + 12),
                                minimum_ttl: be32(buf, e2 + 16),
                            },
                        ),
                    )
                } else {
                    Err(Error::WrongRdataLength)
                },
                Err(e) => Err(e),
            },
            Err(e) => Err(e),
        }
    } else if code == 33 {
        if len < 6 {
            Err(Error::WrongRdataLength)
        } else {
            match spec_name_exact(buf, start + 6, start + len) {
                Ok(ls) => Ok(
                    RDataV::SRV(
                        SrvV {
                            priority: be16(buf, start),
                            weight: be16(buf, start + 2),
                            port: be16(buf, start + 4),
                            target: ls,
                        },
                    ),
                ),
                Err(e) => Err(e),
            }
        }
    } else if code == 16 {
        if len == 0 {
            Err(Error::WrongRdataLength)
        } else {
            match spec_parse_txt(buf, start, start + len) {
                Ok(ss) => Ok(RDataV::TXT(ss)),
                Err(e) => Err(e),
            }
        }
    } else if code == 41 {
        Ok(RDataV::OPT(buf.subrange(start, start + len)))
    } else {
        Ok(RDataV::Unknown(buf.subrange(start, start + len)))
    }
}

/// A type code with no registered decoder always yields the opaque variant
/// holding exactly the declared rdata bytes — forward compatibility, never
/// an error.
pub proof fn lemma_unknown_type_opaque(buf: Seq<u8>, start: int, len: int, code: u16)
    requires
        code != 1 && code != 2 && code != 5 && code != 6 && code != 12 && code != 15 && code != 16
            && code != 28 && code != 33 && code != 41,
    ensures
        spec_parse_rdata(buf, start, len, code) == Ok::<RDataV, Error>(
            RDataV::Unknown(buf.subrange(start, start + len)),
        ),
{
}

/// Decode a name embedded in rdata, requiring it to end exactly at `end`.
fn parse_name_exact(buf: &[u8], pos: usize, end: usize) -> (r: Result<Name, Error>)
    requires
        end <= buf@.len(),
    ensures
        match r {
            Ok(n) => spec_name_exact(buf@, pos as int, end as int) == Ok::<Seq<Seq<u8>>, Error>(n@)
                && n.wf(),
            Err(e) => spec_name_exact(buf@, pos as int, end as int) == Err::<Seq<Seq<u8>>, Error>(
                e,
            ),
        },
{
    match Name::parse(buf, pos) {
        Ok((n, e)) => {
            if e == end {
                Ok(n)
            } else {
                Err(Error::WrongRdataLength)
            }
        },
        Err(e) => Err(e),
    }
}

/// Decode a text payload, recursing exactly as `spec_parse_txt` does.
fn parse_txt(buf: &[u8], pos: usize, end: usize) -> (r: Result<Vec<Vec<u8>>, Error>)
    requires
        end <= buf@.len(),
        pos <= end,
    ensures
        match r {
            Ok(ss) => spec_parse_txt(buf@, pos as int, end as int) == Ok::<Seq<Seq<u8>>, Error>(
                ss.deep_view(),
            ),
            Err(e) => spec_parse_txt(buf@, pos as int, end as int) == Err::<Seq<Seq<u8>>, Error>(
                e,
            ),
        },
    decreases end - pos,
{
    if pos >= end {
        let ss: Vec<Vec<u8>> = Vec::new();
        assert(ss.deep_view() =~= Seq::<Seq<u8>>::empty());
        return Ok(ss);
    }
    let l = buf[pos] as usize;
    if l > end - (pos + 1) {
        return Err(Error::WrongRdataLength);
    }
    let s: Vec<u8> = vstd::slice::slice_to_vec(&buf[pos + 1..pos + 1 + l]);
    proof {
        crate::name::lemma_bytes_deep(s);
    }
    match parse_txt(buf, pos + 1 + l, end) {
        Ok(rest) => {
            let ghost rest0 = rest.deep_view();
            let mut rest = rest;
            rest.insert(0, s);
            proof {
                assert forall|k: int| 0 <= k < rest.deep_view().len() implies
                    #[trigger] rest.deep_view()[k] == (seq![s@] + rest0)[k] by {
                    if k == 0 {
                        crate::name::lemma_bytes_deep(rest@[0]);
                    } else {
                        assert(rest@[k] == rest@.subrange(1, rest@.len() as int)[k - 1]);
                    }
                }
                assert(rest.deep_view() =~= seq![s@] + rest0);
            }
            Ok(rest)
        },
        Err(e) => Err(e),
    }
}

/// The payload registry: dispatch the rdata span `[start, start+len)` of a
/// record with type code `code` to its decoder. The whole message `buf` is
/// at hand because embedded names may point back into it.
pub fn parse_rdata(buf: &[u8], start: usize, len: usize, code: u16) -> (r: Result<RData, Error>)
    requires
        start + len <= buf@.len(),
    ensures
        match r {
            Ok(d) => spec_parse_rdata(buf@, start as int, len as int, code) == Ok::<RDataV, Error>(
                d@,
            ),
            Err(e) => spec_parse_rdata(buf@, start as int, len as int, code) == Err::<
                RDataV,
                Error,
            >(e),
        },
{
    let total = buf.len();
    assert(start + len <= total);
    if code == 1 {
        a::Record::parse(buf, start, len)
    } else if code == 28 {
        if len == 16 {
            let octets: Vec<u8> = vstd::slice::slice_to_vec(&buf[start..start + 16]);
            Ok(RData::AAAA(octets))
        } else {
            Err(Error::WrongRdataLength)
        }
    } else if code == 5 {
        match parse_name_exact(buf, start, start + len) {
            Ok(n) => Ok(RData::CNAME(n)),
            Err(e) => Err(e),
        }
    } else if code == 2 {
        match parse_name_exact(buf, start, start + len) {
            Ok(n) => Ok(RData::NS(n)),
            Err(e) => Err(e),
        }
    } else if code == 12 {
        match parse_name_exact(buf, start, start + len) {
            Ok(n) => Ok(RData::PTR(n)),
            Err(e) => Err(e),
        }
    } else if code == 15 {
        if len < 2 {
            Err(Error::WrongRdataLength)
        } else {
            let preference = read_u16(buf, start);
            match parse_name_exact(buf, start + 2, start + len) {
                Ok(n) => Ok(RData::MX(Mx { preference, exchange: n })),
                Err(e) => Err(e),
            }
        }
    } else if code == 6 {
        match Name::parse(buf, start) {
            Ok((n1, e1)) => match Name::parse(buf, e1) {
                Ok((n2, e2)) => {
                    if len >= 20 && e2 == start + (len - 20) {
                        let soa = Soa {
                            primary_ns: n1,
                            mailbox: n2,
                            serial: read_u32(buf, e2),
                            refresh: read_u32(buf, e2 + 4),
                            retry: read_u32(buf, e2 + 8),
                            expire: read_u32(buf, e2 + 12),
                            minimum_ttl: read_u32(buf, e2 + 16),
                        };
                        Ok(RData::SOA(soa))
                    } else {
                        Err(Error::WrongRdataLength)
                    }
                },
                Err(e) => Err(e),
            },
            Err(e) => Err(e),
        }
    } else if code == 33 {
        if len < 6 {
            Err(Error::WrongRdataLength)
        } else {
            let priority = read_u16(buf, start);
            let weight = read_u16(buf, start + 2);
            let port = read_u16(buf, start + 4);
            match parse_name_exact(buf, start + 6, start + len) {
                Ok(n) => Ok(RData::SRV(Srv { priority, weight, port, target: n })),
                Err(e) => Err(e),
            }
        }
    } else if code == 16 {
        if len == 0 {
            Err(Error::WrongRdataLength)
        } else {
            match parse_txt(buf, start, start + len) {
                Ok(ss) => Ok(RData::TXT(ss)),
                Err(e) => Err(e),
            }
        }
    } else if code == 41 {
        let octets: Vec<u8> = vstd::slice::slice_to_vec(&buf[start..start + len]);
        Ok(RData::OPT(octets))
    } else {
        let octets: Vec<u8> = vstd::slice::slice_to_vec(&buf[start..start + len]);
        Ok(RData::Unknown(octets))
    }
}

} // verus!
