use vstd::prelude::*;

use crate::enums::{Class, QueryClass, QueryType, Type};
use crate::error::Error;
use crate::header::{be16, be32, read_u16, read_u32, spec_header_parse, Header};
use crate::name::{spec_scan, Name};
use crate::rdata::config::{parse_rdata, spec_parse_rdata, RData, RDataV};

verus! {

/// One entry of the question section.
#[derive(Debug, Clone, PartialEq, Eq)]
pub struct Question {
    pub name: Name,
    pub qtype: QueryType,
    pub qclass: QueryClass,
}

/// The mathematical model of a question.
pub struct QuestionV {
    pub name: Seq<Seq<u8>>,
    pub qtype: QueryType,
    pub qclass: QueryClass,
}

impl View for Question {
    type V = QuestionV;

    open spec fn view(&self) -> QuestionV {
        QuestionV { name: self.name@, qtype: self.qtype, qclass: self.qclass }
    }
}

impl DeepView for Question {
    type V = QuestionV;

    open spec fn deep_view(&self) -> QuestionV {
        self.view()
    }
}

/// One entry of the answer, authority or additional section.
#[derive(Debug, Clone, PartialEq, Eq)]
pub struct ResourceRecord {
    pub name: Name,
    pub rtype: Type,
    pub cls: Class,
    pub ttl: u32,
    pub data: RData,
}

/// The mathematical model of a resource record.
pub struct ResourceRecordV {
    pub name: Seq<Seq<u8>>,
    pub rtype: Type,
    pub cls: Class,
    pub ttl: u32,
    pub data: RDataV,
}

impl View for ResourceRecord {
    type V = ResourceRecordV;

    open spec fn view(&self) -> ResourceRecordV {
        ResourceRecordV {
            name: self.name@,
            rtype: self.rtype,
            cls: self.cls,
            ttl: self.ttl,
            data: self.data@,
        }
    }
}

impl DeepView for ResourceRecord {
    type V = ResourceRecordV;

    open spec fn deep_view(&self) -> ResourceRecordV {
        self.view()
    }
}

/// A whole parsed message: the header and its four sections.
#[derive(Debug, Clone, PartialEq, Eq)]
pub struct Packet {
    pub header: Header,
    pub questions: Vec<Question>,
    pub answers: Vec<ResourceRecord>,
    pub nameservers: Vec<ResourceRecord>,
    pub additional: Vec<ResourceRecord>,
}

/// The mathematical model of a parsed message.
pub struct PacketV {
    pub header: Header,
    pub questions: Seq<QuestionV>,
    pub answers: Seq<ResourceRecordV>,
    pub nameservers: Seq<ResourceRecordV>,
    pub additional: Seq<ResourceRecordV>,
}

impl View for Packet {
    type V = PacketV;

    open spec fn view(&self) -> PacketV {
        PacketV {
            header: self.header,
            questions: self.questions.deep_view(),
            answers: self.answers.deep_view(),
            nameservers: self.nameservers.deep_view(),
            additional: self.additional.deep_view(),
        }
    }
}

/// What parsing one question at `pos` yields: a name and two 16-bit fields.
pub open spec fn spec_parse_question(buf: Seq<u8>, pos: int) -> Result<(QuestionV, int), Error> {
    match spec_scan(buf, pos, buf.len() as int, 255) {
        Ok((nm, p)) => if p + 4 > buf.len() {
            Err(Error::UnexpectedEOF)
        } else {
            Ok(
                (
                    QuestionV {
                        name: nm,
                        qtype: QueryType::spec_from(be16(buf, p)),
                        qclass: QueryClass::spec_from(be16(buf, p + 2)),
                    },
                    p + 4,
                ),
            )
        },
        Err(e) => Err(e),
    }
}

/// What parsing `n` consecutive questions from `pos` yields.
pub open spec fn spec_parse_questions(buf: Seq<u8>, pos: int, n: int) -> Result<
    (Seq<QuestionV>, int),
    Error,
>
    decreases n,
{
    if n <= 0 {
        Ok((Seq::empty(), pos))
    } else {
        match spec_parse_question(buf, pos) {
            Ok((q, p)) => match spec_parse_questions(buf, p, n - 1) {
                Ok((qs, e)) => Ok((seq![q] + qs, e)),
                Err(e) => Err(e),
            },
            Err(e) => Err(e),
        }
    }
}

/// What parsing one resource record at `pos` yields: a name, four fixed
/// fields, and a payload of exactly the declared rdata length.
pub open spec fn spec_parse_record(buf: Seq<u8>, pos: int) -> Result<(ResourceRecordV, int), Error> {
    match spec_scan(buf, pos, buf.len() as int, 255) {
        Ok((nm, p)) => if p + 10 > buf.len() {
            Err(Error::UnexpectedEOF)
        } else {
            let code = be16(buf, p);
            let rdlen = be16(buf, p + 8);
            if p + 10 + rdlen > buf.len() {
                Err(Error::UnexpectedEOF)
            } else {
                match spec_parse_rdata(buf, p + 10, rdlen as int, code) {
                    Ok(d) => Ok(
                        (
                            ResourceRecordV {
                                name: nm,
                                rtype: Type::spec_from(code),
                                cls: Class::spec_from(be16(buf, p + 2)),
                                ttl: be32(buf, p + 4),
                                data: d,
                            },
                            p + 10 + rdlen,
                        ),
                    ),
                    Err(e) => Err(e),
                }
            }
        },
        Err(e) => Err(e),
    }
}

/// What parsing `n` consecutive resource records from `pos` yields.
pub open spec fn spec_parse_records(buf: Seq<u8>, pos: int, n: int) -> Result<
    (Seq<ResourceRecordV>, int),
    Error,
>
    decreases n,
{
    if n <= 0 {
        Ok((Seq::empty(), pos))
    } else {
        match spec_parse_record(buf, pos) {
            Ok((r, p)) => match spec_parse_records(buf, p, n - 1) {
                Ok((rs, e)) => Ok((seq![r] + rs, e)),
                Err(e) => Err(e),
            },
            Err(e) => Err(e),
        }
    }
}

/// What parsing a whole message yields: the header, then exactly the
/// declared number of questions, answers, authority records and additional
/// records, each section starting where the previous one ended.
pub open spec fn spec_parse_packet(buf: Seq<u8>) -> Result<PacketV, Error> {
    match spec_header_parse(buf) {
        Err(e) => Err(e),
        Ok(h) => match spec_parse_questions(buf, 12, h.questions as int) {
            Err(e) => Err(e),
            Ok((qs, p1)) => match spec_parse_records(buf, p1, h.answers as int) {
                Err(e) => Err(e),
                Ok((ans, p2)) => match spec_parse_records(buf, p2, h.nameservers as int) {
                    Err(e) => Err(e),
                    Ok((ns, p3)) => match spec_parse_records(buf, p3, h.additional as int) {
                        Err(e) => Err(e),
                        Ok((add, _)) => Ok(
                            PacketV {
                                header: h,
                                questions: qs,
                                answers: ans,
                                nameservers: ns,
                                additional: add,
                            },
                        ),
                    },
                },
            },
        },
    }
}

/// A successful section parse yields exactly `n` questions.
pub proof fn lemma_questions_len(buf: Seq<u8>, pos: int, n: int)
    requires
        n >= 0,
        spec_parse_questions(buf, pos, n) matches Ok(_),
    ensures
        spec_parse_questions(buf, pos, n) matches Ok(r) ==> r.0.len() == n,
    decreases n,
{
    if n > 0 {
        let (q, p) = spec_parse_question(buf, pos)->Ok_0;
        lemma_questions_len(buf, p, n - 1);
    }
}

/// A successful section parse yields exactly `n` records.
pub proof fn lemma_records_len(buf: Seq<u8>, pos: int, n: int)
    requires
        n >= 0,
        spec_parse_records(buf, pos, n) matches Ok(_),
    ensures
        spec_parse_records(buf, pos, n) matches Ok(r) ==> r.0.len() == n,
    decreases n,
{
    if n > 0 {
        let (r0, p) = spec_parse_record(buf, pos)->Ok_0;
        lemma_records_len(buf, p, n - 1);
    }
}

/// A successful question walk advances monotonically and never leaves the
/// buffer: declared counts that would need more bytes than the buffer holds
/// cannot parse successfully.
pub proof fn lemma_questions_bounds(buf: Seq<u8>, pos: int, n: int)
    requires
        0 <= pos <= buf.len(),
        spec_parse_questions(buf, pos, n) matches Ok(_),
    ensures
        spec_parse_questions(buf, pos, n) matches Ok(r) ==> pos <= r.1 <= buf.len(),
    decreases n,
{
    if n > 0 {
        let (q, p) = spec_parse_question(buf, pos)->Ok_0;
        crate::name::lemma_scan_wf(buf, pos, buf.len() as int, 255);
        lemma_questions_bounds(buf, p, n - 1);
    }
}

/// A successful record walk advances monotonically and never leaves the
/// buffer: a declared rdata length that runs past the end cannot parse
/// successfully.
pub proof fn lemma_records_bounds(buf: Seq<u8>, pos: int, n: int)
    requires
        0 <= pos <= buf.len(),
        spec_parse_records(buf, pos, n) matches Ok(_),
    ensures
        spec_parse_records(buf, pos, n) matches Ok(r) ==> pos <= r.1 <= buf.len(),
    decreases n,
{
    if n > 0 {
        let (r0, p) = spec_parse_record(buf, pos)->Ok_0;
        crate::name::lemma_scan_wf(buf, pos, buf.len() as int, 255);
        lemma_records_bounds(buf, p, n - 1);
    }
}

/// A parsed packet holds exactly as many entries in each section as its
/// header declares: the walker stops after the declared counts, or fails.
pub proof fn lemma_packet_counts(buf: Seq<u8>, p: PacketV)
    requires
        spec_parse_packet(buf) == Ok::<PacketV, Error>(p),
    ensures
        p.questions.len() == p.header.questions as int,
        p.answers.len() == p.header.answers as int,
        p.nameservers.len() == p.header.nameservers as int,
        p.additional.len() == p.header.additional as int,
{
    let h = spec_header_parse(buf)->Ok_0;
    let (qs, p1) = spec_parse_questions(buf, 12, h.questions as int)->Ok_0;
    let (ans, p2) = spec_parse_records(buf, p1, h.answers as int)->Ok_0;
    let (ns, p3) = spec_parse_records(buf, p2, h.nameservers as int)->Ok_0;
    lemma_questions_len(buf, 12, h.questions as int);
    lemma_records_len(buf, p1, h.answers as int);
    lemma_records_len(buf, p2, h.nameservers as int);
    lemma_records_len(buf, p3, h.additional as int);
}

/// Parse one question at `pos`.
fn parse_question(buf: &[u8], pos: usize) -> (r: Result<(Question, usize), Error>)
    ensures
        match r {
            Ok((q, p)) => spec_parse_question(buf@, pos as int) == Ok::<(QuestionV, int), Error>(
                (q@, p as int),
            ) && pos < p <= buf@.len(),
            Err(e) => spec_parse_question(buf@, pos as int) == Err::<(QuestionV, int), Error>(e),
        },
{
    let total = buf.len();
    match Name::parse(buf, pos) {
        Ok((nm, p)) => {
            if total - p < 4 {
                return Err(Error::UnexpectedEOF);
            }
            let qtype = QueryType::from_code(read_u16(buf, p));
            let qclass = QueryClass::from_code(read_u16(buf, p + 2));
            Ok((Question { name: nm, qtype, qclass }, p + 4))
        },
        Err(e) => Err(e),
    }
}

/// Parse one resource record at `pos`.
fn parse_record(buf: &[u8], pos: usize) -> (r: Result<(ResourceRecord, usize), Error>)
    ensures
        match r {
            Ok((rr, p)) => spec_parse_record(buf@, pos as int) == Ok::<
                (ResourceRecordV, int),
                Error,
            >((rr@, p as int)) && pos < p <= buf@.len(),
            Err(e) => spec_parse_record(buf@, pos as int) == Err::<(ResourceRecordV, int), Error>(
                e,
            ),
        },
{
    let total = buf.len();
    match Name::parse(buf, pos) {
        Ok((nm, p)) => {
            if total - p < 10 {
                return Err(Error::UnexpectedEOF);
            }
            let code = read_u16(buf, p);
            let cls = read_u16(buf, p + 2);
            let ttl = read_u32(buf, p + 4);
            let rdlen = read_u16(buf, p + 8) as usize;
            if rdlen > total - (p + 10) {
                return Err(Error::UnexpectedEOF);
            }
            match parse_rdata(buf, p + 10, rdlen, code) {
                Ok(d) => Ok(
                    (
                        ResourceRecord {
                            name: nm,
                            rtype: Type::from_code(code),
                            cls: Class::from_code(cls),
                            ttl,
                            data: d,
                        },
                        p + 10 + rdlen,
                    ),
                ),
                Err(e) => Err(e),
            }
        },
        Err(e) => Err(e),
    }
}

/// Parse `n` consecutive questions starting at `pos`.
fn parse_questions(buf: &[u8], pos: usize, n: u16) -> (r: Result<(Vec<Question>, usize), Error>)
    requires
        pos <= buf@.len(),
    ensures
        match r {
            Ok((qs, end)) => spec_parse_questions(buf@, pos as int, n as int) == Ok::<
                (Seq<QuestionV>, int),
                Error,
            >((qs.deep_view(), end as int)) && end <= buf@.len(),
            Err(e) => spec_parse_questions(buf@, pos as int, n as int) == Err::<
                (Seq<QuestionV>, int),
                Error,
            >(e),
        },
{
    let mut acc: Vec<Question> = Vec::new();
    let mut cursor = pos;
    let mut i: u16 = 0;
    proof {
        assert(acc.deep_view() =~= Seq::<QuestionV>::empty());
    }
    while i < n
        invariant
            0 <= i <= n,
            cursor <= buf@.len(),
            spec_parse_questions(buf@, pos as int, n as int) == (match spec_parse_questions(
                buf@,
                cursor as int,
                n as int - i,
            ) {
                Ok((qs, e)) => Ok::<(Seq<QuestionV>, int), Error>((acc.deep_view() + qs, e)),
                Err(e) => Err::<(Seq<QuestionV>, int), Error>(e),
            }),
        decreases n as int - i,
    {
        match parse_question(buf, cursor) {
            Ok((q, p)) => {
                let ghost accv = acc.deep_view();
                let ghost rest = spec_parse_questions(buf@, p as int, n as int - i - 1);
                acc.push(q);
                proof {
                    assert forall|t: int| 0 <= t < acc.deep_view().len() implies
                        #[trigger] acc.deep_view()[t] == accv.push(q@)[t] by {
                        if t < accv.len() {
                            assert(acc.deep_view()[t] == acc@[t].deep_view());
                        } else {
                            assert(acc@[t] == q);
                        }
                    }
                    assert(acc.deep_view() =~= accv.push(q@));
                    match rest {
                        Ok((qs2, e)) => {
                            assert(accv.push(q@) + qs2 =~= accv + (seq![q@] + qs2));
                        },
                        Err(_) => {},
                    }
                }
                cursor = p;
                i = i + 1;
            },
            Err(e) => {
                proof {
                    assert(spec_parse_questions(buf@, cursor as int, n as int - i) == Err::<
                        (Seq<QuestionV>, int),
                        Error,
                    >(e));
                }
                return Err(e);
            },
        }
    }
    proof {
        assert(acc.deep_view() + Seq::<QuestionV>::empty() =~= acc.deep_view());
    }
    Ok((acc, cursor))
}

/// Parse `n` consecutive resource records starting at `pos`.
fn parse_records(buf: &[u8], pos: usize, n: u16) -> (r: Result<
    (Vec<ResourceRecord>, usize),
    Error,
>)
    requires
        pos <= buf@.len(),
    ensures
        match r {
            Ok((rs, end)) => spec_parse_records(buf@, pos as int, n as int) == Ok::<
                (Seq<ResourceRecordV>, int),
                Error,
            >((rs.deep_view(), end as int)) && end <= buf@.len(),
            Err(e) => spec_parse_records(buf@, pos as int, n as int) == Err::<
                (Seq<ResourceRecordV>, int),
                Error,
            >(e),
        },
{
    let mut acc: Vec<ResourceRecord> = Vec::new();
    let mut cursor = pos;
    let mut i: u16 = 0;
    proof {
        assert(acc.deep_view() =~= Seq::<ResourceRecordV>::empty());
    }
    while i < n
        invariant
            0 <= i <= n,
            cursor <= buf@.len(),
            spec_parse_records(buf@, pos as int, n as int) == (match spec_parse_records(
                buf@,
                cursor as int,
                n as int - i,
            ) {
                Ok((rs, e)) => Ok::<(Seq<ResourceRecordV>, int), Error>((acc.deep_view() + rs, e)),
                Err(e) => Err::<(Seq<ResourceRecordV>, int), Error>(e),
            }),
        decreases n as int - i,
    {
        match parse_record(buf, cursor) {
            Ok((rr, p)) => {
                let ghost accv = acc.deep_view();
                let ghost rest = spec_parse_records(buf@, p as int, n as int - i - 1);
                acc.push(rr);
                proof {
                    assert forall|t: int| 0 <= t < acc.deep_view().len() implies
                        #[trigger] acc.deep_view()[t] == accv.push(rr@)[t] by {
                        if t < accv.len() {
                            assert(acc.deep_view()[t] == acc@[t].deep_view());
                        } else {
                            assert(acc@[t] == rr);
                        }
                    }
                    assert(acc.deep_view() =~= accv.push(rr@));
                    match rest {
                        Ok((rs2, e)) => {
                            assert(accv.push(rr@) + rs2 =~= accv + (seq![rr@] + rs2));
                        },
                        Err(_) => {},
                    }
                }
                cursor = p;
                i = i + 1;
            },
            Err(e) => {
                proof {
                    assert(spec_parse_records(buf@, cursor as int, n as int - i) == Err::<
                        (Seq<ResourceRecordV>, int),
                        Error,
                    >(e));
                }
                return Err(e);
            },
        }
    }
    proof {
        assert(acc.deep_view() + Seq::<ResourceRecordV>::empty() =~= acc.deep_view());
    }
    Ok((acc, cursor))
}

impl Packet {
    /// Parse a whole message: the twelve-byte header, then exactly the
    /// declared number of entries of each section, in order. Any failure
    /// aborts the parse; no partial packet is returned.
    pub fn parse(data: &[u8]) -> (r: Result<Packet, Error>)
        ensures
            match r {
                Ok(p) => spec_parse_packet(data@) == Ok::<PacketV, Error>(p@),
                Err(e) => spec_parse_packet(data@) == Err::<PacketV, Error>(e),
            },
    {
        let header = match Header::parse(data) {
            Ok(h) => h,
            Err(e) => {
                return Err(e);
            },
        };
        let (questions, p1) = match parse_questions(data, 12, header.questions) {
            Ok(x) => x,
            Err(e) => {
                return Err(e);
            },
        };
        let (answers, p2) = match parse_records(data, p1, header.answers) {
            Ok(x) => x,
            Err(e) => {
                return Err(e);
            },
        };
        let (nameservers, p3) = match parse_records(data, p2, header.nameservers) {
            Ok(x) => x,
            Err(e) => {
                return Err(e);
            },
        };
        let (additional, _p4) = match parse_records(data, p3, header.additional) {
            Ok(x) => x,
            Err(e) => {
                return Err(e);
            },
        };
        Ok(Packet { header, questions, answers, nameservers, additional })
    }
}

} // verus!
