use vstd::prelude::*;

use crate::enums::{Class, Opcode, QueryClass, QueryType, ResponseCode};
use crate::error::Error;
use crate::header::{
    be16, be32, lemma_be16_field, lemma_be32_field, spec_header_bytes, spec_header_parse, Header,
};
use crate::name::{
    dict_ok, encoded_len, lemma_scan_grow, name_wf_seq, spec_scan, write_name, Name, NameDict,
};
use crate::rdata::config::{lemma_txt_len_concat, lemma_txt_len_nonneg, txt_len, RData, RDataV};

verus! {

/// The four phases of a build, in the order the sections are laid out.
#[derive(Debug, Clone, Copy, PartialEq, Eq, Structural)]
pub enum Phase {
    Questions,
    Answers,
    Nameservers,
    Additional,
}

/// The position of a phase in the fixed section order.
pub open spec fn phase_rank(p: Phase) -> int {
    match p {
        Phase::Questions => 0,
        Phase::Answers => 1,
        Phase::Nameservers => 2,
        Phase::Additional => 3,
    }
}

/// A payload the builder can serialise: names well formed, text payloads
/// holding at least one string and fitting the sixteen-bit rdata length
/// field, opaque payloads likewise bounded, and a type code known from the
/// variant itself.
pub open spec fn rdata_buildable(d: RDataV) -> bool {
    match d {
        RDataV::A(o) => o.len() == 4,
        RDataV::AAAA(o) => o.len() == 16,
        RDataV::CNAME(n) => name_wf_seq(n),
        RDataV::NS(n) => name_wf_seq(n),
        RDataV::PTR(n) => name_wf_seq(n),
        RDataV::MX(_, n) => name_wf_seq(n),
        RDataV::SOA(s) => name_wf_seq(s.primary_ns) && name_wf_seq(s.mailbox),
        RDataV::SRV(s) => name_wf_seq(s.target),
        RDataV::TXT(ss) => ss.len() > 0 && txt_len(ss) <= 65535 && forall|i: int|
            0 <= i < ss.len() ==> (#[trigger] ss[i]).len() <= 255,
        RDataV::OPT(o) => o.len() <= 65535,
        RDataV::Unknown(_) => false,
    }
}

/// The record type code the builder writes for a payload.
pub open spec fn spec_rdata_code(d: RDataV) -> u16 {
    match d {
        RDataV::A(_) => 1,
        RDataV::AAAA(_) => 28,
        RDataV::CNAME(_) => 5,
        RDataV::NS(_) => 2,
        RDataV::PTR(_) => 12,
        RDataV::MX(_, _) => 15,
        RDataV::SOA(_) => 6,
        RDataV::SRV(_) => 33,
        RDataV::TXT(_) => 16,
        RDataV::OPT(_) => 41,
        RDataV::Unknown(_) => 0,
    }
}

/// How many bytes the builder's serialisation of a payload takes. Names
/// inside rdata are written in uncompressed form, so the length is a
/// function of the payload alone.
pub open spec fn spec_rdata_len(d: RDataV) -> int {
    match d {
        RDataV::A(o) => o.len() as int,
        RDataV::AAAA(o) => o.len() as int,
        RDataV::CNAME(n) => encoded_len(n),
        RDataV::NS(n) => encoded_len(n),
        RDataV::PTR(n) => encoded_len(n),
        RDataV::MX(_, n) => 2 + encoded_len(n),
        RDataV::SOA(s) => encoded_len(s.primary_ns) + encoded_len(s.mailbox) + 20,
        RDataV::SRV(s) => 6 + encoded_len(s.target),
        RDataV::TXT(ss) => txt_len(ss),
        RDataV::OPT(o) => o.len() as int,
        RDataV::Unknown(o) => o.len() as int,
    }
}

fn push_u16(out: &mut Vec<u8>, v: u16)
    ensures
        final(out)@ == old(out)@ + seq![(v / 256) as u8, (v % 256) as u8],
        final(out)@.len() == old(out)@.len() + 2,
{
    out.push((v / 256) as u8);
    out.push((v % 256) as u8);
    proof {
        assert(out@ =~= old(out)@ + seq![(v / 256) as u8, (v % 256) as u8]);
    }
}

fn push_u32(out: &mut Vec<u8>, v: u32)
    ensures
        final(out)@ == old(out)@ + seq![
            (v / 0x1000000) as u8,
            ((v / 0x10000) % 256) as u8,
            ((v / 256) % 256) as u8,
            (v % 256) as u8,
        ],
        final(out)@.len() == old(out)@.len() + 4,
{
    out.push((v / 0x1000000) as u8);
    out.push(((v / 0x10000) % 256) as u8);
    out.push(((v / 256) % 256) as u8);
    out.push((v % 256) as u8);
    proof {
        assert(out@ =~= old(out)@ + seq![
            (v / 0x1000000) as u8,
            ((v / 0x10000) % 256) as u8,
            ((v / 256) % 256) as u8,
            (v % 256) as u8,
        ]);
    }
}

fn push_bytes(out: &mut Vec<u8>, bytes: &Vec<u8>)
    ensures
        final(out)@ == old(out)@ + bytes@,
        final(out)@.len() == old(out)@.len() + bytes@.len(),
{
    let ghost pre = out@;
    let mut j: usize = 0;
    while j < bytes.len()
        invariant
            0 <= j <= bytes@.len(),
            out@ == pre + bytes@.subrange(0, j as int),
        decreases bytes@.len() - j,
    {
        out.push(bytes[j]);
        proof {
            assert(out@ =~= pre + bytes@.subrange(0, j + 1));
        }
        j = j + 1;
    }
    proof {
        assert(bytes@.subrange(0, bytes@.len() as int) =~= bytes@);
    }
}

/// Write a name in its plain, uncompressed wire form.
fn write_name_plain(name: &Name, out: &mut Vec<u8>)
    requires
        name.wf(),
        old(out)@.len() + 256 <= usize::MAX,
    ensures
        final(out)@ == old(out)@ + crate::name::wire(name@),
        final(out)@.len() == old(out)@.len() + encoded_len(name@),
{
    let mut scratch = NameDict::new();
    write_name(name, out, &mut scratch);
    proof {
        crate::name::lemma_wire_len(name@);
    }
}

/// The record type code the builder writes for a payload.
fn rdata_code(data: &RData) -> (r: u16)
    ensures
        r == spec_rdata_code(data@),
{
    match data {
        RData::A(_) => 1,
        RData::AAAA(_) => 28,
        RData::CNAME(_) => 5,
        RData::NS(_) => 2,
        RData::PTR(_) => 12,
        RData::MX(_) => 15,
        RData::SOA(_) => 6,
        RData::SRV(_) => 33,
        RData::TXT(_) => 16,
        RData::OPT(_) => 41,
        RData::Unknown(_) => 0,
    }
}

/// How many bytes serialising `data` will take.
fn rdata_len(data: &RData) -> (r: usize)
    requires
        rdata_buildable(data@),
    ensures
        r == spec_rdata_len(data@),
        r <= 65535,
{
    match data {
        RData::A(rec) => rec.octets.len(),
        RData::AAAA(o) => o.len(),
        RData::CNAME(n) => n.encoded_size(),
        RData::NS(n) => n.encoded_size(),
        RData::PTR(n) => n.encoded_size(),
        RData::MX(m) => 2 + m.exchange.encoded_size(),
        RData::SOA(s) => s.primary_ns.encoded_size() + s.mailbox.encoded_size() + 20,
        RData::SRV(s) => 6 + s.target.encoded_size(),
        RData::TXT(ss) => txt_len_exec(ss),
        RData::OPT(o) => o.len(),
        RData::Unknown(o) => o.len(),
    }
}

fn txt_len_exec(ss: &Vec<Vec<u8>>) -> (r: usize)
    requires
        txt_len(ss.deep_view()) <= 65535,
    ensures
        r == txt_len(ss.deep_view()),
        r <= 65535,
{
    let ghost deep = ss.deep_view();
    let mut acc: usize = 0;
    let mut i: usize = 0;
    while i < ss.len()
        invariant
            0 <= i <= ss@.len(),
            deep == ss.deep_view(),
            deep.len() == ss@.len(),
            txt_len(deep) <= 65535,
            acc == txt_len(deep.take(i as int)),
            acc <= 65535,
        decreases ss@.len() - i,
    {
        proof {
            crate::name::lemma_bytes_deep(ss@[i as int]);
            assert(deep[i as int] == ss@[i as int].deep_view());
            lemma_txt_take_step(deep, i as int);
            lemma_txt_take_bound(deep, i + 1);
        }
        let l = ss[i].len();
        acc = acc + 1 + l;
        i = i + 1;
    }
    proof {
        assert(deep.take(deep.len() as int) =~= deep);
    }
    acc
}

/// Taking one more string adds its length byte and its bytes.
proof fn lemma_txt_take_step(ss: Seq<Seq<u8>>, i: int)
    requires
        0 <= i < ss.len(),
    ensures
        txt_len(ss.take(i + 1)) == txt_len(ss.take(i)) + 1 + ss[i].len(),
{
    assert(ss.take(i + 1) =~= ss.take(i) + seq![ss[i]]);
    lemma_txt_len_concat(ss.take(i), seq![ss[i]]);
    let single = seq![ss[i]];
    assert(single.len() == 1 && single[0] == ss[i]);
    assert(single.skip(1) =~= Seq::<Seq<u8>>::empty());
    assert(txt_len(Seq::<Seq<u8>>::empty()) == 0);
    assert(txt_len(single) == 1 + ss[i].len());
}

/// A prefix of a text payload never takes more bytes than the whole.
proof fn lemma_txt_take_bound(ss: Seq<Seq<u8>>, i: int)
    requires
        0 <= i <= ss.len(),
    ensures
        txt_len(ss.take(i)) <= txt_len(ss),
        txt_len(ss.take(i)) >= 0,
{
    assert(ss =~= ss.take(i) + ss.skip(i));
    lemma_txt_len_concat(ss.take(i), ss.skip(i));
    lemma_txt_len_nonneg(ss.skip(i));
    lemma_txt_len_nonneg(ss.take(i));
}

/// Serialise a payload at the end of `out`, names in uncompressed form.
fn write_rdata(data: &RData, out: &mut Vec<u8>)
    requires
        rdata_buildable(data@),
        old(out)@.len() + 70000 <= usize::MAX,
    ensures
        final(out)@.len() == old(out)@.len() + spec_rdata_len(data@),
        final(out)@.subrange(0, old(out)@.len() as int) == old(out)@,
{
    let ghost pre = out@;
    match data {
        RData::A(rec) => {
            push_bytes(out, &rec.octets);
        },
        RData::AAAA(o) => {
            push_bytes(out, o);
        },
        RData::CNAME(n) => {
            write_name_plain(n, out);
        },
        RData::NS(n) => {
            write_name_plain(n, out);
        },
        RData::PTR(n) => {
            write_name_plain(n, out);
        },
        RData::MX(m) => {
            push_u16(out, m.preference);
            write_name_plain(&m.exchange, out);
        },
        RData::SOA(s) => {
            write_name_plain(&s.primary_ns, out);
            write_name_plain(&s.mailbox, out);
            push_u32(out, s.serial);
            push_u32(out, s.refresh);
            push_u32(out, s.retry);
            push_u32(out, s.expire);
            push_u32(out, s.minimum_ttl);
        },
        RData::SRV(s) => {
            push_u16(out, s.priority);
            push_u16(out, s.weight);
            push_u16(out, s.port);
            write_name_plain(&s.target, out);
        },
        RData::TXT(ss) => {
            let ghost deep = ss.deep_view();
            let mut i: usize = 0;
            while i < ss.len()
                invariant
                    0 <= i <= ss@.len(),
                    deep == ss.deep_view(),
                    deep.len() == ss@.len(),
                    txt_len(deep) <= 65535,
                    forall|t: int| 0 <= t < deep.len() ==> (#[trigger] deep[t]).len() <= 255,
                    out@.len() == pre.len() + txt_len(deep.take(i as int)),
                    out@.subrange(0, pre.len() as int) == pre,
                    pre.len() + 70000 <= usize::MAX,
                decreases ss@.len() - i,
            {
                proof {
                    crate::name::lemma_bytes_deep(ss@[i as int]);
                    assert(deep[i as int] == ss@[i as int].deep_view());
                    lemma_txt_take_step(deep, i as int);
                    lemma_txt_take_bound(deep, i as int);
                    lemma_txt_take_bound(deep, i + 1);
                }
                let s = &ss[i];
                out.push(s.len() as u8);
                push_bytes(out, s);
                proof {
                    assert(out@.subrange(0, pre.len() as int) =~= pre);
                }
                i = i + 1;
            }
            proof {
                assert(deep.take(deep.len() as int) =~= deep);
            }
        },
        RData::OPT(o) => {
            push_bytes(out, o);
        },
        RData::Unknown(o) => {
            push_bytes(out, o);
        },
    }
    proof {
        assert(out@.subrange(0, pre.len() as int) =~= pre);
    }
}

/// A sequential, append-only constructor for one outgoing message.
///
/// Questions come first, then answers, authority records and additional
/// records, in that order. Names are compressed against a dictionary scoped
/// to this build. With a byte budget set, an addition that would exceed it
/// is rolled back whole, the truncation flag is recorded, and nothing more
/// is added; the finished header counts exactly the entries written.
pub struct Builder {
    buf: Vec<u8>,
    dict: NameDict,
    phase: Phase,
    head: Header,
    questions: u16,
    answers: u16,
    nameservers: u16,
    additional: u16,
    limit_set: bool,
    limit: usize,
    truncated: bool,
}

impl Builder {
    /// The message bytes accumulated so far, including the twelve bytes
    /// reserved for the header.
    pub closed spec fn spec_bytes(&self) -> Seq<u8> {
        self.buf@
    }

    pub closed spec fn spec_size(&self) -> int {
        self.buf@.len() as int
    }

    pub closed spec fn spec_phase(&self) -> Phase {
        self.phase
    }

    pub closed spec fn spec_head(&self) -> Header {
        self.head
    }

    pub closed spec fn spec_dict(&self) -> Seq<(Seq<Seq<u8>>, int)> {
        self.dict@
    }

    pub closed spec fn spec_questions(&self) -> int {
        self.questions as int
    }

    pub closed spec fn spec_answers(&self) -> int {
        self.answers as int
    }

    pub closed spec fn spec_nameservers(&self) -> int {
        self.nameservers as int
    }

    pub closed spec fn spec_additional(&self) -> int {
        self.additional as int
    }

    pub closed spec fn spec_limit_set(&self) -> bool {
        self.limit_set
    }

    pub closed spec fn spec_limit(&self) -> int {
        self.limit as int
    }

    pub closed spec fn spec_truncated(&self) -> bool {
        self.truncated
    }

    /// The header the finished message will carry: the template with the
    /// final section counts and the truncation flag.
    pub open spec fn spec_built_header(&self) -> Header {
        Header {
            questions: self.spec_questions() as u16,
            answers: self.spec_answers() as u16,
            nameservers: self.spec_nameservers() as u16,
            additional: self.spec_additional() as u16,
            truncated: self.spec_head().truncated || self.spec_truncated(),
            ..self.spec_head()
        }
    }

    /// The builder's internal consistency: room for the header, a sound
    /// dictionary, a well-formed header template, and the budget respected.
    pub closed spec fn wf(&self) -> bool {
        &&& self.buf@.len() >= 12
        &&& dict_ok(self.dict@, self.buf@)
        &&& self.head.wf()
        &&& (self.limit_set ==> self.buf@.len() <= self.limit)
    }

    /// A fresh builder for a query with the given id.
    pub fn new_query(id: u16, recursion_desired: bool) -> (b: Builder)
        ensures
            b.wf(),
            b.spec_phase() == Phase::Questions,
            b.spec_questions() == 0,
            b.spec_answers() == 0,
            b.spec_nameservers() == 0,
            b.spec_additional() == 0,
            !b.spec_truncated(),
            !b.spec_limit_set(),
            b.spec_size() == 12,
            b.spec_dict().len() == 0,
            b.spec_head() == (Header {
                id,
                query: true,
                opcode: Opcode::StandardQuery,
                authoritative: false,
                truncated: false,
                recursion_desired,
                recursion_available: false,
                authenticated_data: false,
                checking_disabled: false,
                response_code: ResponseCode::NoError,
                questions: 0,
                answers: 0,
                nameservers: 0,
                additional: 0,
            }),
    {
        let mut buf: Vec<u8> = Vec::new();
        let mut i: usize = 0;
        while i < 12
            invariant
                0 <= i <= 12,
                buf@.len() == i,
            decreases 12 - i,
        {
            buf.push(0);
            i = i + 1;
        }
        let head = Header {
            id,
            query: true,
            opcode: Opcode::StandardQuery,
            authoritative: false,
            truncated: false,
            recursion_desired,
            recursion_available: false,
            authenticated_data: false,
            checking_disabled: false,
            response_code: ResponseCode::NoError,
            questions: 0,
            answers: 0,
            nameservers: 0,
            additional: 0,
        };
        Builder {
            buf,
            dict: NameDict::new(),
            phase: Phase::Questions,
            head,
            questions: 0,
            answers: 0,
            nameservers: 0,
            additional: 0,
            limit_set: false,
            limit: 0,
            truncated: false,
        }
    }

    /// Configure the byte budget the finished message must fit in.
    pub fn set_max_size(&mut self, max: usize)
        requires
            old(self).wf(),
            max >= 12,
            old(self).spec_size() <= max,
        ensures
            final(self).wf(),
            final(self).spec_limit_set(),
            final(self).spec_limit() == max,
            final(self).spec_bytes() == old(self).spec_bytes(),
            final(self).spec_phase() == old(self).spec_phase(),
            final(self).spec_head() == old(self).spec_head(),
            final(self).spec_dict() == old(self).spec_dict(),
            final(self).spec_questions() == old(self).spec_questions(),
            final(self).spec_answers() == old(self).spec_answers(),
            final(self).spec_nameservers() == old(self).spec_nameservers(),
            final(self).spec_additional() == old(self).spec_additional(),
            final(self).spec_truncated() == old(self).spec_truncated(),
    {
        self.limit_set = true;
        self.limit = max;
    }

    /// Append one question. Returns whether it was added: with a budget
    /// set, an addition that would overflow it is undone whole and the
    /// truncation flag recorded instead.
    pub fn add_question(&mut self, name: &Name, qtype: QueryType, qclass: QueryClass) -> (added:
        bool)
        requires
            old(self).wf(),
            name.wf(),
            old(self).spec_phase() == Phase::Questions,
            old(self).spec_questions() < 0xFFFF,
            old(self).spec_size() <= 0x3FF0_0000,
        ensures
            final(self).wf(),
            final(self).spec_phase() == Phase::Questions,
            final(self).spec_head() == old(self).spec_head(),
            final(self).spec_limit_set() == old(self).spec_limit_set(),
            final(self).spec_limit() == old(self).spec_limit(),
            final(self).spec_answers() == old(self).spec_answers(),
            final(self).spec_nameservers() == old(self).spec_nameservers(),
            final(self).spec_additional() == old(self).spec_additional(),
            (!old(self).spec_truncated() && (!old(self).spec_limit_set() || old(self).spec_size()
                + encoded_len(name@) + 4 <= old(self).spec_limit())) ==> added,
            added ==> {
                &&& !old(self).spec_truncated()
                &&& !final(self).spec_truncated()
                &&& final(self).spec_questions() == old(self).spec_questions() + 1
                &&& final(self).spec_size() >= old(self).spec_size() + 5
                &&& final(self).spec_bytes().subrange(0, old(self).spec_size()) == old(self).spec_bytes()
                &&& (old(self).spec_limit_set() ==> final(self).spec_size() <= old(self).spec_limit())
                &&& spec_scan(
                    final(self).spec_bytes(),
                    old(self).spec_size(),
                    final(self).spec_size(),
                    255,
                ) == Ok::<_, Error>((name@, final(self).spec_size() - 4))
                &&& be16(final(self).spec_bytes(), final(self).spec_size() - 4)
                    == qtype.spec_code()
                &&& be16(final(self).spec_bytes(), final(self).spec_size() - 2)
                    == qclass.spec_code()
                &&& (crate::name::dict_has(old(self).spec_dict(), name@) ==> final(self).spec_size() == old(self).spec_size() + 6)
                &&& (old(self).spec_size() < 0x4000 && name@.len() > 0 ==> crate::name::dict_has(
                    final(self).spec_dict(),
                    name@,
                ))
            },
            !added ==> {
                &&& final(self).spec_bytes() == old(self).spec_bytes()
                &&& final(self).spec_questions() == old(self).spec_questions()
                &&& final(self).spec_dict() == old(self).spec_dict()
                &&& final(self).spec_truncated()
            },
    {
        if self.truncated {
            return false;
        }
        let start = self.buf.len();
        let dstart = self.dict.len();
        let ghost prebuf = self.buf@;
        let ghost predict = self.dict@;
        write_name(name, &mut self.buf, &mut self.dict);
        let ghost aftername = self.buf@;
        push_u16(&mut self.buf, qtype.code());
        push_u16(&mut self.buf, qclass.code());
        proof {
            assert(self.buf@ == aftername + (seq![
                (qtype.spec_code() / 256) as u8,
                (qtype.spec_code() % 256) as u8,
            ] + seq![(qclass.spec_code() / 256) as u8, (qclass.spec_code() % 256) as u8]));
            lemma_scan_grow(
                aftername,
                self.buf@.subrange(aftername.len() as int, self.buf@.len() as int),
                start as int,
                aftername.len() as int,
                255,
                self.buf@.len() as int,
                255,
            );
            assert(aftername + self.buf@.subrange(aftername.len() as int, self.buf@.len() as int)
                =~= self.buf@);
            crate::name::lemma_dict_ok_grow(
                self.dict@,
                aftername,
                self.buf@.subrange(aftername.len() as int, self.buf@.len() as int),
            );
            assert(self.buf@.subrange(0, start as int) =~= prebuf);
            lemma_be16_field(self.buf@, self.buf@.len() - 4, qtype.spec_code());
            lemma_be16_field(self.buf@, self.buf@.len() - 2, qclass.spec_code());
        }
        if self.limit_set && self.buf.len() > self.limit {
            self.buf.truncate(start);
            self.dict.rollback(dstart);
            self.truncated = true;
            proof {
                assert(self.buf@ =~= prebuf);
                assert(self.dict@ =~= predict);
            }
            return false;
        }
        self.questions = self.questions + 1;
        true
    }

    /// Append one answer record.
    pub fn add_answer(&mut self, name: &Name, cls: Class, ttl: u32, data: &RData) -> (added: bool)
        requires
            old(self).wf(),
            name.wf(),
            rdata_buildable(data@),
            phase_rank(old(self).spec_phase()) <= 1,
            old(self).spec_answers() < 0xFFFF,
            old(self).spec_size() <= 0x3FF0_0000,
        ensures
            final(self).wf(),
            final(self).spec_phase() == Phase::Answers,
            final(self).spec_head() == old(self).spec_head(),
            final(self).spec_limit_set() == old(self).spec_limit_set(),
            final(self).spec_limit() == old(self).spec_limit(),
            final(self).spec_questions() == old(self).spec_questions(),
            final(self).spec_nameservers() == old(self).spec_nameservers(),
            final(self).spec_additional() == old(self).spec_additional(),
            (!old(self).spec_truncated() && (!old(self).spec_limit_set() || old(self).spec_size()
                + encoded_len(name@) + 10 + spec_rdata_len(data@) <= old(self).spec_limit()))
                ==> added,
            added ==> {
                &&& !old(self).spec_truncated()
                &&& !final(self).spec_truncated()
                &&& final(self).spec_answers() == old(self).spec_answers() + 1
                &&& final(self).spec_size() > old(self).spec_size()
                &&& final(self).spec_bytes().subrange(0, old(self).spec_size()) == old(self).spec_bytes()
                &&& (old(self).spec_limit_set() ==> final(self).spec_size() <= old(self).spec_limit())
                &&& (match spec_scan(
                    final(self).spec_bytes(),
                    old(self).spec_size(),
                    final(self).spec_size(),
                    255,
                ) {
                    Ok(r) => {
                        &&& r.0 == name@
                        &&& be16(final(self).spec_bytes(), r.1) == spec_rdata_code(data@)
                        &&& be16(final(self).spec_bytes(), r.1 + 2) == cls.spec_code()
                        &&& be32(final(self).spec_bytes(), r.1 + 4) == ttl
                        &&& be16(final(self).spec_bytes(), r.1 + 8) == spec_rdata_len(data@)
                        &&& final(self).spec_size() == r.1 + 10 + spec_rdata_len(data@)
                    },
                    Err(_) => false,
                })
            },
            !added ==> {
                &&& final(self).spec_bytes() == old(self).spec_bytes()
                &&& final(self).spec_answers() == old(self).spec_answers()
                &&& final(self).spec_truncated()
            },
    {
        self.phase = Phase::Answers;
        let added = self.append_record(name, cls, ttl, data);
        if added {
            self.answers = self.answers + 1;
        }
        added
    }

    /// Append one authority record.
    pub fn add_nameserver(&mut self, name: &Name, cls: Class, ttl: u32, data: &RData) -> (added:
        bool)
        requires
            old(self).wf(),
            name.wf(),
            rdata_buildable(data@),
            phase_rank(old(self).spec_phase()) <= 2,
            old(self).spec_nameservers() < 0xFFFF,
            old(self).spec_size() <= 0x3FF0_0000,
        ensures
            final(self).wf(),
            final(self).spec_phase() == Phase::Nameservers,
            final(self).spec_head() == old(self).spec_head(),
            final(self).spec_limit_set() == old(self).spec_limit_set(),
            final(self).spec_limit() == old(self).spec_limit(),
            final(self).spec_questions() == old(self).spec_questions(),
            final(self).spec_answers() == old(self).spec_answers(),
            final(self).spec_additional() == old(self).spec_additional(),
            (!old(self).spec_truncated() && (!old(self).spec_limit_set() || old(self).spec_size()
                + encoded_len(name@) + 10 + spec_rdata_len(data@) <= old(self).spec_limit()))
                ==> added,
            added ==> {
                &&& !final(self).spec_truncated()
                &&& final(self).spec_nameservers() == old(self).spec_nameservers() + 1
                &&& final(self).spec_size() > old(self).spec_size()
                &&& final(self).spec_bytes().subrange(0, old(self).spec_size()) == old(self).spec_bytes()
                &&& (old(self).spec_limit_set() ==> final(self).spec_size() <= old(self).spec_limit())
                &&& (match spec_scan(
                    final(self).spec_bytes(),
                    old(self).spec_size(),
                    final(self).spec_size(),
                    255,
                ) {
                    Ok(r) => {
                        &&& r.0 == name@
                        &&& be16(final(self).spec_bytes(), r.1) == spec_rdata_code(data@)
                        &&& be16(final(self).spec_bytes(), r.1 + 2) == cls.spec_code()
                        &&& be32(final(self).spec_bytes(), r.1 + 4) == ttl
                        &&& be16(final(self).spec_bytes(), r.1 + 8) == spec_rdata_len(data@)
                        &&& final(self).spec_size() == r.1 + 10 + spec_rdata_len(data@)
                    },
                    Err(_) => false,
                })
            },
            !added ==> {
                &&& final(self).spec_bytes() == old(self).spec_bytes()
                &&& final(self).spec_nameservers() == old(self).spec_nameservers()
                &&& final(self).spec_truncated()
            },
    {
        self.phase = Phase::Nameservers;
        let added = self.append_record(name, cls, ttl, data);
        if added {
            self.nameservers = self.nameservers + 1;
        }
        added
    }

    /// Append one additional record.
    pub fn add_additional(&mut self, name: &Name, cls: Class, ttl: u32, data: &RData) -> (added:
        bool)
        requires
            old(self).wf(),
            name.wf(),
            rdata_buildable(data@),
            old(self).spec_additional() < 0xFFFF,
            old(self).spec_size() <= 0x3FF0_0000,
        ensures
            final(self).wf(),
            final(self).spec_phase() == Phase::Additional,
            final(self).spec_head() == old(self).spec_head(),
            final(self).spec_limit_set() == old(self).spec_limit_set(),
            final(self).spec_limit() == old(self).spec_limit(),
            final(self).spec_questions() == old(self).spec_questions(),
            final(self).spec_answers() == old(self).spec_answers(),
            final(self).spec_nameservers() == old(self).spec_nameservers(),
            (!old(self).spec_truncated() && (!old(self).spec_limit_set() || old(self).spec_size()
                + encoded_len(name@) + 10 + spec_rdata_len(data@) <= old(self).spec_limit()))
                ==> added,
            added ==> {
                &&& !final(self).spec_truncated()
                &&& final(self).spec_additional() == old(self).spec_additional() + 1
                &&& final(self).spec_size() > old(self).spec_size()
                &&& final(self).spec_bytes().subrange(0, old(self).spec_size()) == old(self).spec_bytes()
                &&& (old(self).spec_limit_set() ==> final(self).spec_size() <= old(self).spec_limit())
                &&& (match spec_scan(
                    final(self).spec_bytes(),
                    old(self).spec_size(),
                    final(self).spec_size(),
                    255,
                ) {
                    Ok(r) => {
                        &&& r.0 == name@
                        &&& be16(final(self).spec_bytes(), r.1) == spec_rdata_code(data@)
                        &&& be16(final(self).spec_bytes(), r.1 + 2) == cls.spec_code()
                        &&& be32(final(self).spec_bytes(), r.1 + 4) == ttl
                        &&& be16(final(self).spec_bytes(), r.1 + 8) == spec_rdata_len(data@)
                        &&& final(self).spec_size() == r.1 + 10 + spec_rdata_len(data@)
                    },
                    Err(_) => false,
                })
            },
            !added ==> {
                &&& final(self).spec_bytes() == old(self).spec_bytes()
                &&& final(self).spec_additional() == old(self).spec_additional()
                &&& final(self).spec_truncated()
            },
    {
        self.phase = Phase::Additional;
        let added = self.append_record(name, cls, ttl, data);
        if added {
            self.additional = self.additional + 1;
        }
        added
    }

    /// Write one whole record: name, fixed fields, rdata length, rdata.
    /// On budget overflow the record is removed whole and the truncation
    /// flag set.
    fn append_record(&mut self, name: &Name, cls: Class, ttl: u32, data: &RData) -> (added: bool)
        requires
            old(self).wf(),
            name.wf(),
            rdata_buildable(data@),
            old(self).spec_size() <= 0x3FF0_0000,
        ensures
            final(self).wf(),
            final(self).spec_phase() == old(self).spec_phase(),
            final(self).spec_head() == old(self).spec_head(),
            final(self).spec_limit_set() == old(self).spec_limit_set(),
            final(self).spec_limit() == old(self).spec_limit(),
            final(self).spec_questions() == old(self).spec_questions(),
            final(self).spec_answers() == old(self).spec_answers(),
            final(self).spec_nameservers() == old(self).spec_nameservers(),
            final(self).spec_additional() == old(self).spec_additional(),
            (!old(self).spec_truncated() && (!old(self).spec_limit_set() || old(self).spec_size()
                + encoded_len(name@) + 10 + spec_rdata_len(data@) <= old(self).spec_limit()))
                ==> added,
            added ==> {
                &&& !old(self).spec_truncated()
                &&& !final(self).spec_truncated()
                &&& final(self).spec_size() > old(self).spec_size()
                &&& final(self).spec_bytes().subrange(0, old(self).spec_size()) == old(self).spec_bytes()
                &&& (old(self).spec_limit_set() ==> final(self).spec_size() <= old(self).spec_limit())
                &&& (match spec_scan(
                    final(self).spec_bytes(),
                    old(self).spec_size(),
                    final(self).spec_size(),
                    255,
                ) {
                    Ok(r) => {
                        &&& r.0 == name@
                        &&& be16(final(self).spec_bytes(), r.1) == spec_rdata_code(data@)
                        &&& be16(final(self).spec_bytes(), r.1 + 2) == cls.spec_code()
                        &&& be32(final(self).spec_bytes(), r.1 + 4) == ttl
                        &&& be16(final(self).spec_bytes(), r.1 + 8) == spec_rdata_len(data@)
                        &&& final(self).spec_size() == r.1 + 10 + spec_rdata_len(data@)
                    },
                    Err(_) => false,
                })
            },
            !added ==> {
                &&& final(self).spec_bytes() == old(self).spec_bytes()
                &&& final(self).spec_dict() == old(self).spec_dict()
                &&& final(self).spec_truncated()
            },
    {
        if self.truncated {
            return false;
        }
        let start = self.buf.len();
        let dstart = self.dict.len();
        let ghost prebuf = self.buf@;
        let ghost predict = self.dict@;
        write_name(name, &mut self.buf, &mut self.dict);
        let ghost aftername = self.buf@;
        push_u16(&mut self.buf, rdata_code(data));
        let ghost b1 = self.buf@;
        push_u16(&mut self.buf, cls.code());
        let ghost b2 = self.buf@;
        push_u32(&mut self.buf, ttl);
        let ghost b3 = self.buf@;
        let rl = rdata_len(data);
        push_u16(&mut self.buf, rl as u16);
        let ghost fixed = self.buf@;
        write_rdata(data, &mut self.buf);
        proof {
            assert forall|t: int| 0 <= t < fixed.len() implies self.buf@[t] == fixed[t] by {
                assert(self.buf@.subrange(0, fixed.len() as int)[t] == self.buf@[t]);
            }
            assert forall|t: int| 0 <= t < aftername.len() implies self.buf@[t] == aftername[t] by {
                assert(self.buf@[t] == fixed[t]);
                assert(fixed[t] == b3[t]);
                assert(b3[t] == b2[t]);
                assert(b2[t] == b1[t]);
                assert(b1[t] == aftername[t]);
            }
            let ext = self.buf@.subrange(aftername.len() as int, self.buf@.len() as int);
            assert(aftername + ext =~= self.buf@);
            lemma_scan_grow(
                aftername,
                ext,
                start as int,
                aftername.len() as int,
                255,
                self.buf@.len() as int,
                255,
            );
            crate::name::lemma_dict_ok_grow(self.dict@, aftername, ext);
            assert(self.buf@.subrange(0, start as int) =~= prebuf);
            let nend = aftername.len() as int;
            let code = spec_rdata_code(data@);
            let clsc = cls.spec_code();
            assert(fixed[nend] == (code / 256) as u8 && fixed[nend + 1] == (code % 256) as u8);
            assert(fixed[nend + 2] == (clsc / 256) as u8 && fixed[nend + 3] == (clsc % 256) as u8);
            assert(fixed[nend + 4] == (ttl / 0x1000000) as u8 && fixed[nend + 5] == ((ttl
                / 0x10000) % 256) as u8 && fixed[nend + 6] == ((ttl / 256) % 256) as u8 && fixed[
                nend + 7] == (ttl % 256) as u8);
            assert(fixed[nend + 8] == ((rl as u16) / 256) as u8 && fixed[nend + 9] == ((
            rl as u16) % 256) as u8);
            assert(rl as u16 == spec_rdata_len(data@));
            lemma_be16_field(self.buf@, nend, code);
            lemma_be16_field(self.buf@, nend + 2, clsc);
            lemma_be32_field(self.buf@, nend + 4, ttl);
            lemma_be16_field(self.buf@, nend + 8, rl as u16);
        }
        if self.limit_set && self.buf.len() > self.limit {
            self.buf.truncate(start);
            self.dict.rollback(dstart);
            self.truncated = true;
            proof {
                assert(self.buf@ =~= prebuf);
                assert(self.dict@ =~= predict);
            }
            return false;
        }
        true
    }

    /// Finish the build: write the header with the final section counts and
    /// the truncation flag, and hand the message bytes over.
    pub fn build(self) -> (out: Vec<u8>)
        requires
            self.wf(),
        ensures
            out@.len() == self.spec_size(),
            self.spec_limit_set() ==> out@.len() <= self.spec_limit(),
            spec_header_parse(out@) == Ok::<Header, Error>(self.spec_built_header()),
            out@.subrange(12, out@.len() as int) == self.spec_bytes().subrange(
                12,
                self.spec_size(),
            ),
    {
        let hdr = Header {
            questions: self.questions,
            answers: self.answers,
            nameservers: self.nameservers,
            additional: self.additional,
            truncated: self.head.truncated || self.truncated,
            ..self.head
        };
        let mut hb: Vec<u8> = Vec::new();
        let mut i: usize = 0;
        while i < 12
            invariant
                0 <= i <= 12,
                hb@.len() == i,
            decreases 12 - i,
        {
            hb.push(0);
            i = i + 1;
        }
        hdr.write(&mut hb);
        let mut out = self.buf;
        let ghost body = out@;
        let mut j: usize = 0;
        while j < 12
            invariant
                0 <= j <= 12,
                out@.len() == body.len() >= 12,
                hb@ == spec_header_bytes(hdr),
                forall|t: int| 0 <= t < j ==> out@[t] == hb@[t],
                forall|t: int| j <= t < body.len() ==> out@[t] == body[t],
            decreases 12 - j,
        {
            out[j] = hb[j];
            j = j + 1;
        }
        proof {
            assert(out@ =~= spec_header_bytes(hdr) + body.subrange(12, body.len() as int));
            crate::header::lemma_header_roundtrip(hdr, body.subrange(12, body.len() as int));
            assert(out@.subrange(12, out@.len() as int) =~= body.subrange(12, body.len() as int));
        }
        out
    }
}

} // verus!
