use vstd::prelude::*;

use crate::error::Error;

verus! {

/// A label carries between 1 and 63 bytes.
pub open spec fn label_wf(l: Seq<u8>) -> bool {
    1 <= l.len() <= 63
}

pub open spec fn labels_wf(ls: Seq<Seq<u8>>) -> bool {
    forall|i: int| 0 <= i < ls.len() ==> label_wf(#[trigger] ls[i])
}

/// The number of bytes the uncompressed wire form of `ls` takes: one length
/// byte per label, the label bytes, and the terminating zero byte.
pub open spec fn encoded_len(ls: Seq<Seq<u8>>) -> int
    decreases ls.len(),
{
    if ls.len() == 0 {
        1
    } else {
        1 + ls[0].len() + encoded_len(ls.skip(1))
    }
}

/// A well-formed name: every label in range and the whole encoding within
/// the 255-byte limit of the protocol.
pub open spec fn name_wf_seq(ls: Seq<Seq<u8>>) -> bool {
    labels_wf(ls) && encoded_len(ls) <= 255
}

/// The uncompressed wire form of a label sequence.
pub open spec fn wire(ls: Seq<Seq<u8>>) -> Seq<u8>
    decreases ls.len(),
{
    if ls.len() == 0 {
        seq![0u8]
    } else {
        seq![ls[0].len() as u8] + ls[0] + wire(ls.skip(1))
    }
}

/// What decoding a possibly-compressed name from `buf` at `pos` yields.
///
/// `hops` bounds how many compression pointers may still be followed and
/// `room` how many encoded bytes the name may still take; decoding starts
/// with `room == 255`. On success the result carries the label sequence and
/// the cursor position just past the name as seen by the caller: a pointer
/// freezes that cursor two bytes after itself, wherever its target lies.
pub open spec fn spec_scan(buf: Seq<u8>, pos: int, hops: int, room: int) -> Result<
    (Seq<Seq<u8>>, int),
    Error,
>
    decreases hops, buf.len() - pos,
{
    if !(0 <= pos < buf.len()) {
        Err(Error::UnexpectedEOF)
    } else {
        let b = buf[pos];
        if b == 0 {
            if room < 1 {
                Err(Error::NameTooLong)
            } else {
                Ok((Seq::empty(), pos + 1))
            }
        } else if b < 0x40 {
            if room < b + 2 {
                Err(Error::NameTooLong)
            } else if pos + 1 + b > buf.len() {
                Err(Error::UnexpectedEOF)
            } else {
                match spec_scan(buf, pos + 1 + b, hops, room - (b + 1)) {
                    Ok((rest, end)) => Ok((seq![buf.subrange(pos + 1, pos + 1 + b)] + rest, end)),
                    Err(e) => Err(e),
                }
            }
        } else if b >= 0xC0 {
            if pos + 1 >= buf.len() {
                Err(Error::UnexpectedEOF)
            } else {
                let target = (b - 0xC0) * 256 + buf[pos + 1];
                if target >= pos {
                    Err(Error::BadPointer)
                } else if hops <= 0 {
                    Err(Error::TooManyHops)
                } else {
                    match spec_scan(buf, target, hops - 1, room) {
                        Ok((labels, _)) => Ok((labels, pos + 2)),
                        Err(e) => Err(e),
                    }
                }
            }
        } else {
            Err(Error::UnknownLabelFormat)
        }
    }
}

/// A successful scan yields a well-formed name whose encoding fits `room`,
/// and a cursor strictly past `pos` and within the buffer.
pub proof fn lemma_scan_wf(buf: Seq<u8>, pos: int, hops: int, room: int)
    requires
        spec_scan(buf, pos, hops, room) matches Ok(_),
    ensures
        spec_scan(buf, pos, hops, room) matches Ok(r) ==> {
            &&& labels_wf(r.0)
            &&& encoded_len(r.0) <= room
            &&& pos < r.1 <= buf.len()
        },
    decreases hops, buf.len() - pos,
{
    let b = buf[pos];
    if b == 0 {
    } else if b < 0x40 {
        lemma_scan_wf(buf, pos + 1 + b, hops, room - (b + 1));
        let r = spec_scan(buf, pos, hops, room)->Ok_0;
        let rest = spec_scan(buf, pos + 1 + b, hops, room - (b + 1))->Ok_0;
        assert(r.0 == seq![buf.subrange(pos + 1, pos + 1 + b)] + rest.0);
        assert(r.0.skip(1) =~= rest.0);
        assert(r.0[0] == buf.subrange(pos + 1, pos + 1 + b));
    } else {
        let target = (b - 0xC0) * 256 + buf[pos + 1];
        lemma_scan_wf(buf, target, hops - 1, room);
    }
}

/// A scan that succeeds still succeeds, with the same result, after the
/// buffer is extended on the right or the hop and room budgets are raised.
pub proof fn lemma_scan_grow(
    buf: Seq<u8>,
    ext: Seq<u8>,
    pos: int,
    hops1: int,
    room1: int,
    hops2: int,
    room2: int,
)
    requires
        spec_scan(buf, pos, hops1, room1) matches Ok(_),
        hops2 >= hops1,
        room2 >= room1,
    ensures
        spec_scan(buf + ext, pos, hops2, room2) == spec_scan(buf, pos, hops1, room1),
    decreases hops1, buf.len() - pos,
{
    let big = buf + ext;
    assert(big[pos] == buf[pos]);
    let b = buf[pos];
    if b == 0 {
    } else if b < 0x40 {
        lemma_scan_grow(buf, ext, pos + 1 + b, hops1, room1 - (b + 1), hops2, room2 - (b + 1));
        assert(big.subrange(pos + 1, pos + 1 + b) =~= buf.subrange(pos + 1, pos + 1 + b));
    } else {
        assert(big[pos + 1] == buf[pos + 1]);
        let target = (b - 0xC0) * 256 + buf[pos + 1];
        lemma_scan_grow(buf, ext, target, hops1 - 1, room1, hops2 - 1, room2);
    }
}

/// As `lemma_scan_grow`, for the same buffer: only the budgets are raised.
pub proof fn lemma_scan_mono(buf: Seq<u8>, pos: int, hops1: int, room1: int, hops2: int, room2: int)
    requires
        spec_scan(buf, pos, hops1, room1) matches Ok(_),
        hops2 >= hops1,
        room2 >= room1,
    ensures
        spec_scan(buf, pos, hops2, room2) == spec_scan(buf, pos, hops1, room1),
{
    lemma_scan_grow(buf, Seq::empty(), pos, hops1, room1, hops2, room2);
    assert(buf + Seq::<u8>::empty() =~= buf);
}

/// A label byte whose top two bits are `11` but whose fourteen-bit target
/// does not lie strictly before the label itself is rejected outright: a
/// self-pointer or forward pointer can never make decoding loop or overrun.
pub proof fn lemma_forward_pointer_rejected(buf: Seq<u8>, pos: int, hops: int, room: int)
    requires
        0 <= pos,
        pos + 1 < buf.len(),
        buf[pos] >= 0xC0,
        (buf[pos] - 0xC0) * 256 + buf[pos + 1] >= pos,
    ensures
        spec_scan(buf, pos, hops, room) == Err::<(Seq<Seq<u8>>, int), Error>(Error::BadPointer),
{
}

/// The uncompressed wire form takes exactly the encoded length.
pub proof fn lemma_wire_len(ls: Seq<Seq<u8>>)
    ensures
        wire(ls).len() == encoded_len(ls),
    decreases ls.len(),
{
    if ls.len() > 0 {
        lemma_wire_len(ls.skip(1));
    }
}

/// The deep view of a byte vector is its plain view.
pub proof fn lemma_bytes_deep(v: Vec<u8>)
    ensures
        v.deep_view() == v@,
{
    assert(v.deep_view() =~= v@);
}

/// A decoded, possibly-compressed domain name: an ordered sequence of
/// labels, each 1 to 63 bytes, with a total encoding of at most 255 bytes.
#[derive(Debug, Clone, PartialEq, Eq)]
pub struct Name {
    labels: Vec<Vec<u8>>,
}

impl View for Name {
    type V = Seq<Seq<u8>>;

    closed spec fn view(&self) -> Seq<Seq<u8>> {
        self.labels.deep_view()
    }
}

impl DeepView for Name {
    type V = Seq<Seq<u8>>;

    open spec fn deep_view(&self) -> Seq<Seq<u8>> {
        self.view()
    }
}

/// The sequential validity check `Name::from_labels` performs: labels are
/// inspected left to right, and the running encoded length is checked
/// against the 255-byte limit as soon as each label is accepted.
pub open spec fn spec_labels_check(ls: Seq<Seq<u8>>, i: int, acc: int) -> Result<(), Error>
    decreases ls.len() - i,
{
    if i < 0 || i >= ls.len() {
        Ok(())
    } else if !label_wf(ls[i]) {
        Err(Error::UnknownLabelFormat)
    } else if acc + 1 + ls[i].len() + 1 > 255 {
        Err(Error::NameTooLong)
    } else {
        spec_labels_check(ls, i + 1, acc + 1 + ls[i].len())
    }
}

/// The sequential check accepts exactly the well-formed names.
pub proof fn lemma_labels_check_iff(ls: Seq<Seq<u8>>, i: int, acc: int)
    requires
        0 <= i <= ls.len(),
        0 <= acc <= 254,
    ensures
        spec_labels_check(ls, i, acc) is Ok <==> (labels_wf(ls.skip(i)) && acc
            + encoded_len(ls.skip(i)) <= 255),
    decreases ls.len() - i,
{
    if i == ls.len() {
        assert(ls.skip(i) =~= Seq::<Seq<u8>>::empty());
        assert(spec_labels_check(ls, i, acc) is Ok);
        assert(encoded_len(ls.skip(i)) == 1);
    } else {
        let s = ls.skip(i);
        let s1 = ls.skip(i + 1);
        assert(s[0] == ls[i]);
        assert(s.len() > 0);
        assert(s1 =~= s.skip(1));
        lemma_encoded_len_pos(s1);
        assert(encoded_len(s) == 1 + ls[i].len() + encoded_len(s1));
        if !label_wf(ls[i]) {
            assert(spec_labels_check(ls, i, acc) is Ok == false);
            assert(!labels_wf(s));
        } else if acc + 1 + ls[i].len() + 1 > 255 {
            assert(spec_labels_check(ls, i, acc) is Ok == false);
            assert(acc + encoded_len(s) > 255);
        } else {
            lemma_labels_check_iff(ls, i + 1, acc + 1 + ls[i].len());
            assert(spec_labels_check(ls, i, acc) == spec_labels_check(
                ls,
                i + 1,
                acc + 1 + ls[i].len(),
            ));
            if labels_wf(s1) {
                assert forall|k: int| 0 <= k < s.len() implies label_wf(#[trigger] s[k]) by {
                    if k > 0 {
                        assert(s[k] == s1[k - 1]);
                    }
                }
                assert(labels_wf(s));
            }
            if labels_wf(s) {
                assert forall|k: int| 0 <= k < s1.len() implies label_wf(#[trigger] s1[k]) by {
                    assert(s1[k] == s[k + 1]);
                }
                assert(labels_wf(s1));
            }
        }
    }
}

/// Every suffix of a well-formed name is itself well formed, and never
/// encodes longer than the whole name.
pub proof fn lemma_suffix_wf(ls: Seq<Seq<u8>>, i: int)
    requires
        0 <= i <= ls.len(),
        name_wf_seq(ls),
    ensures
        name_wf_seq(ls.skip(i)),
        1 <= encoded_len(ls.skip(i)) <= encoded_len(ls),
    decreases i,
{
    if i == 0 {
        assert(ls.skip(0) =~= ls);
        lemma_encoded_len_pos(ls);
    } else {
        assert(ls.len() > 0);
        let tail = ls.skip(1);
        assert forall|k: int| 0 <= k < tail.len() implies label_wf(#[trigger] tail[k]) by {
            assert(tail[k] == ls[k + 1]);
        }
        lemma_encoded_len_pos(tail);
        assert(encoded_len(ls) == 1 + ls[0].len() + encoded_len(tail));
        lemma_suffix_wf(tail, i - 1);
        assert(tail.skip(i - 1) =~= ls.skip(i));
    }
}

/// The encoding of any label sequence takes at least the terminator byte.
pub proof fn lemma_encoded_len_pos(ls: Seq<Seq<u8>>)
    ensures
        encoded_len(ls) >= 1,
    decreases ls.len(),
{
    if ls.len() > 0 {
        lemma_encoded_len_pos(ls.skip(1));
    }
}

impl Name {
    /// A name is well formed when its label sequence is.
    pub open spec fn wf(&self) -> bool {
        name_wf_seq(self@)
    }

    /// Build a name from explicit labels, validating each label's length
    /// and the total encoded length.
    pub fn from_labels(labels: Vec<Vec<u8>>) -> (r: Result<Name, Error>)
        ensures
            match r {
                Ok(n) => {
                    &&& n@ == labels.deep_view()
                    &&& n.wf()
                    &&& spec_labels_check(labels.deep_view(), 0, 0) is Ok
                },
                Err(e) => {
                    &&& spec_labels_check(labels.deep_view(), 0, 0) == Err::<(), Error>(e)
                    &&& !name_wf_seq(labels.deep_view())
                },
            },
    {
        let ghost ls = labels.deep_view();
        let mut i: usize = 0;
        let mut acc: usize = 0;
        while i < labels.len()
            invariant
                0 <= i <= labels@.len(),
                0 <= acc <= 254,
                ls == labels.deep_view(),
                ls.len() == labels@.len(),
                spec_labels_check(ls, 0, 0) == spec_labels_check(ls, i as int, acc as int),
            decreases labels@.len() - i,
        {
            proof {
                assert(ls[i as int] == labels@[i as int].deep_view());
                lemma_bytes_deep(labels@[i as int]);
            }
            let l = labels[i].len();
            if l < 1 || l > 63 {
                proof {
                    lemma_labels_check_iff(ls, 0, 0);
                    assert(ls.skip(0) =~= ls);
                    assert(spec_labels_check(ls, i as int, acc as int) == Err::<(), Error>(
                        Error::UnknownLabelFormat,
                    ));
                }
                return Err(Error::UnknownLabelFormat);
            }
            if acc + 1 + l + 1 > 255 {
                proof {
                    lemma_labels_check_iff(ls, 0, 0);
                    assert(ls.skip(0) =~= ls);
                    assert(spec_labels_check(ls, i as int, acc as int) == Err::<(), Error>(
                        Error::NameTooLong,
                    ));
                }
                return Err(Error::NameTooLong);
            }
            acc = acc + 1 + l;
            i = i + 1;
        }
        proof {
            lemma_labels_check_iff(ls, 0, 0);
            assert(ls.skip(0) =~= ls);
        }
        Ok(Name { labels })
    }

    /// The number of bytes the uncompressed wire form of this name takes.
    pub fn encoded_size(&self) -> (r: usize)
        requires
            self.wf(),
        ensures
            r == encoded_len(self@),
            1 <= r <= 255,
    {
        let ghost deep = self@;
        proof {
            assert(deep.skip(0) =~= deep);
        }
        let mut acc: usize = 0;
        let mut i: usize = 0;
        while i < self.labels.len()
            invariant
                0 <= i <= self.labels@.len(),
                deep == self@,
                deep.len() == self.labels@.len(),
                name_wf_seq(deep),
                acc + encoded_len(deep.skip(i as int)) == encoded_len(deep),
                0 <= acc <= 254,
            decreases self.labels@.len() - i,
        {
            proof {
                lemma_bytes_deep(self.labels@[i as int]);
                assert(deep[i as int] == self.labels@[i as int].deep_view());
                assert(deep.skip(i as int)[0] == deep[i as int]);
                assert(deep.skip(i as int).skip(1) =~= deep.skip(i + 1));
                assert(encoded_len(deep.skip(i as int)) == 1 + deep[i as int].len() + encoded_len(
                    deep.skip(i + 1),
                ));
                lemma_suffix_wf(deep, i + 1);
            }
            let l = self.labels[i].len();
            acc = acc + 1 + l;
            i = i + 1;
        }
        proof {
            assert(deep.skip(deep.len() as int) =~= Seq::<Seq<u8>>::empty());
        }
        acc + 1
    }

    /// The labels of the name, outermost first.
    pub fn labels(&self) -> (r: &Vec<Vec<u8>>)
        ensures
            r.deep_view() == self@,
    {
        &self.labels
    }

    /// Decode a possibly-compressed name out of `buf`, starting at `start`.
    ///
    /// On success the returned cursor points just past the name as the
    /// caller sees it: past the terminator, or past the first compression
    /// pointer if the name was compressed.
    pub fn parse(buf: &[u8], start: usize) -> (r: Result<(Name, usize), Error>)
        ensures
            match r {
                Ok((name, end)) => {
                    &&& spec_scan(buf@, start as int, buf@.len() as int, 255) == Ok::<
                        _,
                        Error,
                    >((name@, end as int))
                    &&& name.wf()
                    &&& start < end <= buf@.len()
                },
                Err(e) => spec_scan(buf@, start as int, buf@.len() as int, 255) == Err::<
                    (Seq<Seq<u8>>, int),
                    Error,
                >(e),
            },
    {
        match scan_labels(buf, start, buf.len(), 255) {
            Ok((labels, end)) => {
                proof {
                    lemma_scan_wf(buf@, start as int, buf@.len() as int, 255);
                }
                Ok((Name { labels }, end))
            },
            Err(e) => Err(e),
        }
    }

    /// Whether two names are equal under the protocol's case-insensitive
    /// comparison of ASCII letters.
    pub fn eq_ignore_case(&self, other: &Name) -> (r: bool)
        ensures
            r == names_eq_ci(self@, other@),
    {
        labels_eq_ci(&self.labels, &other.labels)
    }
}

/// ASCII lowercase folding of one byte.
pub open spec fn to_lower(b: u8) -> u8 {
    if 0x41 <= b <= 0x5A {
        (b + 0x20) as u8
    } else {
        b
    }
}

pub open spec fn label_eq_ci(a: Seq<u8>, b: Seq<u8>) -> bool {
    a.len() == b.len() && forall|j: int|
        0 <= j < a.len() ==> to_lower(#[trigger] a[j]) == to_lower(b[j])
}

/// Name equality of the data model: label sequences equal up to ASCII case.
pub open spec fn names_eq_ci(a: Seq<Seq<u8>>, b: Seq<Seq<u8>>) -> bool {
    a.len() == b.len() && forall|i: int| 0 <= i < a.len() ==> label_eq_ci(#[trigger] a[i], b[i])
}

fn byte_lower(b: u8) -> (r: u8)
    ensures
        r == to_lower(b),
{
    if 0x41 <= b && b <= 0x5A {
        b + 0x20
    } else {
        b
    }
}

fn labels_eq_ci(a: &Vec<Vec<u8>>, b: &Vec<Vec<u8>>) -> (r: bool)
    ensures
        r == names_eq_ci(a.deep_view(), b.deep_view()),
{
    let ghost av = a.deep_view();
    let ghost bv = b.deep_view();
    if a.len() != b.len() {
        return false;
    }
    let mut i: usize = 0;
    while i < a.len()
        invariant
            a@.len() == b@.len(),
            0 <= i <= a@.len(),
            av == a.deep_view(),
            bv == b.deep_view(),
            av.len() == a@.len(),
            bv.len() == b@.len(),
            forall|k: int| 0 <= k < i ==> label_eq_ci(#[trigger] av[k], bv[k]),
        decreases a@.len() - i,
    {
        proof {
            lemma_bytes_deep(a@[i as int]);
            lemma_bytes_deep(b@[i as int]);
        }
        let la = &a[i];
        let lb = &b[i];
        assert(av[i as int] == la@ && bv[i as int] == lb@);
        if la.len() != lb.len() {
            assert(!label_eq_ci(av[i as int], bv[i as int]));
            assert(!names_eq_ci(av, bv));
            return false;
        }
        let mut j: usize = 0;
        while j < la.len()
            invariant
                la@.len() == lb@.len(),
                0 <= j <= la@.len(),
                la@ == av[i as int],
                lb@ == bv[i as int],
                0 <= i < av.len(),
                av.len() == bv.len(),
                av == a.deep_view(),
                bv == b.deep_view(),
                forall|m: int| 0 <= m < j ==> to_lower(#[trigger] la@[m]) == to_lower(lb@[m]),
            decreases la@.len() - j,
        {
            if byte_lower(la[j]) != byte_lower(lb[j]) {
                assert(!label_eq_ci(av[i as int], bv[i as int]));
                assert(!names_eq_ci(av, bv));
                return false;
            }
            j = j + 1;
        }
        assert(label_eq_ci(av[i as int], bv[i as int]));
        i = i + 1;
    }
    true
}

/// Decode one name, recursing exactly as `spec_scan` does.
fn scan_labels(buf: &[u8], pos: usize, hops: usize, room: usize) -> (r: Result<
    (Vec<Vec<u8>>, usize),
    Error,
>)
    ensures
        match r {
            Ok((ls, end)) => spec_scan(buf@, pos as int, hops as int, room as int) == Ok::<
                _,
                Error,
            >((ls.deep_view(), end as int)),
            Err(e) => spec_scan(buf@, pos as int, hops as int, room as int) == Err::<
                (Seq<Seq<u8>>, int),
                Error,
            >(e),
        },
    decreases hops, buf@.len() - pos,
{
    if pos >= buf.len() {
        return Err(Error::UnexpectedEOF);
    }
    let b = buf[pos];
    if b == 0 {
        if room < 1 {
            Err(Error::NameTooLong)
        } else {
            let ls: Vec<Vec<u8>> = Vec::new();
            assert(ls.deep_view() =~= Seq::<Seq<u8>>::empty());
            Ok((ls, pos + 1))
        }
    } else if b < 0x40 {
        let bl = b as usize;
        if room < bl + 2 {
            Err(Error::NameTooLong)
        } else if bl > buf.len() - (pos + 1) {
            Err(Error::UnexpectedEOF)
        } else {
            let lab: Vec<u8> = vstd::slice::slice_to_vec(&buf[pos + 1..pos + 1 + bl]);
            proof {
                lemma_bytes_deep(lab);
            }
            match scan_labels(buf, pos + 1 + bl, hops, room - (bl + 1)) {
                Ok((rest, end)) => {
                    let ghost rest0 = rest.deep_view();
                    let mut rest = rest;
                    rest.insert(0, lab);
                    proof {
                        assert forall|k: int| 0 <= k < rest.deep_view().len() implies
                            #[trigger] rest.deep_view()[k] == (seq![lab@] + rest0)[k] by {
                            if k == 0 {
                                lemma_bytes_deep(rest@[0]);
                            } else {
                                assert(rest@[k] == rest@.subrange(1, rest@.len() as int)[k - 1]);
                            }
                        }
                        assert(rest.deep_view() =~= seq![lab@] + rest0);
                    }
                    Ok((rest, end))
                },
                Err(e) => Err(e),
            }
        }
    } else if b >= 0xC0 {
        if pos + 1 >= buf.len() {
            Err(Error::UnexpectedEOF)
        } else {
            let target = ((b - 0xC0) as usize) * 256 + (buf[pos + 1] as usize);
            if target >= pos {
                Err(Error::BadPointer)
            } else if hops == 0 {
                Err(Error::TooManyHops)
            } else {
                match scan_labels(buf, target, hops - 1, room) {
                    Ok((labels, _)) => Ok((labels, pos + 2)),
                    Err(e) => Err(e),
                }
            }
        }
    } else {
        Err(Error::UnknownLabelFormat)
    }
}

/// One remembered suffix of the current build: its labels and the absolute
/// offset at which its encoding starts.
struct DictEntry {
    labels: Vec<Vec<u8>>,
    off: u16,
}

/// The compression dictionary of one in-progress build: a map from label
/// suffixes already written to the offset of their encoding. It is only
/// meaningful for the buffer it was filled against, and is discarded with
/// the build.
pub struct NameDict {
    entries: Vec<DictEntry>,
}

impl View for NameDict {
    type V = Seq<(Seq<Seq<u8>>, int)>;

    closed spec fn view(&self) -> Seq<(Seq<Seq<u8>>, int)> {
        self.entries@.map_values(|e: DictEntry| (e.labels.deep_view(), e.off as int))
    }
}

/// A dictionary entry is sound for `buf`: its offset fits fourteen bits,
/// lies inside the buffer, and decoding there yields exactly its labels.
pub open spec fn dict_entry_ok(e: (Seq<Seq<u8>>, int), buf: Seq<u8>) -> bool {
    &&& 0 <= e.1 < 0x4000
    &&& e.1 < buf.len()
    &&& name_wf_seq(e.0)
    &&& e.0.len() > 0
    &&& match spec_scan(buf, e.1, buf.len() as int, encoded_len(e.0)) {
        Ok(r) => r.0 == e.0,
        Err(_) => false,
    }
}

/// Every entry of the dictionary is sound for `buf`.
pub open spec fn dict_ok(d: Seq<(Seq<Seq<u8>>, int)>, buf: Seq<u8>) -> bool {
    forall|k: int| 0 <= k < d.len() ==> dict_entry_ok(#[trigger] d[k], buf)
}

/// The dictionary holds `ls` as a remembered suffix.
pub open spec fn dict_has(d: Seq<(Seq<Seq<u8>>, int)>, ls: Seq<Seq<u8>>) -> bool {
    exists|k: int| 0 <= k < d.len() && (#[trigger] d[k]).0 == ls
}

/// A sound dictionary stays sound when the buffer grows on the right.
pub proof fn lemma_dict_ok_grow(d: Seq<(Seq<Seq<u8>>, int)>, buf: Seq<u8>, ext: Seq<u8>)
    requires
        dict_ok(d, buf),
    ensures
        dict_ok(d, buf + ext),
{
    assert forall|k: int| 0 <= k < d.len() implies dict_entry_ok(#[trigger] d[k], buf + ext) by {
        lemma_scan_grow(
            buf,
            ext,
            d[k].1,
            buf.len() as int,
            encoded_len(d[k].0),
            (buf + ext).len() as int,
            encoded_len(d[k].0),
        );
    }
}

impl NameDict {
    /// A fresh, empty dictionary for one build.
    pub fn new() -> (r: NameDict)
        ensures
            r@ == Seq::<(Seq<Seq<u8>>, int)>::empty(),
            r@.len() == 0,
    {
        let d = NameDict { entries: Vec::new() };
        proof {
            assert(d@ =~= Seq::<(Seq<Seq<u8>>, int)>::empty());
        }
        d
    }

    /// Drop every entry recorded after the dictionary held `n` entries.
    pub fn rollback(&mut self, n: usize)
        requires
            n <= old(self)@.len(),
        ensures
            final(self)@ == old(self)@.subrange(0, n as int),
    {
        self.entries.truncate(n);
        proof {
            assert(self@ =~= old(self)@.subrange(0, n as int));
        }
    }

    /// How many suffixes are recorded.
    pub fn len(&self) -> (r: usize)
        ensures
            r == self@.len(),
    {
        self.entries.len()
    }
}

fn bytes_eq(a: &Vec<u8>, b: &Vec<u8>) -> (r: bool)
    ensures
        r == (a@ == b@),
{
    if a.len() != b.len() {
        return false;
    }
    let mut j: usize = 0;
    while j < a.len()
        invariant
            a@.len() == b@.len(),
            0 <= j <= a@.len(),
            forall|m: int| 0 <= m < j ==> a@[m] == b@[m],
        decreases a@.len() - j,
    {
        if a[j] != b[j] {
            return false;
        }
        j = j + 1;
    }
    proof {
        assert(a@ =~= b@);
    }
    true
}

fn copy_bytes(v: &Vec<u8>) -> (r: Vec<u8>)
    ensures
        r@ == v@,
{
    vstd::slice::slice_to_vec(v.as_slice())
}

fn suffix_matches(entry: &Vec<Vec<u8>>, labels: &Vec<Vec<u8>>, i: usize) -> (r: bool)
    requires
        i <= labels@.len(),
        entry@.len() == labels@.len() - i,
    ensures
        r == (entry.deep_view() == labels.deep_view().skip(i as int)),
{
    let ghost suffix = labels.deep_view().skip(i as int);
    let total = labels.len();
    let mut j: usize = 0;
    while j < entry.len()
        invariant
            i + entry@.len() == labels@.len(),
            total == labels@.len(),
            0 <= j <= entry@.len(),
            suffix == labels.deep_view().skip(i as int),
            suffix.len() == entry@.len(),
            forall|m: int| 0 <= m < j ==> entry.deep_view()[m] == suffix[m],
        decreases entry@.len() - j,
    {
        proof {
            assert(i + j < labels@.len());
            lemma_bytes_deep(entry@[j as int]);
            lemma_bytes_deep(labels@[i + j]);
            assert(suffix[j as int] == labels.deep_view()[i + j]);
        }
        if !bytes_eq(&entry[j], &labels[i + j]) {
            assert(entry.deep_view()[j as int] != suffix[j as int]);
            return false;
        }
        j = j + 1;
    }
    proof {
        assert(entry.deep_view() =~= suffix);
    }
    true
}

/// Look the suffix `labels[i..]` up in the dictionary.
fn dict_lookup(dict: &NameDict, labels: &Vec<Vec<u8>>, i: usize) -> (r: Option<u16>)
    requires
        i <= labels@.len(),
    ensures
        match r {
            Some(off) => exists|k: int|
                0 <= k < dict@.len() && #[trigger] dict@[k] == (
                    labels.deep_view().skip(i as int),
                    off as int,
                ),
            None => !dict_has(dict@, labels.deep_view().skip(i as int)),
        },
{
    let ghost suffix = labels.deep_view().skip(i as int);
    let n = labels.len() - i;
    let mut k: usize = 0;
    while k < dict.entries.len()
        invariant
            0 <= k <= dict.entries@.len(),
            dict@.len() == dict.entries@.len(),
            suffix == labels.deep_view().skip(i as int),
            suffix.len() == labels@.len() - i,
            i <= labels@.len(),
            n == labels@.len() - i,
            forall|m: int| 0 <= m < k ==> (#[trigger] dict@[m]).0 != suffix,
        decreases dict.entries@.len() - k,
    {
        let e = &dict.entries[k];
        proof {
            assert(dict@[k as int] == (e.labels.deep_view(), e.off as int));
        }
        if e.labels.len() == n {
            if suffix_matches(&e.labels, labels, i) {
                return Some(e.off);
            }
        }
        k = k + 1;
    }
    None
}

/// The two bytes of a compression pointer encode its fourteen-bit target.
proof fn lemma_pointer_bytes(off: u16)
    by (bit_vector)
    requires
        off < 0x4000,
    ensures
        ((off >> 8u16) as u8 | 0xC0u8) >= 0xC0,
        (((off >> 8u16) as u8 | 0xC0u8) as u16 - 0xC0) * 256 + (((off & 0xFFu16) as u8) as u16)
            == off,
{
}

/// Encode the suffix `labels[i..]` at the current end of `out`, reusing and
/// extending the dictionary, exactly as the greedy longest-suffix scheme
/// prescribes: a remembered suffix becomes a two-byte pointer, anything else
/// is written literally and recorded when its offset fits fourteen bits.
#[verifier::rlimit(100)]
#[verifier::spinoff_prover]
fn write_suffix(labels: &Vec<Vec<u8>>, i: usize, out: &mut Vec<u8>, dict: &mut NameDict)
    requires
        i <= labels@.len(),
        name_wf_seq(labels.deep_view()),
        dict_ok(old(dict)@, old(out)@),
        old(out)@.len() + encoded_len(labels.deep_view().skip(i as int)) <= usize::MAX,
    ensures
        old(out)@.len() < final(out)@.len(),
        final(out)@.len() <= old(out)@.len() + encoded_len(labels.deep_view().skip(i as int)),
        final(out)@.subrange(0, old(out)@.len() as int) == old(out)@,
        final(dict)@.len() >= old(dict)@.len(),
        final(dict)@.subrange(0, old(dict)@.len() as int) == old(dict)@,
        dict_ok(final(dict)@, final(out)@),
        spec_scan(
            final(out)@,
            old(out)@.len() as int,
            final(out)@.len() as int,
            encoded_len(labels.deep_view().skip(i as int)),
        ) == Ok::<_, Error>((labels.deep_view().skip(i as int), final(out)@.len() as int)),
        dict_has(old(dict)@, labels.deep_view().skip(i as int)) ==> final(out)@.len() == old(
            out,
        )@.len() + 2,
        old(dict)@.len() == 0 ==> final(out)@ == old(out)@ + wire(
            labels.deep_view().skip(i as int),
        ),
        old(out)@.len() < 0x4000 && i < labels@.len() ==> dict_has(
            final(dict)@,
            labels.deep_view().skip(i as int),
        ),
    decreases labels@.len() - i,
{
    let ghost deep = labels.deep_view();
    let ghost suffix = deep.skip(i as int);
    let ghost pre = out@;
    let ghost pred = dict@;
    let o = out.len();
    proof {
        lemma_suffix_wf(deep, i as int);
    }
    if i == labels.len() {
        proof {
            assert(suffix =~= Seq::<Seq<u8>>::empty());
            assert(encoded_len(suffix) == 1);
        }
        out.push(0u8);
        proof {
            assert(out@ =~= pre + seq![0u8]);
            lemma_dict_ok_grow(dict@, pre, seq![0u8]);
            assert(out@.subrange(0, pre.len() as int) =~= pre);
            assert(dict@.subrange(0, pred.len() as int) =~= pred);
            assert(out@[o as int] == 0u8);
            assert(spec_scan(out@, o as int, out@.len() as int, 1) == Ok::<_, Error>((
                Seq::<Seq<u8>>::empty(),
                o + 1,
            )));
            assert(wire(suffix) =~= seq![0u8]);
            assert forall|k: int| 0 <= k < pred.len() implies (#[trigger] pred[k]).0 != suffix by {
                assert(dict_entry_ok(pred[k], pre));
            }
            assert(!dict_has(pred, suffix));
        }
        return ;
    }
    proof {
        assert(suffix.len() > 0);
        assert(suffix[0] == deep[i as int]);
        lemma_bytes_deep(labels@[i as int]);
        assert(suffix.skip(1) =~= deep.skip(i + 1));
        lemma_encoded_len_pos(deep.skip(i + 1));
        assert(encoded_len(suffix) == 1 + labels@[i as int]@.len() + encoded_len(deep.skip(i + 1)));
    }
    match dict_lookup(dict, labels, i) {
        Some(off) => {
            let ghost k0 = choose|k: int|
                0 <= k < pred.len() && #[trigger] pred[k] == (suffix, off as int);
            proof {
                assert(dict_entry_ok(pred[k0], pre));
                lemma_pointer_bytes(off);
            }
            let hi: u8 = ((off >> 8u16) as u8) | 0xC0u8;
            let lo: u8 = (off & 0xFFu16) as u8;
            out.push(hi);
            out.push(lo);
            proof {
                assert(out@ =~= pre + seq![hi, lo]);
                lemma_dict_ok_grow(dict@, pre, seq![hi, lo]);
                assert(out@.subrange(0, pre.len() as int) =~= pre);
                assert(dict@.subrange(0, pred.len() as int) =~= pred);
                assert(out@[o as int] == hi && out@[o + 1] == lo);
                lemma_scan_grow(
                    pre,
                    seq![hi, lo],
                    off as int,
                    pre.len() as int,
                    encoded_len(suffix),
                    out@.len() as int - 1,
                    encoded_len(suffix),
                );
                assert((hi - 0xC0) * 256 + lo == off as int);
                assert(spec_scan(out@, o as int, out@.len() as int, encoded_len(suffix))
                    == Ok::<_, Error>((suffix, o + 2)));
                assert(encoded_len(suffix) >= 2);
            }
        },
        None => {
            let lab: &Vec<u8> = &labels[i];
            let l = lab.len();
            assert(1 <= l <= 63);
            out.push(l as u8);
            let ghost mid0 = out@;
            let mut j: usize = 0;
            while j < lab.len()
                invariant
                    0 <= j <= lab@.len(),
                    out@ == mid0 + lab@.subrange(0, j as int),
                decreases lab@.len() - j,
            {
                out.push(lab[j]);
                proof {
                    assert(out@ =~= mid0 + lab@.subrange(0, j + 1));
                }
                j = j + 1;
            }
            proof {
                assert(lab@.subrange(0, lab@.len() as int) =~= lab@);
                assert(out@ =~= pre + seq![l as u8] + lab@);
                lemma_dict_ok_grow(dict@, pre, seq![l as u8] + lab@);
                assert(pre + (seq![l as u8] + lab@) =~= pre + seq![l as u8] + lab@);
            }
            let ghost mid = out@;
            write_suffix(labels, i + 1, out, dict);
            let ghost fin = out@;
            proof {
                // the prefix written before the recursive call is intact
                assert forall|m: int| 0 <= m < mid.len() implies fin[m] == mid[m] by {
                    assert(fin.subrange(0, mid.len() as int)[m] == fin[m]);
                }
                assert(fin.subrange(0, pre.len() as int) =~= pre);
                assert(fin[o as int] == l as u8);
                assert(fin.subrange(o + 1, o + 1 + l) =~= lab@);
                assert(encoded_len(deep.skip(i + 1)) == encoded_len(suffix) - (l + 1));
                assert(spec_scan(fin, o + 1 + l, fin.len() as int, encoded_len(suffix) - (l + 1))
                    == Ok::<_, Error>((deep.skip(i + 1), fin.len() as int)));
                assert(seq![fin.subrange(o + 1, o + 1 + l)] + deep.skip(i + 1) =~= suffix);
                assert(spec_scan(fin, o as int, fin.len() as int, encoded_len(suffix)) == Ok::<
                    _,
                    Error,
                >((suffix, fin.len() as int)));
            }
            if o < 0x4000 {
                let mut suffix_vec: Vec<Vec<u8>> = Vec::new();
                let mut m: usize = i;
                while m < labels.len()
                    invariant
                        i <= m <= labels@.len(),
                        suffix_vec@.len() == m - i,
                        deep == labels.deep_view(),
                        deep.len() == labels@.len(),
                        forall|t: int| 0 <= t < m - i ==> (#[trigger] suffix_vec@[t])@ == deep[i
                            + t],
                    decreases labels@.len() - m,
                {
                    let cb = copy_bytes(&labels[m]);
                    suffix_vec.push(cb);
                    proof {
                        lemma_bytes_deep(labels@[m as int]);
                        assert(deep[m as int] == labels@[m as int].deep_view());
                    }
                    m = m + 1;
                }
                proof {
                    assert forall|t: int| 0 <= t < suffix_vec.deep_view().len() implies
                        #[trigger] suffix_vec.deep_view()[t] == suffix[t] by {
                        lemma_bytes_deep(suffix_vec@[t]);
                        assert(suffix_vec.deep_view()[t] == suffix_vec@[t].deep_view());
                        assert(suffix[t] == deep[i + t]);
                    }
                    assert(suffix_vec.deep_view() =~~= suffix);
                }
                let ghost dpre = dict@;
                dict.entries.push(DictEntry { labels: suffix_vec, off: o as u16 });
                proof {
                    assert(dict@ =~= dpre.push((suffix, o as int)));
                    assert(dict@[dpre.len() as int] == (suffix, o as int));
                    assert(dict@.subrange(0, pred.len() as int) =~= pred.subrange(
                        0,
                        pred.len() as int,
                    ));
                    assert(pred.subrange(0, pred.len() as int) =~= pred);
                    assert(dict_entry_ok((suffix, o as int), fin));
                    assert forall|k: int| 0 <= k < dict@.len() implies dict_entry_ok(
                        #[trigger] dict@[k],
                        fin,
                    ) by {
                        if k < dpre.len() {
                            assert(dict@[k] == dpre[k]);
                        }
                    }
                }
            }
            proof {
                if pred.len() == 0 {
                    assert(fin == pre + seq![l as u8] + lab@ + wire(deep.skip(i + 1)));
                    assert(wire(suffix) == seq![suffix[0].len() as u8] + suffix[0] + wire(
                        suffix.skip(1),
                    ));
                    assert(pre + wire(suffix) =~= pre + seq![l as u8] + lab@ + wire(
                        deep.skip(i + 1),
                    ));
                }
            }
        },
    }
}

/// Encode `name` at the current end of `out`.
///
/// A suffix already in the dictionary is replaced by a two-byte backward
/// pointer; new suffixes written at offsets below `0x4000` are recorded for
/// later reuse. Decoding the appended bytes from their own offset yields the
/// name back, whatever was in the buffer before.
pub fn write_name(name: &Name, out: &mut Vec<u8>, dict: &mut NameDict)
    requires
        name.wf(),
        dict_ok(old(dict)@, old(out)@),
        old(out)@.len() + 256 <= usize::MAX,
    ensures
        old(out)@.len() < final(out)@.len(),
        final(out)@.len() <= old(out)@.len() + encoded_len(name@),
        final(out)@.subrange(0, old(out)@.len() as int) == old(out)@,
        final(dict)@.len() >= old(dict)@.len(),
        final(dict)@.subrange(0, old(dict)@.len() as int) == old(dict)@,
        dict_ok(final(dict)@, final(out)@),
        spec_scan(final(out)@, old(out)@.len() as int, final(out)@.len() as int, 255) == Ok::<
            _,
            Error,
        >((name@, final(out)@.len() as int)),
        dict_has(old(dict)@, name@) ==> final(out)@.len() == old(out)@.len() + 2,
        old(dict)@.len() == 0 ==> final(out)@ == old(out)@ + wire(name@),
        old(out)@.len() < 0x4000 && name@.len() > 0 ==> dict_has(final(dict)@, name@),
    decreases 0int,
{
    let ghost pre = out@;
    proof {
        assert(name@.skip(0) =~= name@);
        lemma_suffix_wf(name@, 0);
    }
    write_suffix(&name.labels, 0, out, dict);
    proof {
        lemma_scan_mono(
            out@,
            pre.len() as int,
            out@.len() as int,
            encoded_len(name@),
            out@.len() as int,
            255,
        );
    }
}

} // verus!
