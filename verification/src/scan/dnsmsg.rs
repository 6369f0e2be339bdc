//! Minimal DNS wire-format reader/writer.
//!
//! Shared by the mDNS responder-discovery and the reverse-DNS/DNS-timing probes.
//! Only the record types this app actually consumes are decoded (A, PTR, SRV,
//! TXT); anything else is skipped by length so an unknown record never derails
//! parsing of the rest of the packet.
use crate::text::{chars_of, join, join_chars, string_of, strings_view, views};
use crate::textmap::TextMap;
use vstd::prelude::*;
use vstd::string::StringSliceAdditionalSpecFns;
use vstd::utf8::{decode_utf8, valid_utf8};

verus! {

pub const TYPE_A: u16 = 1;
pub const TYPE_PTR: u16 = 12;
pub const TYPE_TXT: u16 = 16;
pub const TYPE_SRV: u16 = 33;
pub const TYPE_ANY: u16 = 255;
pub const CLASS_IN: u16 = 1;

/// mDNS "QU" bit — the top bit of the question's class field asks responders to
/// reply **unicast** to our source port instead of to the multicast group.
///
/// Port 5353 is usually already held by a system responder (avahi,
/// mDNSResponder, Bonjour). When we cannot own that port, multicast answers are
/// not reliably delivered to us, and a multicast-only query sees almost
/// nothing. Asking for a unicast reply makes discovery work from an ephemeral
/// port.
pub const UNICAST_RESPONSE: u16 = 0x8000;

/* ------------------------------------------------------------- lossy UTF-8 */

/// What `String::from_utf8_lossy` makes of `bytes`.
pub uninterp spec fn lossy_utf8(bytes: Seq<u8>) -> Seq<char>;

/// `String::from_utf8_lossy`. The contract states its result by name; the
/// standard library documents that valid UTF-8 comes back decoded unchanged,
/// and that is stated too. How invalid sequences are replaced is left unsaid.
#[verifier::external_body]
fn utf8_lossy(bytes: &[u8]) -> (s: String)
    ensures
        s@ == lossy_utf8(bytes@),
        valid_utf8(bytes@) ==> s@ == decode_utf8(bytes@),
{
    String::from_utf8_lossy(bytes).into_owned()
}

/* -------------------------------------------------------------------- writer */

/// The two big-endian bytes of `v`.
pub open spec fn be16(v: u16) -> Seq<u8> {
    seq![(v / 256) as u8, (v % 256) as u8]
}

/// A length-prefixed label, cut at 63 bytes; an empty label writes nothing.
pub open spec fn label_bytes(p: Seq<u8>) -> Seq<u8> {
    if p.len() == 0 {
        seq![]
    } else {
        let n = if p.len() > 63 { 63 } else { p.len() as int };
        seq![n as u8] + p.take(n)
    }
}

/// Labels encoded so far for the dot-separated pieces completed in `b[..i]`,
/// and where the piece in progress starts.
pub open spec fn name_scan(b: Seq<u8>, i: int) -> (Seq<u8>, int)
    decreases i,
{
    if i <= 0 || i > b.len() {
        (seq![], 0)
    } else {
        let prev = name_scan(b, i - 1);
        if b[i - 1] == 46 {
            (prev.0 + label_bytes(b.subrange(prev.1, i - 1)), i)
        } else {
            prev
        }
    }
}

/// The wire form of a name given as UTF-8 bytes: each non-empty dot-separated
/// label length-prefixed (at most 63 bytes), then a zero byte.
pub open spec fn encode_name_spec(b: Seq<u8>) -> Seq<u8> {
    let r = name_scan(b, b.len() as int);
    r.0 + label_bytes(b.subrange(r.1, b.len() as int)) + seq![0u8]
}

proof fn lemma_name_scan(b: Seq<u8>, i: int)
    requires
        0 <= i <= b.len(),
    ensures
        0 <= name_scan(b, i).1 <= i,
    decreases i,
{
    if i > 0 {
        lemma_name_scan(b, i - 1);
    }
}

fn push_label(out: &mut Vec<u8>, b: &[u8], start: usize, end: usize)
    requires
        start <= end <= b.len(),
    ensures
        final(out)@ == old(out)@ + label_bytes(b@.subrange(start as int, end as int)),
{
    let ghost p = b@.subrange(start as int, end as int);
    if start == end {
        assert(out@ =~= old(out)@ + label_bytes(p));
        return;
    }
    let n = if end - start > 63 {
        63
    } else {
        end - start
    };
    out.push(n as u8);
    let mut k: usize = 0;
    while k < n
        invariant
            k <= n <= end - start,
            start <= end <= b.len(),
            n <= 63,
            out@ == old(out)@ + seq![n as u8] + b@.subrange(start as int, start + k),
        decreases n - k,
    {
        out.push(b[start + k]);
        k += 1;
        assert(b@.subrange(start as int, start + k) =~= b@.subrange(start as int, start + k - 1).push(
            b@[start + k - 1],
        ));
    }
    assert(p.take(n as int) =~= b@.subrange(start as int, start + n));
    assert(out@ =~= old(out)@ + label_bytes(p));
}

/// Appends the wire form of `name`.
pub fn encode_name(name: &str, out: &mut Vec<u8>)
    ensures
        final(out)@ == old(out)@ + encode_name_spec(name.spec_bytes()),
{
    let b = name.as_bytes();
    let mut start: usize = 0;
    let mut i: usize = 0;
    while i < b.len()
        invariant
            i <= b.len(),
            b@ == name.spec_bytes(),
            out@ == old(out)@ + name_scan(b@, i as int).0,
            start == name_scan(b@, i as int).1,
        decreases b.len() - i,
    {
        proof {
            lemma_name_scan(b@, i as int);
        }
        if b[i] == 46 {
            push_label(out, b, start, i);
            start = i + 1;
            assert(out@ =~= old(out)@ + name_scan(b@, i + 1).0);
        }
        i += 1;
    }
    proof {
        lemma_name_scan(b@, b@.len() as int);
    }
    push_label(out, b, start, b.len());
    out.push(0);
    assert(out@ =~= old(out)@ + encode_name_spec(name.spec_bytes()));
}

fn push_be16(out: &mut Vec<u8>, v: u16)
    ensures
        final(out)@ == old(out)@ + be16(v),
{
    out.push((v / 256) as u8);
    out.push((v % 256) as u8);
    assert(out@ =~= old(out)@ + be16(v));
}

/// A query message: header with one question, then the question itself.
pub open spec fn query_bytes(id: u16, name: Seq<u8>, rtype: u16, qclass: u16, recursion: bool) -> Seq<
    u8,
> {
    be16(id) + be16(if recursion { 0x0100u16 } else { 0u16 }) + be16(1) + be16(0) + be16(0) + be16(
        0,
    ) + encode_name_spec(name) + be16(rtype) + be16(qclass)
}

pub fn build_query_with_class(id: u16, name: &str, rtype: u16, qclass: u16, recursion: bool) -> (out:
    Vec<u8>)
    ensures
        out@ == query_bytes(id, name.spec_bytes(), rtype, qclass, recursion),
{
    let mut out: Vec<u8> = Vec::new();
    push_be16(&mut out, id);
    let flags: u16 = if recursion {
        0x0100
    } else {
        0x0000
    };
    push_be16(&mut out, flags);
    push_be16(&mut out, 1);
    push_be16(&mut out, 0);
    push_be16(&mut out, 0);
    push_be16(&mut out, 0);
    encode_name(name, &mut out);
    push_be16(&mut out, rtype);
    push_be16(&mut out, qclass);
    assert(out@ =~= query_bytes(id, name.spec_bytes(), rtype, qclass, recursion));
    out
}

pub fn build_query(id: u16, name: &str, rtype: u16, recursion: bool) -> (out: Vec<u8>)
    ensures
        out@ == query_bytes(id, name.spec_bytes(), rtype, CLASS_IN, recursion),
{
    build_query_with_class(id, name, rtype, CLASS_IN, recursion)
}

/// An mDNS question asking for a unicast reply.
pub fn build_mdns_query(name: &str, rtype: u16) -> (out: Vec<u8>)
    ensures
        out@ == query_bytes(0, name.spec_bytes(), rtype, 0x8001, false),
{
    let qclass = UNICAST_RESPONSE | CLASS_IN;
    assert(UNICAST_RESPONSE | CLASS_IN == 0x8001u16) by (bit_vector);
    build_query_with_class(0, name, rtype, qclass, false)
}


/* -------------------------------------------------------------------- reader */

/// The big-endian 16-bit value at `pos`.
pub open spec fn u16_at(buf: Seq<u8>, pos: int) -> int {
    buf[pos] * 256 + buf[pos + 1]
}

/// The labels of a possibly-compressed name starting at `pos`, after `jumps`
/// compression pointers have been followed. A seventeenth pointer fails the
/// name, which is what keeps a pointer loop from hanging the reader.
pub open spec fn walk(buf: Seq<u8>, pos: int, jumps: int) -> Option<Seq<Seq<u8>>>
    decreases 17 - jumps, buf.len() - pos,
{
    if pos < 0 || pos >= buf.len() {
        None
    } else {
        let len = buf[pos] as int;
        if len == 0 {
            Some(seq![])
        } else if len >= 192 {
            if pos + 1 >= buf.len() || jumps + 1 > 16 || jumps < 0 {
                None
            } else {
                walk(buf, (len - 192) * 256 + buf[pos + 1], jumps + 1)
            }
        } else {
            let end = pos + 1 + len;
            if end > buf.len() {
                None
            } else {
                match walk(buf, end, jumps) {
                    Some(rest) => Some(seq![buf.subrange(pos + 1, end)] + rest),
                    None => None,
                }
            }
        }
    }
}

/// Where the record stream continues after a name at `pos`: past its zero
/// byte, or past the first compression pointer.
pub open spec fn name_next(buf: Seq<u8>, pos: int) -> int
    decreases buf.len() - pos,
{
    if pos < 0 || pos >= buf.len() {
        pos
    } else {
        let len = buf[pos] as int;
        if len == 0 {
            pos + 1
        } else if len >= 192 {
            pos + 2
        } else if pos + 1 + len > buf.len() {
            pos + 1 + len
        } else {
            name_next(buf, pos + 1 + len)
        }
    }
}

/// The text of a name: its labels decoded and joined with dots.
pub open spec fn name_text(labels: Seq<Seq<u8>>) -> Seq<char> {
    join(Seq::new(labels.len(), |i: int| lossy_utf8(labels[i])), seq!['.'])
}

/// The name at `pos`, and where the stream continues after it.
pub open spec fn read_name(buf: Seq<u8>, pos: int) -> Option<(Seq<char>, int)> {
    match walk(buf, pos, 0) {
        Some(labels) => Some((name_text(labels), name_next(buf, pos))),
        None => None,
    }
}

struct Reader<'a> {
    buf: &'a [u8],
    pos: usize,
}

impl<'a> Reader<'a> {
    fn new(buf: &'a [u8]) -> (r: Self)
        ensures
            r.buf@ == buf@,
            r.pos == 0,
    {
        Reader { buf, pos: 0 }
    }

    fn u8(&mut self) -> (r: Option<u8>)
        ensures
            final(self).buf@ == old(self).buf@,
            old(self).pos < old(self).buf@.len() ==> r == Some(old(self).buf@[old(self).pos as int])
                && final(self).pos == old(self).pos + 1,
            old(self).pos >= old(self).buf@.len() ==> r is None,
    {
        if self.pos >= self.buf.len() {
            return None;
        }
        let v = self.buf[self.pos];
        self.pos += 1;
        Some(v)
    }

    fn u16(&mut self) -> (r: Option<u16>)
        ensures
            final(self).buf@ == old(self).buf@,
            old(self).pos + 2 <= old(self).buf@.len() ==> (r matches Some(v) && v == u16_at(
                old(self).buf@,
                old(self).pos as int,
            ) && final(self).pos == old(self).pos + 2),
            old(self).pos + 2 > old(self).buf@.len() ==> r is None,
    {
        let hi = self.u8()?;
        let lo = self.u8()?;
        Some((hi as u16) * 256 + (lo as u16))
    }

    fn u32(&mut self) -> (r: Option<u32>)
        ensures
            final(self).buf@ == old(self).buf@,
            old(self).pos + 4 <= old(self).buf@.len() ==> (r matches Some(v) && v == u16_at(
                old(self).buf@,
                old(self).pos as int,
            ) * 65536 + u16_at(old(self).buf@, old(self).pos + 2) && final(self).pos == old(self).pos
                + 4),
            old(self).pos + 4 > old(self).buf@.len() ==> r is None,
    {
        let a = self.u16()?;
        let b = self.u16()?;
        Some((a as u32) * 65536 + (b as u32))
    }

    fn slice(&mut self, len: usize) -> (r: Option<&'a [u8]>)
        ensures
            final(self).buf@ == old(self).buf@,
            old(self).pos + len <= old(self).buf@.len() ==> (r matches Some(v) && v@
                == old(self).buf@.subrange(old(self).pos as int, old(self).pos + len)
                && final(self).pos == old(self).pos + len),
            old(self).pos + len > old(self).buf@.len() ==> r is None,
    {
        if len > self.buf.len() || self.pos > self.buf.len() - len {
            return None;
        }
        let end = self.pos + len;
        let out = slice_of(self.buf, self.pos, end);
        self.pos = end;
        Some(out)
    }

    /// Decodes a possibly-compressed name.
    ///
    /// Compression pointers can legally point backwards, and a malformed packet
    /// can make them point in a loop — a hard-capped jump budget is what keeps a
    /// hostile or corrupt response from hanging the scan.
    fn name(&mut self) -> (r: Option<String>)
        ensures
            final(self).buf@ == old(self).buf@,
            r matches Some(n) ==> read_name(old(self).buf@, old(self).pos as int) matches Some(
                (t, next),
            ) && n@ == t && final(self).pos == next,
            r is None ==> read_name(old(self).buf@, old(self).pos as int) is None,
    {
        let buf = self.buf;
        let start = self.pos;
        let ghost b = buf@;
        let mut labels: Vec<Vec<char>> = Vec::new();
        let ghost mut acc: Seq<Seq<u8>> = seq![];
        let mut jumps: usize = 0;
        let mut pos: usize = start;
        let mut advanced = false;
        let mut end_pos: usize = start;
        loop
            invariant
                b == buf@,
                self.buf@ == b,
                old(self).buf@ == b,
                old(self).pos == start,
                jumps <= 16,
                views(labels@) == Seq::new(acc.len(), |i: int| lossy_utf8(acc[i])),
                match walk(b, pos as int, jumps as int) {
                    Some(rest) => walk(b, start as int, 0) == Some(acc + rest),
                    None => walk(b, start as int, 0) is None,
                },
                !advanced ==> name_next(b, start as int) == name_next(b, pos as int),
                advanced ==> name_next(b, start as int) == end_pos,
            decreases 17 - jumps, buf.len() - pos,
        {
            if pos >= buf.len() {
                return None;
            }
            let len = buf[pos] as usize;
            if len == 0 {
                let next = pos + 1;
                if !advanced {
                    end_pos = next;
                }
                proof {
                    assert(acc + seq![] =~= acc);
                }
                let joined = join_chars(&labels, &['.']);
                proof {
                    assert(views(labels@) =~= Seq::new(acc.len(), |i: int| lossy_utf8(acc[i])));
                    assert(seq!['.'] =~= ['.']@);
                }
                self.pos = end_pos;
                return Some(string_of(&joined));
            }
            if len >= 192 {
                if pos + 1 >= buf.len() {
                    return None;
                }
                let lo = buf[pos + 1] as usize;
                let target = (len - 192) * 256 + lo;
                if !advanced {
                    end_pos = pos + 2;
                    advanced = true;
                }
                if jumps + 1 > 16 {
                    return None;
                }
                jumps += 1;
                pos = target;
                continue;
            }
            let lstart = pos + 1;
            if len > buf.len() - lstart {
                return None;
            }
            let lend = lstart + len;
            let bytes = slice_of(buf, lstart, lend);
            let text = utf8_lossy(bytes);
            let decoded = chars_of(text.as_str());
            proof {
                let lab = b.subrange(lstart as int, lend as int);
                let old_acc = acc;
                assert(decoded@ == lossy_utf8(lab));
                acc = acc.push(lab);
                assert forall|i: int| 0 <= i < old_acc.len() implies #[trigger] views(labels@)[i]
                    == lossy_utf8(acc[i]) by {
                    assert(views(labels@)[i] == Seq::new(old_acc.len(), |j: int| lossy_utf8(old_acc[j]))[i]);
                }
                crate::text::lemma_views_push(labels@, decoded);
                assert(views(labels@).push(decoded@) =~= Seq::new(acc.len(), |i: int| lossy_utf8(acc[i])));
                match walk(b, lend as int, jumps as int) {
                    Some(rest) => {
                        assert(old_acc + (seq![lab] + rest) =~= acc + rest);
                    },
                    None => {},
                }
            }
            labels.push(decoded);
            pos = lend;
        }
    }
}

/// `buf[start..end]`.
fn slice_of<'b>(buf: &'b [u8], start: usize, end: usize) -> (r: &'b [u8])
    requires
        start <= end <= buf@.len(),
    ensures
        r@ == buf@.subrange(start as int, end as int),
{
    let (head, _) = buf.split_at(end);
    let (_, mid) = head.split_at(start);
    assert(mid@ =~= buf@.subrange(start as int, end as int));
    mid
}


/* ------------------------------------------------------------------ messages */

#[derive(Debug, Clone)]
pub enum RData {
    /// An IPv4 address, as its 32-bit value.
    A(u32),
    Ptr(String),
    Txt(Vec<String>),
    Srv { priority: u16, weight: u16, port: u16, target: String },
    Other,
}

#[derive(Debug, Clone)]
pub struct Record {
    pub name: String,
    pub rtype: u16,
    pub data: RData,
}

#[derive(Debug, Clone)]
pub struct Message {
    pub id: u16,
    pub questions: Vec<(String, u16)>,
    pub records: Vec<Record>,
    /// The RCODE: nonzero when the server refused or failed the query.
    pub rcode: u8,
}

/// The contents of an [`RData`].
pub enum RDataView {
    A(u32),
    Ptr(Seq<char>),
    Txt(Seq<Seq<char>>),
    Srv { priority: u16, weight: u16, port: u16, target: Seq<char> },
    Other,
}

pub struct RecordView {
    pub name: Seq<char>,
    pub rtype: u16,
    pub data: RDataView,
}

pub struct MessageView {
    pub id: u16,
    pub questions: Seq<(Seq<char>, u16)>,
    pub records: Seq<RecordView>,
    pub rcode: u8,
}


impl RData {
    pub open spec fn view(&self) -> RDataView {
        match self {
            RData::A(a) => RDataView::A(*a),
            RData::Ptr(p) => RDataView::Ptr(p@),
            RData::Txt(t) => RDataView::Txt(strings_view(t@)),
            RData::Srv { priority, weight, port, target } => RDataView::Srv {
                priority: *priority,
                weight: *weight,
                port: *port,
                target: target@,
            },
            RData::Other => RDataView::Other,
        }
    }
}

impl Record {
    pub open spec fn view(&self) -> RecordView {
        RecordView { name: self.name@, rtype: self.rtype, data: self.data.view() }
    }
}

impl Message {
    pub open spec fn view(&self) -> MessageView {
        MessageView {
            id: self.id,
            questions: Seq::new(
                self.questions@.len(),
                |i: int| (self.questions@[i].0@, self.questions@[i].1),
            ),
            records: Seq::new(self.records@.len(), |i: int| self.records@[i].view()),
            rcode: self.rcode,
        }
    }
}

/// The character-strings of TXT record data from offset `off`; a string that
/// runs past the end ends the list.
pub open spec fn txt_strings(rd: Seq<u8>, off: int) -> Seq<Seq<char>>
    decreases rd.len() - off,
{
    if off < 0 || off >= rd.len() {
        seq![]
    } else {
        let o = off + 1;
        let l = rd[off] as int;
        if o + l > rd.len() {
            seq![]
        } else {
            seq![lossy_utf8(rd.subrange(o, o + l))] + txt_strings(rd, o + l)
        }
    }
}

/// The decoded data of a record of type `rtype` whose data is
/// `buf[start..start + len]`. Names inside the data may point anywhere in the
/// packet.
pub open spec fn rdata_spec(buf: Seq<u8>, rtype: u16, start: int, len: int) -> RDataView {
    let rd = buf.subrange(start, start + len);
    if rtype == TYPE_A && len >= 4 {
        RDataView::A((rd[0] * 16777216 + rd[1] * 65536 + rd[2] * 256 + rd[3]) as u32)
    } else if rtype == TYPE_PTR {
        match read_name(buf, start) {
            Some((n, _)) => RDataView::Ptr(n),
            None => RDataView::Other,
        }
    } else if rtype == TYPE_SRV && len >= 6 {
        RDataView::Srv {
            priority: u16_at(rd, 0) as u16,
            weight: u16_at(rd, 2) as u16,
            port: u16_at(rd, 4) as u16,
            target: match read_name(buf, start + 6) {
                Some((n, _)) => n,
                None => seq![],
            },
        }
    } else if rtype == TYPE_TXT {
        RDataView::Txt(txt_strings(rd, 0))
    } else {
        RDataView::Other
    }
}

/// `n` questions starting at `pos`, and where the stream continues.
pub open spec fn questions_spec(buf: Seq<u8>, pos: int, n: int) -> Option<(Seq<(Seq<char>, u16)>, int)>
    decreases n,
{
    if n <= 0 {
        Some((seq![], pos))
    } else {
        match read_name(buf, pos) {
            None => None,
            Some((name, next)) => if next < 0 || next + 4 > buf.len() {
                None
            } else {
                match questions_spec(buf, next + 4, n - 1) {
                    Some((qs, p)) => Some((seq![(name, u16_at(buf, next) as u16)] + qs, p)),
                    None => None,
                }
            },
        }
    }
}

/// Up to `n` resource records starting at `pos`. A record that does not fit
/// ends the list; the records before it are kept.
pub open spec fn records_spec(buf: Seq<u8>, pos: int, n: int) -> Seq<RecordView>
    decreases n,
{
    if n <= 0 {
        seq![]
    } else {
        match read_name(buf, pos) {
            None => seq![],
            Some((name, next)) => if next < 0 || next + 10 > buf.len() {
                seq![]
            } else {
                let rtype = u16_at(buf, next) as u16;
                let rdlen = u16_at(buf, next + 8);
                let rs = next + 10;
                if rs + rdlen > buf.len() {
                    seq![]
                } else {
                    seq![RecordView { name, rtype, data: rdata_spec(buf, rtype, rs, rdlen) }]
                        + records_spec(buf, rs + rdlen, n - 1)
                }
            },
        }
    }
}

/// A whole message: the 12-byte header, the questions (all of which must
/// parse), then answers, authorities and additionals read as one list.
pub open spec fn parse_spec(buf: Seq<u8>) -> Option<MessageView> {
    if buf.len() < 12 {
        None
    } else {
        match questions_spec(buf, 12, u16_at(buf, 4)) {
            None => None,
            Some((qs, p)) => Some(
                MessageView {
                    id: u16_at(buf, 0) as u16,
                    questions: qs,
                    records: records_spec(
                        buf,
                        p,
                        u16_at(buf, 6) + u16_at(buf, 8) + u16_at(buf, 10),
                    ),
                    rcode: (u16_at(buf, 2) % 16) as u8,
                },
            ),
        }
    }
}

proof fn lemma_read_name_next(buf: Seq<u8>, pos: int)
    requires
        read_name(buf, pos) is Some,
    ensures
        pos < read_name(buf, pos).unwrap().1 <= buf.len(),
{
    lemma_walk_next(buf, pos, 0);
}

proof fn lemma_walk_next(buf: Seq<u8>, pos: int, jumps: int)
    requires
        walk(buf, pos, jumps) is Some,
    ensures
        pos < name_next(buf, pos) <= buf.len(),
    decreases buf.len() - pos,
{
    let len = buf[pos] as int;
    if len == 0 {
    } else if len >= 192 {
    } else {
        lemma_walk_next(buf, pos + 1 + len, jumps);
    }
}

fn txt_data(rd: &[u8]) -> (out: Vec<String>)
    ensures
        strings_view(out@) == txt_strings(rd@, 0),
{
    let mut out: Vec<String> = Vec::new();
    let mut offset: usize = 0;
    while offset < rd.len()
        invariant
            offset <= rd.len(),
            txt_strings(rd@, 0) == strings_view(out@) + txt_strings(rd@, offset as int),
        decreases rd.len() - offset,
    {
        let len = rd[offset] as usize;
        let o = offset + 1;
        if len > rd.len() - o {
            assert(txt_strings(rd@, offset as int) =~= seq![]);
            assert(strings_view(out@) + seq![] =~= strings_view(out@));
            return out;
        }
        let piece = utf8_lossy(slice_of(rd, o, o + len));
        proof {
            let ghost before = strings_view(out@);
            assert(strings_view(out@.push(piece)) =~= before.push(piece@));
            assert(before + txt_strings(rd@, offset as int) =~= before.push(piece@) + txt_strings(
                rd@,
                (o + len) as int,
            ));
        }
        out.push(piece);
        offset = o + len;
    }
    assert(txt_strings(rd@, offset as int) =~= seq![]);
    assert(strings_view(out@) + seq![] =~= strings_view(out@));
    out
}

/// Parses a DNS message. `None` when the header or any question is
/// incomplete; a damaged resource record ends the record list instead.
pub fn parse(buf: &[u8]) -> (r: Option<Message>)
    ensures
        r matches Some(m) ==> parse_spec(buf@) == Some(m.view()),
        r is None ==> parse_spec(buf@) is None,
{
    let ghost b = buf@;
    let mut reader = Reader::new(buf);
    let id = reader.u16()?;
    let flags = reader.u16()?;
    let qdcount = reader.u16()?;
    let ancount = reader.u16()?;
    let nscount = reader.u16()?;
    let arcount = reader.u16()?;
    assert(reader.pos == 12);

    let mut questions: Vec<(String, u16)> = Vec::new();
    let mut k: u16 = 0;
    while k < qdcount
        invariant
            reader.buf@ == b,
            b == buf@,
            b.len() >= 12,
            k <= qdcount,
            qdcount == u16_at(b, 4),
            0 <= reader.pos <= b.len(),
            questions_spec(b, 12, qdcount as int) == match questions_spec(
                b,
                reader.pos as int,
                qdcount - k,
            ) {
                Some((rest, p)) => Some(
                    (
                        Seq::new(questions@.len(), |i: int| (questions@[i].0@, questions@[i].1))
                            + rest,
                        p,
                    ),
                ),
                None => None,
            },
        decreases qdcount - k,
    {
        let ghost pos0 = reader.pos as int;
        let name = reader.name();
        if name.is_none() {
            return None;
        }
        let name = name.unwrap();
        proof {
            lemma_read_name_next(b, pos0);
        }
        let ghost next = reader.pos as int;
        let rtype = reader.u16();
        if rtype.is_none() {
            return None;
        }
        let rtype = rtype.unwrap();
        let class = reader.u16();
        if class.is_none() {
            return None;
        }
        proof {
            let qv = Seq::new(questions@.len(), |i: int| (questions@[i].0@, questions@[i].1));
            let nq = questions@.push((name, rtype));
            let qv2 = Seq::new(nq.len(), |i: int| (nq[i].0@, nq[i].1));
            assert(qv2 =~= qv.push((name@, rtype)));
            match questions_spec(b, next + 4, qdcount - k - 1) {
                Some((rest, p)) => {
                    assert(qv + (seq![(name@, rtype)] + rest) =~= qv2 + rest);
                },
                None => {},
            }
        }
        questions.push((name, rtype));
        k += 1;
    }
    assert(questions_spec(b, reader.pos as int, 0) == Some::<(Seq<(Seq<char>, u16)>, int)>((seq![], reader.pos as int)));
    proof {
        let qv = Seq::new(questions@.len(), |i: int| (questions@[i].0@, questions@[i].1));
        assert(qv + seq![] =~= qv);
    }

    // Answers, authorities and additionals are all treated the same: mDNS
    // responders routinely put the SRV/TXT/A records we need in additionals.
    let total = ancount as usize + nscount as usize + arcount as usize;
    let ghost rstart = reader.pos as int;
    let mut records: Vec<Record> = Vec::new();
    let mut n: usize = 0;
    while n < total
        invariant_except_break
            reader.buf@ == b,
            0 <= reader.pos <= b.len(),
            records_spec(b, rstart, total as int) == Seq::new(
                records@.len(),
                |i: int| records@[i].view(),
            ) + records_spec(b, reader.pos as int, total - n),
        invariant
            b == buf@,
            n <= total,
        ensures
            records_spec(b, rstart, total as int) == Seq::new(
                records@.len(),
                |i: int| records@[i].view(),
            ),
        decreases total - n,
    {
        let ghost pos0 = reader.pos as int;
        let ghost done = Seq::new(records@.len(), |i: int| records@[i].view());
        let name = reader.name();
        if name.is_none() {
            assert(records_spec(b, pos0, total - n) =~= seq![]);
            assert(done + seq![] =~= done);
            break;
        }
        let name = name.unwrap();
        proof {
            lemma_read_name_next(b, pos0);
        }
        let ghost next = reader.pos as int;
        if reader.pos > buf.len() || buf.len() - reader.pos < 10 {
            assert(records_spec(b, pos0, total - n) =~= seq![]);
            assert(done + seq![] =~= done);
            break;
        }
        let rtype = reader.u16().unwrap();
        let _class = reader.u16().unwrap();
        let _ttl = reader.u32().unwrap();
        let rdlen = reader.u16().unwrap();
        let rdata_start = reader.pos;
        let rdata = reader.slice(rdlen as usize);
        if rdata.is_none() {
            assert(records_spec(b, pos0, total - n) =~= seq![]);
            assert(done + seq![] =~= done);
            break;
        }
        let rdata = rdata.unwrap();
        let data = if rtype == TYPE_A && rdata.len() >= 4 {
            RData::A(
                (rdata[0] as u32) * 16777216 + (rdata[1] as u32) * 65536 + (rdata[2] as u32) * 256
                    + (rdata[3] as u32),
            )
        } else if rtype == TYPE_PTR {
            // Names inside RDATA may use compression relative to the whole packet.
            let mut sub = Reader { buf, pos: rdata_start };
            match sub.name() {
                Some(name) => RData::Ptr(name),
                None => RData::Other,
            }
        } else if rtype == TYPE_SRV && rdata.len() >= 6 {
            let priority = (rdata[0] as u16) * 256 + (rdata[1] as u16);
            let weight = (rdata[2] as u16) * 256 + (rdata[3] as u16);
            let port = (rdata[4] as u16) * 256 + (rdata[5] as u16);
            let mut sub = Reader { buf, pos: rdata_start + 6 };
            let target = match sub.name() {
                Some(t) => t,
                None => String::new(),
            };
            RData::Srv { priority, weight, port, target }
        } else if rtype == TYPE_TXT {
            RData::Txt(txt_data(rdata))
        } else {
            RData::Other
        };
        let rec = Record { name, rtype, data };
        proof {
            let rs = next + 10;
            assert(rdata@ == b.subrange(rs, rs + rdlen));
            assert(rec.view() == RecordView {
                name: rec.name@,
                rtype,
                data: rdata_spec(b, rtype, rs, rdlen as int),
            }) by {
                if rtype == TYPE_SRV && rdata@.len() >= 6 {
                    assert(rdata_spec(b, rtype, rs, rdlen as int) is Srv);
                }
            }
            let nr = records@.push(rec);
            assert(Seq::new(nr.len(), |i: int| nr[i].view()) =~= done.push(rec.view()));
            assert(done + (seq![rec.view()] + records_spec(b, rs + rdlen, total - n - 1)) =~= done.push(
                rec.view(),
            ) + records_spec(b, rs + rdlen, total - n - 1));
        }
        records.push(rec);
        n += 1;
    }
    let m = Message { id, questions, records, rcode: (flags % 16) as u8 };
    proof {
        let qv = Seq::new(m.questions@.len(), |i: int| (m.questions@[i].0@, m.questions@[i].1));
        assert(m.view().questions == qv);
    }
    Some(m)
}

/* --------------------------------------------------------------------- TXT */

/// DNS-SD TXT strings as key/value pairs: `key=value`, or a bare `key`
/// (a valueless flag, which the spec permits). Keys are trimmed; a later
/// entry for a key replaces an earlier one.
pub open spec fn txt_map_spec(strings: Seq<Seq<char>>) -> Map<Seq<char>, Seq<char>>
    decreases strings.len(),
{
    if strings.len() == 0 {
        Map::empty()
    } else {
        let m = txt_map_spec(strings.drop_last());
        let e = strings.last();
        match crate::text::split_once(e, seq!['=']) {
            Some((k, v)) => m.insert(crate::text::trim(k), v),
            None => if crate::text::trim(e).len() > 0 {
                m.insert(crate::text::trim(e), seq![])
            } else {
                m
            },
        }
    }
}

/// Splits DNS-SD TXT strings into key/value pairs.
pub fn txt_to_map(strings: &[String]) -> (m: TextMap)
    ensures
        m.view() == txt_map_spec(strings_view(strings@)),
{
    let mut map = TextMap::new();
    let eq = vec!['='];
    assert(eq@ =~= seq!['=']);
    let mut i: usize = 0;
    while i < strings.len()
        invariant
            i <= strings.len(),
            eq@ == seq!['='],
            map.view() == txt_map_spec(strings_view(strings@).take(i as int)),
        decreases strings.len() - i,
    {
        proof {
            assert(strings_view(strings@).take(i + 1).drop_last() =~= strings_view(strings@).take(
                i as int,
            ));
        }
        let entry = chars_of(strings[i].as_str());
        match crate::text::split_once_chars(&entry, &eq) {
            Some((key, value)) => {
                let k = crate::text::trimmed(&key);
                map.insert_chars(k, string_of(&value));
            },
            None => {
                let k = crate::text::trimmed(&entry);
                if k.len() > 0 {
                    map.insert_chars(k, String::new());
                }
            },
        }
        i += 1;
    }
    assert(strings_view(strings@).take(strings.len() as int) =~= strings_view(strings@));
    map
}

/// Reading more records never changes the ones already read: the first `n`
/// are a prefix of the first `n2`, and at most `n` come back.
proof fn lemma_records_prefix(buf: Seq<u8>, pos: int, n: int, n2: int)
    requires
        n <= n2,
    ensures
        records_spec(buf, pos, n).len() <= if n > 0 { n } else { 0 },
        records_spec(buf, pos, n).len() <= records_spec(buf, pos, n2).len(),
        records_spec(buf, pos, n2).take(records_spec(buf, pos, n).len() as int) == records_spec(buf, pos, n),
    decreases n,
{
    if n > 0 {
        match read_name(buf, pos) {
            None => {},
            Some((name, next)) => {
                if next < 0 || next + 10 > buf.len() {
                } else {
                    let rdlen = u16_at(buf, next + 8);
                    let rs = next + 10;
                    if rs + rdlen > buf.len() {
                    } else {
                        lemma_records_prefix(buf, rs + rdlen, n - 1, n2 - 1);
                        let a = records_spec(buf, rs + rdlen, n - 1);
                        let b = records_spec(buf, rs + rdlen, n2 - 1);
                        assert(records_spec(buf, pos, n2) == records_spec(buf, pos, n2).take(1) + b);
                        assert(records_spec(buf, pos, n2).take(a.len() + 1 as int) =~= records_spec(buf, pos, n2).take(1)
                            + b.take(a.len() as int));
                    }
                }
            },
        }
    } else {
        assert(records_spec(buf, pos, n2).take(0) =~= Seq::<RecordView>::empty());
    }
}

/// A message's records are read from all three record sections: the header's
/// answer, authority and additional counts (words at 6, 8 and 10) together
/// bound them, and every record that the stream after the questions holds
/// within that total is in the result, in order.
pub proof fn law_records_from_all_sections(buf: Seq<u8>, k: int)
    requires
        parse_spec(buf) is Some,
        0 <= k <= u16_at(buf, 6) + u16_at(buf, 8) + u16_at(buf, 10),
    ensures
        ({
            let m = parse_spec(buf)->0;
            let p = questions_spec(buf, 12, u16_at(buf, 4)).unwrap().1;
            &&& m.records.len() <= u16_at(buf, 6) + u16_at(buf, 8) + u16_at(buf, 10)
            &&& m.records.take(records_spec(buf, p, k).len() as int) == records_spec(buf, p, k)
            &&& records_spec(buf, p, k).len() <= m.records.len()
        }),
{
    let p = questions_spec(buf, 12, u16_at(buf, 4)).unwrap().1;
    let total = u16_at(buf, 6) + u16_at(buf, 8) + u16_at(buf, 10);
    lemma_records_prefix(buf, p, k, total);
    lemma_records_prefix(buf, p, total, total);
}

} // verus!
