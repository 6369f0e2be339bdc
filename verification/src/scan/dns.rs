//! DNS queries over UDP, used for resolver timing and reverse lookups: what
//! is asked, and what an answer yields. The exchange itself runs outside the
//! library.
use crate::netutil::{ipv4_string, ipv4_text};
use crate::scan::dnsmsg::{parse, parse_spec, Message, RData, RDataView, RecordView};
use crate::text::{chars_of, dec, owned, push_dec, push_str, string_of, strings_view, trim_end_matches, trim_end_matching};
use std::time::Duration;
use vstd::prelude::*;

verus! {

pub struct QueryOutcome {
    pub answers: Vec<String>,
    pub elapsed: Duration,
    pub rcode: u8,
}

/// The answers worth reporting: A records as dotted quads, PTR names
/// without their trailing dots.
pub open spec fn answers_spec(records: Seq<RecordView>) -> Seq<Seq<char>>
    decreases records.len(),
{
    if records.len() == 0 {
        seq![]
    } else {
        let prev = answers_spec(records.drop_last());
        match records.last().data {
            RDataView::A(a) => prev.push(ipv4_text(a)),
            RDataView::Ptr(p) => prev.push(trim_end_matches(p, "."@)),
            _ => prev,
        }
    }
}

pub fn answers_of(msg: &Message) -> (out: Vec<String>)
    ensures
        strings_view(out@) == answers_spec(msg.view().records),
{
    let ghost rv = msg.view().records;
    let mut out: Vec<String> = Vec::new();
    let mut i: usize = 0;
    while i < msg.records.len()
        invariant
            i <= msg.records@.len(),
            rv == msg.view().records,
            rv.len() == msg.records@.len(),
            strings_view(out@) == answers_spec(rv.take(i as int)),
        decreases msg.records.len() - i,
    {
        proof {
            assert(rv.take(i + 1).drop_last() =~= rv.take(i as int));
            assert(rv.take(i + 1).last() == msg.records@[i as int].view());
        }
        let ghost before = out@;
        match &msg.records[i].data {
            RData::A(a) => {
                let t = ipv4_string(*a);
                out.push(t);
                assert(strings_view(out@) =~= strings_view(before).push(t@));
            },
            RData::Ptr(p) => {
                let c = chars_of(p.as_str());
                let dot = chars_of(".");
                let t = string_of(&trim_end_matching(&c, &dot));
                out.push(t);
                assert(strings_view(out@) =~= strings_view(before).push(t@));
            },
            _ => {},
        }
        i += 1;
    }
    assert(rv.take(rv.len() as int) =~= rv);
    out
}

/// What a query's response yields, if it parses.
pub fn outcome_of(response: &[u8], elapsed: Duration) -> (r: Result<QueryOutcome, String>)
    ensures
        r is Ok <==> parse_spec(response@) is Some,
        match r {
            Ok(o) => {
                &&& strings_view(o.answers@) == answers_spec(parse_spec(response@).unwrap().records)
                &&& o.rcode == parse_spec(response@).unwrap().rcode
                &&& o.elapsed == elapsed
            },
            Err(e) => e@ == "malformed response"@,
        },
{
    match parse(response) {
        Some(message) => {
            let answers = answers_of(&message);
            Ok(QueryOutcome { answers, elapsed, rcode: message.rcode })
        },
        None => Err(owned("malformed response")),
    }
}

/// The PTR name of an address: its octets reversed under `in-addr.arpa`.
pub open spec fn reverse_name_spec(ip: u32) -> Seq<char> {
    dec((ip % 256) as nat) + "."@ + dec(((ip / 256) % 256) as nat) + "."@ + dec(((ip / 65536) % 256) as nat) + "."@
        + dec((ip / 16777216) as nat) + ".in-addr.arpa"@
}

pub fn reverse_name(ip: u32) -> (s: String)
    ensures
        s@ == reverse_name_spec(ip),
{
    let mut s = String::new();
    push_dec(&mut s, (ip % 256) as u64);
    push_str(&mut s, ".");
    push_dec(&mut s, ((ip / 256) % 256) as u64);
    push_str(&mut s, ".");
    push_dec(&mut s, ((ip / 65536) % 256) as u64);
    push_str(&mut s, ".");
    push_dec(&mut s, (ip / 16777216) as u64);
    push_str(&mut s, ".in-addr.arpa");
    s
}

/// A query's transaction id from a clock reading: its low 16 bits mixed
/// with a constant.
pub fn query_id(nanos: u32) -> (id: u16)
    ensures
        id == (((nanos % 65536) as u16) ^ 0x5EEDu16),
{
    let low = (nanos % 65536) as u16;
    low ^ 0x5EED
}

/// The first answer of a reverse lookup, when the query succeeded.
pub fn first_answer(r: Result<QueryOutcome, String>) -> (name: Option<String>)
    ensures
        match r {
            Ok(o) => if o.answers@.len() > 0 {
                name == Some(o.answers@[0])
            } else {
                name is None
            },
            Err(_) => name is None,
        },
{
    match r {
        Ok(o) => {
            let mut answers = o.answers;
            if answers.len() > 0 {
                Some(answers.remove(0))
            } else {
                None
            }
        },
        Err(_) => None,
    }
}

} // verus!
