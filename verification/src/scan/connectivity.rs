//! The packet counts of `ping`'s statistics block.
//!
//! Latency figures are fractional and stay with the caller; what is decided
//! here is how many probes went out and how many came back, on any platform.
use crate::text::{
    chars_of, digits_end, find, find_chars, leading_digits, lower_seq, lowercase, parse_unsigned,
    parse_unsigned_range, slice_chars, views, words, words_of,
};
use vstd::prelude::*;

verus! {

/// An optional `u32` read as an optional integer.
pub open spec fn as_count(r: Option<u32>) -> Option<int> {
    match r {
        Some(v) => Some(v as int),
        None => None,
    }
}

/// The last word before the first `marker`, read as a `u32`.
pub open spec fn number_before(text: Seq<char>, marker: Seq<char>) -> Option<int> {
    match find(text, marker) {
        Some(i) => {
            let ws = words(text.take(i));
            if ws.len() == 0 {
                None
            } else {
                parse_unsigned(ws.last(), 10, u32::MAX as int)
            }
        },
        None => None,
    }
}

/// The digits right after the first `marker`, read as a `u32`.
pub open spec fn number_after(text: Seq<char>, marker: Seq<char>) -> Option<int> {
    match find(text, marker) {
        Some(i) => parse_unsigned(leading_digits(text.skip(i + marker.len())), 10, u32::MAX as int),
        None => None,
    }
}

/// The last whitespace-separated word before `marker`, as a count.
pub fn extract_before(text: &[char], marker: &str) -> (r: Option<u32>)
    ensures
        as_count(r) == number_before(text@, marker@),
{
    let m = chars_of(marker);
    let index = match find_chars(text, &m, 0) {
        Some(i) => i,
        None => return None,
    };
    proof {
        crate::text::lemma_find_from(text@, m@, 0);
    }
    let head = slice_chars(text, 0, index);
    assert(head@ =~= text@.take(index as int));
    let ws = words_of(&head);
    if ws.len() == 0 {
        return None;
    }
    let w = &ws[ws.len() - 1];
    assert(views(ws@).last() == w@);
    assert(w@.subrange(0, w@.len() as int) =~= w@);
    match parse_unsigned_range(w, 0, w.len(), 10, 0xffff_ffff) {
        Some(v) => Some(v as u32),
        None => None,
    }
}

/// The run of digits right after `marker`, as a count.
pub fn extract_after(text: &[char], marker: &str) -> (r: Option<u32>)
    ensures
        as_count(r) == number_after(text@, marker@),
{
    let m = chars_of(marker);
    let index = match find_chars(text, &m, 0) {
        Some(i) => i,
        None => return None,
    };
    proof {
        crate::text::lemma_find_from(text@, m@, 0);
    }
    let total = text.len();
    assert(crate::text::matches_at(text@, m@, index as int));
    assert(index + m@.len() <= total);
    let start = index + m.len();
    let end = digits_end(text, start);
    assert(text@.subrange(start as int, text.len() as int) =~= text@.skip(start as int));
    let digits = slice_chars(text, start, end);
    assert(digits@.subrange(0, digits@.len() as int) =~= digits@);
    match parse_unsigned_range(&digits, 0, digits.len(), 10, 0xffff_ffff) {
        Some(v) => Some(v as u32),
        None => None,
    }
}

/// Probes sent: the Unix wording first, then the Windows one, else what was asked for.
pub open spec fn sent_spec(lower: Seq<char>, requested: u32) -> int {
    if number_before(lower, " packets transmitted"@) is Some {
        number_before(lower, " packets transmitted"@)->0
    } else if number_after(lower, "sent = "@) is Some {
        number_after(lower, "sent = "@)->0
    } else {
        requested as int
    }
}

/// Replies received: the Unix wording first, then the Windows one, else none.
pub open spec fn received_spec(lower: Seq<char>) -> int {
    if number_before(lower, " received"@) is Some {
        number_before(lower, " received"@)->0
    } else if number_after(lower, "received = "@) is Some {
        number_after(lower, "received = "@)->0
    } else {
        0
    }
}

/// How many probes `ping` reports as sent and as answered.
///
/// Linux and macOS print "4 packets transmitted, 3 received"; Windows prints
/// "Sent = 4, Received = 3". Where neither wording is found the request count
/// stands for what was sent and nothing counts as received.
pub fn ping_counts(output: &str, requested: u32) -> (r: (u32, u32))
    ensures
        r.0 == sent_spec(lower_seq(output@), requested),
        r.1 == received_spec(lower_seq(output@)),
{
    let raw = chars_of(output);
    let lower = lowercase(&raw);
    let sent = match extract_before(&lower, " packets transmitted") {
        Some(n) => n,
        None => match extract_after(&lower, "sent = ") {
            Some(n) => n,
            None => requested,
        },
    };
    let received = match extract_before(&lower, " received") {
        Some(n) => n,
        None => match extract_after(&lower, "received = ") {
            Some(n) => n,
            None => 0,
        },
    };
    (sent, received)
}

} // verus!
