//! Deciding from `ping`'s own words whether a host answered.
//!
//! The engine has no elevated privileges on any platform, so liveness comes
//! from the system `ping` binary; its output differs per platform, and exit
//! status alone is unreliable, so the text is read too.
use crate::text::{
    alpha, chars_of, contains, contains_chars, digits_end, find, find_chars, is_alpha,
    leading_digits, lowercase, lower_seq, parse_unsigned, parse_unsigned_range, slice_chars,
    views, words, words_of,
};
use vstd::prelude::*;

verus! {

pub open spec fn all_alpha(t: Seq<char>) -> bool {
    forall|k: int| 0 <= k < t.len() ==> is_alpha(#[trigger] t[k])
}

/// Steps back over the first `k` words: the first that is a number is the
/// count; a word that is neither a number nor purely alphabetic ends the search.
pub open spec fn scan_back(ws: Seq<Seq<char>>, k: int) -> Option<u32>
    decreases k,
{
    if k <= 0 || k > ws.len() {
        None
    } else if parse_unsigned(ws[k - 1], 10, u32::MAX as int) is Some {
        Some(parse_unsigned(ws[k - 1], 10, u32::MAX as int)->0 as u32)
    } else if !all_alpha(ws[k - 1]) {
        None
    } else {
        scan_back(ws, k - 1)
    }
}

/// The count before `marker`, stepping over plain filler words.
pub open spec fn count_before_spec(text: Seq<char>, marker: Seq<char>) -> Option<u32> {
    match find(text, marker) {
        Some(i) => {
            let ws = words(text.take(i));
            scan_back(ws, ws.len() as int)
        },
        None => None,
    }
}

/// Reads the count preceding a marker, stepping over plain filler words.
///
/// The wording differs per platform: Linux says "1 received" but macOS says
/// "1 **packets** received". The scan is deliberately bounded: it steps over
/// purely alphabetic words and stops at anything else, so on Windows it does
/// not wander back into "Sent = 10," or "bytes=32".
pub fn count_before(text: &str, marker: &str) -> (r: Option<u32>)
    ensures
        r == count_before_spec(text@, marker@),
{
    let t = chars_of(text);
    let m = chars_of(marker);
    let index = match find_chars(&t, &m, 0) {
        Some(i) => i,
        None => return None,
    };
    proof {
        crate::text::lemma_find_from(t@, m@, 0);
    }
    let head = slice_chars(&t, 0, index);
    assert(head@ =~= t@.take(index as int));
    let ws = words_of(&head);
    assert(count_before_spec(text@, marker@) == scan_back(views(ws@), ws@.len() as int));
    let mut k: usize = ws.len();
    while k > 0
        invariant
            k <= ws@.len(),
            views(ws@) == words(t@.take(index as int)),
            count_before_spec(text@, marker@) == scan_back(views(ws@), ws@.len() as int),
            scan_back(views(ws@), ws@.len() as int) == scan_back(views(ws@), k as int),
        decreases k,
    {
        let w = &ws[k - 1];
        assert(views(ws@)[k - 1] == w@);
        assert(w@.subrange(0, w@.len() as int) =~= w@);
        match parse_unsigned_range(w, 0, w.len(), 10, 0xffff_ffff) {
            Some(v) => {
                return Some(v as u32);
            },
            None => {},
        }
        let mut all = true;
        let mut j: usize = 0;
        while j < w.len()
            invariant
                j <= w@.len(),
                all == forall|q: int| 0 <= q < j ==> is_alpha(#[trigger] w@[q]),
            decreases w.len() - j,
        {
            if !alpha(w[j]) {
                all = false;
            }
            j += 1;
        }
        if !all {
            return None;
        }
        k -= 1;
    }
    None
}

/// Whether `ping`'s output shows a reply, given its exit status.
pub open spec fn ping_succeeded_spec(exit_ok: bool, output: Seq<char>) -> bool {
    let lower = lower_seq(output);
    if contains(lower, "unreachable"@) || contains(lower, "100% packet loss"@) || contains(
        lower,
        "100.0% packet loss"@,
    ) {
        false
    } else if count_before_spec(lower, " received"@) is Some {
        count_before_spec(lower, " received"@)->0 > 0
    } else if find(lower, "received = "@) is Some && parse_unsigned(
        leading_digits(lower.skip(find(lower, "received = "@)->0 + 11)),
        10,
        u32::MAX as int,
    ) is Some {
        parse_unsigned(
            leading_digits(lower.skip(find(lower, "received = "@)->0 + 11)),
            10,
            u32::MAX as int,
        )->0 > 0
    } else {
        exit_ok && (contains(lower, "ttl="@) || contains(lower, "time="@))
    }
}

/// Decides whether a ping reply actually happened.
///
/// Exit status alone is unreliable: Windows `ping` returns 0 even when every
/// reply is "Destination host unreachable", so the text is checked too.
/// Linux prints "1 received", macOS "1 packets received", Windows "Received = 1".
pub fn ping_succeeded(exit_ok: bool, output: &str) -> (b: bool)
    ensures
        b == ping_succeeded_spec(exit_ok, output@),
{
    let o = chars_of(output);
    let lower = lowercase(&o);
    let u1 = chars_of("unreachable");
    let u2 = chars_of("100% packet loss");
    let u3 = chars_of("100.0% packet loss");
    if contains_chars(&lower, &u1) || contains_chars(&lower, &u2) || contains_chars(&lower, &u3) {
        return false;
    }
    let lower_text = crate::text::string_of(&lower);
    if let Some(count) = count_before(lower_text.as_str(), " received") {
        return count > 0;
    }
    let r = chars_of("received = ");
    if let Some(index) = find_chars(&lower, &r, 0) {
        proof {
            crate::text::lemma_find_from(lower@, r@, 0);
            reveal_strlit("received = ");
        }
        let start = index + r.len();
        let end = digits_end(&lower, start);
        assert(lower@.subrange(start as int, lower@.len() as int) =~= lower@.skip(start as int));
        if let Some(v) = parse_unsigned_range(&lower, start, end, 10, 0xffff_ffff) {
            return v > 0;
        }
    }
    let t1 = chars_of("ttl=");
    let t2 = chars_of("time=");
    exit_ok && (contains_chars(&lower, &t1) || contains_chars(&lower, &t2))
}

} // verus!
