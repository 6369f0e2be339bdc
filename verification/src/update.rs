//! Deciding whether a published release is an update worth offering.
//!
//! The request itself, and the cache file, belong to the application: a
//! failed check must be invisible, never an error and never a delay.
use crate::scan::wifi::opt_text_view;
use crate::text::{
    chars_of, copy_text, is_ws, owned, parse_unsigned, parse_unsigned_chars, push_str,
    slice_chars, split_char, split_on, string_of, trim, trimmed, views,
};
use vstd::prelude::*;

verus! {

/// Version of the engine, surfaced in snapshots and the about panel.
pub const VERSION: &'static str = "1.2.0";

/// Where the latest release is described for people.
pub const RELEASES_PAGE: &'static str = "https://github.com/MarkoVcode/local-network-diag/releases/latest";

/// How long a result is reused before asking again, in hours.
pub const CACHE_TTL_HOURS: i64 = 6;

/// Longest release-notes summary shown, in characters.
pub const NOTES_MAX: usize = 1200;

#[derive(Debug, Clone)]
pub struct UpdatePreferences {
    /// Master switch: checks are opt-out, but can be turned off entirely for
    /// an air-gapped install.
    pub check_enabled: bool,
    /// A version the user chose to skip; never prompt for this one again.
    pub skipped_version: Option<String>,
    /// RFC 3339 time of the last successful check, for the cache lifetime.
    pub last_checked: Option<String>,
    /// Last result, reused while the cache is fresh.
    pub cached_latest: Option<String>,
}

/// Checking is on unless switched off: a preferences value built in code
/// must agree with one read from an empty file.
impl Default for UpdatePreferences {
    fn default() -> (p: Self)
        ensures
            p.check_enabled,
            p.skipped_version is None,
            p.last_checked is None,
            p.cached_latest is None,
    {
        UpdatePreferences { check_enabled: true, skipped_version: None, last_checked: None, cached_latest: None }
    }
}

/// Whether `chrono::DateTime::parse_from_rfc3339` accepts a text.
pub uninterp spec fn rfc3339_accepts(text: Seq<char>) -> bool;

/// Whole hours from an RFC 3339 time to now (`chrono`'s
/// `signed_duration_since(..).num_hours()`), or nothing when
/// `chrono::DateTime::parse_from_rfc3339` rejects the text. Whether an answer
/// comes is stated; the number depends on the clock, so it is left unsaid.
#[verifier::external_body]
fn hours_since(text: &str) -> (r: Option<i64>)
    ensures
        (r is Some) == rfc3339_accepts(text@),
{
    match chrono::DateTime::parse_from_rfc3339(text) {
        Ok(then) => Some(chrono::Utc::now().signed_duration_since(then).num_hours()),
        Err(_) => None,
    }
}

/// A cached answer is reused when it is younger than the cache lifetime.
pub open spec fn fresh_spec(hours: Option<i64>) -> bool {
    hours matches Some(h) && h < CACHE_TTL_HOURS
}

/// Whether an age in hours (when the last check's time could be read) is
/// within the cache lifetime.
pub fn fresh_within(hours: Option<i64>) -> (b: bool)
    ensures
        b == fresh_spec(hours),
{
    match hours {
        Some(h) => h < CACHE_TTL_HOURS,
        None => false,
    }
}

impl UpdatePreferences {
    /// Whether the last check is recent enough to reuse. Never checked, or a
    /// time that does not read as RFC 3339, is never fresh.
    pub fn cache_is_fresh(&self) -> (b: bool)
        ensures
            b ==> self.last_checked is Some,
            b ==> rfc3339_accepts(self.last_checked->0@),
    {
        match &self.last_checked {
            Some(last) => fresh_within(hours_since(last.as_str())),
            None => false,
        }
    }
}

/* ---------------------------------------------------------------- versions */

/// A semantic version, compared numerically: `1.10.0` is newer than `1.9.0`.
#[derive(Debug, Clone, Copy, PartialEq, Eq, Structural, PartialOrd, Ord)]
pub struct Version {
    pub major: u32,
    pub minor: u32,
    pub patch: u32,
}

/// `a` is older than `b`: compared by major, then minor, then patch.
pub open spec fn older(a: Version, b: Version) -> bool {
    ||| a.major < b.major
    ||| (a.major == b.major && a.minor < b.minor)
    ||| (a.major == b.major && a.minor == b.minor && a.patch < b.patch)
}

/// Versions are ordered as numbers, component by component: no version is
/// older than itself, of two different versions exactly one is older, and
/// older-than chains.
pub proof fn law_version_order(a: Version, b: Version, c: Version)
    ensures
        !older(a, a),
        older(a, b) ==> !older(b, a),
        a != b ==> (older(a, b) || older(b, a)),
        older(a, b) && older(b, c) ==> older(a, c),
{
}

pub fn is_older(a: Version, b: Version) -> (r: bool)
    ensures
        r == older(a, b),
{
    a.major < b.major || (a.major == b.major && a.minor < b.minor) || (a.major == b.major && a.minor
        == b.minor && a.patch < b.patch)
}

/// `s` without its leading `v` and `V` characters.
pub open spec fn strip_v(s: Seq<char>) -> Seq<char>
    decreases s.len(),
{
    if s.len() > 0 && (s[0] == 'v' || s[0] == 'V') {
        strip_v(s.drop_first())
    } else {
        s
    }
}

/// `s` up to its first `-` or `+`: a pre-release or build suffix is ignored.
pub open spec fn before_suffix(s: Seq<char>) -> Seq<char>
    decreases s.len(),
{
    if s.len() == 0 || s[0] == '-' || s[0] == '+' {
        Seq::<char>::empty()
    } else {
        seq![s[0]] + before_suffix(s.drop_first())
    }
}

/// `s.parse::<u32>()`, or 0.
pub open spec fn u32_or_zero(s: Seq<char>) -> int {
    match parse_unsigned(s, 10, 0xffff_ffff) {
        Some(v) => v,
        None => 0,
    }
}

/// A version tag: surrounding whitespace and a leading `v` are ignored, and
/// so is a suffix after `-` or `+`; the major number is required, a missing
/// or unreadable minor or patch counts as 0.
pub open spec fn version_spec(text: Seq<char>) -> Option<Version> {
    let parts = split_char(before_suffix(strip_v(trim(text))), '.');
    match parse_unsigned(parts[0], 10, 0xffff_ffff) {
        None => None,
        Some(major) => Some(
            Version {
                major: major as u32,
                minor: (if parts.len() > 1 { u32_or_zero(parts[1]) } else { 0 }) as u32,
                patch: (if parts.len() > 2 { u32_or_zero(parts[2]) } else { 0 }) as u32,
            },
        ),
    }
}

fn strip_v_chars(s: &[char]) -> (out: Vec<char>)
    ensures
        out@ == strip_v(s@),
{
    let mut k: usize = 0;
    assert(s@.skip(0) =~= s@);
    while k < s.len() && (s[k] == 'v' || s[k] == 'V')
        invariant
            k <= s@.len(),
            strip_v(s@) == strip_v(s@.skip(k as int)),
        decreases s.len() - k,
    {
        assert(s@.skip(k as int).drop_first() =~= s@.skip(k + 1));
        k += 1;
    }
    let out = slice_chars(s, k, s.len());
    assert(out@ =~= s@.skip(k as int));
    out
}

fn before_suffix_chars(s: &[char]) -> (out: Vec<char>)
    ensures
        out@ == before_suffix(s@),
{
    let mut k: usize = 0;
    proof {
        assert(s@.skip(0) =~= s@);
        assert(s@.take(0) + s@ =~= s@);
    }
    while k < s.len() && s[k] != '-' && s[k] != '+'
        invariant
            k <= s@.len(),
            before_suffix(s@) == s@.take(k as int) + before_suffix(s@.skip(k as int)),
            forall|j: int| 0 <= j < k ==> s@[j] != '-' && s@[j] != '+',
        decreases s.len() - k,
    {
        proof {
            assert(s@.skip(k as int).drop_first() =~= s@.skip(k + 1));
            assert(s@.take(k + 1) =~= s@.take(k as int) + seq![s@[k as int]]);
        }
        k += 1;
    }
    proof {
        assert(s@.skip(0) =~= s@);
        assert(s@.take(0) =~= Seq::<char>::empty());
    }
    let out = slice_chars(s, 0, k);
    proof {
        assert(before_suffix(s@.skip(k as int)) =~= Seq::<char>::empty());
        assert(out@ =~= s@.take(k as int));
    }
    out
}

impl Version {
    /// Reads a version tag such as `v1.2.3`, `1.2` or `1.2.3-beta.1`.
    pub fn parse(text: &str) -> (v: Option<Version>)
        ensures
            v == version_spec(text@),
    {
        let c = chars_of(text);
        let t = trimmed(&c);
        let s = strip_v_chars(&t);
        let core = before_suffix_chars(&s);
        let parts = split_on(&core, '.');
        assert(views(parts@)[0] == parts@[0]@);
        let major = match parse_unsigned_chars(&parts[0], 0xffff_ffff) {
            Some(m) => m as u32,
            None => {
                return None;
            },
        };
        let minor: u32 = if parts.len() > 1 {
            assert(views(parts@)[1] == parts@[1]@);
            match parse_unsigned_chars(&parts[1], 0xffff_ffff) {
                Some(m) => m as u32,
                None => 0,
            }
        } else {
            0
        };
        let patch: u32 = if parts.len() > 2 {
            assert(views(parts@)[2] == parts@[2]@);
            match parse_unsigned_chars(&parts[2], 0xffff_ffff) {
                Some(m) => m as u32,
                None => 0,
            }
        } else {
            0
        };
        Some(Version { major, minor, patch })
    }
}

/* ------------------------------------------------------------------ offers */

#[derive(Debug, Clone)]
pub struct UpdateInfo {
    pub current_version: String,
    pub latest_version: String,
    /// True only when the latest release is genuinely newer and not skipped.
    pub update_available: bool,
    pub release_url: String,
    pub release_notes: Option<String>,
    pub published_at: Option<String>,
}

/// Release notes as the popup shows them: trimmed, and cut to the first
/// `NOTES_MAX` characters followed by a blank line and an ellipsis when
/// longer.
pub open spec fn notes_spec(body: Seq<char>) -> Seq<char> {
    let t = trim(body);
    if t.len() <= NOTES_MAX {
        t
    } else {
        t.take(NOTES_MAX as int) + "\n\n\u{2026}"@
    }
}

pub fn truncate_notes(body: &str) -> (out: String)
    ensures
        out@ == notes_spec(body@),
{
    let c = chars_of(body);
    let t = trimmed(&c);
    if t.len() <= NOTES_MAX {
        return string_of(&t);
    }
    let head = slice_chars(&t, 0, NOTES_MAX);
    let mut out = string_of(&head);
    push_str(&mut out, "\n\n\u{2026}");
    out
}

/// Whether the skipped version names the same release as the tag, both
/// without their leading `v`s.
pub open spec fn is_skipped(prefs: UpdatePreferences, tag: Seq<char>) -> bool {
    prefs.skipped_version matches Some(s) && strip_v(s@) == strip_v(tag)
}

/// What is offered about a release: nothing when its tag does not read as
/// a version; otherwise its version without the `v`, whether it is newer
/// than the running one and not skipped, its page (the generic releases page
/// when none is given), the shortened notes and the publication time.
pub open spec fn info_ok(
    prefs: UpdatePreferences,
    current: Version,
    tag: Seq<char>,
    url: Seq<char>,
    notes: Option<Seq<char>>,
    published_at: Option<Seq<char>>,
    r: Option<UpdateInfo>,
) -> bool {
    match version_spec(tag) {
        None => r is None,
        Some(latest) => r matches Some(i) && {
            &&& i.current_version@ == VERSION@
            &&& i.latest_version@ == strip_v(tag)
            &&& i.update_available == (older(current, latest) && !is_skipped(prefs, tag))
            &&& i.release_url@ == (if url.len() == 0 { RELEASES_PAGE@ } else { url })
            &&& opt_text_view(i.release_notes) == (match notes {
                Some(n) => Some(notes_spec(n)),
                None => None,
            })
            &&& opt_text_view(i.published_at) == published_at
        },
    }
}

/// Describes a release against the running version and the preferences.
pub fn build_info(
    prefs: &UpdatePreferences,
    current: Version,
    latest_tag: &str,
    url: &str,
    notes: Option<String>,
    published_at: Option<String>,
) -> (r: Option<UpdateInfo>)
    ensures
        info_ok(*prefs, current, latest_tag@, url@, opt_text_view(notes), opt_text_view(published_at), r),
{
    let latest = match Version::parse(latest_tag) {
        Some(v) => v,
        None => {
            return None;
        },
    };
    let tag_chars = chars_of(latest_tag);
    let tag = strip_v_chars(&tag_chars);
    let skipped = match &prefs.skipped_version {
        Some(s) => {
            let sc = chars_of(s.as_str());
            let sv = strip_v_chars(&sc);
            crate::text::chars_eq(&sv, &tag)
        },
        None => false,
    };
    let url_chars = chars_of(url);
    let release_url = if url_chars.len() == 0 {
        owned(RELEASES_PAGE)
    } else {
        owned(url)
    };
    let release_notes = match notes {
        Some(body) => Some(truncate_notes(body.as_str())),
        None => None,
    };
    Some(
        UpdateInfo {
            current_version: owned(VERSION),
            latest_version: string_of(&tag),
            update_available: is_older(current, latest) && !skipped,
            release_url,
            release_notes,
            published_at,
        },
    )
}

/// What a check should do before touching the network.
pub enum CheckPlan {
    /// Checks are switched off and this check was not asked for.
    Skip,
    /// The cached answer is fresh: this is the result.
    Cached(Option<UpdateInfo>),
    /// Ask for the latest release.
    Fetch,
}

/// Decides, from the preferences, whether a check runs and whether the
/// cache answers it. `force` (an explicit "check now") bypasses both the
/// switch and the cache; `fresh` is what `cache_is_fresh` said.
pub fn plan_check(prefs: &UpdatePreferences, force: bool, fresh: bool) -> (p: CheckPlan)
    ensures
        !prefs.check_enabled && !force ==> p is Skip,
        (prefs.check_enabled || force) && (force || !fresh) ==> p is Fetch,
        (prefs.check_enabled || force) && !force && fresh ==> match p {
            CheckPlan::Cached(r) => match (prefs.cached_latest, version_spec(VERSION@)) {
                (Some(tag), Some(current)) => info_ok(*prefs, current, tag@, RELEASES_PAGE@, None, None, r),
                _ => r is None,
            },
            _ => false,
        },
{
    if !prefs.check_enabled && !force {
        return CheckPlan::Skip;
    }
    if !force && fresh {
        let current = Version::parse(VERSION);
        let current = match current {
            Some(v) => v,
            None => {
                return CheckPlan::Cached(None);
            },
        };
        return match &prefs.cached_latest {
            Some(tag) => CheckPlan::Cached(build_info(prefs, current, tag.as_str(), RELEASES_PAGE, None, None)),
            None => CheckPlan::Cached(None),
        };
    }
    CheckPlan::Fetch
}

/// A fetched release is usable unless it is a draft, a pre-release, or has
/// no tag.
pub fn release_usable(draft: bool, prerelease: bool, tag: &str) -> (b: bool)
    ensures
        b == (!draft && !prerelease && tag@.len() > 0),
{
    let t = chars_of(tag);
    !draft && !prerelease && t.len() > 0
}

/// Versions compare by major, then minor, then patch: a larger major is
/// newer whatever follows, and with equal majors a larger minor is newer
/// whatever the patch (1.3.0 is newer than 1.2.9).
pub proof fn law_versions_compare_in_order(a: Version, b: Version)
    ensures
        a.major < b.major ==> older(a, b),
        a.major > b.major ==> !older(a, b),
        a.major == b.major && a.minor < b.minor ==> older(a, b),
        a.major == b.major && a.minor > b.minor ==> !older(a, b),
        a.major == b.major && a.minor == b.minor ==> (older(a, b) <==> a.patch < b.patch),
{
}

} // verus!
