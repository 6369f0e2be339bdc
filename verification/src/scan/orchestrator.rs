//! The decisions that drive a full scan through its phases.
//!
//! Phase order is load-bearing: `announce` runs before `sweep` because mDNS
//! and SSDP reveal addresses outside the local subnet and the sweep needs the
//! final target list; `connectivity` runs after `sweep` so latency is measured
//! on an idle link. The probing itself runs outside the library; each step
//! here takes what a probe returned and says what the scan records and
//! reports next.
use crate::doctor::{CapabilityReport, CapabilityStatus, Tier};
use crate::netutil::{ipv4_text, is_private_ipv4, is_private_spec, parse_cidr, parse_cidr_spec, push_ipv4, to_slash24, ParsedCidr};
use crate::scan::wifi::opt_text_view;
use crate::text::{copy_text, dec, owned, push_dec, push_str, str_eq, strings_view};
use crate::types::{PortInfo, WifiInfo};
use crate::scan::banners::{http_port, https_port, greeting_port, is_banner_port};
use crate::types::{PhaseProgress, PhaseState, PhaseStatus, ScanPhase, ScanTarget, TargetSource, phase_sequence};
use crate::networks::local_cidrs;
use std::sync::atomic::AtomicBool;
use std::sync::Arc;
use vstd::prelude::*;

verus! {

/// Emitted as the scan advances so the UI can render live.
#[derive(Debug, Clone)]
pub enum ScanProgress {
    Phases(Vec<PhaseState>),
    Warning(String),
}

/// Cancellation handle shared with the caller.
#[derive(Clone, Default)]
pub struct ScanHandle {
    cancelled: Arc<AtomicBool>,
}

impl ScanHandle {
    pub fn cancel(&self) {
        self.cancelled.store(true, std::sync::atomic::Ordering::SeqCst)
    }

    /// Another holder of the handle may cancel at any moment, so nothing is
    /// stated of the answer.
    pub fn is_cancelled(&self) -> bool {
        self.cancelled.load(std::sync::atomic::Ordering::SeqCst)
    }
}

/* ------------------------------------------------------------ phase states */

/// Where a phase sits in the run order.
pub open spec fn phase_index(p: ScanPhase) -> int {
    match p {
        ScanPhase::Host => 0,
        ScanPhase::Announce => 1,
        ScanPhase::Sweep => 2,
        ScanPhase::Ports => 3,
        ScanPhase::Identity => 4,
        ScanPhase::Connectivity => 5,
        ScanPhase::Wifi => 6,
        ScanPhase::Correlate => 7,
    }
}

fn index_of_phase(p: ScanPhase) -> (i: usize)
    ensures
        i == phase_index(p),
        phase_sequence()[i as int] == p,
{
    match p {
        ScanPhase::Host => 0,
        ScanPhase::Announce => 1,
        ScanPhase::Sweep => 2,
        ScanPhase::Ports => 3,
        ScanPhase::Identity => 4,
        ScanPhase::Connectivity => 5,
        ScanPhase::Wifi => 6,
        ScanPhase::Correlate => 7,
    }
}

fn copy_state(s: &PhaseState) -> (c: PhaseState)
    ensures
        c == *s,
{
    PhaseState {
        phase: s.phase,
        label: s.label.clone(),
        status: s.status,
        progress: s.progress,
        detail: match &s.detail {
            Some(d) => Some(d.clone()),
            None => None,
        },
    }
}

fn snapshot(phases: &Vec<PhaseState>) -> (v: Vec<PhaseState>)
    ensures
        v@ == phases@,
{
    let mut v: Vec<PhaseState> = Vec::new();
    let mut i: usize = 0;
    while i < phases.len()
        invariant
            i <= phases@.len(),
            v@ == phases@.take(i as int),
        decreases phases.len() - i,
    {
        v.push(copy_state(&phases[i]));
        i += 1;
        assert(v@ =~= phases@.take(i as int));
    }
    assert(phases@.take(phases@.len() as int) =~= phases@);
    v
}

/// The phases and warnings of a scan in progress.
pub struct ScanRun {
    pub phases: Vec<PhaseState>,
    pub warnings: Vec<String>,
}

impl ScanRun {
    /// One state per phase, in run order.
    pub open spec fn well_formed(&self) -> bool {
        &&& self.phases@.len() == 8
        &&& forall|k: int| 0 <= k < 8 ==> (#[trigger] self.phases@[k]).phase == phase_sequence()[k]
    }

    /// Every phase pending, nothing warned yet.
    pub fn new() -> (r: Self)
        ensures
            r.well_formed(),
            forall|k: int|
                0 <= k < 8 ==> {
                    let s = #[trigger] r.phases@[k];
                    &&& s.label@ == s.phase.label_text()@
                    &&& s.status == PhaseStatus::Pending
                    &&& s.progress is None
                    &&& s.detail is None
                },
            r.warnings@.len() == 0,
    {
        let order = ScanPhase::order();
        let mut phases: Vec<PhaseState> = Vec::new();
        let mut i: usize = 0;
        while i < order.len()
            invariant
                i <= 8,
                order@ == phase_sequence(),
                phases@.len() == i,
                forall|k: int|
                    0 <= k < i ==> {
                        let s = #[trigger] phases@[k];
                        &&& s.phase == phase_sequence()[k]
                        &&& s.label@ == s.phase.label_text()@
                        &&& s.status == PhaseStatus::Pending
                        &&& s.progress is None
                        &&& s.detail is None
                    },
            decreases order.len() - i,
        {
            let p = order[i];
            phases.push(PhaseState { phase: p, label: owned(p.label()), status: PhaseStatus::Pending, progress: None, detail: None });
            i += 1;
        }
        ScanRun { phases, warnings: Vec::new() }
    }

    /// Marks a phase running, and reports the phases.
    pub fn start(&mut self, phase: ScanPhase) -> (ev: ScanProgress)
        requires
            old(self).well_formed(),
        ensures
            final(self).well_formed(),
            final(self).phases@ == old(self).phases@.update(
                phase_index(phase),
                PhaseState { status: PhaseStatus::Running, ..old(self).phases@[phase_index(phase)] },
            ),
            final(self).warnings == old(self).warnings,
            ev matches ScanProgress::Phases(v) && v@ == final(self).phases@,
    {
        let i = index_of_phase(phase);
        let mut s = copy_state(&self.phases[i]);
        s.status = PhaseStatus::Running;
        self.phases.set(i, s);
        ScanProgress::Phases(snapshot(&self.phases))
    }

    /// Records how a phase ended; a detail, when given, replaces the old one.
    pub fn finish(&mut self, phase: ScanPhase, status: PhaseStatus, detail: Option<String>) -> (ev: ScanProgress)
        requires
            old(self).well_formed(),
        ensures
            final(self).well_formed(),
            final(self).phases@ == old(self).phases@.update(
                phase_index(phase),
                PhaseState {
                    status,
                    detail: if detail is Some { detail } else { old(self).phases@[phase_index(phase)].detail },
                    ..old(self).phases@[phase_index(phase)]
                },
            ),
            final(self).warnings == old(self).warnings,
            ev matches ScanProgress::Phases(v) && v@ == final(self).phases@,
    {
        let i = index_of_phase(phase);
        let mut s = copy_state(&self.phases[i]);
        s.status = status;
        if detail.is_some() {
            s.detail = detail;
        }
        self.phases.set(i, s);
        ScanProgress::Phases(snapshot(&self.phases))
    }

    /// Records a phase's progress.
    pub fn progress(&mut self, phase: ScanPhase, current: u64, total: u64) -> (ev: ScanProgress)
        requires
            old(self).well_formed(),
        ensures
            final(self).well_formed(),
            final(self).phases@ == old(self).phases@.update(
                phase_index(phase),
                PhaseState {
                    progress: Some(PhaseProgress { current, total }),
                    ..old(self).phases@[phase_index(phase)]
                },
            ),
            final(self).warnings == old(self).warnings,
            ev matches ScanProgress::Phases(v) && v@ == final(self).phases@,
    {
        let i = index_of_phase(phase);
        let mut s = copy_state(&self.phases[i]);
        s.progress = Some(PhaseProgress { current, total });
        self.phases.set(i, s);
        ScanProgress::Phases(snapshot(&self.phases))
    }

    /// Keeps a warning for the snapshot, and reports it.
    pub fn warn(&mut self, message: String) -> (ev: ScanProgress)
        ensures
            final(self).phases == old(self).phases,
            final(self).warnings@ == old(self).warnings@.push(message),
            ev == ScanProgress::Warning(message),
    {
        let copy = message.clone();
        self.warnings.push(message);
        ScanProgress::Warning(copy)
    }
}

/* ------------------------------------------------------------ phase driver */

/// What a phase's probes came back with.
pub struct PhaseOutcome {
    /// Warnings raised while the phase ran, in order.
    pub warnings: Vec<String>,
    /// The phase's summary line, when it has one.
    pub detail: Option<String>,
    /// For the host phase: the doctor's summary when a critical capability is
    /// missing, which stops the scan.
    pub blocked: Option<String>,
    /// For the Wi-Fi phase: whether the survey produced data.
    pub succeeded: bool,
}

/// The phase that runs after `p`, if any.
pub open spec fn successor(p: ScanPhase) -> Option<ScanPhase> {
    if phase_index(p) < 7 {
        Some(phase_sequence()[phase_index(p) + 1])
    } else {
        None
    }
}

/// How a phase that was not stopped ends: Wi-Fi is skipped when its survey
/// produced nothing; every other phase is done.
pub open spec fn ended_status(stage: ScanPhase, succeeded: bool) -> PhaseStatus {
    if stage == ScanPhase::Wifi && !succeeded {
        PhaseStatus::Skipped
    } else {
        PhaseStatus::Done
    }
}

pub open spec fn cancelled_text() -> Seq<char> {
    "Scan cancelled"@
}

fn next_phase(p: ScanPhase) -> (r: Option<ScanPhase>)
    ensures
        r == successor(p),
{
    match p {
        ScanPhase::Host => Some(ScanPhase::Announce),
        ScanPhase::Announce => Some(ScanPhase::Sweep),
        ScanPhase::Sweep => Some(ScanPhase::Ports),
        ScanPhase::Ports => Some(ScanPhase::Identity),
        ScanPhase::Identity => Some(ScanPhase::Connectivity),
        ScanPhase::Connectivity => Some(ScanPhase::Wifi),
        ScanPhase::Wifi => Some(ScanPhase::Correlate),
        ScanPhase::Correlate => None,
    }
}

/// Closes `stage` with what its probes returned and says what the scan does
/// next. The phase's warnings are kept in order. A blocked host phase is
/// marked as an error and stops the scan with the doctor's summary; otherwise
/// the phase ends (Wi-Fi skipped when its survey produced nothing, any other
/// phase done) and, unless the scan was cancelled before correlation, the
/// next phase in run order follows. Degrade, don't fail: only these two stop
/// a scan.
pub fn advance(run: &mut ScanRun, stage: ScanPhase, outcome: PhaseOutcome, cancelled: bool) -> (next: Result<
    Option<ScanPhase>,
    String,
>)
    requires
        old(run).well_formed(),
    ensures
        final(run).well_formed(),
        final(run).warnings@ == old(run).warnings@ + outcome.warnings@,
        stage == ScanPhase::Host && outcome.blocked is Some ==> {
            &&& next matches Err(m) && m@ == outcome.blocked->0@
            &&& final(run).phases@ == old(run).phases@.update(
                0,
                PhaseState { status: PhaseStatus::Error, detail: outcome.blocked, ..old(run).phases@[0] },
            )
        },
        !(stage == ScanPhase::Host && outcome.blocked is Some) ==> {
            &&& final(run).phases@ == old(run).phases@.update(
                phase_index(stage),
                PhaseState {
                    status: ended_status(stage, outcome.succeeded),
                    detail: if outcome.detail is Some {
                        outcome.detail
                    } else {
                        old(run).phases@[phase_index(stage)].detail
                    },
                    ..old(run).phases@[phase_index(stage)]
                },
            )
            &&& (cancelled && stage != ScanPhase::Correlate) ==> (next matches Err(m) && m@ == cancelled_text())
            &&& !(cancelled && stage != ScanPhase::Correlate) ==> next == Ok::<Option<ScanPhase>, String>(successor(stage))
        },
{
    let PhaseOutcome { warnings, detail, blocked, succeeded } = outcome;
    let mut i: usize = 0;
    let ghost w0 = run.warnings@;
    while i < warnings.len()
        invariant
            i <= warnings@.len(),
            run.warnings@ == w0 + warnings@.take(i as int),
            run.phases == old(run).phases,
            w0 == old(run).warnings@,
        decreases warnings.len() - i,
    {
        run.warnings.push(warnings[i].clone());
        i += 1;
        assert(run.warnings@ =~= w0 + warnings@.take(i as int));
    }
    assert(warnings@.take(warnings@.len() as int) =~= warnings@);
    let is_host = match stage {
        ScanPhase::Host => true,
        _ => false,
    };
    if is_host {
        if let Some(summary) = blocked {
            let message = summary.clone();
            let _ = run.finish(ScanPhase::Host, PhaseStatus::Error, Some(summary));
            return Err(message);
        }
    }
    let status = match stage {
        ScanPhase::Wifi => if succeeded {
            PhaseStatus::Done
        } else {
            PhaseStatus::Skipped
        },
        _ => PhaseStatus::Done,
    };
    let _ = run.finish(stage, status, detail);
    let last = match stage {
        ScanPhase::Correlate => true,
        _ => false,
    };
    if cancelled && !last {
        return Err(owned("Scan cancelled"));
    }
    Ok(next_phase(stage))
}

/* ------------------------------------------------------- host phase rules */

/// The capabilities whose absence is worth a warning: missing, and more than
/// optional.
pub open spec fn capability_warnings_spec(caps: Seq<CapabilityReport>) -> Seq<Seq<char>>
    decreases caps.len(),
{
    if caps.len() == 0 {
        seq![]
    } else {
        let prev = capability_warnings_spec(caps.drop_last());
        let c = caps.last();
        if c.status == CapabilityStatus::Missing && c.tier != Tier::Optional {
            prev.push(c.label@ + " unavailable \u{2014} "@ + c.detail@)
        } else {
            prev
        }
    }
}

pub fn capability_warnings(caps: &Vec<CapabilityReport>) -> (w: Vec<String>)
    ensures
        strings_view(w@) == capability_warnings_spec(caps@),
{
    let mut w: Vec<String> = Vec::new();
    let mut i: usize = 0;
    while i < caps.len()
        invariant
            i <= caps@.len(),
            strings_view(w@) == capability_warnings_spec(caps@.take(i as int)),
        decreases caps.len() - i,
    {
        proof {
            assert(caps@.take(i + 1).drop_last() =~= caps@.take(i as int));
        }
        let c = &caps[i];
        if c.status == CapabilityStatus::Missing && c.tier != Tier::Optional {
            let mut m = copy_text(&c.label);
            push_str(&mut m, " unavailable \u{2014} ");
            push_str(&mut m, c.detail.as_str());
            let ghost before = w@;
            w.push(m);
            assert(strings_view(w@) =~= strings_view(before).push(m@));
        }
        i += 1;
    }
    assert(caps@.take(caps@.len() as int) =~= caps@);
    w
}

/// The ranges the host found on its own interfaces.
pub fn local_ranges(targets: &Vec<ScanTarget>) -> (r: Vec<String>)
    ensures
        strings_view(r@) == local_cidrs(targets@),
{
    let mut r: Vec<String> = Vec::new();
    let mut i: usize = 0;
    while i < targets.len()
        invariant
            i <= targets@.len(),
            strings_view(r@) == local_cidrs(targets@.take(i as int)),
        decreases targets.len() - i,
    {
        proof {
            assert(targets@.take(i + 1).drop_last() =~= targets@.take(i as int));
        }
        if targets[i].source == TargetSource::Local {
            let ghost before = r@;
            r.push(copy_text(&targets[i].cidr));
            assert(strings_view(r@) =~= strings_view(before).push(targets@[i as int].cidr@));
        }
        i += 1;
    }
    assert(targets@.take(targets@.len() as int) =~= targets@);
    r
}

/* --------------------------------------------------- announce phase rules */

pub open spec fn target_view(t: ScanTarget) -> (Seq<char>, TargetSource, u32, Option<Seq<char>>) {
    (t.cidr@, t.source, t.host_count, opt_text_view(t.note))
}

pub open spec fn targets_view(ts: Seq<ScanTarget>) -> Seq<(Seq<char>, TargetSource, u32, Option<Seq<char>>)> {
    ts.map_values(|t: ScanTarget| target_view(t))
}

/// Some target's range holds the address.
pub open spec fn covers_ip(tvs: Seq<(Seq<char>, TargetSource, u32, Option<Seq<char>>)>, ip: u32) -> bool {
    exists|k: int|
        0 <= k < tvs.len() && #[trigger] parse_cidr_spec(tvs[k].0) is Ok && parse_cidr_spec(tvs[k].0)->Ok_0.first <= ip
            <= parse_cidr_spec(tvs[k].0)->Ok_0.last
}

/// Some target is written exactly so.
pub open spec fn lists_range(tvs: Seq<(Seq<char>, TargetSource, u32, Option<Seq<char>>)>, cidr: Seq<char>) -> bool {
    exists|k: int| 0 <= k < tvs.len() && #[trigger] tvs[k].0 == cidr
}

/// The enclosing /24 of an address, written as a range.
pub open spec fn slash24(ip: u32) -> Seq<char> {
    ipv4_text((ip - ip % 256) as u32) + "/24"@
}

/// `host_count`, saturating.
pub open spec fn capped_count(c: ParsedCidr) -> u32 {
    if c.count() > u32::MAX {
        u32::MAX
    } else {
        c.count() as u32
    }
}

/// The target a hinted address adds: its /24, when the address is private,
/// no target covers it, and that /24 is not already listed.
pub open spec fn announced(tvs: Seq<(Seq<char>, TargetSource, u32, Option<Seq<char>>)>, ip: u32) -> Option<
    (Seq<char>, TargetSource, u32, Option<Seq<char>>),
> {
    let cidr = slash24(ip);
    if is_private_spec(ip) && !covers_ip(tvs, ip) && !lists_range(tvs, cidr) && parse_cidr_spec(cidr) is Ok {
        Some(
            (
                cidr,
                TargetSource::Discovered,
                capped_count(parse_cidr_spec(cidr)->Ok_0),
                Some("announced by a device at "@ + ipv4_text(ip)),
            ),
        )
    } else {
        None
    }
}

pub open spec fn announce_warning(ip: u32) -> Seq<char> {
    "Discovered off-subnet range "@ + slash24(ip) + " announced by "@ + ipv4_text(ip)
        + " \u{2014} including it in the scan"@
}

/// The targets and warnings after taking the hinted addresses in order.
pub open spec fn announce_all(
    tvs: Seq<(Seq<char>, TargetSource, u32, Option<Seq<char>>)>,
    hinted: Seq<u32>,
) -> (Seq<(Seq<char>, TargetSource, u32, Option<Seq<char>>)>, Seq<Seq<char>>)
    decreases hinted.len(),
{
    if hinted.len() == 0 {
        (tvs, seq![])
    } else {
        let prev = announce_all(tvs, hinted.drop_last());
        let ip = hinted.last();
        match announced(prev.0, ip) {
            Some(t) => (prev.0.push(t), prev.1.push(announce_warning(ip))),
            None => prev,
        }
    }
}

fn covered_by(targets: &Vec<ScanTarget>, ip: u32) -> (b: bool)
    ensures
        b == covers_ip(targets_view(targets@), ip),
{
    let ghost tv = targets_view(targets@);
    let mut i: usize = 0;
    while i < targets.len()
        invariant
            i <= targets@.len(),
            tv == targets_view(targets@),
            forall|k: int|
                0 <= k < i ==> !(#[trigger] parse_cidr_spec(tv[k].0) is Ok && parse_cidr_spec(tv[k].0)->Ok_0.first <= ip
                    <= parse_cidr_spec(tv[k].0)->Ok_0.last),
        decreases targets.len() - i,
    {
        assert(tv[i as int].0 == targets@[i as int].cidr@);
        match parse_cidr(targets[i].cidr.as_str()) {
            Ok(c) => {
                if c.first <= ip && ip <= c.last {
                    return true;
                }
            },
            Err(_) => {},
        }
        i += 1;
    }
    false
}

pub(crate) fn listed(targets: &Vec<ScanTarget>, cidr: &str) -> (b: bool)
    ensures
        b == lists_range(targets_view(targets@), cidr@),
{
    let ghost tv = targets_view(targets@);
    let mut i: usize = 0;
    while i < targets.len()
        invariant
            i <= targets@.len(),
            tv == targets_view(targets@),
            forall|k: int| 0 <= k < i ==> #[trigger] tv[k].0 != cidr@,
        decreases targets.len() - i,
    {
        assert(tv[i as int].0 == targets@[i as int].cidr@);
        if str_eq(targets[i].cidr.as_str(), cidr) {
            return true;
        }
        i += 1;
    }
    false
}

/// Off-subnet ranges announced over mDNS/SSDP become scan targets: each
/// private hinted address no target covers adds its /24, once, with a
/// warning saying so.
pub fn adopt_announced(targets: &mut Vec<ScanTarget>, hinted: &Vec<u32>) -> (warnings: Vec<String>)
    ensures
        targets_view(final(targets)@) == announce_all(targets_view(old(targets)@), hinted@).0,
        strings_view(warnings@) == announce_all(targets_view(old(targets)@), hinted@).1,
{
    let ghost tv0 = targets_view(targets@);
    let mut warnings: Vec<String> = Vec::new();
    let mut i: usize = 0;
    while i < hinted.len()
        invariant
            i <= hinted@.len(),
            targets_view(targets@) == announce_all(tv0, hinted@.take(i as int)).0,
            strings_view(warnings@) == announce_all(tv0, hinted@.take(i as int)).1,
        decreases hinted.len() - i,
    {
        proof {
            assert(hinted@.take(i + 1).drop_last() =~= hinted@.take(i as int));
        }
        let ip = hinted[i];
        i += 1;
        if !is_private_ipv4(ip) || covered_by(targets, ip) {
            continue;
        }
        let cidr = to_slash24(ip);
        if listed(targets, cidr.as_str()) {
            continue;
        }
        let parsed = match parse_cidr(cidr.as_str()) {
            Ok(c) => c,
            Err(_) => {
                continue;
            },
        };
        let mut note = owned("announced by a device at ");
        push_ipv4(&mut note, ip);
        let mut w = owned("Discovered off-subnet range ");
        push_str(&mut w, cidr.as_str());
        push_str(&mut w, " announced by ");
        push_ipv4(&mut w, ip);
        push_str(&mut w, " \u{2014} including it in the scan");
        let ghost before = targets@;
        let ghost wbefore = warnings@;
        let t = ScanTarget { cidr, source: TargetSource::Discovered, host_count: parsed.host_count(), note: Some(note) };
        targets.push(t);
        warnings.push(w);
        proof {
            assert(targets_view(targets@) =~= targets_view(before).push(target_view(t)));
            assert(strings_view(warnings@) =~= strings_view(wbefore).push(w@));
        }
    }
    assert(hinted@.take(hinted@.len() as int) =~= hinted@);
    warnings
}

/* ------------------------------------------------------ address sets */

pub open spec fn increasing(v: Seq<u32>) -> bool {
    forall|i: int, j: int| 0 <= i < j < v.len() ==> v[i] < v[j]
}

/// Adds an address to an increasing list, keeping it increasing.
#[verifier::spinoff_prover]
fn insert_addr(v: &mut Vec<u32>, x: u32)
    requires
        increasing(old(v)@),
    ensures
        increasing(final(v)@),
        forall|y: u32| final(v)@.contains(y) <==> (old(v)@.contains(y) || y == x),
{
    let mut lo: usize = 0;
    let mut hi: usize = v.len();
    while lo < hi
        invariant
            lo <= hi <= v@.len(),
            increasing(v@),
            forall|k: int| 0 <= k < lo ==> v@[k] < x,
            forall|k: int| hi <= k < v@.len() ==> v@[k] >= x,
        decreases hi - lo,
    {
        let mid = lo + (hi - lo) / 2;
        if v[mid] < x {
            lo = mid + 1;
        } else {
            hi = mid;
        }
    }
    if lo < v.len() && v[lo] == x {
        assert(v@[lo as int] == x);
        return;
    }
    let ghost before = v@;
    v.insert(lo, x);
    proof {
        assert forall|i: int, j: int| 0 <= i < j < v@.len() implies v@[i] < v@[j] by {
            if j < lo {
                assert(v@[i] == before[i] && v@[j] == before[j]);
            } else if j == lo {
                assert(v@[i] == before[i]);
            } else if i < lo {
                assert(v@[i] == before[i] && v@[j] == before[j - 1]);
            } else if i == lo {
                assert(v@[j] == before[j - 1]);
            } else {
                assert(v@[i] == before[i - 1] && v@[j] == before[j - 1]);
            }
        }
        assert forall|y: u32| v@.contains(y) implies (before.contains(y) || y == x) by {
            let k = choose|k: int| 0 <= k < v@.len() && v@[k] == y;
            if k < lo {
                assert(before[k] == y);
            } else if k > lo {
                assert(before[k - 1] == y);
            }
        }
        assert forall|y: u32| before.contains(y) implies v@.contains(y) by {
            let k = choose|k: int| 0 <= k < before.len() && before[k] == y;
            if k < lo {
                assert(v@[k] == y);
            } else {
                assert(v@[k + 1] == y);
            }
        }
        assert(v@[lo as int] == x);
    }
}

/// Adds every address from `first` to `last` to an increasing list.
fn add_range(all: &mut Vec<u32>, first: u32, last: u32)
    requires
        increasing(old(all)@),
    ensures
        increasing(final(all)@),
        forall|ip: u32| final(all)@.contains(ip) <==> (old(all)@.contains(ip) || (first <= ip <= last)),
{
    if first > last {
        return;
    }
    let ghost prev = all@;
    let mut ip = first;
    loop
        invariant
            first <= ip <= last,
            prev == old(all)@,
            increasing(all@),
            forall|y: u32| all@.contains(y) <==> (prev.contains(y) || (first <= y < ip)),
        decreases last - ip,
    {
        insert_addr(all, ip);
        if ip == last {
            return;
        }
        ip += 1;
    }
}

/// Some target parses and holds the address.
pub open spec fn in_targets(ts: Seq<ScanTarget>, ip: u32) -> bool {
    exists|k: int|
        0 <= k < ts.len() && #[trigger] parse_cidr_spec(ts[k].cidr@) is Ok && parse_cidr_spec(ts[k].cidr@)->Ok_0.first
            <= ip <= parse_cidr_spec(ts[k].cidr@)->Ok_0.last
}

/// Every address the targets cover, each once, in increasing order.
pub fn scan_addresses(targets: &Vec<ScanTarget>) -> (all: Vec<u32>)
    ensures
        increasing(all@),
        forall|ip: u32| all@.contains(ip) <==> in_targets(targets@, ip),
{
    let mut all: Vec<u32> = Vec::new();
    let mut t: usize = 0;
    while t < targets.len()
        invariant
            t <= targets@.len(),
            increasing(all@),
            forall|ip: u32| all@.contains(ip) <==> in_targets(targets@.take(t as int), ip),
        decreases targets.len() - t,
    {
        let ghost prev = all@;
        match parse_cidr(targets[t].cidr.as_str()) {
            Ok(c) => {
                add_range(&mut all, c.first, c.last);
                assert(parse_cidr_spec(targets@[t as int].cidr@) == Ok::<ParsedCidr, Seq<char>>(c));
                proof {
                    assert forall|ip: u32| all@.contains(ip) <==> in_targets(targets@.take(t + 1), ip) by {
                        let tk = targets@.take(t + 1);
                        if in_targets(tk, ip) {
                            let w = choose|w: int|
                                0 <= w < tk.len() && #[trigger] parse_cidr_spec(tk[w].cidr@) is Ok && parse_cidr_spec(
                                    tk[w].cidr@,
                                )->Ok_0.first <= ip <= parse_cidr_spec(tk[w].cidr@)->Ok_0.last;
                            if w < t {
                                assert(targets@.take(t as int)[w] == tk[w]);
                            } else {
                                assert(tk[w] == targets@[t as int]);
                            }
                        }
                        if in_targets(targets@.take(t as int), ip) {
                            let w = choose|w: int|
                                0 <= w < t && #[trigger] parse_cidr_spec(targets@.take(t as int)[w].cidr@) is Ok
                                    && parse_cidr_spec(targets@.take(t as int)[w].cidr@)->Ok_0.first <= ip
                                    <= parse_cidr_spec(targets@.take(t as int)[w].cidr@)->Ok_0.last;
                            assert(tk[w] == targets@.take(t as int)[w]);
                        }
                        if c.first <= ip <= c.last {
                            assert(tk[t as int] == targets@[t as int]);
                        }
                    }
                }
            },
            Err(_) => {
                proof {
                    assert forall|ip: u32| all@.contains(ip) <==> in_targets(targets@.take(t + 1), ip) by {
                        let tk = targets@.take(t + 1);
                        if in_targets(tk, ip) {
                            let w = choose|w: int|
                                0 <= w < tk.len() && #[trigger] parse_cidr_spec(tk[w].cidr@) is Ok && parse_cidr_spec(
                                    tk[w].cidr@,
                                )->Ok_0.first <= ip <= parse_cidr_spec(tk[w].cidr@)->Ok_0.last;
                            assert(w != t);
                            assert(targets@.take(t as int)[w] == tk[w]);
                        }
                        if in_targets(targets@.take(t as int), ip) {
                            let w = choose|w: int|
                                0 <= w < t && #[trigger] parse_cidr_spec(targets@.take(t as int)[w].cidr@) is Ok
                                    && parse_cidr_spec(targets@.take(t as int)[w].cidr@)->Ok_0.first <= ip
                                    <= parse_cidr_spec(targets@.take(t as int)[w].cidr@)->Ok_0.last;
                            assert(tk[w] == targets@.take(t as int)[w]);
                        }
                    }
                }
            },
        }
        t += 1;
    }
    assert(targets@.take(targets@.len() as int) =~= targets@);
    all
}

/// The addresses something answered on, limited to the scanned ones: each
/// once, in increasing order.
pub fn live_addresses(candidates: &Vec<u32>, all: &Vec<u32>) -> (live: Vec<u32>)
    ensures
        increasing(live@),
        forall|ip: u32| live@.contains(ip) <==> (candidates@.contains(ip) && all@.contains(ip)),
{
    let mut live: Vec<u32> = Vec::new();
    let mut i: usize = 0;
    while i < candidates.len()
        invariant
            i <= candidates@.len(),
            increasing(live@),
            forall|ip: u32|
                live@.contains(ip) <==> ((exists|j: int| 0 <= j < i && candidates@[j] == ip) && all@.contains(ip)),
        decreases candidates.len() - i,
    {
        let ip = candidates[i];
        let mut member = false;
        let mut k: usize = 0;
        while k < all.len()
            invariant
                k <= all@.len(),
                member == exists|j: int| 0 <= j < k && all@[j] == ip,
            decreases all.len() - k,
        {
            if all[k] == ip {
                member = true;
            }
            k += 1;
        }
        let ghost before = live@;
        if member {
            insert_addr(&mut live, ip);
        }
        proof {
            assert forall|y: u32|
                live@.contains(y) <==> ((exists|j: int| 0 <= j < i + 1 && candidates@[j] == y) && all@.contains(y)) by {
                if exists|j: int| 0 <= j < i + 1 && candidates@[j] == y {
                    let j = choose|j: int| 0 <= j < i + 1 && candidates@[j] == y;
                    if j < i {
                        assert(exists|j: int| 0 <= j < i && candidates@[j] == y);
                    }
                }
                if exists|j: int| 0 <= j < i && candidates@[j] == y {
                    let j = choose|j: int| 0 <= j < i && candidates@[j] == y;
                    assert(0 <= j < i + 1 && candidates@[j] == y);
                }
                assert(candidates@[i as int] == ip);
            }
        }
        i += 1;
    }
    live
}

/* ------------------------------------------------------ identity phase */

pub open spec fn banner_port(p: u16) -> bool {
    http_port(p) || https_port(p) || greeting_port(p)
}

/// The open ports of one host worth reading a banner from, in order.
pub open spec fn host_banner_tasks(ip: u32, ports: Seq<PortInfo>) -> Seq<(u32, u16)>
    decreases ports.len(),
{
    if ports.len() == 0 {
        seq![]
    } else if banner_port(ports.last().port) {
        host_banner_tasks(ip, ports.drop_last()).push((ip, ports.last().port))
    } else {
        host_banner_tasks(ip, ports.drop_last())
    }
}

/// The banner reads a port scan calls for, host by host.
pub open spec fn banner_tasks_spec(open: Seq<(u32, Vec<PortInfo>)>) -> Seq<(u32, u16)>
    decreases open.len(),
{
    if open.len() == 0 {
        seq![]
    } else {
        banner_tasks_spec(open.drop_last()) + host_banner_tasks(open.last().0, open.last().1@)
    }
}

pub fn banner_tasks(open: &Vec<(u32, Vec<PortInfo>)>) -> (tasks: Vec<(u32, u16)>)
    ensures
        tasks@ == banner_tasks_spec(open@),
{
    let mut tasks: Vec<(u32, u16)> = Vec::new();
    let mut i: usize = 0;
    while i < open.len()
        invariant
            i <= open@.len(),
            tasks@ == banner_tasks_spec(open@.take(i as int)),
        decreases open.len() - i,
    {
        proof {
            assert(open@.take(i + 1).drop_last() =~= open@.take(i as int));
        }
        let ip = open[i].0;
        let ports = &open[i].1;
        let ghost base = tasks@;
        let mut k: usize = 0;
        while k < ports.len()
            invariant
                k <= ports@.len(),
                tasks@ == base + host_banner_tasks(ip, ports@.take(k as int)),
            decreases ports.len() - k,
        {
            proof {
                assert(ports@.take(k + 1).drop_last() =~= ports@.take(k as int));
            }
            let p = ports[k].port;
            if is_banner_port(p) {
                tasks.push((ip, p));
                assert(tasks@ =~= base + host_banner_tasks(ip, ports@.take(k + 1)));
            }
            k += 1;
        }
        assert(ports@.take(ports@.len() as int) =~= ports@);
        assert(tasks@ =~= banner_tasks_spec(open@.take(i + 1)));
        i += 1;
    }
    assert(open@.take(open@.len() as int) =~= open@);
    tasks
}

/* -------------------------------------------------------- phase details */

/// `{n} local range(s)`.
pub fn host_detail(ranges: usize) -> (s: String)
    ensures
        s@ == dec(ranges as nat) + " local range(s)"@,
{
    let mut s = String::new();
    push_dec(&mut s, ranges as u64);
    push_str(&mut s, " local range(s)");
    s
}

/// `{a} mDNS service(s), {b} UPnP host(s)`.
pub fn announce_detail(services: usize, hosts: usize) -> (s: String)
    ensures
        s@ == dec(services as nat) + " mDNS service(s), "@ + dec(hosts as nat) + " UPnP host(s)"@,
{
    let mut s = String::new();
    push_dec(&mut s, services as u64);
    push_str(&mut s, " mDNS service(s), ");
    push_dec(&mut s, hosts as u64);
    push_str(&mut s, " UPnP host(s)");
    s
}

/// `{a} host(s) replied, {b} MAC(s) resolved`.
pub fn sweep_detail(replied: usize, macs: usize) -> (s: String)
    ensures
        s@ == dec(replied as nat) + " host(s) replied, "@ + dec(macs as nat) + " MAC(s) resolved"@,
{
    let mut s = String::new();
    push_dec(&mut s, replied as u64);
    push_str(&mut s, " host(s) replied, ");
    push_dec(&mut s, macs as u64);
    push_str(&mut s, " MAC(s) resolved");
    s
}

/// The open ports found, counted over every host.
pub open spec fn open_count(open: Seq<(u32, Vec<PortInfo>)>) -> nat
    decreases open.len(),
{
    if open.len() == 0 {
        0
    } else {
        open_count(open.drop_last()) + open.last().1@.len()
    }
}

/// `{n} open port(s) across {h} host(s)`.
pub fn ports_detail(open: &Vec<(u32, Vec<PortInfo>)>) -> (s: String)
    ensures
        s@ == dec(open_count(open@)) + " open port(s) across "@ + dec(open@.len()) + " host(s)"@,
{
    let mut n: u128 = 0;
    let mut i: usize = 0;
    while i < open.len()
        invariant
            i <= open@.len(),
            n == open_count(open@.take(i as int)),
            n <= i * (usize::MAX as int),
        decreases open.len() - i,
    {
        proof {
            assert(open@.take(i + 1).drop_last() =~= open@.take(i as int));
            assert((i + 1) * (usize::MAX as int) == i * (usize::MAX as int) + usize::MAX) by (nonlinear_arith);
            assert(i * (usize::MAX as int) <= usize::MAX * usize::MAX) by (nonlinear_arith)
                requires
                    i <= usize::MAX,
            ;
        }
        n = n + open[i].1.len() as u128;
        i += 1;
    }
    assert(open@.take(open@.len() as int) =~= open@);
    let mut s = String::new();
    crate::text::push_dec_wide(&mut s, n);
    push_str(&mut s, " open port(s) across ");
    push_dec(&mut s, open.len() as u64);
    push_str(&mut s, " host(s)");
    s
}

/// `{a} NetBIOS, {b} rDNS, {c} banner(s)`.
pub fn identity_detail(netbios: usize, rdns: usize, banners: usize) -> (s: String)
    ensures
        s@ == dec(netbios as nat) + " NetBIOS, "@ + dec(rdns as nat) + " rDNS, "@ + dec(banners as nat) + " banner(s)"@,
{
    let mut s = String::new();
    push_dec(&mut s, netbios as u64);
    push_str(&mut s, " NetBIOS, ");
    push_dec(&mut s, rdns as u64);
    push_str(&mut s, " rDNS, ");
    push_dec(&mut s, banners as u64);
    push_str(&mut s, " banner(s)");
    s
}

/// The current network and its signal, `{ssid} @ {signal}%`, when there is one.
pub fn wifi_detail(wifi: &Option<WifiInfo>) -> (s: Option<String>)
    ensures
        opt_text_view(s) == (match wifi {
            Some(w) => match w.current {
                Some(c) => Some(c.ssid@ + " @ "@ + dec(c.signal as nat) + "%"@),
                None => None,
            },
            None => None,
        }),
{
    match wifi {
        Some(w) => match &w.current {
            Some(c) => {
                let mut s = copy_text(&c.ssid);
                push_str(&mut s, " @ ");
                push_dec(&mut s, c.signal as u64);
                push_str(&mut s, "%");
                Some(s)
            },
            None => None,
        },
        None => None,
    }
}

/// `{n} device(s)`.
pub fn correlate_detail(devices: usize) -> (s: String)
    ensures
        s@ == dec(devices as nat) + " device(s)"@,
{
    let mut s = String::new();
    push_dec(&mut s, devices as u64);
    push_str(&mut s, " device(s)");
    s
}

} // verus!
