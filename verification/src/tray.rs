//! The session state of the status indicator and the decisions of one
//! check cycle: what to store, when to notify, which visual state to
//! show, what the tooltip says, and how the two animation loops step.

use vstd::prelude::*;

use crate::checker::{copy_update, recs_of, CheckRec, CheckResult, RebootInfo, UpdateInfo};
use crate::tailscale::{host_views, HostRec, HostResult};
use crate::text::{copy_strings, str_views};
use chrono::Timelike;

verus! {

/// A wall-clock reading, to the minute.
#[derive(Debug, Clone, Copy, PartialEq, Eq, Structural)]
pub struct TimeOfDay {
    pub hour: u8,
    pub minute: u8,
}

/// A valid wall-clock reading.
pub open spec fn time_wf(t: TimeOfDay) -> bool {
    t.hour < 24 && t.minute < 60
}

/// Relies on `chrono::Local::now` with `Timelike::hour` and
/// `Timelike::minute`: the hour is between 0 and 23 and the minute
/// between 0 and 59; the reading itself depends on the clock, so
/// nothing more is promised.
#[verifier::external_body]
fn local_hour_minute() -> (r: (u32, u32))
    ensures
        r.0 < 24,
        r.1 < 60,
{
    let now = chrono::Local::now();
    (now.hour(), now.minute())
}

/// The current wall-clock reading.
pub fn current_time_of_day() -> (t: TimeOfDay)
    ensures
        time_wf(t),
{
    let (h, m) = local_hour_minute();
    TimeOfDay { hour: h as u8, minute: m as u8 }
}

/// The mathematical content of the session state.
#[verifier::ext_equal]
pub ghost struct TrayRec {
    pub local_result: Option<CheckRec>,
    pub remote_results: Seq<HostRec>,
    pub last_check: Option<TimeOfDay>,
    pub previous_count: u32,
    pub spin_cancel: bool,
    pub bounce_cancel: bool,
}

/// The view of an optional local check outcome.
pub open spec fn opt_check_view(o: Option<CheckResult>) -> Option<CheckRec> {
    match o {
        Some(c) => Some(c@),
        None => None,
    }
}

/// The session state of the status indicator: the outcome of the last
/// completed check, its time, the previous total for notification
/// edge-detection, and the two animation cancellation signals.  One
/// check cycle replaces the outcome fields wholesale; nothing is
/// patched incrementally.
#[derive(Debug)]
pub struct TrayState {
    pub local_result: Option<CheckResult>,
    pub remote_results: Vec<HostResult>,
    pub last_check: Option<TimeOfDay>,
    pub previous_count: u32,
    pub spin_cancel: bool,
    pub bounce_cancel: bool,
}

impl View for TrayState {
    type V = TrayRec;

    open spec fn view(&self) -> TrayRec {
        TrayRec {
            local_result: opt_check_view(self.local_result),
            remote_results: host_views(self.remote_results@),
            last_check: self.last_check,
            previous_count: self.previous_count,
            spin_cancel: self.spin_cancel,
            bounce_cancel: self.bounce_cancel,
        }
    }
}

impl TrayState {
    /// The state before any check has completed: no outcome, no
    /// timestamp, a zero previous total, both animation signals clear.
    pub fn new() -> (r: TrayState)
        ensures
            r@.local_result is None,
            r@.remote_results.len() == 0,
            r@.last_check is None,
            r@.previous_count == 0,
            !r@.spin_cancel,
            !r@.bounce_cancel,
    {
        let r = TrayState {
            local_result: None,
            remote_results: Vec::new(),
            last_check: None,
            previous_count: 0,
            spin_cancel: false,
            bounce_cancel: false,
        };
        proof {
            assert(host_views(r.remote_results@) =~= Seq::<HostRec>::empty());
        }
        r
    }

    /// Signal the spinner loop to stop.
    pub fn cancel_spin(&mut self)
        ensures
            final(self)@ == (TrayRec { spin_cancel: true, ..old(self)@ }),
    {
        self.spin_cancel = true;
    }

    /// Signal the pulse loop to stop.
    pub fn cancel_bounce(&mut self)
        ensures
            final(self)@ == (TrayRec { bounce_cancel: true, ..old(self)@ }),
    {
        self.bounce_cancel = true;
    }

    /// Clear the spinner signal so a new spinner loop can start.
    pub fn reset_spin(&mut self)
        ensures
            final(self)@ == (TrayRec { spin_cancel: false, ..old(self)@ }),
    {
        self.spin_cancel = false;
    }

    /// Clear the pulse signal so a new pulse loop can start.
    pub fn reset_bounce(&mut self)
        ensures
            final(self)@ == (TrayRec { bounce_cancel: false, ..old(self)@ }),
    {
        self.bounce_cancel = false;
    }

    /// The spinner loop's view of its cancellation signal.
    pub fn spin_receiver(&self) -> (r: bool)
        ensures
            r == self@.spin_cancel,
    {
        self.spin_cancel
    }

    /// The pulse loop's view of its cancellation signal.
    pub fn bounce_receiver(&self) -> (r: bool)
        ensures
            r == self@.bounce_cancel,
    {
        self.bounce_cancel
    }
}

/// An exact copy of a list of update records.
fn copy_updates(v: &Vec<UpdateInfo>) -> (r: Vec<UpdateInfo>)
    ensures
        recs_of(r@) == recs_of(v@),
        r@.len() == v@.len(),
{
    let mut r: Vec<UpdateInfo> = Vec::new();
    let mut i: usize = 0;
    while i < v.len()
        invariant
            i <= v@.len(),
            r@.len() == i,
            forall|k: int| 0 <= k < i ==> #[trigger] r@[k]@ == v@[k]@,
        decreases v.len() - i,
    {
        let u = copy_update(&v[i]);
        r.push(u);
        i = i + 1;
    }
    proof {
        assert(recs_of(r@) =~= recs_of(v@));
    }
    r
}

/// An exact copy of a reboot assessment.
fn copy_reboot_info(v: &RebootInfo) -> (r: RebootInfo)
    ensures
        r@ == v@,
{
    RebootInfo {
        needed: v.needed,
        running_kernel: v.running_kernel.clone(),
        installed_kernel: v.installed_kernel.clone(),
    }
}

/// An exact copy of a local check outcome.
pub fn copy_check_result(v: &CheckResult) -> (r: CheckResult)
    ensures
        r@ == v@,
{
    let reboot_info = match &v.reboot_info {
        Some(ri) => Some(copy_reboot_info(ri)),
        None => None,
    };
    let r = CheckResult {
        updates: copy_updates(&v.updates),
        needs_restart: v.needs_restart,
        restart_packages: copy_strings(&v.restart_packages),
        reboot_info,
    };
    proof {
        assert(r@ =~= v@);
    }
    r
}

/// An exact copy of a host probe outcome.
pub fn copy_host_result(v: &HostResult) -> (r: HostResult)
    ensures
        r@ == v@,
{
    let error = match &v.error {
        Some(e) => Some(e.clone()),
        None => None,
    };
    let r = HostResult {
        hostname: v.hostname.clone(),
        updates: copy_updates(&v.updates),
        needs_restart: v.needs_restart,
        restart_packages: copy_strings(&v.restart_packages),
        error,
    };
    proof {
        assert(r@ =~= v@);
    }
    r
}

/// The last completed check's aggregated state, as handed to external
/// queries.
#[derive(Debug)]
pub struct FullCheckResult {
    pub local: Option<CheckResult>,
    pub remote: Vec<HostResult>,
}

impl TrayState {
    /// The current aggregated state: the local and remote outcomes of
    /// the last completed check, or nothing if no check has completed.
    pub fn get_check_result(&self) -> (r: Option<FullCheckResult>)
        ensures
            match r {
                None => self@.local_result is None,
                Some(f) => self@.local_result is Some && opt_check_view(f.local)
                    == self@.local_result && host_views(f.remote@) == self@.remote_results,
            },
    {
        match &self.local_result {
            None => None,
            Some(local) => {
                let mut remote: Vec<HostResult> = Vec::new();
                let mut i: usize = 0;
                while i < self.remote_results.len()
                    invariant
                        i <= self.remote_results@.len(),
                        remote@.len() == i,
                        forall|k: int|
                            0 <= k < i ==> #[trigger] remote@[k]@ == self.remote_results@[k]@,
                    decreases self.remote_results.len() - i,
                {
                    let h = copy_host_result(&self.remote_results[i]);
                    remote.push(h);
                    i = i + 1;
                }
                proof {
                    assert(host_views(remote@) =~= host_views(self.remote_results@));
                }
                Some(FullCheckResult { local: Some(copy_check_result(local)), remote })
            },
        }
    }

    /// After a launched update finishes, the service restarts itself
    /// exactly when the last local outcome listed the indicator's own
    /// package.
    pub fn should_restart_service(&self) -> (r: bool)
        ensures
            r == match self@.local_result {
                Some(c) => crate::checker::package_names(c.updates).contains(
                    "yay-sys-tray-git"@,
                ),
                None => false,
            },
    {
        match &self.local_result {
            None => false,
            Some(local) => {
                let ghost us = recs_of(local.updates@);
                proof {
                    assert(self@.local_result == Some(local@));
                    assert(local@.updates == us);
                    crate::checker::lemma_package_names_index(us);
                }
                let mut i: usize = 0;
                while i < local.updates.len()
                    invariant
                        self.local_result == Some(*local),
                        i <= local.updates@.len(),
                        us == recs_of(local.updates@),
                        us.len() == local.updates@.len(),
                        forall|k: int| 0 <= k < us.len() ==> us[k] == local.updates@[k]@,
                        crate::checker::package_names(us).len() == us.len(),
                        forall|k: int|
                            0 <= k < us.len() ==> #[trigger] crate::checker::package_names(us)[k]
                                == us[k].package,
                        forall|k: int|
                            0 <= k < i ==> crate::checker::package_names(us)[k]
                                != "yay-sys-tray-git"@,
                    decreases local.updates.len() - i,
                {
                    if crate::text::str_eq(
                        local.updates[i].package.as_str(),
                        "yay-sys-tray-git",
                    ) {
                        proof {
                            assert(self@.local_result == Some(local@));
                            assert(local@.updates == us);
                            assert(crate::checker::package_names(us)[i as int]
                                == "yay-sys-tray-git"@);
                            assert(crate::checker::package_names(us).contains(
                                "yay-sys-tray-git"@,
                            ));
                        }
                        return true;
                    }
                    i = i + 1;
                }
                proof {
                    assert(forall|k: int|
                        0 <= k < crate::checker::package_names(us).len()
                            ==> crate::checker::package_names(us)[k] != "yay-sys-tray-git"@);
                }
                false
            },
        }
    }
}

/// The non-empty trimmed entries of a comma-separated tag list, in
/// order.
pub open spec fn clean_tags(ps: Seq<Seq<char>>) -> Seq<Seq<char>>
    decreases ps.len(),
{
    if ps.len() == 0 {
        Seq::empty()
    } else {
        let rest = clean_tags(ps.drop_last());
        let t = crate::text::trim_spec(ps.last());
        if t.len() == 0 {
            rest
        } else {
            rest.push(t)
        }
    }
}

/// The tag filter denoted by a configured tag list: split on commas,
/// each entry trimmed, empty entries dropped.
pub open spec fn split_tags_spec(s: Seq<char>) -> Seq<Seq<char>> {
    clean_tags(crate::text::split_char(s, ','))
}

/// Split the configured tag list into the tag filter.
pub fn split_tags(csv: &str) -> (r: Vec<String>)
    ensures
        str_views(r@) == split_tags_spec(csv@),
{
    let chars = crate::text::chars_of(csv);
    let parts = crate::text::split_char_chars(&chars, ',');
    let ghost ps = crate::text::seqs_of(parts@);
    let mut r: Vec<String> = Vec::new();
    let mut i: usize = 0;
    proof {
        assert(ps.take(0) =~= Seq::<Seq<char>>::empty());
        assert(str_views(r@) =~= clean_tags(ps.take(0)));
    }
    while i < parts.len()
        invariant
            i <= parts@.len(),
            ps == crate::text::seqs_of(parts@),
            ps.len() == parts@.len(),
            forall|k: int| 0 <= k < parts@.len() ==> ps[k] == parts@[k]@,
            str_views(r@) == clean_tags(ps.take(i as int)),
        decreases parts.len() - i,
    {
        let ghost prev = r@;
        let t = crate::text::trim_chars(&parts[i]);
        proof {
            assert(ps.take(i + 1).drop_last() =~= ps.take(i as int));
            assert(ps.take(i + 1).last() == ps[i as int]);
        }
        if t.len() > 0 {
            let ts = crate::text::string_of(&t);
            r.push(ts);
            proof {
                assert(str_views(r@) =~= str_views(prev).push(crate::text::trim_spec(
                    ps[i as int],
                )));
            }
        }
        i = i + 1;
    }
    proof {
        assert(ps.take(parts@.len() as int) =~= ps);
    }
    r
}

/// Whether a cycle probes the fleet: fleet checking must be enabled and
/// the configured tag list non-empty.
pub fn should_run_fleet(enabled: bool, tags: &str) -> (r: bool)
    ensures
        r == (enabled && tags@.len() != 0),
{
    enabled && !tags.is_empty()
}

/// The number of pending updates across a sequence of host outcomes.
pub open spec fn remote_total(hs: Seq<HostRec>) -> nat
    decreases hs.len(),
{
    if hs.len() == 0 {
        0
    } else {
        remote_total(hs.drop_last()) + hs.last().updates.len()
    }
}

/// The remote total adds up over concatenation.
pub proof fn lemma_remote_total_split(a: Seq<HostRec>, b: Seq<HostRec>)
    ensures
        remote_total(a + b) == remote_total(a) + remote_total(b),
    decreases b.len(),
{
    if b.len() == 0 {
        assert(a + b =~= a);
    } else {
        assert((a + b).drop_last() =~= a + b.drop_last());
        assert((a + b).last() == b.last());
        lemma_remote_total_split(a, b.drop_last());
    }
}

/// The total update count of one completed cycle: the local update
/// count plus the update counts of every probed host.
pub open spec fn total_updates(local: CheckRec, hs: Seq<HostRec>) -> nat {
    local.updates.len() + remote_total(hs)
}

/// Count the total pending updates of one completed cycle.
pub fn count_total(local: &CheckResult, remote: &Vec<HostResult>) -> (n: u32)
    requires
        total_updates(local@, host_views(remote@)) <= u32::MAX,
    ensures
        n as nat == total_updates(local@, host_views(remote@)),
{
    let ghost hv = host_views(remote@);
    proof {
        assert(hv.take(0) =~= Seq::<HostRec>::empty());
        assert(hv.take(0) + hv.skip(0) =~= hv);
        lemma_remote_total_split(hv.take(0), hv.skip(0));
    }
    let n0 = local.updates.len();
    proof {
        assert(local@.updates.len() == local.updates@.len());
    }
    let mut n: u32 = n0 as u32;
    let mut i: usize = 0;
    while i < remote.len()
        invariant
            i <= remote@.len(),
            hv == host_views(remote@),
            hv.len() == remote@.len(),
            forall|k: int| 0 <= k < remote@.len() ==> hv[k] == remote@[k]@,
            total_updates(local@, hv) <= u32::MAX,
            n as nat == local@.updates.len() + remote_total(hv.take(i as int)),
        decreases remote.len() - i,
    {
        proof {
            assert(hv.take(i + 1).drop_last() =~= hv.take(i as int));
            assert(hv.take(i + 1).last() == hv[i as int]);
            assert(hv.take(i + 1) + hv.skip(i + 1) =~= hv);
            lemma_remote_total_split(hv.take(i + 1), hv.skip(i + 1));
            assert(remote_total(hv.take(i + 1)) <= remote_total(hv));
            assert(hv[i as int].updates.len() == remote@[i as int].updates@.len());
        }
        let c = remote[i].updates.len();
        n = n + (c as u32);
        i = i + 1;
    }
    proof {
        assert(hv.take(remote@.len() as int) =~= hv);
    }
    n
}

/// Some probed host needs a restart.
pub open spec fn some_restart(hs: Seq<HostRec>) -> bool {
    exists|k: int| 0 <= k < hs.len() && (#[trigger] hs[k]).needs_restart
}

/// Does any probed host need a restart?
pub fn any_remote_restart(remote: &Vec<HostResult>) -> (r: bool)
    ensures
        r == some_restart(host_views(remote@)),
{
    let ghost hv = host_views(remote@);
    let mut i: usize = 0;
    while i < remote.len()
        invariant
            i <= remote@.len(),
            hv == host_views(remote@),
            hv.len() == remote@.len(),
            forall|k: int| 0 <= k < remote@.len() ==> hv[k] == remote@[k]@,
            forall|k: int| 0 <= k < i ==> !(#[trigger] hv[k]).needs_restart,
        decreases remote.len() - i,
    {
        if remote[i].needs_restart {
            proof {
                assert(hv[i as int].needs_restart);
            }
            return true;
        }
        i = i + 1;
    }
    false
}

/// Whether a restart is pending anywhere: locally or on any probed
/// host.
pub open spec fn any_restart_spec(local: CheckRec, hs: Seq<HostRec>) -> bool {
    local.needs_restart || some_restart(hs)
}

/// The local outcome's reboot flag, absent assessments counting as no.
pub open spec fn reboot_needed_spec(local: CheckRec) -> bool {
    match local.reboot_info {
        Some(r) => r.needed,
        None => false,
    }
}

/// Does the local outcome call for a reboot?
pub fn reboot_needed(local: &CheckResult) -> (r: bool)
    ensures
        r == reboot_needed_spec(local@),
{
    match &local.reboot_info {
        Some(ri) => ri.needed,
        None => false,
    }
}

/// When a completed cycle notifies, by mode: `always` notifies whenever
/// updates are pending, `new_only` only when the total strictly
/// exceeds the previous cycle's total, and any other mode never does.
pub open spec fn notify_spec(mode: Seq<char>, total: u32, previous: u32) -> bool {
    if mode == "always"@ {
        total > 0
    } else if mode == "new_only"@ {
        total > previous
    } else {
        false
    }
}

/// Decide whether a completed cycle fires a notification.
pub fn should_notify(mode: &str, total: u32, previous: u32) -> (r: bool)
    ensures
        r == notify_spec(mode@, total, previous),
{
    if crate::text::str_eq(mode, "always") {
        total > 0
    } else if crate::text::str_eq(mode, "new_only") {
        total > previous
    } else {
        false
    }
}

/// The mutually exclusive visual states of the status indicator.
#[derive(Debug, Clone, Copy, PartialEq, Eq, Structural)]
pub enum TrayStatus {
    Checking,
    CheckFailed,
    RebootOnly,
    UpToDate,
    RestartRequired,
    HasUpdates,
}

/// The visual state after a successful cycle, in strict precedence: no
/// updates with a pending reboot, no updates at all, updates with a
/// restart pending anywhere, or plain updates.  `Checking` holds only
/// while a cycle runs and `CheckFailed` only after a failed one; both
/// are chosen by the cycle itself, not here.
pub open spec fn status_spec(total: u32, any_restart: bool, reboot: bool) -> TrayStatus {
    if total == 0 {
        if reboot {
            TrayStatus::RebootOnly
        } else {
            TrayStatus::UpToDate
        }
    } else if any_restart {
        TrayStatus::RestartRequired
    } else {
        TrayStatus::HasUpdates
    }
}

/// Select the visual state after a successful cycle.
pub fn select_status(total: u32, any_restart: bool, reboot: bool) -> (r: TrayStatus)
    ensures
        r == status_spec(total, any_restart, reboot),
{
    if total == 0 {
        if reboot {
            TrayStatus::RebootOnly
        } else {
            TrayStatus::UpToDate
        }
    } else if any_restart {
        TrayStatus::RestartRequired
    } else {
        TrayStatus::HasUpdates
    }
}

/// The precedence of the visual states: a pending reboot with no
/// updates always shows the reboot state, never the all-clear; pending
/// updates with a restart needed anywhere always show the restart
/// state, never the plain update state.
pub proof fn lemma_status_precedence(total: u32, any_restart: bool, reboot: bool)
    ensures
        total == 0 && reboot ==> status_spec(total, any_restart, reboot)
            == TrayStatus::RebootOnly && status_spec(total, any_restart, reboot)
            != TrayStatus::UpToDate,
        total > 0 && any_restart ==> status_spec(total, any_restart, reboot)
            == TrayStatus::RestartRequired && status_spec(total, any_restart, reboot)
            != TrayStatus::HasUpdates,
{
}

/// The pulse loop a visual state calls for, when animations are on: the
/// reboot state pulses slowly with a bounded tick budget, the two
/// update states pulse quickly without a budget; the rest do not pulse.
pub open spec fn pulse_plan_spec(status: TrayStatus) -> Option<(u64, usize)> {
    match status {
        TrayStatus::RebootOnly => Some((1000u64, 16usize)),
        TrayStatus::RestartRequired => Some((500u64, 0usize)),
        TrayStatus::HasUpdates => Some((500u64, 0usize)),
        _ => None,
    }
}

/// The pulse interval and tick budget for a visual state, if it pulses.
pub fn pulse_plan(status: TrayStatus) -> (r: Option<(u64, usize)>)
    ensures
        r == pulse_plan_spec(status),
{
    match status {
        TrayStatus::RebootOnly => Some((1000u64, 16usize)),
        TrayStatus::RestartRequired => Some((500u64, 0usize)),
        TrayStatus::HasUpdates => Some((500u64, 0usize)),
        _ => None,
    }
}

/// The next frame of the spinner loop, cycling through the rotated
/// frames.
pub fn spin_next_frame(idx: usize, frame_count: usize) -> (r: usize)
    requires
        idx < frame_count,
    ensures
        r == (idx + 1) as int % frame_count as int,
        r < frame_count,
{
    (idx + 1) % frame_count
}

/// What drives one step of the pulse loop: its timer ticked, or its
/// cancellation signal was observed.
#[derive(Debug, Clone, Copy, PartialEq, Eq, Structural)]
pub enum BounceEvent {
    Tick,
    Cancelled,
}

/// What the pulse loop does next: stop, forcing the full-size frame as
/// a resting state or not, or render the next phase.
#[derive(Debug, Clone, Copy, PartialEq, Eq, Structural)]
pub enum BounceAction {
    Stop { force_full: bool },
    Render { small: bool, next_tick: usize },
}

/// One step of the pulse loop: an exhausted tick budget stops on the
/// full-size frame; cancellation stops immediately, forcing the
/// full-size resting frame only when the loop has a finite budget; a
/// tick toggles the phase.
pub open spec fn bounce_step_spec(
    tick: usize,
    show_small: bool,
    max_ticks: usize,
    event: BounceEvent,
) -> BounceAction {
    if max_ticks > 0 && tick >= max_ticks {
        BounceAction::Stop { force_full: true }
    } else {
        match event {
            BounceEvent::Cancelled => BounceAction::Stop { force_full: max_ticks > 0 },
            BounceEvent::Tick => BounceAction::Render {
                small: !show_small,
                next_tick: (tick + 1) as usize,
            },
        }
    }
}

/// Advance the pulse loop by one step.
pub fn bounce_step(tick: usize, show_small: bool, max_ticks: usize, event: BounceEvent) -> (r:
    BounceAction)
    requires
        tick < usize::MAX,
    ensures
        r == bounce_step_spec(tick, show_small, max_ticks, event),
{
    if max_ticks > 0 && tick >= max_ticks {
        BounceAction::Stop { force_full: true }
    } else {
        match event {
            BounceEvent::Cancelled => BounceAction::Stop { force_full: max_ticks > 0 },
            BounceEvent::Tick => BounceAction::Render { small: !show_small, next_tick: tick + 1 },
        }
    }
}

/// The tooltip's summary line for the local machine, shown above the
/// per-host lines.
pub open spec fn local_line(local: CheckRec) -> Seq<char> {
    "Local: "@ + crate::text::dec_str(local.updates.len() as int) + " update(s)"@ + (
    if local.needs_restart {
        " (restart)"@
    } else {
        Seq::<char>::empty()
    })
}

/// The tooltip's line for one probed host: its error text, an
/// up-to-date note, or its update count with a restart marker.
pub open spec fn host_line(h: HostRec) -> Seq<char> {
    match h.error {
        Some(e) => h.hostname + ": "@ + e,
        None => if h.updates.len() == 0 {
            h.hostname + ": up to date"@
        } else {
            h.hostname + ": "@ + crate::text::dec_str(h.updates.len() as int) + " update(s)"@ + (
            if h.needs_restart {
                " (restart)"@
            } else {
                Seq::<char>::empty()
            })
        },
    }
}

/// The tooltip lines for a sequence of probed hosts, in order.
pub open spec fn host_lines(hs: Seq<HostRec>) -> Seq<Seq<char>>
    decreases hs.len(),
{
    if hs.len() == 0 {
        Seq::empty()
    } else {
        host_lines(hs.drop_last()).push(host_line(hs.last()))
    }
}

/// The tooltip's trailing line with the time of the last completed
/// check.
pub open spec fn time_line(t: TimeOfDay) -> Seq<char> {
    "Last check: "@ + crate::text::two_dec_str(t.hour as int) + ":"@ + crate::text::two_dec_str(
        t.minute as int,
    )
}

/// The lines of the tooltip before the trailing last-check line: with
/// probed hosts, one local summary line and one line per host;
/// otherwise a single aggregate line, with the restart package list
/// when applicable.
pub open spec fn tooltip_base_lines(local: CheckRec, hs: Seq<HostRec>) -> Seq<Seq<char>> {
    if hs.len() != 0 {
        seq![local_line(local)] + host_lines(hs)
    } else if local.updates.len() == 0 {
        if reboot_needed_spec(local) {
            seq!["Reboot required"@]
        } else {
            seq!["System up to date"@]
        }
    } else {
        seq![crate::text::dec_str(local.updates.len() as int) + " update(s) available"@] + (
        if local.needs_restart {
            seq![
                "Restart: "@ + crate::text::join_with(local.restart_packages, ", "@),
            ]
        } else {
            Seq::<Seq<char>>::empty()
        })
    }
}

/// The lines of the tooltip: the base lines, and the last-check line
/// when a check has completed.
pub open spec fn tooltip_lines(
    local: CheckRec,
    hs: Seq<HostRec>,
    last: Option<TimeOfDay>,
) -> Seq<Seq<char>> {
    tooltip_base_lines(local, hs) + (match last {
        Some(t) => seq![time_line(t)],
        None => Seq::<Seq<char>>::empty(),
    })
}

/// The whole tooltip: its lines joined with newlines.
pub open spec fn tooltip_spec(
    local: CheckRec,
    hs: Seq<HostRec>,
    last: Option<TimeOfDay>,
) -> Seq<char> {
    crate::text::join_with(tooltip_lines(local, hs, last), "\n"@)
}

/// Compose the tooltip for one completed cycle.
pub fn build_tooltip(
    local: &CheckResult,
    remote: &Vec<HostResult>,
    last_check: Option<TimeOfDay>,
) -> (r: String)
    ensures
        r@ == tooltip_spec(local@, host_views(remote@), last_check),
{
    let ghost hv = host_views(remote@);
    let mut lines: Vec<String> = Vec::new();
    if remote.len() > 0 {
        let mut ll = "Local: ".to_owned();
        let cnt = crate::text::usize_str(local.updates.len());
        ll.append(cnt.as_str());
        ll.append(" update(s)");
        if local.needs_restart {
            ll.append(" (restart)");
        }
        proof {
            assert(ll@ =~= local_line(local@));
        }
        lines.push(ll);
        let mut i: usize = 0;
        proof {
            assert(hv.take(0) =~= Seq::<HostRec>::empty());
            assert(str_views(lines@) =~= seq![local_line(local@)] + host_lines(hv.take(0)));
        }
        while i < remote.len()
            invariant
                i <= remote@.len(),
                hv == host_views(remote@),
                hv.len() == remote@.len(),
                forall|k: int| 0 <= k < remote@.len() ==> hv[k] == remote@[k]@,
                str_views(lines@) == seq![local_line(local@)] + host_lines(hv.take(i as int)),
            decreases remote.len() - i,
        {
            let ghost prev = lines@;
            let h = &remote[i];
            let mut hl = h.hostname.clone();
            match &h.error {
                Some(e) => {
                    hl.append(": ");
                    hl.append(e.as_str());
                },
                None => {
                    if h.updates.len() == 0 {
                        hl.append(": up to date");
                    } else {
                        hl.append(": ");
                        let cnt = crate::text::usize_str(h.updates.len());
                        hl.append(cnt.as_str());
                        hl.append(" update(s)");
                        if h.needs_restart {
                            hl.append(" (restart)");
                        }
                    }
                },
            }
            proof {
                assert(hl@ =~= host_line(hv[i as int]));
            }
            lines.push(hl);
            proof {
                assert(hv.take(i + 1).drop_last() =~= hv.take(i as int));
                assert(hv.take(i + 1).last() == hv[i as int]);
                assert(str_views(lines@) =~= str_views(prev).push(host_line(hv[i as int])));
                assert(str_views(prev).push(host_line(hv[i as int])) =~= seq![
                    local_line(local@),
                ] + host_lines(hv.take(i + 1)));
            }
            i = i + 1;
        }
        proof {
            assert(hv.take(remote@.len() as int) =~= hv);
        }
    } else if local.updates.len() == 0 {
        if reboot_needed(local) {
            lines.push("Reboot required".to_owned());
        } else {
            lines.push("System up to date".to_owned());
        }
        proof {
            assert(hv =~= Seq::<HostRec>::empty());
            assert(str_views(lines@) =~= tooltip_base_lines(local@, hv));
        }
    } else {
        let mut al = crate::text::usize_str(local.updates.len());
        al.append(" update(s) available");
        lines.push(al);
        if local.needs_restart {
            let pkgs = crate::text::join_all(&local.restart_packages, ", ");
            let mut rl = "Restart: ".to_owned();
            rl.append(pkgs.as_str());
            lines.push(rl);
        }
        proof {
            assert(hv =~= Seq::<HostRec>::empty());
            assert(str_views(lines@) =~= tooltip_base_lines(local@, hv));
        }
    }
    match last_check {
        Some(t) => {
            let ghost base = str_views(lines@);
            let mut tl = "Last check: ".to_owned();
            let hh = crate::text::u32_str_pad2(t.hour as u32);
            tl.append(hh.as_str());
            tl.append(":");
            let mm = crate::text::u32_str_pad2(t.minute as u32);
            tl.append(mm.as_str());
            proof {
                assert(tl@ =~= time_line(t));
            }
            lines.push(tl);
            proof {
                assert(str_views(lines@) =~= base.push(time_line(t)));
                assert(base.push(time_line(t)) =~= base + seq![time_line(t)]);
            }
        },
        None => {
            proof {
                assert(str_views(lines@) + Seq::<Seq<char>>::empty() =~= str_views(lines@));
            }
        },
    }
    proof {
        assert(str_views(lines@) =~= tooltip_lines(local@, hv, last_check));
    }
    crate::text::join_all(&lines, "\n")
}

/// Commit one successful check cycle to the session state: replace the
/// outcome fields and the timestamp wholesale, compare the new total
/// against the previous one before overwriting it, and hand back the
/// total, the notification decision and whether the update affordance
/// is enabled.
pub fn run_cycle_success(
    state: &mut TrayState,
    notify_mode: &str,
    local: CheckResult,
    remote: Vec<HostResult>,
    now: TimeOfDay,
) -> (r: (u32, bool, bool))
    requires
        total_updates(local@, host_views(remote@)) <= u32::MAX,
    ensures
        final(state)@.local_result == Some(local@),
        final(state)@.remote_results == host_views(remote@),
        final(state)@.last_check == Some(now),
        final(state)@.previous_count == r.0,
        final(state)@.spin_cancel == old(state)@.spin_cancel,
        final(state)@.bounce_cancel == old(state)@.bounce_cancel,
        r.0 as nat == total_updates(local@, host_views(remote@)),
        r.1 == notify_spec(notify_mode@, r.0, old(state)@.previous_count),
        r.2 == (r.0 > 0),
{
    let total = count_total(&local, &remote);
    let fire = should_notify(notify_mode, total, state.previous_count);
    state.local_result = Some(local);
    state.remote_results = remote;
    state.last_check = Some(now);
    state.previous_count = total;
    (total, fire, total > 0)
}

} // verus!
