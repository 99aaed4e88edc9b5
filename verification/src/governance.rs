//! Governance: the audit trail, SLA deadline and activity counters.

use vstd::prelude::*;
use crate::models::{AuditEntry, AuditEntryView, AuditEventKind, AuditEventView};
use crate::storage::audit_view;
use crate::text::opt_string_view;

verus! {

/// A source of the current time in milliseconds.
pub trait Clock: Send + Sync {
    /// The readings the clock may give; unless a clock says otherwise, any.
    open spec fn may_read(&self, t: u64) -> bool {
        true
    }

    /// The current time in milliseconds.
    fn now_millis(&self) -> (r: u64)
        ensures
            self.may_read(r),
    ;
}

/// The operating system's wall clock.
#[derive(Debug, Clone, Copy)]
pub struct SystemClock;

/// Reads the system clock: milliseconds since the Unix epoch, or 0 when the
/// clock reads earlier than the epoch.  Nothing is claimed of the value.
#[verifier::external_body]
fn unix_time_ms() -> u64 {
    std::time::SystemTime::now().duration_since(std::time::UNIX_EPOCH).unwrap_or_default().as_millis() as u64
}

impl Clock for SystemClock {
    /// The wall clock may show any time.
    open spec fn may_read(&self, t: u64) -> bool {
        true
    }

    fn now_millis(&self) -> (r: u64) {
        unix_time_ms()
    }
}

/// A shared clock reads the time of the clock it shares.
impl Clock for std::sync::Arc<dyn Clock> {
    open spec fn may_read(&self, t: u64) -> bool {
        (**self).may_read(t)
    }

    fn now_millis(&self) -> (r: u64) {
        (**self).now_millis()
    }
}

/// Activity counters.  Each counter wraps around on overflow.
#[derive(Debug)]
pub struct GovernanceMetrics {
    pub(crate) approvals_requested: u64,
    pub(crate) approvals_resolved: u64,
    pub(crate) approvals_escalated: u64,
    pub(crate) subtasks_started: u64,
    pub(crate) subtasks_completed: u64,
    pub(crate) subtasks_failed: u64,
    pub(crate) plans_started: u64,
    pub(crate) plans_completed: u64,
    pub(crate) plans_failed: u64,
}

/// The values of the counters at one moment.
#[derive(Debug, PartialEq, Eq, Structural)]
pub struct GovernanceMetricsSnapshot {
    pub approvals_requested: u64,
    pub approvals_resolved: u64,
    pub approvals_escalated: u64,
    pub subtasks_started: u64,
    pub subtasks_completed: u64,
    pub subtasks_failed: u64,
    pub plans_started: u64,
    pub plans_completed: u64,
    pub plans_failed: u64,
}

/// All counters at zero.
pub open spec fn zero_metrics() -> GovernanceMetricsSnapshot {
    GovernanceMetricsSnapshot {
        approvals_requested: 0,
        approvals_resolved: 0,
        approvals_escalated: 0,
        subtasks_started: 0,
        subtasks_completed: 0,
        subtasks_failed: 0,
        plans_started: 0,
        plans_completed: 0,
        plans_failed: 0,
    }
}

impl Default for GovernanceMetricsSnapshot {
    fn default() -> (r: Self)
        ensures
            r == zero_metrics(),
    {
        GovernanceMetricsSnapshot {
            approvals_requested: 0,
            approvals_resolved: 0,
            approvals_escalated: 0,
            subtasks_started: 0,
            subtasks_completed: 0,
            subtasks_failed: 0,
            plans_started: 0,
            plans_completed: 0,
            plans_failed: 0,
        }
    }
}

impl View for GovernanceMetrics {
    type V = GovernanceMetricsSnapshot;

    closed spec fn view(&self) -> GovernanceMetricsSnapshot {
        GovernanceMetricsSnapshot {
            approvals_requested: self.approvals_requested,
            approvals_resolved: self.approvals_resolved,
            approvals_escalated: self.approvals_escalated,
            subtasks_started: self.subtasks_started,
            subtasks_completed: self.subtasks_completed,
            subtasks_failed: self.subtasks_failed,
            plans_started: self.plans_started,
            plans_completed: self.plans_completed,
            plans_failed: self.plans_failed,
        }
    }
}

impl GovernanceMetrics {
    fn zero() -> (r: Self)
        ensures
            r@ == zero_metrics(),
    {
        GovernanceMetrics {
            approvals_requested: 0,
            approvals_resolved: 0,
            approvals_escalated: 0,
            subtasks_started: 0,
            subtasks_completed: 0,
            subtasks_failed: 0,
            plans_started: 0,
            plans_completed: 0,
            plans_failed: 0,
        }
    }

    /// The current counter values.
    pub fn snapshot(&self) -> (r: GovernanceMetricsSnapshot)
        ensures
            r == self@,
    {
        GovernanceMetricsSnapshot {
            approvals_requested: self.approvals_requested,
            approvals_resolved: self.approvals_resolved,
            approvals_escalated: self.approvals_escalated,
            subtasks_started: self.subtasks_started,
            subtasks_completed: self.subtasks_completed,
            subtasks_failed: self.subtasks_failed,
            plans_started: self.plans_started,
            plans_completed: self.plans_completed,
            plans_failed: self.plans_failed,
        }
    }
}

impl Default for GovernanceMetrics {
    fn default() -> (r: Self)
        ensures
            r@ == zero_metrics(),
    {
        GovernanceMetrics::zero()
    }
}

/// The counters that governance keeps.
pub enum Counter {
    ApprovalsRequested,
    ApprovalsResolved,
    SubtasksStarted,
    SubtasksCompleted,
    SubtasksFailed,
    PlansStarted,
    PlansCompleted,
    PlansFailed,
}

/// One more, wrapping around at the top of the range.
pub open spec fn bump(x: u64) -> u64 {
    if x == u64::MAX {
        0
    } else {
        (x + 1) as u64
    }
}

/// The counters with `c` advanced by one.
pub open spec fn bump_counter(m: GovernanceMetricsSnapshot, c: Counter) -> GovernanceMetricsSnapshot {
    match c {
        Counter::ApprovalsRequested => GovernanceMetricsSnapshot {
            approvals_requested: bump(m.approvals_requested),
            ..m
        },
        Counter::ApprovalsResolved => GovernanceMetricsSnapshot {
            approvals_resolved: bump(m.approvals_resolved),
            ..m
        },
        Counter::SubtasksStarted => GovernanceMetricsSnapshot {
            subtasks_started: bump(m.subtasks_started),
            ..m
        },
        Counter::SubtasksCompleted => GovernanceMetricsSnapshot {
            subtasks_completed: bump(m.subtasks_completed),
            ..m
        },
        Counter::SubtasksFailed => GovernanceMetricsSnapshot {
            subtasks_failed: bump(m.subtasks_failed),
            ..m
        },
        Counter::PlansStarted => GovernanceMetricsSnapshot { plans_started: bump(m.plans_started), ..m },
        Counter::PlansCompleted => GovernanceMetricsSnapshot {
            plans_completed: bump(m.plans_completed),
            ..m
        },
        Counter::PlansFailed => GovernanceMetricsSnapshot { plans_failed: bump(m.plans_failed), ..m },
    }
}

/// The value of counter `c`.
pub open spec fn counter_value(m: GovernanceMetricsSnapshot, c: Counter) -> u64 {
    match c {
        Counter::ApprovalsRequested => m.approvals_requested,
        Counter::ApprovalsResolved => m.approvals_resolved,
        Counter::SubtasksStarted => m.subtasks_started,
        Counter::SubtasksCompleted => m.subtasks_completed,
        Counter::SubtasksFailed => m.subtasks_failed,
        Counter::PlansStarted => m.plans_started,
        Counter::PlansCompleted => m.plans_completed,
        Counter::PlansFailed => m.plans_failed,
    }
}

/// Advancing a counter raises it by one (wrapping at the top) and leaves
/// every other counter, and the escalation count, as it was.
pub proof fn law_bump_touches_one_counter(m: GovernanceMetricsSnapshot, c: Counter, other: Counter)
    ensures
        counter_value(bump_counter(m, c), c) == bump(counter_value(m, c)),
        counter_value(m, c) < u64::MAX ==> counter_value(bump_counter(m, c), c) == counter_value(m, c) + 1,
        other != c ==> counter_value(bump_counter(m, c), other) == counter_value(m, other),
        bump_counter(m, c).approvals_escalated == m.approvals_escalated,
{
}

/// What governance records: the audit events (without time stamps), the
/// counters and the SLA deadline.
pub struct GovView {
    pub events: Seq<AuditEventView>,
    pub metrics: GovernanceMetricsSnapshot,
    pub sla_deadline_ms: Option<u64>,
}

/// An audit event.
pub open spec fn audit_event(
    plan_id: Seq<char>,
    subtask_id: Option<Seq<char>>,
    kind: AuditEventKind,
    detail: Option<Seq<char>>,
) -> AuditEventView {
    AuditEventView { plan_id, subtask_id, event: kind, detail }
}

/// `g` after the event `e` is recorded without touching a counter.
pub open spec fn noted(g: GovView, e: AuditEventView) -> GovView {
    GovView { events: g.events.push(e), ..g }
}

/// `g` after the event `e` is recorded and counter `c` advanced.
pub open spec fn counted(g: GovView, e: AuditEventView, c: Counter) -> GovView {
    GovView { events: g.events.push(e), metrics: bump_counter(g.metrics, c), ..g }
}

/// `g` after a subtask of `plan_id` started.
pub open spec fn subtask_started(g: GovView, plan_id: Seq<char>, subtask_id: Seq<char>) -> GovView {
    counted(
        g,
        audit_event(plan_id, Some(subtask_id), AuditEventKind::SubtaskStarted, None),
        Counter::SubtasksStarted,
    )
}

/// `g` after a subtask of `plan_id` completed.
pub open spec fn subtask_completed(g: GovView, plan_id: Seq<char>, subtask_id: Seq<char>) -> GovView {
    counted(
        g,
        audit_event(plan_id, Some(subtask_id), AuditEventKind::SubtaskCompleted, None),
        Counter::SubtasksCompleted,
    )
}

/// `g` after a subtask of `plan_id` failed.
pub open spec fn subtask_failed(
    g: GovView,
    plan_id: Seq<char>,
    subtask_id: Seq<char>,
    detail: Option<Seq<char>>,
) -> GovView {
    counted(
        g,
        audit_event(plan_id, Some(subtask_id), AuditEventKind::SubtaskFailed, detail),
        Counter::SubtasksFailed,
    )
}

/// `g` after an approval was requested for a subtask of `plan_id`.
pub open spec fn approval_requested(g: GovView, plan_id: Seq<char>, subtask_id: Seq<char>) -> GovView {
    counted(
        g,
        audit_event(plan_id, Some(subtask_id), AuditEventKind::ApprovalRequested, None),
        Counter::ApprovalsRequested,
    )
}

/// Recording an event appends exactly that event to the audit trail, keeps
/// the SLA deadline, and advances only the counter it counts.
pub proof fn law_recording_appends(g: GovView, e: AuditEventView, c: Counter)
    ensures
        counted(g, e, c).events == g.events.push(e),
        counted(g, e, c).events.take(g.events.len() as int) == g.events,
        counted(g, e, c).sla_deadline_ms == g.sla_deadline_ms,
        counted(g, e, c).metrics == bump_counter(g.metrics, c),
        noted(g, e).events == g.events.push(e),
        noted(g, e).metrics == g.metrics,
{
    assert(g.events.push(e).take(g.events.len() as int) =~= g.events);
}

/// Governance state: the audit trail, the SLA deadline, the clock that
/// stamps entries and the activity counters.
pub struct Governance {
    audit: Vec<AuditEntry>,
    sla_deadline_ms: Option<u64>,
    clock: Box<dyn Clock>,
    metrics: GovernanceMetrics,
}

impl View for Governance {
    type V = GovView;

    closed spec fn view(&self) -> GovView {
        GovView {
            events: self.audit@.map_values(|e: AuditEntry| e@.event_view()),
            metrics: self.metrics@,
            sla_deadline_ms: self.sla_deadline_ms,
        }
    }
}

impl Governance {
    /// The clock that stamps entries.
    pub closed spec fn clock_of(&self) -> &Box<dyn Clock> {
        &self.clock
    }

    /// `t` is a reading the governance's clock may give.
    pub closed spec fn clock_reads(&self, t: u64) -> bool {
        self.clock.may_read(t)
    }


    /// The audit trail with time stamps.
    pub closed spec fn audit(&self) -> Seq<AuditEntryView> {
        audit_view(self.audit@)
    }

    /// The audit trail without time stamps is the trail with time stamps,
    /// each entry stripped of its stamp.
    pub proof fn lemma_events_are_audit(&self)
        ensures
            self@.events == self.audit().map_values(|e: AuditEntryView| e.event_view()),
    {
        assert(self@.events =~= self.audit().map_values(|e: AuditEntryView| e.event_view()));
    }

    /// Empty trail, no deadline, counters at zero, system clock.
    pub fn new() -> (r: Self)
        ensures
            r@ == (GovView { events: Seq::empty(), metrics: zero_metrics(), sla_deadline_ms: None }),
            r.audit() == Seq::<AuditEntryView>::empty(),
            forall|t: u64| #[trigger] r.clock_reads(t),
    {
        Governance::with_clock(Box::new(SystemClock))
    }

    /// Empty trail, no deadline, counters at zero; the governance keeps
    /// `clock` and stamps entries with its readings.
    pub fn with_clock(clock: Box<dyn Clock>) -> (r: Self)
        ensures
            r@ == (GovView { events: Seq::empty(), metrics: zero_metrics(), sla_deadline_ms: None }),
            r.audit() == Seq::<AuditEntryView>::empty(),
            forall|t: u64| #[trigger] r.clock_reads(t) == clock.may_read(t),
            *r.clock_of() == clock,
    {
        let mut c = clock;
        let mut r = Governance {
            audit: Vec::new(),
            sla_deadline_ms: None,
            clock: Box::new(SystemClock),
            metrics: GovernanceMetrics::zero(),
        };
        std::mem::swap(&mut r.clock, &mut c);
        assert(r@.events =~= Seq::<AuditEventView>::empty());
        assert(r.audit() =~= Seq::<AuditEntryView>::empty());
        r
    }

    /// Appends `entry` to the audit trail.
    pub fn record(&mut self, entry: AuditEntry)
        ensures
            final(self).audit() == old(self).audit().push(entry@),
            final(self)@ == noted(old(self)@, entry@.event_view()),
            final(self).clock_of() == old(self).clock_of(),
            forall|t: u64| #[trigger] final(self).clock_reads(t) == old(self).clock_reads(t),
    {
        self.audit.push(entry);
        assert(self.audit() =~= old(self).audit().push(entry@));
        assert(self@.events =~= old(self)@.events.push(entry@.event_view()));
    }

    /// Marks a subtask as succeeded; it records nothing.
    pub fn record_success(&mut self, _subtask_id: &str)
        ensures
            final(self)@ == old(self)@,
            final(self).audit() == old(self).audit(),
            final(self).clock_of() == old(self).clock_of(),
            forall|t: u64| #[trigger] final(self).clock_reads(t) == old(self).clock_reads(t),
    {
    }

    /// Appends an entry stamped with the clock's current time.
    pub fn record_event(
        &mut self,
        plan_id: &str,
        subtask_id: Option<&str>,
        event: AuditEventKind,
        detail: Option<String>,
    )
        ensures
            final(self).audit().drop_last() == old(self).audit(),
            final(self).audit().len() == old(self).audit().len() + 1,
            old(self).clock_reads(final(self).audit().last().ts_ms),
            final(self).clock_of() == old(self).clock_of(),
            forall|t: u64| #[trigger] final(self).clock_reads(t) == old(self).clock_reads(t),
            final(self)@ == noted(
                old(self)@,
                audit_event(
                    plan_id@,
                    match subtask_id {
                        Some(s) => Some(s@),
                        None => None,
                    },
                    event,
                    opt_string_view(detail),
                ),
            ),
    {
        let ts_ms = self.now_ms();
        let sub = match subtask_id {
            Some(s) => Some(s.to_string()),
            None => None,
        };
        let entry = AuditEntry { ts_ms, plan_id: plan_id.to_string(), subtask_id: sub, event, detail };
        self.record(entry);
    }

    /// Records that a subtask started.
    pub fn record_subtask_started(&mut self, plan_id: &str, subtask_id: &str)
        ensures
            final(self).audit().drop_last() == old(self).audit(),
            final(self).audit().len() == old(self).audit().len() + 1,
            old(self).clock_reads(final(self).audit().last().ts_ms),
            final(self).clock_of() == old(self).clock_of(),
            forall|t: u64| #[trigger] final(self).clock_reads(t) == old(self).clock_reads(t),
            final(self)@ == subtask_started(old(self)@, plan_id@, subtask_id@),
    {
        self.metrics.subtasks_started = self.metrics.subtasks_started.wrapping_add(1);
        self.record_event(plan_id, Some(subtask_id), AuditEventKind::SubtaskStarted, None);
    }

    /// Records that a subtask completed.
    pub fn record_subtask_completed(&mut self, plan_id: &str, subtask_id: &str)
        ensures
            final(self).audit().drop_last() == old(self).audit(),
            final(self).audit().len() == old(self).audit().len() + 1,
            old(self).clock_reads(final(self).audit().last().ts_ms),
            final(self).clock_of() == old(self).clock_of(),
            forall|t: u64| #[trigger] final(self).clock_reads(t) == old(self).clock_reads(t),
            final(self)@ == subtask_completed(old(self)@, plan_id@, subtask_id@),
    {
        self.metrics.subtasks_completed = self.metrics.subtasks_completed.wrapping_add(1);
        self.record_event(plan_id, Some(subtask_id), AuditEventKind::SubtaskCompleted, None);
    }

    /// Records that a subtask failed.
    pub fn record_subtask_failed(&mut self, plan_id: &str, subtask_id: &str, detail: Option<String>)
        ensures
            final(self).audit().drop_last() == old(self).audit(),
            final(self).audit().len() == old(self).audit().len() + 1,
            old(self).clock_reads(final(self).audit().last().ts_ms),
            final(self).clock_of() == old(self).clock_of(),
            forall|t: u64| #[trigger] final(self).clock_reads(t) == old(self).clock_reads(t),
            final(self)@ == subtask_failed(
                old(self)@,
                plan_id@,
                subtask_id@,
                opt_string_view(detail),
            ),
    {
        self.metrics.subtasks_failed = self.metrics.subtasks_failed.wrapping_add(1);
        self.record_event(plan_id, Some(subtask_id), AuditEventKind::SubtaskFailed, detail);
    }

    /// Records that a plan started.
    pub fn record_plan_started(&mut self, plan_id: &str)
        ensures
            final(self).audit().drop_last() == old(self).audit(),
            final(self).audit().len() == old(self).audit().len() + 1,
            old(self).clock_reads(final(self).audit().last().ts_ms),
            final(self).clock_of() == old(self).clock_of(),
            forall|t: u64| #[trigger] final(self).clock_reads(t) == old(self).clock_reads(t),
            final(self)@ == counted(
                old(self)@,
                audit_event(plan_id@, None, AuditEventKind::PlanStarted, None),
                Counter::PlansStarted,
            ),
    {
        self.metrics.plans_started = self.metrics.plans_started.wrapping_add(1);
        self.record_event(plan_id, None, AuditEventKind::PlanStarted, None);
    }

    /// Records that a plan completed.
    pub fn record_plan_completed(&mut self, plan_id: &str)
        ensures
            final(self).audit().drop_last() == old(self).audit(),
            final(self).audit().len() == old(self).audit().len() + 1,
            old(self).clock_reads(final(self).audit().last().ts_ms),
            final(self).clock_of() == old(self).clock_of(),
            forall|t: u64| #[trigger] final(self).clock_reads(t) == old(self).clock_reads(t),
            final(self)@ == counted(
                old(self)@,
                audit_event(plan_id@, None, AuditEventKind::PlanCompleted, None),
                Counter::PlansCompleted,
            ),
    {
        self.metrics.plans_completed = self.metrics.plans_completed.wrapping_add(1);
        self.record_event(plan_id, None, AuditEventKind::PlanCompleted, None);
    }

    /// Records that a plan failed.
    pub fn record_plan_failed(&mut self, plan_id: &str, detail: Option<String>)
        ensures
            final(self).audit().drop_last() == old(self).audit(),
            final(self).audit().len() == old(self).audit().len() + 1,
            old(self).clock_reads(final(self).audit().last().ts_ms),
            final(self).clock_of() == old(self).clock_of(),
            forall|t: u64| #[trigger] final(self).clock_reads(t) == old(self).clock_reads(t),
            final(self)@ == counted(
                old(self)@,
                audit_event(plan_id@, None, AuditEventKind::PlanFailed, opt_string_view(detail)),
                Counter::PlansFailed,
            ),
    {
        self.metrics.plans_failed = self.metrics.plans_failed.wrapping_add(1);
        self.record_event(plan_id, None, AuditEventKind::PlanFailed, detail);
    }

    /// Records that an approval was requested for a subtask.
    pub fn record_approval_requested(&mut self, plan_id: &str, subtask_id: &str)
        ensures
            final(self).audit().drop_last() == old(self).audit(),
            final(self).audit().len() == old(self).audit().len() + 1,
            old(self).clock_reads(final(self).audit().last().ts_ms),
            final(self).clock_of() == old(self).clock_of(),
            forall|t: u64| #[trigger] final(self).clock_reads(t) == old(self).clock_reads(t),
            final(self)@ == approval_requested(old(self)@, plan_id@, subtask_id@),
    {
        self.metrics.approvals_requested = self.metrics.approvals_requested.wrapping_add(1);
        self.record_event(plan_id, Some(subtask_id), AuditEventKind::ApprovalRequested, None);
    }

    /// Records that an approval for a subtask was resolved.
    pub fn record_approval_resolved(&mut self, plan_id: &str, subtask_id: &str, detail: Option<String>)
        ensures
            final(self).audit().drop_last() == old(self).audit(),
            final(self).audit().len() == old(self).audit().len() + 1,
            old(self).clock_reads(final(self).audit().last().ts_ms),
            final(self).clock_of() == old(self).clock_of(),
            forall|t: u64| #[trigger] final(self).clock_reads(t) == old(self).clock_reads(t),
            final(self)@ == counted(
                old(self)@,
                audit_event(
                    plan_id@,
                    Some(subtask_id@),
                    AuditEventKind::ApprovalResolved,
                    opt_string_view(detail),
                ),
                Counter::ApprovalsResolved,
            ),
    {
        self.metrics.approvals_resolved = self.metrics.approvals_resolved.wrapping_add(1);
        self.record_event(plan_id, Some(subtask_id), AuditEventKind::ApprovalResolved, detail);
    }

    /// The live counters.
    pub fn metrics_handle(&self) -> (r: &GovernanceMetrics)
        ensures
            r@ == self@.metrics,
    {
        &self.metrics
    }

    /// The current counter values.
    pub fn metrics_snapshot(&self) -> (r: GovernanceMetricsSnapshot)
        ensures
            r == self@.metrics,
    {
        self.metrics.snapshot()
    }

    /// Sets the SLA deadline.
    pub fn set_sla_deadline(&mut self, deadline_ms: u64)
        ensures
            final(self)@ == (GovView { sla_deadline_ms: Some(deadline_ms), ..old(self)@ }),
            final(self).audit() == old(self).audit(),
            final(self).clock_of() == old(self).clock_of(),
            forall|t: u64| #[trigger] final(self).clock_reads(t) == old(self).clock_reads(t),
    {
        self.sla_deadline_ms = Some(deadline_ms);
    }

    /// The SLA deadline, if one is set.
    pub fn sla_deadline(&self) -> (r: Option<u64>)
        ensures
            r == self@.sla_deadline_ms,
    {
        self.sla_deadline_ms
    }

    /// The audit trail in recording order.
    pub fn entries(&self) -> (r: &[AuditEntry])
        ensures
            audit_view(r@) == self.audit(),
    {
        self.audit.as_slice()
    }

    /// The clock's current time.
    pub fn now_ms(&self) -> (r: u64)
        ensures
            self.clock_reads(r),
    {
        self.clock.now_millis()
    }
}

/// A governance reads the clock it keeps: when that clock can only read
/// `t`, every reading of the governance, and so every time stamp it puts
/// on an entry, is `t`.
pub proof fn law_kept_clock_readings(g: &Governance, clock: Box<dyn Clock>, t: u64)
    requires
        *g.clock_of() == clock,
        forall|u: u64| #[trigger] clock.may_read(u) ==> u == t,
    ensures
        forall|u: u64| #[trigger] g.clock_reads(u) ==> u == t,
{
    assert forall|u: u64| #[trigger] g.clock_reads(u) implies u == t by {
        assert(clock.may_read(u));
    }
}

} // verus!
