//! Human-in-the-loop governor: approval requests for risky subtasks, human
//! decisions and escalation of expired requests.

use vstd::prelude::*;
use std::sync::Arc;
use crate::error::{ErrorView, OrchestratorError, OrchestratorResult};
use crate::governance::{Clock, SystemClock};
use crate::models::{
    ApprovalDecision, ApprovalRequest, ApprovalStatus, ApprovalView, PlanId, SubtaskSpec,
    SubtaskSpecView,
};
use crate::storage::{
    approvals_view, approvals_with_status, lists_pending, ApprovalStore, MemoryApprovalStore,
};
use crate::text::{concat2, concat3, strings_view};

verus! {

/// Receives every newly created approval request.
pub trait HitlNotifier: Send + Sync {
    fn notify(&self, req: &ApprovalRequest);
}

/// A shared notifier notifies through the value it shares.
impl HitlNotifier for Arc<dyn HitlNotifier> {
    fn notify(&self, req: &ApprovalRequest) {
        let inner: &dyn HitlNotifier = &**self;
        inner.notify(req)
    }
}

/// The id of the approval request for a subtask.
pub open spec fn approval_key(subtask_id: Seq<char>) -> Seq<char> {
    "appr-"@ + subtask_id
}

/// The request created for a subtask that needs approval.
pub open spec fn fresh_approval(plan_id: Seq<char>, subtask_id: Seq<char>) -> ApprovalView {
    ApprovalView {
        id: approval_key(subtask_id),
        plan_id,
        subtask_id,
        rationale: "Approval required for "@ + subtask_id,
        status: ApprovalStatus::Pending,
        expires_at_ms: None,
        escalation_ms: None,
        escalation_level: None,
    }
}

/// The message of the error raised for a request that can no longer be
/// approved.
pub open spec fn not_approvable_message(subtask_id: Seq<char>) -> Seq<char> {
    "subtask "@ + subtask_id + " approval not in approvable state"@
}

/// Asking for approval of `sub` opens a new request: its risk needs a
/// human and no request is stored under its approval key.
pub open spec fn opens_request(m: Map<Seq<char>, ApprovalView>, sub: SubtaskSpecView) -> bool {
    sub.needs_hitl() && !m.contains_key(approval_key(sub.id))
}

/// Approvals and outcome of asking for approval of `sub` in plan `plan_id`,
/// starting from the approvals `m`: no request when the subtask's risk does
/// not need a human; the existing request while it is pending; none once
/// approved; an error once rejected, expired or escalated; otherwise a new
/// pending request is stored and returned.
pub open spec fn request_outcome(
    m: Map<Seq<char>, ApprovalView>,
    plan_id: Seq<char>,
    sub: SubtaskSpecView,
) -> (Map<Seq<char>, ApprovalView>, Result<Option<ApprovalView>, ErrorView>) {
    let k = approval_key(sub.id);
    if !sub.needs_hitl() {
        (m, Ok(None))
    } else if m.contains_key(k) {
        match m[k].status {
            ApprovalStatus::Pending => (m, Ok(Some(m[k]))),
            ApprovalStatus::Approved => (m, Ok(None)),
            _ => (m, Err(ErrorView::Approval(not_approvable_message(sub.id)))),
        }
    } else {
        (m.insert(k, fresh_approval(plan_id, sub.id)), Ok(Some(fresh_approval(plan_id, sub.id))))
    }
}

pub open spec fn opt_approval_view(o: Option<ApprovalRequest>) -> Option<ApprovalView> {
    match o {
        Some(a) => Some(a@),
        None => None,
    }
}

pub open spec fn approval_result_view(r: OrchestratorResult<Option<ApprovalRequest>>) -> Result<
    Option<ApprovalView>,
    ErrorView,
> {
    match r {
        Ok(o) => Ok(opt_approval_view(o)),
        Err(e) => Err(e@),
    }
}

/// A subtask may run once its approval, if one exists, is approved.
pub open spec fn resume_allowed(m: Map<Seq<char>, ApprovalView>, subtask_id: Seq<char>) -> bool {
    !m.contains_key(approval_key(subtask_id)) || m[approval_key(subtask_id)].status
        == ApprovalStatus::Approved
}

/// A pending request whose expiry time has been reached at `now_ms`.
pub open spec fn approval_due(a: ApprovalView, now_ms: u64) -> bool {
    &&& a.status == ApprovalStatus::Pending
    &&& a.expires_at_ms matches Some(e) && now_ms >= e
}

/// The approvals after every request due at `now_ms` is escalated.
pub open spec fn escalated(m: Map<Seq<char>, ApprovalView>, now_ms: u64) -> Map<
    Seq<char>,
    ApprovalView,
> {
    Map::new(
        |k: Seq<char>| m.contains_key(k),
        |k: Seq<char>|
            if approval_due(m[k], now_ms) {
                m[k].with_status(ApprovalStatus::Escalated)
            } else {
                m[k]
            },
    )
}

/// The status a decision sets.
pub open spec fn decided_status(approved: bool) -> ApprovalStatus {
    if approved {
        ApprovalStatus::Approved
    } else {
        ApprovalStatus::Rejected
    }
}

/// Asking twice for approval of the same subtask in the same plan gives the
/// same answer as asking once, and the second request changes nothing: an
/// existing request is reused, never duplicated.
pub proof fn law_request_idempotent(m: Map<Seq<char>, ApprovalView>, plan_id: Seq<char>, sub: SubtaskSpecView)
    ensures
        request_outcome(request_outcome(m, plan_id, sub).0, plan_id, sub) == request_outcome(
            m,
            plan_id,
            sub,
        ),
{
}

/// A subtask that needs a human and has no request yet gets a new pending
/// request under its approval key, and that request is listed as pending.
pub proof fn law_new_request_pending(
    m: Map<Seq<char>, ApprovalView>,
    plan_id: Seq<char>,
    sub: SubtaskSpecView,
    l: Seq<ApprovalView>,
)
    requires
        sub.needs_hitl(),
        !m.contains_key(approval_key(sub.id)),
        lists_pending(request_outcome(m, plan_id, sub).0, l),
    ensures
        request_outcome(m, plan_id, sub).1 == Ok::<Option<ApprovalView>, ErrorView>(
            Some(fresh_approval(plan_id, sub.id)),
        ),
        request_outcome(m, plan_id, sub).0[approval_key(sub.id)].status == ApprovalStatus::Pending,
        exists|i: int| 0 <= i < l.len() && #[trigger] l[i].id == approval_key(sub.id),
{
    let m1 = request_outcome(m, plan_id, sub).0;
    assert(m1.contains_key(approval_key(sub.id)));
}

/// Once the request of a subtask is approved, asking for approval again
/// lets the subtask through and changes nothing; once it is rejected,
/// asking again is an approval error.
pub proof fn law_decision_settles_request(
    m: Map<Seq<char>, ApprovalView>,
    plan_id: Seq<char>,
    sub: SubtaskSpecView,
    approved: bool,
)
    requires
        sub.needs_hitl(),
        m.contains_key(approval_key(sub.id)),
    ensures
        ({
            let decided = approvals_with_status(m, approval_key(sub.id), decided_status(approved));
            if approved {
                request_outcome(decided, plan_id, sub) == (decided, Ok::<Option<ApprovalView>, ErrorView>(None))
                    && resume_allowed(decided, sub.id)
            } else {
                request_outcome(decided, plan_id, sub) == (decided, Err::<Option<ApprovalView>, ErrorView>(
                    ErrorView::Approval(not_approvable_message(sub.id)),
                )) && !resume_allowed(decided, sub.id)
            }
        }),
{
}

/// A decided request is no longer listed as pending.
pub proof fn law_decided_not_pending(
    m: Map<Seq<char>, ApprovalView>,
    id: Seq<char>,
    approved: bool,
    l: Seq<ApprovalView>,
)
    requires
        lists_pending(approvals_with_status(m, id, decided_status(approved)), l),
    ensures
        forall|i: int| 0 <= i < l.len() ==> #[trigger] l[i].id != id,
{
    let d = approvals_with_status(m, id, decided_status(approved));
    assert forall|i: int| 0 <= i < l.len() implies #[trigger] l[i].id != id by {
        if l[i].id == id {
            assert(d.contains_key(l[i].id) && d[l[i].id].status == ApprovalStatus::Pending);
        }
    }
}

/// After escalation at `now_ms` no request is due any more, the same ids are
/// stored, requests that were not due are unchanged and due ones differ
/// only in being escalated; so a pending list afterwards holds no request
/// whose expiry time has passed.
pub proof fn law_escalation_clears_due(
    m: Map<Seq<char>, ApprovalView>,
    now_ms: u64,
    l: Seq<ApprovalView>,
)
    requires
        lists_pending(escalated(m, now_ms), l),
    ensures
        escalated(m, now_ms).dom() == m.dom(),
        forall|k: Seq<char>|
            #[trigger] escalated(m, now_ms).contains_key(k) ==> !approval_due(escalated(m, now_ms)[k], now_ms)
                && (approval_due(m[k], now_ms) ==> escalated(m, now_ms)[k] == m[k].with_status(
                ApprovalStatus::Escalated,
            )) && (!approval_due(m[k], now_ms) ==> escalated(m, now_ms)[k] == m[k]),
        forall|i: int| 0 <= i < l.len() ==> !approval_due(#[trigger] l[i], now_ms),
{
    let e = escalated(m, now_ms);
    assert(e.dom() =~= m.dom());
    assert forall|i: int| 0 <= i < l.len() implies !approval_due(#[trigger] l[i], now_ms) by {
        assert(e.contains_key(l[i].id) && e[l[i].id] == l[i]);
    }
}

/// What a wait for a human decision does after looking at the requests.
#[derive(Debug, Clone, Copy, PartialEq, Eq, Structural)]
pub enum WaitAction {
    /// The request was decided; the wait ends with this status.
    Decided(ApprovalStatus),
    /// The request is still pending, or not stored yet; wait some more.
    KeepWaiting,
}

/// The next step of a wait on request `id`: it ends once the request is
/// stored with a status other than pending.
pub open spec fn wait_action(m: Map<Seq<char>, ApprovalView>, id: Seq<char>) -> WaitAction {
    if m.contains_key(id) && m[id].status != ApprovalStatus::Pending {
        WaitAction::Decided(m[id].status)
    } else {
        WaitAction::KeepWaiting
    }
}

/// The step of a wait that found `found` stored under the awaited id: the
/// wait ends once the request has a status other than pending.
pub open spec fn wait_decision_of(found: Option<ApprovalView>) -> WaitAction {
    match found {
        Some(a) => if a.status != ApprovalStatus::Pending {
            WaitAction::Decided(a.status)
        } else {
            WaitAction::KeepWaiting
        },
        None => WaitAction::KeepWaiting,
    }
}

/// One step of a wait, given what the store holds under the awaited id.
pub fn wait_decision(found: Option<ApprovalRequest>) -> (r: WaitAction)
    ensures
        r == wait_decision_of(opt_approval_view(found)),
{
    match found {
        Some(current) => {
            if current.status != ApprovalStatus::Pending {
                WaitAction::Decided(current.status)
            } else {
                WaitAction::KeepWaiting
            }
        },
        None => WaitAction::KeepWaiting,
    }
}

/// The answer to a request for approval of subtask `subtask_id`, given the
/// request `found` already stored under its approval key: the request
/// itself while pending, none once approved, an approval error once
/// rejected, expired or escalated; `None` when no request is stored, so a
/// new one has to be opened.
pub open spec fn existing_outcome(found: Option<ApprovalView>, subtask_id: Seq<char>) -> Option<
    Result<Option<ApprovalView>, ErrorView>,
> {
    match found {
        None => None,
        Some(a) => Some(
            match a.status {
                ApprovalStatus::Pending => Ok(Some(a)),
                ApprovalStatus::Approved => Ok(None),
                _ => Err(ErrorView::Approval(not_approvable_message(subtask_id))),
            },
        ),
    }
}

pub open spec fn opt_outcome_view(o: Option<OrchestratorResult<Option<ApprovalRequest>>>) -> Option<
    Result<Option<ApprovalView>, ErrorView>,
> {
    match o {
        Some(r) => Some(approval_result_view(r)),
        None => None,
    }
}

/// Decides a request for approval of `subtask` from the request `found`
/// under its approval key; `None` when a new request has to be opened.
pub fn decide_existing(found: Option<ApprovalRequest>, subtask: &SubtaskSpec) -> (r: Option<
    OrchestratorResult<Option<ApprovalRequest>>,
>)
    ensures
        opt_outcome_view(r) == existing_outcome(opt_approval_view(found), subtask@.id),
{
    match found {
        None => None,
        Some(existing) => {
            match existing.status {
                ApprovalStatus::Pending => Some(Ok(Some(existing))),
                ApprovalStatus::Approved => Some(Ok(None)),
                _ => Some(
                    Err(
                        OrchestratorError::Approval(
                            concat3(
                                "subtask ",
                                subtask.id.as_str(),
                                " approval not in approvable state",
                            ),
                        ),
                    ),
                ),
            }
        },
    }
}

/// The expiry time of `a` has been reached at `now_ms`.
pub open spec fn expiry_reached(a: ApprovalView, now_ms: u64) -> bool {
    a.expires_at_ms matches Some(e) && now_ms >= e
}

/// The ids of the requests in `l` whose expiry time has been reached at
/// `now_ms`, in the order of `l`.
pub open spec fn due_ids_of(l: Seq<ApprovalView>, now_ms: u64) -> Seq<Seq<char>>
    decreases l.len(),
{
    if l.len() == 0 {
        Seq::empty()
    } else {
        let rest = due_ids_of(l.drop_last(), now_ms);
        if expiry_reached(l.last(), now_ms) {
            rest.push(l.last().id)
        } else {
            rest
        }
    }
}

/// An id is among the due ids exactly when a request of `l` with that id
/// has reached its expiry time.
pub proof fn lemma_due_ids_member(l: Seq<ApprovalView>, now_ms: u64, k: Seq<char>)
    ensures
        due_ids_of(l, now_ms).contains(k) <==> exists|j: int|
            0 <= j < l.len() && #[trigger] l[j].id == k && expiry_reached(l[j], now_ms),
    decreases l.len(),
{
    if l.len() > 0 {
        let p = l.drop_last();
        lemma_due_ids_member(p, now_ms, k);
        let rest = due_ids_of(p, now_ms);
        if due_ids_of(l, now_ms).contains(k) {
            let i = choose|i: int| 0 <= i < due_ids_of(l, now_ms).len() && due_ids_of(l, now_ms)[i] == k;
            if i < rest.len() {
                assert(rest[i] == k);
                let j = choose|j: int| 0 <= j < p.len() && #[trigger] p[j].id == k && expiry_reached(p[j], now_ms);
                assert(l[j] == p[j]);
            } else {
                assert(l[l.len() - 1].id == k);
            }
        }
        if exists|j: int| 0 <= j < l.len() && #[trigger] l[j].id == k && expiry_reached(l[j], now_ms) {
            let j = choose|j: int| 0 <= j < l.len() && #[trigger] l[j].id == k && expiry_reached(l[j], now_ms);
            if j < l.len() - 1 {
                assert(p[j] == l[j]);
                assert(rest.contains(k));
                let i = choose|i: int| 0 <= i < rest.len() && rest[i] == k;
                assert(due_ids_of(l, now_ms)[i] == k);
            } else {
                assert(due_ids_of(l, now_ms)[due_ids_of(l, now_ms).len() - 1] == k);
            }
        }
    }
}

/// The ids of the pending requests `pending` whose expiry time has been
/// reached at `now_ms`, in order.
pub fn due_ids(pending: &Vec<ApprovalRequest>, now_ms: u64) -> (r: Vec<String>)
    ensures
        strings_view(r@) == due_ids_of(approvals_view(pending@), now_ms),
{
    let ghost l = approvals_view(pending@);
    let mut out: Vec<String> = Vec::new();
    let mut i: usize = 0;
    while i < pending.len()
        invariant
            i <= pending@.len(),
            l == approvals_view(pending@),
            strings_view(out@) == due_ids_of(l.take(i as int), now_ms),
        decreases pending@.len() - i,
    {
        let ghost before = out@;
        proof {
            assert(l.take(i + 1).drop_last() =~= l.take(i as int));
            assert(l.take(i + 1).last() == pending@[i as int]@);
        }
        let due = match pending[i].expires_at_ms {
            Some(expiry) => now_ms >= expiry,
            None => false,
        };
        if due {
            out.push(pending[i].id.clone());
            proof {
                assert(strings_view(out@) =~= strings_view(before).push(pending@[i as int].id@));
            }
        }
        i = i + 1;
    }
    proof {
        assert(l.take(pending@.len() as int) =~= l);
    }
    out
}

/// Every request of `m2` is that of `m` under the same id, or was due at
/// `now_ms` in `m` and is now escalated; the same ids are stored.
pub open spec fn escalates_only_due(
    m: Map<Seq<char>, ApprovalView>,
    m2: Map<Seq<char>, ApprovalView>,
    now_ms: u64,
) -> bool {
    &&& m2.dom() == m.dom()
    &&& forall|k: Seq<char>|
        #[trigger] m2.contains_key(k) ==> m2[k] == m[k] || (approval_due(m[k], now_ms) && m2[k]
            == m[k].with_status(ApprovalStatus::Escalated))
}

/// The approvals `m` with the first `n` ids of `d` escalated.
spec fn escalated_first(m: Map<Seq<char>, ApprovalView>, d: Seq<Seq<char>>, n: int) -> Map<
    Seq<char>,
    ApprovalView,
> {
    Map::new(
        |k: Seq<char>| m.contains_key(k),
        |k: Seq<char>|
            if exists|j: int| 0 <= j < n && #[trigger] d[j] == k {
                m[k].with_status(ApprovalStatus::Escalated)
            } else {
                m[k]
            },
    )
}

proof fn lemma_due_ids_are_due(
    m: Map<Seq<char>, ApprovalView>,
    l: Seq<ApprovalView>,
    now_ms: u64,
    k: Seq<char>,
)
    requires
        lists_pending(m, l),
        m.contains_key(k),
    ensures
        due_ids_of(l, now_ms).contains(k) <==> approval_due(m[k], now_ms),
{
    lemma_due_ids_member(l, now_ms, k);
    if approval_due(m[k], now_ms) {
        let j = choose|j: int| 0 <= j < l.len() && #[trigger] l[j].id == k;
        assert(l[j] == m[k]);
    }
    if due_ids_of(l, now_ms).contains(k) {
        let j = choose|j: int| 0 <= j < l.len() && #[trigger] l[j].id == k && expiry_reached(l[j], now_ms);
        assert(m[l[j].id] == l[j]);
    }
}

proof fn lemma_escalated_first(
    m: Map<Seq<char>, ApprovalView>,
    l: Seq<ApprovalView>,
    now_ms: u64,
    n: int,
)
    requires
        lists_pending(m, l),
        0 <= n <= due_ids_of(l, now_ms).len(),
    ensures
        escalates_only_due(m, escalated_first(m, due_ids_of(l, now_ms), n), now_ms),
        n == due_ids_of(l, now_ms).len() ==> escalated_first(m, due_ids_of(l, now_ms), n)
            == escalated(m, now_ms),
{
    let d = due_ids_of(l, now_ms);
    let e = escalated_first(m, d, n);
    assert(e.dom() =~= m.dom());
    assert forall|k: Seq<char>| #[trigger] e.contains_key(k) implies e[k] == m[k] || (approval_due(
        m[k],
        now_ms,
    ) && e[k] == m[k].with_status(ApprovalStatus::Escalated)) by {
        lemma_due_ids_are_due(m, l, now_ms, k);
        if exists|j: int| 0 <= j < n && #[trigger] d[j] == k {
            let j = choose|j: int| 0 <= j < n && #[trigger] d[j] == k;
            assert(d.contains(k));
        }
    }
    if n == d.len() {
        assert forall|k: Seq<char>| #[trigger] e.contains_key(k) implies e[k] == escalated(m, now_ms)[k] by {
            lemma_due_ids_are_due(m, l, now_ms, k);
            if approval_due(m[k], now_ms) {
                let j = choose|j: int| 0 <= j < d.len() && d[j] == k;
                assert(d[j] == k);
            } else if exists|j: int| 0 <= j < n && #[trigger] d[j] == k {
                let j = choose|j: int| 0 <= j < n && #[trigger] d[j] == k;
                assert(d.contains(k));
            }
        }
        assert(e =~= escalated(m, now_ms));
    }
}

/// Keeps approval requests in a store `S`, asks for approval of risky
/// subtasks and applies human decisions.  An error of the store is handed
/// back to the caller; only a store that may fail can cause one.
pub struct HitlGovernor<S = MemoryApprovalStore> {
    pub(crate) approvals: S,
    notifier: Option<Arc<dyn HitlNotifier>>,
    clock: Option<Arc<dyn Clock>>,
    notified: Ghost<Seq<ApprovalView>>,
}

/// `Some(t)`.  Moving a shared trait object through this generic call keeps
/// it the same value to the verifier.
fn some_of<T>(t: T) -> (r: Option<T>)
    ensures
        r matches Some(x) && x == t,
{
    Some(t)
}

impl HitlGovernor<MemoryApprovalStore> {
    /// A governor with an empty in-memory store, no notifier and the system
    /// clock.
    pub fn new() -> (r: Self)
        ensures
            r.approval_map() == Map::<Seq<char>, ApprovalView>::empty(),
            !r.has_notifier(),
            r.clock_of() is None,
            r.notified() == Seq::<ApprovalView>::empty(),
    {
        HitlGovernor::with_store(MemoryApprovalStore::new())
    }
}

impl<S: ApprovalStore> HitlGovernor<S> {
    /// The store of approval requests.
    pub closed spec fn store(&self) -> S {
        self.approvals
    }

    /// The approval requests by id.
    pub closed spec fn approval_map(&self) -> Map<Seq<char>, ApprovalView> {
        self.approvals.approvals()
    }

    /// The requests handed to the notifier so far, in order.
    pub closed spec fn notified(&self) -> Seq<ApprovalView> {
        self.notified@
    }

    /// The notifier told of new requests, if any.
    pub closed spec fn notifier_of(&self) -> Option<Arc<dyn HitlNotifier>> {
        self.notifier
    }

    /// Whether a notifier is told of new requests.
    pub open spec fn has_notifier(&self) -> bool {
        self.notifier_of() is Some
    }

    /// The clock the governor reads; `None` for the system clock.
    pub closed spec fn clock_of(&self) -> Option<Arc<dyn Clock>> {
        self.clock
    }

    /// A governor over `store`, with no notifier and the system clock.
    pub fn with_store(store: S) -> (r: Self)
        ensures
            r.store() == store,
            r.approval_map() == store.approvals(),
            !r.has_notifier(),
            r.clock_of() is None,
            r.notified() == Seq::<ApprovalView>::empty(),
    {
        HitlGovernor {
            approvals: store,
            notifier: None,
            clock: None,
            notified: Ghost(Seq::empty()),
        }
    }

    /// The same governor, with `notifier` told of every new request.
    pub fn with_notifier(self, notifier: Arc<dyn HitlNotifier>) -> (r: Self)
        ensures
            r.store() == self.store(),
            r.approval_map() == self.approval_map(),
            r.notifier_of() matches Some(n) && n == notifier,
            r.clock_of() == self.clock_of(),
            r.notified() == self.notified(),
    {
        let mut g = self;
        let mut n = some_of(notifier);
        std::mem::swap(&mut g.notifier, &mut n);
        g
    }

    /// The same governor, reading time from `clock`.
    pub fn with_clock(self, clock: Arc<dyn Clock>) -> (r: Self)
        ensures
            r.store() == self.store(),
            r.approval_map() == self.approval_map(),
            r.clock_of() matches Some(c) && c == clock,
            forall|t: u64| #[trigger] r.clock_reads(t) == clock.may_read(t),
            r.notifier_of() == self.notifier_of(),
            r.notified() == self.notified(),
    {
        let mut g = self;
        let mut c = some_of(clock);
        std::mem::swap(&mut g.clock, &mut c);
        g
    }

    /// The store of approval requests.
    pub fn approval_store(&self) -> (r: &S)
        ensures
            *r == self.store(),
            r.approvals() == self.approval_map(),
    {
        &self.approvals
    }

    /// Gives up the governor, returning its store.
    pub fn into_store(self) -> (r: S)
        ensures
            r == self.store(),
            r.approvals() == self.approval_map(),
    {
        self.approvals
    }

    /// `t` is a reading the governor's clock may give.
    pub open spec fn clock_reads(&self, t: u64) -> bool {
        match self.clock_of() {
            Some(c) => c.may_read(t),
            None => SystemClock.may_read(t),
        }
    }

    /// The clock's current time.
    pub fn now_ms(&self) -> (r: u64)
        ensures
            self.clock_reads(r),
    {
        match &self.clock {
            Some(c) => c.now_millis(),
            None => SystemClock.now_millis(),
        }
    }

    /// Stores `req`, replacing any request with its id; a request with an
    /// empty id is refused.
    pub fn request(&mut self, req: ApprovalRequest) -> (r: OrchestratorResult<ApprovalRequest>)
        ensures
            req@.id.len() == 0 ==> (r matches Err(e) && e@ == ErrorView::InvalidInput(
                "approval id is empty"@,
            )) && final(self).approval_map() == old(self).approval_map(),
            req@.id.len() > 0 ==> ((r matches Ok(a) && a@ == req@) && final(self).approval_map()
                == old(self).approval_map().insert(req@.id, req@)) || (r is Err
                && !old(self).store().infallible() && final(self).approval_map()
                == old(self).approval_map()),
            final(self).store().infallible() == old(self).store().infallible(),
            final(self).notified() == old(self).notified(),
            final(self).notifier_of() == old(self).notifier_of(),
            final(self).clock_of() == old(self).clock_of(),
    {
        if req.id.as_str().is_empty() {
            return Err(OrchestratorError::InvalidInput("approval id is empty".to_string()));
        }
        self.approvals.insert(req.clone())?;
        Ok(req)
    }

    /// Applies a human decision: the request gets `Approved` or `Rejected`
    /// (nothing changes when no request has that id); a decision with an
    /// empty id is refused.
    pub fn apply(&mut self, decision: ApprovalDecision) -> (r: OrchestratorResult<ApprovalStatus>)
        ensures
            decision@.approval_id.len() == 0 ==> (r matches Err(e) && e@
                == ErrorView::InvalidInput("approval id is empty"@)) && final(self).approval_map()
                == old(self).approval_map(),
            decision@.approval_id.len() > 0 ==> (r == Ok::<ApprovalStatus, OrchestratorError>(
                decided_status(decision.approved),
            ) && final(self).approval_map() == approvals_with_status(
                old(self).approval_map(),
                decision@.approval_id,
                decided_status(decision.approved),
            )) || (r is Err && !old(self).store().infallible() && final(self).approval_map()
                == old(self).approval_map()),
            final(self).store().infallible() == old(self).store().infallible(),
            final(self).notified() == old(self).notified(),
            final(self).notifier_of() == old(self).notifier_of(),
            final(self).clock_of() == old(self).clock_of(),
    {
        if decision.approval_id.as_str().is_empty() {
            return Err(OrchestratorError::InvalidInput("approval id is empty".to_string()));
        }
        let status = if decision.approved {
            ApprovalStatus::Approved
        } else {
            ApprovalStatus::Rejected
        };
        self.approvals.update_status(&decision.approval_id, status)?;
        Ok(status)
    }

    /// Asks for approval of `subtask` when its risk needs a human: reuses the
    /// pending request, lets an approved subtask through, refuses one whose
    /// request was rejected, expired or escalated, and otherwise stores a
    /// new pending request and tells the notifier.  A subtask whose risk
    /// needs no human is let through without consulting the store.
    pub fn maybe_request_approval(&mut self, plan_id: &PlanId, subtask: &SubtaskSpec) -> (r:
        OrchestratorResult<Option<ApprovalRequest>>)
        ensures
            !subtask@.needs_hitl() ==> (r matches Ok(None) && final(self).approval_map()
                == old(self).approval_map()),
            (final(self).approval_map(), approval_result_view(r)) == request_outcome(
                old(self).approval_map(),
                plan_id@,
                subtask@,
            ) || (subtask@.needs_hitl() && r is Err && !old(self).store().infallible()
                && final(self).approval_map() == old(self).approval_map()),
            final(self).store().infallible() == old(self).store().infallible(),
            final(self).notifier_of() == old(self).notifier_of(),
            final(self).clock_of() == old(self).clock_of(),
            final(self).notified() == if opens_request(old(self).approval_map(), subtask@)
                && old(self).has_notifier() && r is Ok {
                old(self).notified().push(fresh_approval(plan_id@, subtask@.id))
            } else {
                old(self).notified()
            },
    {
        let needs = match subtask.risk_level {
            Some(risk) => risk.requires_hitl(),
            None => false,
        };
        if !needs {
            return Ok(None);
        }
        let key = concat2("appr-", subtask.id.as_str());
        let found = self.approvals.get(&key)?;
        match decide_existing(found, subtask) {
            Some(answer) => {
                return answer;
            },
            None => {},
        }
        let req = ApprovalRequest {
            id: key,
            plan_id: plan_id.clone(),
            subtask_id: subtask.id.clone(),
            rationale: concat2("Approval required for ", subtask.id.as_str()),
            status: ApprovalStatus::Pending,
            expires_at_ms: None,
            escalation_ms: None,
            escalation_level: None,
        };
        self.approvals.insert(req.clone())?;
        match &self.notifier {
            Some(notifier) => {
                notifier.notify(&req);
                proof {
                    self.notified@ = self.notified@.push(req@);
                }
            },
            None => {},
        }
        Ok(Some(req))
    }

    /// The pending requests, each once.
    pub fn pending(&self) -> (r: OrchestratorResult<Vec<ApprovalRequest>>)
        ensures
            (r matches Ok(v) && lists_pending(self.approval_map(), approvals_view(v@))) || (r is Err
                && !self.store().infallible()),
    {
        self.approvals.list_pending()
    }

    /// Escalates every pending request whose expiry time is at or before
    /// `now_ms`; other requests are unchanged.  Whatever the outcome, each
    /// request is unchanged or was due and is now escalated.
    pub fn escalate_expired(&mut self, now_ms: u64) -> (r: OrchestratorResult<()>)
        ensures
            (r is Ok && final(self).approval_map() == escalated(old(self).approval_map(), now_ms))
                || (r is Err && !old(self).store().infallible()),
            escalates_only_due(old(self).approval_map(), final(self).approval_map(), now_ms),
            final(self).store().infallible() == old(self).store().infallible(),
            final(self).notified() == old(self).notified(),
            final(self).notifier_of() == old(self).notifier_of(),
            final(self).clock_of() == old(self).clock_of(),
    {
        let ghost m0 = self.approval_map();
        let pending = self.approvals.list_pending()?;
        let ghost l = approvals_view(pending@);
        let due = due_ids(&pending, now_ms);
        let ghost d = strings_view(due@);
        let mut j: usize = 0;
        proof {
            lemma_escalated_first(m0, l, now_ms, 0);
            assert(self.approval_map() =~= escalated_first(m0, d, 0));
        }
        while j < due.len()
            invariant
                j <= due@.len(),
                d == strings_view(due@),
                d == due_ids_of(l, now_ms),
                lists_pending(m0, l),
                self.approval_map() == escalated_first(m0, d, j as int),
                escalates_only_due(m0, self.approval_map(), now_ms),
                self.notified() == old(self).notified(),
                self.notifier_of() == old(self).notifier_of(),
                self.clock_of() == old(self).clock_of(),
                self.store().infallible() == old(self).store().infallible(),
                m0 == old(self).approval_map(),
            decreases due@.len() - j,
        {
            self.approvals.update_status(&due[j], ApprovalStatus::Escalated)?;
            proof {
                let k = d[j as int];
                assert(due@[j as int]@ == k);
                let next = escalated_first(m0, d, j + 1);
                assert forall|x: Seq<char>| #[trigger] self.approval_map().contains_key(x)
                    == next.contains_key(x) by {}
                assert forall|x: Seq<char>| self.approval_map().contains_key(x) implies
                    #[trigger] self.approval_map()[x] == next[x] by {
                    if x == k {
                        assert(d[j as int] == x);
                    } else if exists|i: int| 0 <= i < j + 1 && #[trigger] d[i] == x {
                        let i = choose|i: int| 0 <= i < j + 1 && #[trigger] d[i] == x;
                        assert(i != j);
                    }
                }
                assert(self.approval_map() =~= next);
                lemma_escalated_first(m0, l, now_ms, j + 1);
            }
            j = j + 1;
        }
        proof {
            lemma_escalated_first(m0, l, now_ms, d.len() as int);
        }
        Ok(())
    }

    /// One step of waiting for a decision on request `approval_id`: once the
    /// wait has timed out it is an approval error; otherwise the wait ends
    /// with the request's status when it is no longer pending.
    pub fn wait_step(&self, approval_id: &str, timed_out: bool) -> (r: OrchestratorResult<WaitAction>)
        ensures
            timed_out ==> (r matches Err(e) && e@ == ErrorView::Approval("approval wait timed out"@)),
            !timed_out ==> r == Ok::<WaitAction, OrchestratorError>(
                wait_action(self.approval_map(), approval_id@),
            ) || (r is Err && !self.store().infallible()),
    {
        if timed_out {
            return Err(OrchestratorError::Approval("approval wait timed out".to_string()));
        }
        let found = self.get(approval_id)?;
        Ok(wait_decision(found))
    }

    /// The request with id `id`, if any.
    pub fn get(&self, id: &str) -> (r: OrchestratorResult<Option<ApprovalRequest>>)
        ensures
            (r matches Ok(o) && opt_approval_view(o) == if self.approval_map().contains_key(id@) {
                Some(self.approval_map()[id@])
            } else {
                None::<ApprovalView>
            }) || (r is Err && !self.store().infallible()),
    {
        self.approvals.get(&id.to_string())
    }
}

/// A subtask is let through without a request exactly when its risk needs
/// no human or the request stored under its approval key is approved; a
/// request that was rejected, expired or escalated is an approval error,
/// and in neither case do the approvals change.
pub proof fn law_request_gate(m: Map<Seq<char>, ApprovalView>, plan_id: Seq<char>, sub: SubtaskSpecView)
    ensures
        request_outcome(m, plan_id, sub).1 == Ok::<Option<ApprovalView>, ErrorView>(None) <==> (
        !sub.needs_hitl() || (m.contains_key(approval_key(sub.id)) && m[approval_key(sub.id)].status
            == ApprovalStatus::Approved)),
        sub.needs_hitl() && m.contains_key(approval_key(sub.id)) && (m[approval_key(sub.id)].status
            == ApprovalStatus::Rejected || m[approval_key(sub.id)].status == ApprovalStatus::Expired
            || m[approval_key(sub.id)].status == ApprovalStatus::Escalated) ==> request_outcome(
            m,
            plan_id,
            sub,
        ) == (m, Err::<Option<ApprovalView>, ErrorView>(
            ErrorView::Approval("subtask "@ + sub.id + " approval not in approvable state"@),
        )),
{
}

/// Of a stored request, only an approved one lets its subtask through, only
/// a pending one is handed back, and a rejected, expired or escalated one
/// is an approval error.
pub proof fn law_existing_request_answer(a: ApprovalView, subtask_id: Seq<char>)
    ensures
        existing_outcome(Some(a), subtask_id) == Some(Ok::<Option<ApprovalView>, ErrorView>(None))
            <==> a.status == ApprovalStatus::Approved,
        existing_outcome(Some(a), subtask_id) == Some(Ok::<Option<ApprovalView>, ErrorView>(Some(a)))
            <==> a.status == ApprovalStatus::Pending,
        (a.status == ApprovalStatus::Rejected || a.status == ApprovalStatus::Expired || a.status
            == ApprovalStatus::Escalated) ==> existing_outcome(Some(a), subtask_id) == Some(
            Err::<Option<ApprovalView>, ErrorView>(
                ErrorView::Approval("subtask "@ + subtask_id + " approval not in approvable state"@),
            ),
        ),
        existing_outcome(None, subtask_id) is None,
{
}

} // verus!
