//! Storage for plans, approval requests and audit entries, with in-memory
//! implementations.

use vstd::prelude::*;
use crate::error::OrchestratorResult;
use crate::models::{
    ApprovalId, ApprovalRequest, ApprovalStatus, ApprovalView, AuditEntry, AuditEntryView,
    ExecutionPlan, PlanId, PlanStatus, PlanView,
};
use crate::text::str_eq;

verus! {

/// Values stored under a textual key.
pub trait Keyed: View {
    spec fn key(&self) -> Seq<char>;
}

impl Keyed for ExecutionPlan {
    open spec fn key(&self) -> Seq<char> {
        self.id@
    }
}

impl Keyed for ApprovalRequest {
    open spec fn key(&self) -> Seq<char> {
        self.id@
    }
}

/// Position `i` of `s` holds the value stored under key `k`.
pub open spec fn key_at<T: Keyed>(s: Seq<T>, k: Seq<char>, i: int) -> bool {
    0 <= i < s.len() && s[i].key() == k
}

/// No two positions of `s` hold the same key.
pub open spec fn keys_unique<T: Keyed>(s: Seq<T>) -> bool {
    forall|i: int, j: int| key_at(s, s[i].key(), i) && key_at(s, s[i].key(), j) ==> i == j
}

/// The map from keys to the views of the values stored in `s`.
pub open spec fn keyed_map<T: Keyed>(s: Seq<T>) -> Map<Seq<char>, T::V> {
    Map::new(
        |k: Seq<char>| exists|i: int| key_at(s, k, i),
        |k: Seq<char>| s[choose|i: int| key_at(s, k, i)]@,
    )
}

proof fn lemma_keyed_lookup<T: Keyed>(s: Seq<T>, i: int)
    requires
        keys_unique(s),
        0 <= i < s.len(),
    ensures
        keyed_map(s).contains_key(s[i].key()),
        keyed_map(s)[s[i].key()] == s[i]@,
{
    let k = s[i].key();
    assert(key_at(s, k, i));
    let j = choose|j: int| key_at(s, k, j);
    assert(key_at(s, s[i].key(), j));
}

proof fn lemma_keyed_absent<T: Keyed>(s: Seq<T>, k: Seq<char>)
    requires
        forall|i: int| 0 <= i < s.len() ==> s[i].key() != k,
    ensures
        !keyed_map(s).contains_key(k),
{
}

proof fn lemma_keyed_push<T: Keyed>(s: Seq<T>, v: T)
    requires
        keys_unique(s),
        !keyed_map(s).contains_key(v.key()),
    ensures
        keys_unique(s.push(v)),
        keyed_map(s.push(v)) == keyed_map(s).insert(v.key(), v@),
{
    let t = s.push(v);
    assert forall|i: int| 0 <= i < s.len() implies s[i].key() != v.key() by {
        if s[i].key() == v.key() {
            assert(key_at(s, v.key(), i));
        }
    }
    assert forall|i: int, j: int| key_at(t, t[i].key(), i) && key_at(t, t[i].key(), j) implies i
        == j by {
        if i < s.len() && j < s.len() {
            assert(key_at(s, s[i].key(), i) && key_at(s, s[i].key(), j));
        }
    }
    let m = keyed_map(s).insert(v.key(), v@);
    assert forall|k: Seq<char>| #[trigger] keyed_map(t).contains_key(k) <==> m.contains_key(k) by {
        if keyed_map(t).contains_key(k) {
            let i = choose|i: int| key_at(t, k, i);
            if i < s.len() {
                assert(key_at(s, k, i));
            }
        }
        if keyed_map(s).contains_key(k) {
            let i = choose|i: int| key_at(s, k, i);
            assert(key_at(t, k, i));
        }
        if k == v.key() {
            assert(key_at(t, k, s.len() as int));
        }
    }
    assert forall|k: Seq<char>| keyed_map(t).contains_key(k) implies #[trigger] keyed_map(t)[k]
        == m[k] by {
        let i = choose|i: int| key_at(t, k, i);
        if k == v.key() {
            assert(key_at(t, k, s.len() as int));
        } else {
            assert(i < s.len());
            assert(key_at(s, k, i));
            let j = choose|j: int| key_at(s, k, j);
            assert(key_at(t, k, j));
            assert(key_at(t, t[i].key(), i) && key_at(t, t[i].key(), j));
        }
    }
    assert(keyed_map(t) =~= m);
}

proof fn lemma_keyed_update<T: Keyed>(s: Seq<T>, i: int, v: T)
    requires
        keys_unique(s),
        0 <= i < s.len(),
        s[i].key() == v.key(),
    ensures
        keys_unique(s.update(i, v)),
        keyed_map(s.update(i, v)) == keyed_map(s).insert(v.key(), v@),
{
    let t = s.update(i, v);
    assert forall|a: int, b: int| key_at(t, t[a].key(), a) && key_at(t, t[a].key(), b) implies a
        == b by {
        assert(key_at(s, s[a].key(), a) && key_at(s, s[a].key(), b));
    }
    let m = keyed_map(s).insert(v.key(), v@);
    assert forall|k: Seq<char>| #[trigger] keyed_map(t).contains_key(k) <==> m.contains_key(k) by {
        if keyed_map(t).contains_key(k) {
            let a = choose|a: int| key_at(t, k, a);
            assert(key_at(s, k, a));
        }
        if keyed_map(s).contains_key(k) {
            let a = choose|a: int| key_at(s, k, a);
            assert(key_at(t, k, a));
        }
        if k == v.key() {
            assert(key_at(t, k, i));
        }
    }
    assert forall|k: Seq<char>| keyed_map(t).contains_key(k) implies #[trigger] keyed_map(t)[k]
        == m[k] by {
        let a = choose|a: int| key_at(t, k, a);
        if k == v.key() {
            assert(key_at(t, t[a].key(), a) && key_at(t, t[a].key(), i));
        } else {
            assert(key_at(s, k, a));
            let b = choose|b: int| key_at(s, k, b);
            assert(key_at(t, k, b));
            assert(key_at(t, t[a].key(), a) && key_at(t, t[a].key(), b));
        }
    }
    assert(keyed_map(t) =~= m);
}

/// The plan map after the plan stored under `id` (if any) gets `status`.
pub open spec fn plans_with_status(m: Map<Seq<char>, PlanView>, id: Seq<char>, status: PlanStatus) -> Map<
    Seq<char>,
    PlanView,
> {
    if m.contains_key(id) {
        m.insert(id, PlanView { status, ..m[id] })
    } else {
        m
    }
}

/// The approval map after the request stored under `id` (if any) gets
/// `status`.
pub open spec fn approvals_with_status(
    m: Map<Seq<char>, ApprovalView>,
    id: Seq<char>,
    status: ApprovalStatus,
) -> Map<Seq<char>, ApprovalView> {
    if m.contains_key(id) {
        m.insert(id, m[id].with_status(status))
    } else {
        m
    }
}

/// `l` lists each pending request of `m` exactly once, and nothing else.
pub open spec fn lists_pending(m: Map<Seq<char>, ApprovalView>, l: Seq<ApprovalView>) -> bool {
    &&& forall|i: int|
        0 <= i < l.len() ==> m.contains_key(#[trigger] l[i].id) && m[l[i].id] == l[i]
            && l[i].status == ApprovalStatus::Pending
    &&& forall|k: Seq<char>|
        m.contains_key(k) && m[k].status == ApprovalStatus::Pending ==> exists|i: int|
            0 <= i < l.len() && #[trigger] l[i].id == k
    &&& forall|i: int, j: int| 0 <= i < j < l.len() ==> l[i].id != l[j].id
}

/// Changing the status of a stored plan changes nothing else: the same ids
/// are stored, other plans are unchanged, and the plan under `id` keeps its
/// id, name and nodes.
pub proof fn law_plan_status_update(m: Map<Seq<char>, PlanView>, id: Seq<char>, status: PlanStatus)
    ensures
        plans_with_status(m, id, status).dom() == m.dom(),
        forall|k: Seq<char>|
            k != id && m.contains_key(k) ==> #[trigger] plans_with_status(m, id, status)[k] == m[k],
        m.contains_key(id) ==> plans_with_status(m, id, status)[id] == (PlanView { status, ..m[id] }),
{
    assert(plans_with_status(m, id, status).dom() =~= m.dom());
}

/// Changing the status of a stored request changes nothing else: the same
/// ids are stored, other requests are unchanged, and the request under `id`
/// differs only in its status.
pub proof fn law_approval_status_update(
    m: Map<Seq<char>, ApprovalView>,
    id: Seq<char>,
    status: ApprovalStatus,
)
    ensures
        approvals_with_status(m, id, status).dom() == m.dom(),
        forall|k: Seq<char>|
            k != id && m.contains_key(k) ==> #[trigger] approvals_with_status(m, id, status)[k] == m[k],
        m.contains_key(id) ==> approvals_with_status(m, id, status)[id] == m[id].with_status(status),
{
    assert(approvals_with_status(m, id, status).dom() =~= m.dom());
}

/// What is stored under a key is what was last inserted under it, and a
/// status update after the insertion reads back with the new status.
pub proof fn law_insert_then_read(m: Map<Seq<char>, ApprovalView>, req: ApprovalView, status: ApprovalStatus)
    ensures
        m.insert(req.id, req).contains_key(req.id),
        m.insert(req.id, req)[req.id] == req,
        approvals_with_status(m.insert(req.id, req), req.id, status)[req.id] == req.with_status(status),
{
}

pub open spec fn approvals_view(v: Seq<ApprovalRequest>) -> Seq<ApprovalView> {
    v.map_values(|a: ApprovalRequest| a@)
}

pub open spec fn audit_view(v: Seq<AuditEntry>) -> Seq<AuditEntryView> {
    v.map_values(|a: AuditEntry| a@)
}

/// Storage of execution plans, keyed by plan id.
pub trait PlanStore: Send + Sync {
    /// The stored plans by id.
    spec fn plans(&self) -> Map<Seq<char>, PlanView>;

    /// Stores `plan` under its id, replacing any plan with that id.
    fn insert(&mut self, plan: ExecutionPlan) -> (r: OrchestratorResult<()>)
        ensures
            r is Ok ==> final(self).plans() == old(self).plans().insert(plan@.id, plan@),
            r is Err ==> final(self).plans() == old(self).plans(),
    ;

    /// The plan stored under `id`, if any.
    fn get(&self, id: &PlanId) -> (r: OrchestratorResult<Option<ExecutionPlan>>)
        ensures
            r matches Ok(o) ==> match o {
                Some(p) => self.plans().contains_key(id@) && p@ == self.plans()[id@],
                None => !self.plans().contains_key(id@),
            },
    ;

    /// Sets the status of the plan stored under `id`; no effect when none is.
    fn update_status(&mut self, id: &PlanId, status: PlanStatus) -> (r: OrchestratorResult<()>)
        ensures
            r is Ok ==> final(self).plans() == plans_with_status(old(self).plans(), id@, status),
            r is Err ==> final(self).plans() == old(self).plans(),
    ;
}

/// Storage of approval requests, keyed by approval id.
pub trait ApprovalStore: Send + Sync {
    /// The stored requests by id.
    spec fn approvals(&self) -> Map<Seq<char>, ApprovalView>;

    /// Whether every operation on this store succeeds; unless a store says
    /// otherwise, any operation may fail.
    open spec fn infallible(&self) -> bool {
        false
    }

    /// Stores `req` under its id, replacing any request with that id.
    fn insert(&mut self, req: ApprovalRequest) -> (r: OrchestratorResult<()>)
        ensures
            r is Ok ==> final(self).approvals() == old(self).approvals().insert(req@.id, req@),
            r is Err ==> final(self).approvals() == old(self).approvals(),
            old(self).infallible() ==> r is Ok,
            final(self).infallible() == old(self).infallible(),
    ;

    /// The request stored under `id`, if any.
    fn get(&self, id: &ApprovalId) -> (r: OrchestratorResult<Option<ApprovalRequest>>)
        ensures
            r matches Ok(o) ==> match o {
                Some(a) => self.approvals().contains_key(id@) && a@ == self.approvals()[id@],
                None => !self.approvals().contains_key(id@),
            },
            self.infallible() ==> r is Ok,
    ;

    /// Sets the status of the request stored under `id`; no effect when none is.
    fn update_status(&mut self, id: &ApprovalId, status: ApprovalStatus) -> (r: OrchestratorResult<()>)
        ensures
            r is Ok ==> final(self).approvals() == approvals_with_status(
                old(self).approvals(),
                id@,
                status,
            ),
            r is Err ==> final(self).approvals() == old(self).approvals(),
            old(self).infallible() ==> r is Ok,
            final(self).infallible() == old(self).infallible(),
    ;

    /// The pending requests.
    fn list_pending(&self) -> (r: OrchestratorResult<Vec<ApprovalRequest>>)
        ensures
            r matches Ok(v) ==> lists_pending(self.approvals(), approvals_view(v@)),
            self.infallible() ==> r is Ok,
    ;
}

/// An append-only audit trail.
pub trait AuditStore: Send + Sync {
    /// The stored entries in the order they were appended.
    spec fn entries(&self) -> Seq<AuditEntryView>;

    fn append(&mut self, entry: AuditEntry) -> (r: OrchestratorResult<()>)
        ensures
            r is Ok ==> final(self).entries() == old(self).entries().push(entry@),
            r is Err ==> final(self).entries() == old(self).entries(),
    ;

    fn all(&self) -> (r: OrchestratorResult<Vec<AuditEntry>>)
        ensures
            r matches Ok(v) ==> audit_view(v@) == self.entries(),
    ;
}

/// Plans held in memory.
#[derive(Debug)]
pub struct MemoryPlanStore {
    plans: Vec<ExecutionPlan>,
}

impl MemoryPlanStore {
    #[verifier::type_invariant]
    closed spec fn inv(self) -> bool {
        keys_unique(self.plans@)
    }

    /// An empty store.
    pub fn new() -> (r: Self)
        ensures
            r.plans() == Map::<Seq<char>, PlanView>::empty(),
    {
        let r = MemoryPlanStore { plans: Vec::new() };
        assert(keyed_map(r.plans@) =~= Map::<Seq<char>, PlanView>::empty());
        r
    }

    fn find(&self, id: &str) -> (r: Option<usize>)
        ensures
            match r {
                Some(i) => i < self.plans@.len() && self.plans@[i as int].id@ == id@,
                None => forall|j: int| 0 <= j < self.plans@.len() ==> self.plans@[j].id@ != id@,
            },
    {
        let mut i: usize = 0;
        while i < self.plans.len()
            invariant
                i <= self.plans@.len(),
                forall|j: int| 0 <= j < i ==> self.plans@[j].id@ != id@,
            decreases self.plans@.len() - i,
        {
            if str_eq(self.plans[i].id.as_str(), id) {
                return Some(i);
            }
            i = i + 1;
        }
        None
    }
}

impl Default for MemoryPlanStore {
    fn default() -> (r: Self)
        ensures
            r.plans() == Map::<Seq<char>, PlanView>::empty(),
    {
        MemoryPlanStore::new()
    }
}

impl PlanStore for MemoryPlanStore {
    closed spec fn plans(&self) -> Map<Seq<char>, PlanView> {
        keyed_map(self.plans@)
    }

    fn insert(&mut self, plan: ExecutionPlan) -> (r: OrchestratorResult<()>)
        ensures
            r is Ok,
    {
        proof {
            use_type_invariant(&*self);
        }
        let found = self.find(plan.id.as_str());
        match found {
            Some(i) => {
                proof {
                    lemma_keyed_update(self.plans@, i as int, plan);
                }
                let mut items = Vec::new();
                std::mem::swap(&mut items, &mut self.plans);
                items.set(i, plan);
                self.plans = items;
            },
            None => {
                proof {
                    lemma_keyed_absent(self.plans@, plan.key());
                    lemma_keyed_push(self.plans@, plan);
                }
                let mut items = Vec::new();
                std::mem::swap(&mut items, &mut self.plans);
                items.push(plan);
                self.plans = items;
            },
        }
        Ok(())
    }

    fn get(&self, id: &PlanId) -> (r: OrchestratorResult<Option<ExecutionPlan>>)
        ensures
            r is Ok,
    {
        proof {
            use_type_invariant(&*self);
        }
        match self.find(id.as_str()) {
            Some(i) => {
                proof {
                    lemma_keyed_lookup(self.plans@, i as int);
                }
                Ok(Some(self.plans[i].clone()))
            },
            None => {
                proof {
                    lemma_keyed_absent(self.plans@, id@);
                }
                Ok(None)
            },
        }
    }

    fn update_status(&mut self, id: &PlanId, status: PlanStatus) -> (r: OrchestratorResult<()>)
        ensures
            r is Ok,
    {
        proof {
            use_type_invariant(&*self);
        }
        match self.find(id.as_str()) {
            Some(i) => {
                let mut p = self.plans[i].clone();
                p.status = status;
                proof {
                    lemma_keyed_lookup(self.plans@, i as int);
                    lemma_keyed_update(self.plans@, i as int, p);
                }
                let mut items = Vec::new();
                std::mem::swap(&mut items, &mut self.plans);
                items.set(i, p);
                self.plans = items;
            },
            None => {
                proof {
                    lemma_keyed_absent(self.plans@, id@);
                }
            },
        }
        Ok(())
    }
}

/// Approval requests held in memory.
#[derive(Debug)]
pub struct MemoryApprovalStore {
    approvals: Vec<ApprovalRequest>,
}

impl MemoryApprovalStore {
    #[verifier::type_invariant]
    closed spec fn inv(self) -> bool {
        keys_unique(self.approvals@)
    }

    /// An empty store.
    pub fn new() -> (r: Self)
        ensures
            r.approvals() == Map::<Seq<char>, ApprovalView>::empty(),
    {
        let r = MemoryApprovalStore { approvals: Vec::new() };
        assert(keyed_map(r.approvals@) =~= Map::<Seq<char>, ApprovalView>::empty());
        r
    }

    fn find(&self, id: &str) -> (r: Option<usize>)
        ensures
            match r {
                Some(i) => i < self.approvals@.len() && self.approvals@[i as int].id@ == id@,
                None => forall|j: int|
                    0 <= j < self.approvals@.len() ==> self.approvals@[j].id@ != id@,
            },
    {
        let mut i: usize = 0;
        while i < self.approvals.len()
            invariant
                i <= self.approvals@.len(),
                forall|j: int| 0 <= j < i ==> self.approvals@[j].id@ != id@,
            decreases self.approvals@.len() - i,
        {
            if str_eq(self.approvals[i].id.as_str(), id) {
                return Some(i);
            }
            i = i + 1;
        }
        None
    }
}

impl Default for MemoryApprovalStore {
    fn default() -> (r: Self)
        ensures
            r.approvals() == Map::<Seq<char>, ApprovalView>::empty(),
    {
        MemoryApprovalStore::new()
    }
}

impl ApprovalStore for MemoryApprovalStore {
    closed spec fn approvals(&self) -> Map<Seq<char>, ApprovalView> {
        keyed_map(self.approvals@)
    }

    /// Operations on memory never fail.
    open spec fn infallible(&self) -> bool {
        true
    }

    fn insert(&mut self, req: ApprovalRequest) -> (r: OrchestratorResult<()>)
        ensures
            r is Ok,
    {
        proof {
            use_type_invariant(&*self);
        }
        match self.find(req.id.as_str()) {
            Some(i) => {
                proof {
                    lemma_keyed_update(self.approvals@, i as int, req);
                }
                let mut items = Vec::new();
                std::mem::swap(&mut items, &mut self.approvals);
                items.set(i, req);
                self.approvals = items;
            },
            None => {
                proof {
                    lemma_keyed_absent(self.approvals@, req.key());
                    lemma_keyed_push(self.approvals@, req);
                }
                let mut items = Vec::new();
                std::mem::swap(&mut items, &mut self.approvals);
                items.push(req);
                self.approvals = items;
            },
        }
        Ok(())
    }

    fn get(&self, id: &ApprovalId) -> (r: OrchestratorResult<Option<ApprovalRequest>>)
        ensures
            r is Ok,
    {
        proof {
            use_type_invariant(&*self);
        }
        match self.find(id.as_str()) {
            Some(i) => {
                proof {
                    lemma_keyed_lookup(self.approvals@, i as int);
                }
                Ok(Some(self.approvals[i].clone()))
            },
            None => {
                proof {
                    lemma_keyed_absent(self.approvals@, id@);
                }
                Ok(None)
            },
        }
    }

    fn update_status(&mut self, id: &ApprovalId, status: ApprovalStatus) -> (r: OrchestratorResult<()>)
        ensures
            r is Ok,
    {
        proof {
            use_type_invariant(&*self);
        }
        match self.find(id.as_str()) {
            Some(i) => {
                let mut a = self.approvals[i].clone();
                a.status = status;
                proof {
                    lemma_keyed_lookup(self.approvals@, i as int);
                    lemma_keyed_update(self.approvals@, i as int, a);
                }
                let mut items = Vec::new();
                std::mem::swap(&mut items, &mut self.approvals);
                items.set(i, a);
                self.approvals = items;
            },
            None => {
                proof {
                    lemma_keyed_absent(self.approvals@, id@);
                }
            },
        }
        Ok(())
    }

    fn list_pending(&self) -> (r: OrchestratorResult<Vec<ApprovalRequest>>)
        ensures
            r is Ok,
    {
        proof {
            use_type_invariant(&*self);
        }
        let ghost m = keyed_map(self.approvals@);
        let ghost src = self.approvals@;
        let mut out: Vec<ApprovalRequest> = Vec::new();
        let ghost mut idx: Seq<int> = Seq::empty();
        let mut i: usize = 0;
        while i < self.approvals.len()
            invariant
                i <= src.len(),
                src == self.approvals@,
                out@.len() == idx.len(),
                forall|a: int|
                    0 <= a < idx.len() ==> 0 <= #[trigger] idx[a] < i && out@[a]@ == src[idx[a]]@
                        && src[idx[a]].status == ApprovalStatus::Pending,
                forall|a: int, b: int| 0 <= a < b < idx.len() ==> idx[a] < idx[b],
                forall|j: int|
                    0 <= j < i && #[trigger] src[j].status == ApprovalStatus::Pending
                        ==> exists|a: int| 0 <= a < idx.len() && idx[a] == j,
            decreases src.len() - i,
        {
            if self.approvals[i].status == ApprovalStatus::Pending {
                out.push(self.approvals[i].clone());
                proof {
                    let old_idx = idx;
                    idx = idx.push(i as int);
                    assert forall|j: int|
                        0 <= j < i + 1 && #[trigger] src[j].status == ApprovalStatus::Pending
                            implies exists|a: int| 0 <= a < idx.len() && idx[a] == j by {
                        if j == i {
                            assert(idx[old_idx.len() as int] == j);
                        } else {
                            let a = choose|a: int| 0 <= a < old_idx.len() && old_idx[a] == j;
                            assert(idx[a] == j);
                        }
                    }
                }
            }
            i = i + 1;
        }
        proof {
            use_type_invariant(&*self);
            let l = approvals_view(out@);
            assert forall|a: int| 0 <= a < l.len() implies m.contains_key(#[trigger] l[a].id) && m[l[a].id]
                == l[a] && l[a].status == ApprovalStatus::Pending by {
                lemma_keyed_lookup(src, idx[a]);
            }
            assert forall|k: Seq<char>|
                m.contains_key(k) && m[k].status == ApprovalStatus::Pending implies exists|a: int|
                    0 <= a < l.len() && #[trigger] l[a].id == k by {
                let j = choose|j: int| key_at(src, k, j);
                lemma_keyed_lookup(src, j);
                assert(src[j].status == ApprovalStatus::Pending);
                let a = choose|a: int| 0 <= a < idx.len() && idx[a] == j;
                assert(l[a].id == k);
            }
            assert forall|a: int, b: int| 0 <= a < b < l.len() implies l[a].id != l[b].id by {
                let x = idx[a];
                let y = idx[b];
                if l[a].id == l[b].id {
                    assert(key_at(src, src[x].key(), x) && key_at(src, src[x].key(), y));
                }
            }
            assert(m == self.approvals());
            assert(forall|i: int| 0 <= i < l.len() ==> m.contains_key(#[trigger] l[i].id));
            assert(forall|i: int| 0 <= i < l.len() ==> m[#[trigger] l[i].id] == l[i]);
            assert forall|i: int| 0 <= i < l.len() implies (#[trigger] l[i]).status == ApprovalStatus::Pending by {
                assert(l[i] == out@[i]@);
                assert(out@[i]@ == src[idx[i]]@);
                assert(src[idx[i]].status == ApprovalStatus::Pending);
            }
            assert(forall|k: Seq<char>|
        m.contains_key(k) && m[k].status == ApprovalStatus::Pending ==> exists|i: int|
            0 <= i < l.len() && #[trigger] l[i].id == k);
            assert(forall|i: int, j: int| 0 <= i < j < l.len() ==> l[i].id != l[j].id);
            assert(lists_pending(m, l));
        }
        Ok(out)
    }
}

/// Audit entries held in memory, in append order.
#[derive(Debug)]
pub struct MemoryAuditStore {
    entries: Vec<AuditEntry>,
}

impl MemoryAuditStore {
    /// An empty trail.
    pub fn new() -> (r: Self)
        ensures
            r.entries() == Seq::<AuditEntryView>::empty(),
    {
        let r = MemoryAuditStore { entries: Vec::new() };
        assert(audit_view(r.entries@) =~= Seq::<AuditEntryView>::empty());
        r
    }
}

impl Default for MemoryAuditStore {
    fn default() -> (r: Self)
        ensures
            r.entries() == Seq::<AuditEntryView>::empty(),
    {
        MemoryAuditStore::new()
    }
}

impl AuditStore for MemoryAuditStore {
    closed spec fn entries(&self) -> Seq<AuditEntryView> {
        audit_view(self.entries@)
    }

    fn append(&mut self, entry: AuditEntry) -> (r: OrchestratorResult<()>)
        ensures
            r is Ok,
    {
        self.entries.push(entry);
        assert(audit_view(self.entries@) =~= audit_view(old(self).entries@).push(entry@));
        Ok(())
    }

    fn all(&self) -> (r: OrchestratorResult<Vec<AuditEntry>>)
        ensures
            r is Ok,
    {
        let v = self.entries.clone();
        assert(audit_view(v@) =~= audit_view(self.entries@));
        Ok(v)
    }
}

} // verus!
