use vstd::prelude::*;
use super::task::SubtaskStatus;
use crate::text::str_eq;

verus! {

pub type PlanId = String;

/// Overall progress of an execution plan.
#[derive(Debug, Clone, Copy, PartialEq, Eq, Structural)]
#[non_exhaustive]
pub enum PlanStatus {
    Pending,
    Running,
    WaitingApproval,
    Completed,
    Failed,
}

/// One subtask of a plan with its status.
#[derive(Debug)]
pub struct PlanNode {
    pub subtask_id: String,
    pub status: SubtaskStatus,
}

pub struct PlanNodeView {
    pub subtask_id: Seq<char>,
    pub status: SubtaskStatus,
}

impl View for PlanNode {
    type V = PlanNodeView;

    open spec fn view(&self) -> PlanNodeView {
        PlanNodeView { subtask_id: self.subtask_id@, status: self.status }
    }
}

impl Clone for PlanNode {
    fn clone(&self) -> (r: Self)
        ensures
            r@ == self@,
    {
        PlanNode { subtask_id: self.subtask_id.clone(), status: self.status }
    }
}

/// A plan: its nodes in subtask order, each with a status.
#[derive(Debug)]
pub struct ExecutionPlan {
    pub id: PlanId,
    pub name: String,
    pub status: PlanStatus,
    pub nodes: Vec<PlanNode>,
}

pub struct PlanView {
    pub id: Seq<char>,
    pub name: Seq<char>,
    pub status: PlanStatus,
    pub nodes: Seq<PlanNodeView>,
}

pub open spec fn nodes_view(nodes: Seq<PlanNode>) -> Seq<PlanNodeView> {
    nodes.map_values(|n: PlanNode| n@)
}

impl View for ExecutionPlan {
    type V = PlanView;

    open spec fn view(&self) -> PlanView {
        PlanView {
            id: self.id@,
            name: self.name@,
            status: self.status,
            nodes: nodes_view(self.nodes@),
        }
    }
}

/// `i` is the first position of a node for subtask `id`.
pub open spec fn is_first_node(nodes: Seq<PlanNodeView>, id: Seq<char>, i: int) -> bool {
    &&& 0 <= i < nodes.len()
    &&& nodes[i].subtask_id == id
    &&& forall|j: int| 0 <= j < i ==> nodes[j].subtask_id != id
}

/// The position of the first node for subtask `id`, or -1 when there is none.
pub open spec fn first_node(nodes: Seq<PlanNodeView>, id: Seq<char>) -> int {
    if exists|i: int| is_first_node(nodes, id, i) {
        choose|i: int| is_first_node(nodes, id, i)
    } else {
        -1
    }
}

/// The plan after the first node for `id` (if any) is given `status`.
pub open spec fn with_node_status(p: PlanView, id: Seq<char>, status: SubtaskStatus) -> PlanView {
    let i = first_node(p.nodes, id);
    if i >= 0 {
        PlanView { nodes: p.nodes.update(i, PlanNodeView { subtask_id: id, status }), ..p }
    } else {
        p
    }
}

/// Giving a node a status keeps every node's subtask id, so the first node
/// for any id stays where it was, and the node for `id` reads back with the
/// new status.
pub proof fn lemma_with_node_status(p: PlanView, id: Seq<char>, status: SubtaskStatus, other: Seq<char>)
    ensures
        with_node_status(p, id, status).nodes.len() == p.nodes.len(),
        first_node(with_node_status(p, id, status).nodes, other) == first_node(p.nodes, other),
        first_node(p.nodes, id) >= 0 ==> with_node_status(p, id, status).nodes[first_node(
            p.nodes,
            id,
        )].status == status,
        with_node_status(p, id, status).id == p.id,
        with_node_status(p, id, status).status == p.status,
{
    let q = with_node_status(p, id, status);
    assert forall|j: int| 0 <= j < p.nodes.len() implies #[trigger] q.nodes[j].subtask_id
        == p.nodes[j].subtask_id by {
        if first_node(p.nodes, id) >= 0 {
            assert(is_first_node(p.nodes, id, choose|k: int| is_first_node(p.nodes, id, k)));
        }
    }
    assert forall|k: int| #[trigger] is_first_node(q.nodes, other, k) == is_first_node(p.nodes, other, k) by {
        if is_first_node(q.nodes, other, k) {
            assert forall|j: int| 0 <= j < k implies p.nodes[j].subtask_id != other by {
                assert(q.nodes[j].subtask_id == p.nodes[j].subtask_id);
            }
            assert(q.nodes[k].subtask_id == p.nodes[k].subtask_id);
        }
        if is_first_node(p.nodes, other, k) {
            assert forall|j: int| 0 <= j < k implies q.nodes[j].subtask_id != other by {
                assert(q.nodes[j].subtask_id == p.nodes[j].subtask_id);
            }
            assert(q.nodes[k].subtask_id == p.nodes[k].subtask_id);
        }
    }
    if exists|k: int| is_first_node(p.nodes, other, k) {
        let k = choose|k: int| is_first_node(p.nodes, other, k);
        assert(is_first_node(q.nodes, other, k));
        let kq = choose|k: int| is_first_node(q.nodes, other, k);
        assert(is_first_node(p.nodes, other, kq));
        lemma_first_node_unique(p.nodes, other, k, kq);
    }
    if first_node(p.nodes, id) >= 0 {
        assert(is_first_node(p.nodes, id, choose|k: int| is_first_node(p.nodes, id, k)));
    }
}

/// At most one position is the first node for an id.
pub proof fn lemma_first_node_unique(nodes: Seq<PlanNodeView>, id: Seq<char>, a: int, b: int)
    requires
        is_first_node(nodes, id, a),
        is_first_node(nodes, id, b),
    ensures
        a == b,
{
}

/// The plan with its overall status replaced.
pub open spec fn with_plan_status(p: PlanView, status: PlanStatus) -> PlanView {
    PlanView { status, ..p }
}

impl Clone for ExecutionPlan {
    fn clone(&self) -> (r: Self)
        ensures
            r@ == self@,
    {
        let nodes = self.nodes.clone();
        assert(nodes_view(nodes@) =~= nodes_view(self.nodes@));
        ExecutionPlan {
            id: self.id.clone(),
            name: self.name.clone(),
            status: self.status,
            nodes,
        }
    }
}

impl ExecutionPlan {
    /// Sets the status of the first node for `subtask_id`; the plan is
    /// unchanged when no node has that id.
    pub fn set_status(&mut self, subtask_id: &str, status: SubtaskStatus)
        ensures
            final(self)@ == with_node_status(old(self)@, subtask_id@, status),
    {
        let ghost nodes0 = nodes_view(self.nodes@);
        let ghost p0 = self@;
        let mut i: usize = 0;
        while i < self.nodes.len()
            invariant
                i <= self.nodes.len(),
                self@ == p0,
                p0 == old(self)@,
                nodes_view(self.nodes@) == nodes0,
                forall|j: int| 0 <= j < i ==> nodes0[j].subtask_id != subtask_id@,
            decreases self.nodes.len() - i,
        {
            let same = str_eq(self.nodes[i].subtask_id.as_str(), subtask_id);
            assert(nodes0[i as int] == self.nodes@[i as int]@);
            if same {
                proof {
                    assert(is_first_node(nodes0, subtask_id@, i as int));
                    assert(first_node(nodes0, subtask_id@) == i as int);
                }
                let node = PlanNode { subtask_id: self.nodes[i].subtask_id.clone(), status };
                self.nodes.set(i, node);
                assert(nodes_view(self.nodes@) =~= nodes0.update(
                    i as int,
                    PlanNodeView { subtask_id: subtask_id@, status },
                ));
                return ;
            }
            i = i + 1;
        }
        proof {
            if exists|k: int| is_first_node(nodes0, subtask_id@, k) {
                let k = choose|k: int| is_first_node(nodes0, subtask_id@, k);
                assert(nodes0[k].subtask_id != subtask_id@);
            }
        }
    }
}

} // verus!
