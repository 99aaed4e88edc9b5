use mofa_orchestrator::patterns::{make_executor, CoordinationPattern};

#[test]
fn coordination_pattern_names_are_stable() {
    assert_eq!(CoordinationPattern::Sequential.name(), "sequential");
    assert_eq!(CoordinationPattern::Parallel.name(), "parallel");
    assert_eq!(CoordinationPattern::MapReduce.name(), "map_reduce");
    assert_eq!(CoordinationPattern::Routing.name(), "routing");
    assert_eq!(CoordinationPattern::Supervision.name(), "supervision");
    assert_eq!(CoordinationPattern::Debate.name(), "debate");
    assert_eq!(CoordinationPattern::Consensus.name(), "consensus");
}

#[test]
fn make_executor_constructs_all_variants() {
    let _ = make_executor(CoordinationPattern::Sequential);
    let _ = make_executor(CoordinationPattern::Parallel);
    let _ = make_executor(CoordinationPattern::MapReduce);
    let _ = make_executor(CoordinationPattern::Routing);
    let _ = make_executor(CoordinationPattern::Supervision);
    let _ = make_executor(CoordinationPattern::Debate);
    let _ = make_executor(CoordinationPattern::Consensus);
}

use mofa_orchestrator::error::{OrchestratorError, OrchestratorResult};
use mofa_orchestrator::governance::Governance;
use mofa_orchestrator::hitl::HitlGovernor;
use mofa_orchestrator::models::{
    ApprovalDecision, ExecutionPlan, PlanNode, PlanStatus, RiskLevel, SubtaskSpec, SubtaskStatus,
};
use mofa_orchestrator::patterns::{execute_pattern, SubtaskOutcome, TaskRunner};

/// Completes every subtask except those whose description is "fail".
struct ScriptRunner;

impl TaskRunner for ScriptRunner {
    fn run(&self, subtask: &SubtaskSpec) -> OrchestratorResult<SubtaskOutcome> {
        if subtask.description == "error" {
            return Err(OrchestratorError::Internal("runner broke".into()));
        }
        let status = if subtask.description == "fail" {
            SubtaskStatus::Failed
        } else {
            SubtaskStatus::Completed
        };
        Ok(SubtaskOutcome {
            status,
            output: Some(subtask.description.clone()),
        })
    }
}

fn sub(id: &str, description: &str, risk: Option<RiskLevel>) -> SubtaskSpec {
    SubtaskSpec {
        id: id.into(),
        description: description.into(),
        capabilities: vec![],
        complexity: 0.5f64.to_bits(),
        deps: vec![],
        risk_level: risk,
        estimated_duration_secs: None,
    }
}

fn plan_for(subs: &[SubtaskSpec]) -> ExecutionPlan {
    ExecutionPlan {
        id: "plan-x".into(),
        name: "demo".into(),
        status: PlanStatus::Running,
        nodes: subs
            .iter()
            .map(|s| PlanNode {
                subtask_id: s.id.clone(),
                status: SubtaskStatus::Pending,
            })
            .collect(),
    }
}

fn run(pattern: CoordinationPattern, subs: &[SubtaskSpec]) -> (OrchestratorResult<()>, ExecutionPlan, Governance) {
    let mut plan = plan_for(subs);
    let mut hitl = HitlGovernor::new();
    let mut gov = Governance::new();
    let r = execute_pattern(pattern, subs, &mut plan, &ScriptRunner, &mut hitl, &mut gov);
    (r, plan, gov)
}

#[test]
fn parallel_runs_every_subtask() {
    let subs = vec![sub("a", "x", None), sub("b", "fail", Some(RiskLevel::Low))];
    let (r, plan, gov) = run(CoordinationPattern::Parallel, &subs);
    assert!(r.is_ok());
    assert_eq!(plan.id, "plan-x");
    assert_eq!(plan.nodes[0].status, SubtaskStatus::Completed);
    assert_eq!(plan.nodes[1].status, SubtaskStatus::Failed);
    let snap = gov.metrics_snapshot();
    assert_eq!(snap.subtasks_started, 2);
    assert_eq!(snap.subtasks_completed, 1);
    assert_eq!(snap.subtasks_failed, 1);
}

#[test]
fn sequential_stops_at_runner_error() {
    let subs = vec![sub("a", "x", None), sub("b", "error", None), sub("c", "x", None)];
    let (r, plan, _) = run(CoordinationPattern::Sequential, &subs);
    match r {
        Err(OrchestratorError::Internal(m)) => assert_eq!(m, "runner broke"),
        other => panic!("unexpected {:?}", other),
    }
    assert_eq!(plan.nodes[0].status, SubtaskStatus::Completed);
    assert_eq!(plan.nodes[2].status, SubtaskStatus::Pending);
}

#[test]
fn routing_stops_after_first_completion() {
    let subs = vec![sub("a", "fail", None), sub("b", "x", None), sub("c", "x", None)];
    let (r, plan, gov) = run(CoordinationPattern::Routing, &subs);
    assert!(r.is_ok());
    assert_eq!(plan.nodes[0].status, SubtaskStatus::Failed);
    assert_eq!(plan.nodes[1].status, SubtaskStatus::Completed);
    assert_eq!(plan.nodes[2].status, SubtaskStatus::Pending);
    assert_eq!(gov.metrics_snapshot().subtasks_started, 2);
}

#[test]
fn consensus_fails_plan_when_a_voter_fails() {
    let subs = vec![sub("a", "x", None), sub("b", "fail", None)];
    let (r, plan, _) = run(CoordinationPattern::Consensus, &subs);
    assert!(r.is_ok());
    assert_eq!(plan.status, PlanStatus::Failed);
    let ok = vec![sub("a", "x", None), sub("b", "y", None)];
    let (r2, plan2, _) = run(CoordinationPattern::Consensus, &ok);
    assert!(r2.is_ok());
    assert_eq!(plan2.status, PlanStatus::Running);
}

#[test]
fn supervisor_steps_in_after_a_worker_fails() {
    let subs = vec![sub("w1", "fail", None), sub("w2", "x", None), sub("sup", "x", None)];
    let (r, plan, gov) = run(CoordinationPattern::Supervision, &subs);
    assert!(r.is_ok());
    assert_eq!(plan.nodes[0].status, SubtaskStatus::Failed);
    assert_eq!(plan.nodes[1].status, SubtaskStatus::Pending);
    assert_eq!(plan.nodes[2].status, SubtaskStatus::Completed);
    assert_eq!(gov.metrics_snapshot().subtasks_started, 2);
}

#[test]
fn map_reduce_and_debate_run_the_last_subtask_after_the_others() {
    for pattern in [CoordinationPattern::MapReduce, CoordinationPattern::Debate] {
        let subs = vec![sub("m1", "x", None), sub("m2", "x", None), sub("r", "x", None)];
        let (r, plan, gov) = run(pattern, &subs);
        assert!(r.is_ok());
        assert!(plan.nodes.iter().all(|n| n.status == SubtaskStatus::Completed));
        assert_eq!(gov.metrics_snapshot().subtasks_completed, 3);
    }
}

#[test]
fn risky_subtask_waits_until_approved() {
    let subs = vec![sub("a", "x", Some(RiskLevel::High))];
    let mut plan = plan_for(&subs);
    let mut hitl = HitlGovernor::new();
    let mut gov = Governance::new();
    let r = execute_pattern(CoordinationPattern::Sequential, &subs, &mut plan, &ScriptRunner, &mut hitl, &mut gov);
    match r {
        Err(OrchestratorError::Approval(m)) => assert_eq!(m, "subtask a awaiting approval"),
        other => panic!("unexpected {:?}", other),
    }
    assert_eq!(plan.nodes[0].status, SubtaskStatus::WaitingApproval);
    assert_eq!(gov.metrics_snapshot().subtasks_started, 0);
    assert_eq!(gov.metrics_snapshot().approvals_requested, 1);
    hitl.apply(ApprovalDecision {
        approval_id: "appr-a".into(),
        approved: true,
        reason: None,
    })
    .unwrap();
    let r = execute_pattern(CoordinationPattern::Sequential, &subs, &mut plan, &ScriptRunner, &mut hitl, &mut gov);
    assert!(r.is_ok());
    assert_eq!(plan.nodes[0].status, SubtaskStatus::Completed);
    assert_eq!(gov.metrics_snapshot().subtasks_started, 1);
}

#[test]
fn rejected_subtask_is_refused() {
    let subs = vec![sub("a", "x", Some(RiskLevel::Critical))];
    let mut plan = plan_for(&subs);
    let mut hitl = HitlGovernor::new();
    let mut gov = Governance::new();
    let _ = execute_pattern(CoordinationPattern::Parallel, &subs, &mut plan, &ScriptRunner, &mut hitl, &mut gov);
    hitl.apply(ApprovalDecision {
        approval_id: "appr-a".into(),
        approved: false,
        reason: Some("no".into()),
    })
    .unwrap();
    let r = execute_pattern(CoordinationPattern::Parallel, &subs, &mut plan, &ScriptRunner, &mut hitl, &mut gov);
    match r {
        Err(OrchestratorError::Approval(m)) => {
            assert_eq!(m, "subtask a approval not in approvable state")
        }
        other => panic!("unexpected {:?}", other),
    }
    assert_eq!(gov.metrics_snapshot().subtasks_started, 0);
}

/// Records the ids of the subtasks it is handed, completing each.
#[derive(Default)]
struct RecordingRunner {
    seen: std::sync::Mutex<Vec<String>>,
}

impl TaskRunner for RecordingRunner {
    fn run(&self, subtask: &SubtaskSpec) -> OrchestratorResult<SubtaskOutcome> {
        self.seen.lock().unwrap().push(subtask.id.clone());
        Ok(SubtaskOutcome {
            status: SubtaskStatus::Completed,
            output: None,
        })
    }
}

#[test]
fn debate_hands_the_judge_to_the_runner_last() {
    let subs = vec![sub("a", "d", None), sub("b", "d", None), sub("c", "d", None), sub("j", "d", None)];
    let mut plan = plan_for(&subs);
    let mut hitl = HitlGovernor::new();
    let mut gov = Governance::new();
    let runner = RecordingRunner::default();
    let r = execute_pattern(CoordinationPattern::Debate, &subs, &mut plan, &runner, &mut hitl, &mut gov);
    assert!(r.is_ok());
    let seen = runner.seen.lock().unwrap().clone();
    assert_eq!(seen, vec!["a", "b", "c", "j"]);
    assert!(plan.nodes.iter().all(|n| n.status == SubtaskStatus::Completed));
    assert_eq!(gov.entries().len(), 8);
    assert_eq!(plan.status, PlanStatus::Running);
}

#[test]
fn runner_is_not_called_when_an_approval_is_missing() {
    let subs = vec![sub("a", "d", None), sub("b", "d", Some(RiskLevel::High)), sub("j", "d", None)];
    for pattern in [CoordinationPattern::Debate, CoordinationPattern::Parallel, CoordinationPattern::Consensus] {
        let mut plan = plan_for(&subs);
        let mut hitl = HitlGovernor::new();
        let mut gov = Governance::new();
        let runner = RecordingRunner::default();
        let r = execute_pattern(pattern, &subs, &mut plan, &runner, &mut hitl, &mut gov);
        assert!(matches!(r, Err(OrchestratorError::Approval(_))));
        assert!(runner.seen.lock().unwrap().is_empty());
        assert_eq!(plan.nodes[1].status, SubtaskStatus::WaitingApproval);
        assert_eq!(plan.nodes[0].status, SubtaskStatus::Pending);
    }
}
