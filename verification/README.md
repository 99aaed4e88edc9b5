# mofa_orchestrator

A cognitive swarm orchestrator written in Verus: tasks are split into
ordered subtasks, a coordination pattern is picked, subtasks run through a
user-supplied runner behind human-in-the-loop approval gates, governance
keeps an audit trail and counters, and marketplace checks validate plugin
manifests (SemVer and ed25519 signatures).

Layout:

- `src/` — the verified library. Public functions state their behaviour in
  `requires`/`ensures` over mathematical views (`Seq`, `Map`, spec
  functions), and the properties that span several calls are public proof
  functions named `law_*`. What a user-supplied runner or clock returns
  enters the contracts through the relations `TaskRunner::may_report` and
  `Clock::may_read`; a user-supplied approval store says through
  `ApprovalStore::infallible` whether its operations can fail, and the
  governor's contracts are exact whenever they succeed. `make_executor`, which returns a `Box<dyn …>`, carries
  no `ensures` (Verus does not accept one on such a result);
  `execute_pattern` states what each pattern does.
- `tests/` — executable tests of the library.
- `app/` — ordinary Rust around the library: serde-ready copies of the data
  model, a `std::error::Error` form of the errors, floating-point search and
  trust scoring, and the asynchronous approval loops.

Calls into `regex`, `semver`, `base64` and `ed25519-dalek` stand behind
small trusted wrappers whose contracts name the outside result; the
logic around them is verified.
