//! Cache-key planning and output-materialization core of a monorepo task
//! orchestrator.
//!
//! Given an immutable project graph and a task graph, the planner resolves,
//! for each requested task, the ordered, deduplicated list of hash
//! instructions: the symbolic inputs that must not change for a cached result
//! to be reused. A separate output-expansion component turns declared output
//! patterns into concrete filesystem entries of a directory snapshot.

pub mod instruction;
pub mod glob;
pub mod laws;
pub mod model;
pub mod order;
pub mod outputs;
pub mod planner;
pub mod seqs;
pub mod visited;
pub mod watch_support;
