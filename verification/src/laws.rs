//! The plan-level guarantees, stated on their own: canonical form, order,
//! and the uniqueness of the mandatory workspace instructions.

use crate::instruction::{
    instr_le, instr_lt, lemma_instr_lt_irreflexive,
    lemma_strictly_sorted_unique, strictly_sorted, InstrV,
};
use crate::model::{NxJson, ProjectGraph, TaskGraph};
use crate::planner::{mandatory_workspace, spec_task_items};
use vstd::prelude::*;

verus! {

/// A plan in canonical form is sorted under the instruction order and holds
/// no duplicate entries, adjacent or otherwise.
pub proof fn lemma_plan_sorted_dedup(plan: Seq<InstrV>)
    requires
        strictly_sorted(plan),
    ensures
        forall|i: int, j: int| 0 <= i < j < plan.len() ==> instr_le(plan[i], plan[j]),
        plan.no_duplicates(),
{
    assert forall|i: int, j: int|
        0 <= i < plan.len() && 0 <= j < plan.len() && i != j implies plan[i] != plan[j] by {
        if i < j {
            assert(instr_lt(plan[i], plan[j]));
        } else {
            assert(instr_lt(plan[j], plan[i]));
        }
        lemma_instr_lt_irreflexive(plan[i]);
    }
}

/// The canonical form is deterministic: two strictly sorted plans over the
/// same instruction set are equal, so a plan is decided by the set of
/// instructions gathered for it, not by the order in which traversal found
/// them.
pub proof fn lemma_plan_deterministic(a: Seq<InstrV>, b: Seq<InstrV>)
    requires
        strictly_sorted(a),
        strictly_sorted(b),
        a.to_set() == b.to_set(),
    ensures
        a == b,
{
    lemma_strictly_sorted_unique(a, b);
}

/// Determinism of planning: a task's plan is pinned by the planner's
/// configuration and graphs alone — any two plans computed for the same task
/// over the same planner state and task graph are identical, regardless of
/// the order in which traversal found the instructions.
pub proof fn lemma_task_plan_deterministic(
    graph: ProjectGraph,
    nx: NxJson,
    tg: TaskGraph,
    id: Seq<char>,
    p1: Seq<InstrV>,
    p2: Seq<InstrV>,
)
    requires
        spec_task_items(graph, nx, tg, id) matches Ok(items) && p1.to_set() == items.to_set()
            && p2.to_set() == items.to_set(),
        strictly_sorted(p1),
        strictly_sorted(p2),
    ensures
        p1 == p2,
{
    lemma_strictly_sorted_unique(p1, p2);
}

/// A member of a plan in canonical form stands at exactly one position.
pub proof fn lemma_member_exactly_once(plan: Seq<InstrV>, x: InstrV)
    requires
        strictly_sorted(plan),
        plan.to_set().contains(x),
    ensures
        exists|i: int|
            {
                &&& 0 <= i < plan.len() && plan[i] == x
                &&& forall|j: int| 0 <= j < plan.len() && plan[j] == x ==> j == i
            },
{
    let i = choose|i: int| 0 <= i < plan.len() && plan[i] == x;
    assert forall|j: int| 0 <= j < plan.len() && plan[j] == x implies j == i by {
        if j != i {
            if i < j {
                assert(instr_lt(plan[i], plan[j]));
            } else {
                assert(instr_lt(plan[j], plan[i]));
            }
            lemma_instr_lt_irreflexive(x);
        }
    }
    assert({
        &&& 0 <= i < plan.len() && plan[i] == x
        &&& forall|j: int| 0 <= j < plan.len() && plan[j] == x ==> j == i
    });
}

/// Every plan carries each of the three fixed workspace file sets exactly
/// once.
pub proof fn lemma_mandatory_workspace_exactly_once(plan: Seq<InstrV>)
    requires
        strictly_sorted(plan),
        mandatory_workspace(plan),
    ensures
        exists|i: int|
            0 <= i < plan.len() && plan[i] == InstrV::WorkspaceFileSet("{workspaceRoot}/nx.json"@),
        exists|i: int|
            0 <= i < plan.len() && plan[i] == InstrV::WorkspaceFileSet(
                "{workspaceRoot}/.gitignore"@,
            ),
        exists|i: int|
            0 <= i < plan.len() && plan[i] == InstrV::WorkspaceFileSet(
                "{workspaceRoot}/.nxignore"@,
            ),
        plan.no_duplicates(),
{
    lemma_plan_sorted_dedup(plan);
    assert(plan.contains(InstrV::WorkspaceFileSet("{workspaceRoot}/nx.json"@)));
    assert(plan.contains(InstrV::WorkspaceFileSet("{workspaceRoot}/.gitignore"@)));
    assert(plan.contains(InstrV::WorkspaceFileSet("{workspaceRoot}/.nxignore"@)));
}

} // verus!
