//! The data model of planning: configured inputs, tasks, the task graph, and
//! the project graph. Name-to-value mappings are association lists whose
//! iteration order is the caller-supplied order, so that every lookup and
//! every traversal is deterministic.

use crate::order::str_eq;
use vstd::prelude::*;
use vstd::string::StringExecFns;

verus! {

/// One configured input of a task, as classified by the input-split resolver.
#[derive(Debug)]
pub enum Input {
    /// A glob or path pattern, scoped by a `{projectRoot}/` or
    /// `{workspaceRoot}/` prefix, possibly negated with `!`.
    FileSet(String),
    /// The output of a runtime command contributes to the hash.
    Runtime(String),
    /// An environment variable contributes to the hash.
    Environment(String),
    /// Explicitly named external packages.
    ExternalDependency(Vec<String>),
    /// Outputs of upstream tasks matching a pattern, optionally transitively.
    DepsOutputs { dependent_tasks_output_files: String, transitive: bool },
    /// Re-apply a named input across a set of projects resolved by selectors.
    Projects { input: String, projects: Vec<String> },
    /// A reference to a named input, resolved against a project's or the
    /// workspace's named-input table.
    Inputs { input: String, dependencies: bool },
}

/// The four-bucket classification of a task's configured inputs, produced by
/// the external input-split resolver and consumed by the planner.
pub struct SplitInputs {
    pub self_inputs: Vec<Input>,
    pub deps_inputs: Vec<Input>,
    pub deps_outputs: Vec<Input>,
    pub project_inputs: Vec<Input>,
}

/// The `(project, target)` pair a task runs.
pub struct TaskTarget {
    pub project: String,
    pub target: String,
}

/// One scheduled unit of work.
pub struct Task {
    pub id: String,
    pub target: TaskTarget,
    pub outputs: Vec<String>,
    pub inputs: SplitInputs,
}

/// Dependencies of one task, by task id.
pub struct TaskDeps {
    pub task_id: String,
    pub deps: Vec<String>,
}

/// The scheduled tasks and their dependency edges.
pub struct TaskGraph {
    pub tasks: Vec<Task>,
    pub dependencies: Vec<TaskDeps>,
}

/// A named, configured operation of a project.
pub struct Target {
    pub executor: Option<String>,
}

/// A target together with its name in the owning project.
pub struct NamedTarget {
    pub name: String,
    pub target: Target,
}

/// One named-input definition: a symbolic name for a list of inputs.
pub struct NamedInputEntry {
    pub name: String,
    pub inputs: Vec<Input>,
}

/// A workspace project.
pub struct ProjectNode {
    pub name: String,
    pub targets: Vec<NamedTarget>,
    pub named_inputs: Vec<NamedInputEntry>,
}

/// The dependency names (projects and external packages) of one graph node.
pub struct DepsEntry {
    pub name: String,
    pub deps: Vec<String>,
}

/// The immutable project graph: projects, external packages, and dependency
/// edges for both. The order of `external_nodes` is the enumeration order
/// used to resolve package names, and the order of every list is kept, so
/// planning over a fixed graph value is deterministic.
pub struct ProjectGraph {
    pub nodes: Vec<ProjectNode>,
    pub external_nodes: Vec<String>,
    pub dependencies: Vec<DepsEntry>,
}

/// Workspace-level configuration: the workspace named-input table.
pub struct NxJson {
    pub named_inputs: Vec<NamedInputEntry>,
}

/// Why a planning or expansion call failed.
#[derive(Debug, PartialEq, Eq)]
pub enum PlanError {
    /// A requested task id is absent from the task graph.
    TaskNotFound { task_id: String },
    /// An explicitly declared external dependency has no matching external
    /// graph node; carries the offending project, target and dependency name.
    UnresolvedExternalDependency { project: String, target: String, dependency: String },
    /// Pattern compilation failed in output expansion.
    InvalidGlobPattern,
    /// A project selector pattern could not be compiled.
    ProjectSelectorError,
}

/// Mathematical form of a planning failure.
#[verifier::ext_equal]
pub enum PlanErrV {
    TaskNotFound(Seq<char>),
    UnresolvedExternalDependency(Seq<char>, Seq<char>, Seq<char>),
    InvalidGlobPattern,
    ProjectSelectorError,
}

impl DeepView for PlanError {
    type V = PlanErrV;

    open spec fn deep_view(&self) -> PlanErrV {
        match self {
            PlanError::TaskNotFound { task_id } => PlanErrV::TaskNotFound(task_id@),
            PlanError::UnresolvedExternalDependency { project, target, dependency } => {
                PlanErrV::UnresolvedExternalDependency(project@, target@, dependency@)
            },
            PlanError::InvalidGlobPattern => PlanErrV::InvalidGlobPattern,
            PlanError::ProjectSelectorError => PlanErrV::ProjectSelectorError,
        }
    }
}

/// The rendered description of a failure.
pub open spec fn error_text(e: PlanErrV) -> Seq<char> {
    match e {
        PlanErrV::TaskNotFound(id) => "Task with id '"@ + id + "' not found"@,
        PlanErrV::UnresolvedExternalDependency(p, t, d) => "The externalDependency '"@ + d
            + "' for '"@ + p + ":"@ + t + "' could not be found"@,
        PlanErrV::InvalidGlobPattern => "invalid glob pattern"@,
        PlanErrV::ProjectSelectorError => "invalid project selector"@,
    }
}

impl PlanError {
    /// A human-readable description of the failure.
    pub fn message(&self) -> (r: String)
        ensures
            r@ == error_text(self.deep_view()),
    {
        let r = match self {
            PlanError::TaskNotFound { task_id } => String::from_str("Task with id '").concat(
                task_id.as_str(),
            ).concat("' not found"),
            PlanError::UnresolvedExternalDependency { project, target, dependency } => String::from_str(
                "The externalDependency '",
            ).concat(dependency.as_str()).concat("' for '").concat(project.as_str()).concat(
                ":",
            ).concat(target.as_str()).concat("' could not be found"),
            PlanError::InvalidGlobPattern => String::from_str("invalid glob pattern"),
            PlanError::ProjectSelectorError => String::from_str("invalid project selector"),
        };
        proof {
            assert(r@ =~= error_text(self.deep_view()));
        }
        r
    }
}

/// Entries of an association list, addressed by a string key.
pub trait Keyed {
    /// The key, in mathematical form.
    spec fn key(&self) -> Seq<char>;

    /// The key, in executable form.
    fn key_ref(&self) -> (r: &str)
        ensures
            r@ == self.key(),
    ;
}

impl Keyed for Task {
    open spec fn key(&self) -> Seq<char> {
        self.id@
    }

    fn key_ref(&self) -> (r: &str)
        ensures
            r@ == self.key(),
    {
        self.id.as_str()
    }
}

impl Keyed for TaskDeps {
    open spec fn key(&self) -> Seq<char> {
        self.task_id@
    }

    fn key_ref(&self) -> (r: &str)
        ensures
            r@ == self.key(),
    {
        self.task_id.as_str()
    }
}

impl Keyed for NamedTarget {
    open spec fn key(&self) -> Seq<char> {
        self.name@
    }

    fn key_ref(&self) -> (r: &str)
        ensures
            r@ == self.key(),
    {
        self.name.as_str()
    }
}

impl Keyed for NamedInputEntry {
    open spec fn key(&self) -> Seq<char> {
        self.name@
    }

    fn key_ref(&self) -> (r: &str)
        ensures
            r@ == self.key(),
    {
        self.name.as_str()
    }
}

impl Keyed for ProjectNode {
    open spec fn key(&self) -> Seq<char> {
        self.name@
    }

    fn key_ref(&self) -> (r: &str)
        ensures
            r@ == self.key(),
    {
        self.name.as_str()
    }
}

impl Keyed for DepsEntry {
    open spec fn key(&self) -> Seq<char> {
        self.name@
    }

    fn key_ref(&self) -> (r: &str)
        ensures
            r@ == self.key(),
    {
        self.name.as_str()
    }
}

/// First entry of `s` whose key is `name`, if any.
pub open spec fn spec_lookup<T: Keyed>(s: Seq<T>, name: Seq<char>) -> Option<T>
    decreases s.len(),
{
    if s.len() == 0 {
        None
    } else if s[0].key() == name {
        Some(s[0])
    } else {
        spec_lookup(s.drop_first(), name)
    }
}

/// A found entry is an entry of the list.
pub proof fn lemma_spec_lookup_contains<T: Keyed>(s: Seq<T>, name: Seq<char>)
    ensures
        spec_lookup(s, name) matches Some(e) ==> s.contains(e) && e.key() == name,
    decreases s.len(),
{
    if s.len() > 0 && s[0].key() != name {
        lemma_spec_lookup_contains(s.drop_first(), name);
        match spec_lookup(s, name) {
            Some(e) => {
                assert(s.drop_first().contains(e));
                let i = choose|i: int|
                    0 <= i < s.drop_first().len() && s.drop_first()[i] == e;
                assert(s[i + 1] == e);
            },
            None => {},
        }
    }
}

/// Executable first-match lookup in an association list.
pub fn lookup<'a, T: Keyed>(s: &'a Vec<T>, name: &str) -> (r: Option<&'a T>)
    ensures
        match r {
            Some(e) => spec_lookup(s@, name@) == Some(*e),
            None => spec_lookup(s@, name@) is None,
        },
{
    let mut i: usize = 0;
    proof {
        assert(s@.skip(0) =~= s@);
    }
    loop
        invariant
            i <= s.len(),
            spec_lookup(s@, name@) == spec_lookup(s@.skip(i as int), name@),
        decreases s.len() - i,
    {
        if i == s.len() {
            proof {
                assert(s@.skip(i as int).len() == 0);
            }
            return None;
        }
        proof {
            assert(s@.skip(i as int)[0] == s@[i as int]);
        }
        if str_eq(s[i].key_ref(), name) {
            return Some(&s[i]);
        }
        proof {
            assert(s@.skip(i as int).drop_first() =~= s@.skip(i as int + 1));
        }
        i = i + 1;
    }
}

} // verus!
