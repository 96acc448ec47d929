//! The hash instruction planner: for each requested task, the ordered,
//! deduplicated list of symbolic inputs that decide whether a cached result
//! can be reused.

use crate::glob::{glob_set_compiles, GlobMatcher};
use crate::instruction::{sort_dedup, strictly_sorted, HashInstruction, InstrV};
use crate::glob::glob_set_matches;
use crate::model::{
    lemma_spec_lookup_contains, lookup, spec_lookup, DepsEntry, Input, Keyed, NxJson, PlanErrV,
    PlanError, ProjectGraph, ProjectNode, SplitInputs, Task, TaskGraph,
};
use crate::order::str_eq;
use crate::outputs::has_prefix;
use crate::seqs::{lemma_filter_push, lemma_take_push};
use crate::visited::{visited_contains, visited_contents, visited_insert, visited_new, VisitedSet};
use vstd::prelude::*;
use vstd::string::{StrSliceExecFns, StringExecFns};

verus! {

// ---------------------------------------------------------------------------
// Termination measure: how many keyed entries are not yet visited.
// ---------------------------------------------------------------------------
/// Number of entries of `s` whose key is not in `visited`.
pub open spec fn unvisited_keys<T: Keyed>(s: Seq<T>, visited: Set<Seq<char>>) -> int
    decreases s.len(),
{
    if s.len() == 0 {
        0
    } else {
        unvisited_keys(s.drop_last(), visited) + if visited.contains(s.last().key()) {
            0int
        } else {
            1int
        }
    }
}

pub proof fn lemma_unvisited_keys_bounds<T: Keyed>(s: Seq<T>, visited: Set<Seq<char>>)
    ensures
        0 <= unvisited_keys(s, visited) <= s.len(),
    decreases s.len(),
{
    if s.len() > 0 {
        lemma_unvisited_keys_bounds(s.drop_last(), visited);
    }
}

/// Growing the visited set never grows the count.
pub proof fn lemma_unvisited_keys_monotone<T: Keyed>(
    s: Seq<T>,
    v1: Set<Seq<char>>,
    v2: Set<Seq<char>>,
)
    requires
        v1.subset_of(v2),
    ensures
        unvisited_keys(s, v2) <= unvisited_keys(s, v1),
    decreases s.len(),
{
    if s.len() > 0 {
        lemma_unvisited_keys_monotone(s.drop_last(), v1, v2);
    }
}

/// The monotonicity fact in ambient form, triggered on the two counts.
pub broadcast proof fn lemma_unvisited_keys_monotone_auto<T: Keyed>(
    s: Seq<T>,
    v1: Set<Seq<char>>,
    v2: Set<Seq<char>>,
)
    ensures
        #![trigger unvisited_keys(s, v1), unvisited_keys(s, v2)]
        v1.subset_of(v2) ==> unvisited_keys(s, v2) <= unvisited_keys(s, v1),
{
    if v1.subset_of(v2) {
        lemma_unvisited_keys_monotone(s, v1, v2);
    }
}

/// Visiting a key that occurs in the list strictly shrinks the count.
pub proof fn lemma_unvisited_keys_strict<T: Keyed>(
    s: Seq<T>,
    visited: Set<Seq<char>>,
    name: Seq<char>,
)
    requires
        !visited.contains(name),
        exists|i: int| 0 <= i < s.len() && s[i].key() == name,
    ensures
        unvisited_keys(s, visited.insert(name)) < unvisited_keys(s, visited),
    decreases s.len(),
{
    let i = choose|i: int| 0 <= i < s.len() && s[i].key() == name;
    if i == s.len() - 1 {
        lemma_unvisited_keys_monotone(s.drop_last(), visited, visited.insert(name));
    } else {
        assert(s.drop_last()[i] == s[i]);
        lemma_unvisited_keys_strict(s.drop_last(), visited, name);
    }
}

// ---------------------------------------------------------------------------
// External package name resolution.
// ---------------------------------------------------------------------------
/// `suf` is a suffix of `s`.
pub open spec fn has_suffix(s: Seq<char>, suf: Seq<char>) -> bool {
    s.len() >= suf.len() && s.subrange(s.len() - suf.len(), s.len() as int) == suf
}

pub fn str_has_suffix(s: &str, suf: &str) -> (r: bool)
    ensures
        r == has_suffix(s@, suf@),
{
    let slen = s.unicode_len();
    let suflen = suf.unicode_len();
    if slen < suflen {
        return false;
    }
    let tail = s.substring_char(slen - suflen, slen);
    str_eq(tail, suf)
}

/// The first external node whose identifier equals the package name or ends
/// with it: exact match first within one node, suffix match accommodating
/// scoped naming; the enumeration order of the external node list decides
/// between ambiguous suffix matches.
pub open spec fn spec_find_external(externals: Seq<String>, package: Seq<char>) -> Option<Seq<char>>
    decreases externals.len(),
{
    if externals.len() == 0 {
        None
    } else if externals[0]@ == package || has_suffix(externals[0]@, package) {
        Some(externals[0]@)
    } else {
        spec_find_external(externals.drop_first(), package)
    }
}

/// Executable first-match resolution of a package name against the external
/// node identifiers.
pub fn find_external_dependency_node_name<'a>(externals: &'a Vec<String>, package: &str) -> (r:
    Option<&'a String>)
    ensures
        match r {
            Some(n) => spec_find_external(externals@, package@) == Some(n@),
            None => spec_find_external(externals@, package@) is None,
        },
{
    let mut i: usize = 0;
    proof {
        assert(externals@.skip(0) =~= externals@);
    }
    loop
        invariant
            i <= externals.len(),
            spec_find_external(externals@, package@) == spec_find_external(
                externals@.skip(i as int),
                package@,
            ),
        decreases externals.len() - i,
    {
        if i == externals.len() {
            proof {
                assert(externals@.skip(i as int).len() == 0);
            }
            return None;
        }
        proof {
            assert(externals@.skip(i as int)[0] == externals@[i as int]);
        }
        if str_eq(externals[i].as_str(), package) || str_has_suffix(
            externals[i].as_str(),
            package,
        ) {
            return Some(&externals[i]);
        }
        proof {
            assert(externals@.skip(i as int).drop_first() =~= externals@.skip(i as int + 1));
        }
        i = i + 1;
    }
}

// ---------------------------------------------------------------------------
// Self inputs: file sets, runtime commands, environment variables.
// ---------------------------------------------------------------------------
/// The file-set patterns among the inputs, in order.
pub open spec fn spec_filesets(inputs: Seq<Input>) -> Seq<Seq<char>>
    decreases inputs.len(),
{
    if inputs.len() == 0 {
        Seq::empty()
    } else {
        spec_filesets(inputs.drop_last()) + match inputs.last() {
            Input::FileSet(s) => seq![s@],
            _ => Seq::empty(),
        }
    }
}

/// A pattern scoped to the project root, possibly negated.
pub open spec fn project_scoped(p: Seq<char>) -> bool {
    has_prefix(p, "{projectRoot}/"@) || has_prefix(p, "!{projectRoot}/"@)
}

/// The comma-joined form of a pattern list.
pub open spec fn spec_join_comma(xs: Seq<Seq<char>>) -> Seq<char>
    decreases xs.len(),
{
    if xs.len() == 0 {
        Seq::empty()
    } else if xs.len() == 1 {
        xs[0]
    } else {
        spec_join_comma(xs.drop_last()) + seq![','] + xs.last()
    }
}

/// Runtime and environment instructions among the inputs, in order.
pub open spec fn spec_runtime_env(inputs: Seq<Input>) -> Seq<InstrV>
    decreases inputs.len(),
{
    if inputs.len() == 0 {
        Seq::empty()
    } else {
        spec_runtime_env(inputs.drop_last()) + match inputs.last() {
            Input::Runtime(s) => seq![InstrV::Runtime(s@)],
            Input::Environment(s) => seq![InstrV::Environment(s@)],
            _ => Seq::empty(),
        }
    }
}

/// The three instructions a project's own inputs always open with: the
/// project file set (its project-scoped patterns joined by commas), the
/// project's configuration, and the compiler configuration.
pub open spec fn self_header(project: Seq<char>, inputs: Seq<Input>) -> Seq<InstrV> {
    seq![
        InstrV::ProjectFileSet(
            project,
            spec_join_comma(spec_filesets(inputs).filter(|p: Seq<char>| project_scoped(p))),
        ),
        InstrV::ProjectConfiguration(project),
        InstrV::TsConfiguration(project),
    ]
}

/// The instructions contributed by a project's own inputs: the header above,
/// one workspace file set per workspace-scoped pattern, and the runtime and
/// environment entries.
pub open spec fn spec_self_inputs(project: Seq<char>, inputs: Seq<Input>) -> Seq<InstrV> {
    let filesets = spec_filesets(inputs);
    let workspace_sets = filesets.filter(|p: Seq<char>| !project_scoped(p));
    self_header(project, inputs) + workspace_sets.map_values(
        |p: Seq<char>| InstrV::WorkspaceFileSet(p),
    ) + spec_runtime_env(inputs)
}

/// The file-set patterns among the inputs, split into project-scoped and
/// workspace-scoped, in order.
fn collect_filesets(inputs: &Vec<Input>) -> (r: (Vec<String>, Vec<String>))
    ensures
        r.0.deep_view() == spec_filesets(inputs@).filter(|p: Seq<char>| project_scoped(p)),
        r.1.deep_view() == spec_filesets(inputs@).filter(|p: Seq<char>| !project_scoped(p)),
{
    let mut project_sets: Vec<String> = Vec::new();
    let mut workspace_sets: Vec<String> = Vec::new();
    let mut i: usize = 0;
    proof {
        assert(inputs@.take(0) =~= Seq::<Input>::empty());
        crate::seqs::lemma_filter_empty(|p: Seq<char>| project_scoped(p));
        assert(project_sets.deep_view() =~= spec_filesets(inputs@.take(0)).filter(
            |p: Seq<char>| project_scoped(p),
        ));
        assert(workspace_sets.deep_view() =~= spec_filesets(inputs@.take(0)).filter(
            |p: Seq<char>| !project_scoped(p),
        ));
    }
    while i < inputs.len()
        invariant
            i <= inputs.len(),
            project_sets.deep_view() == spec_filesets(inputs@.take(i as int)).filter(
                |p: Seq<char>| project_scoped(p),
            ),
            workspace_sets.deep_view() == spec_filesets(inputs@.take(i as int)).filter(
                |p: Seq<char>| !project_scoped(p),
            ),
        decreases inputs.len() - i,
    {
        let ghost pre = spec_filesets(inputs@.take(i as int));
        proof {
            lemma_take_push(inputs@, i as int);
            assert(inputs@.take(i as int + 1).drop_last() =~= inputs@.take(i as int));
            assert(inputs@.take(i as int + 1).last() == inputs@[i as int]);
        }
        match &inputs[i] {
            Input::FileSet(s) => {
                proof {
                    assert(spec_filesets(inputs@.take(i as int + 1)) =~= pre.push(s@));
                    lemma_filter_push(pre, |p: Seq<char>| project_scoped(p), s@);
                    lemma_filter_push(pre, |p: Seq<char>| !project_scoped(p), s@);
                }
                let scoped = if str_has_prefix_pub(s.as_str(), "{projectRoot}/") {
                    true
                } else {
                    str_has_prefix_pub(s.as_str(), "!{projectRoot}/")
                };
                if scoped {
                    let ghost dpre = project_sets.deep_view();
                    project_sets.push(s.clone());
                    proof {
                        assert(project_sets.deep_view() =~= dpre.push(s@));
                    }
                } else {
                    let ghost dpre = workspace_sets.deep_view();
                    workspace_sets.push(s.clone());
                    proof {
                        assert(workspace_sets.deep_view() =~= dpre.push(s@));
                    }
                }
            },
            _ => {
                proof {
                    assert(spec_filesets(inputs@.take(i as int + 1)) =~= pre);
                }
            },
        }
        i = i + 1;
    }
    proof {
        assert(inputs@.take(inputs.len() as int) =~= inputs@);
    }
    (project_sets, workspace_sets)
}

/// Prefix test, shared with the expansion module.
fn str_has_prefix_pub(p: &str, pre: &str) -> (r: bool)
    ensures
        r == has_prefix(p@, pre@),
{
    let plen = p.unicode_len();
    let prelen = pre.unicode_len();
    if plen < prelen {
        return false;
    }
    let head = p.substring_char(0, prelen);
    str_eq(head, pre)
}

/// Join the patterns with commas.
fn join_comma(xs: &Vec<String>) -> (r: String)
    ensures
        r@ == spec_join_comma(xs.deep_view()),
{
    let ghost dv = xs.deep_view();
    let mut acc = String::new();
    let mut i: usize = 0;
    proof {
        assert(dv.take(0) =~= Seq::<Seq<char>>::empty());
        assert(acc@ =~= spec_join_comma(dv.take(0)));
    }
    while i < xs.len()
        invariant
            i <= xs.len(),
            dv == xs.deep_view(),
            dv.len() == xs.len(),
            acc@ == spec_join_comma(dv.take(i as int)),
        decreases xs.len() - i,
    {
        proof {
            lemma_take_push(dv, i as int);
            assert(dv.take(i as int + 1).drop_last() =~= dv.take(i as int));
            assert(dv.take(i as int + 1).last() == dv[i as int]);
            assert(dv[i as int] == xs@[i as int]@);
        }
        if i > 0 {
            acc.append(",");
            proof {
                reveal_strlit(",");
                assert(","@ =~= seq![',']);
            }
        }
        acc.append(xs[i].as_str());
        proof {
            if i == 0 {
                assert(acc@ =~= spec_join_comma(dv.take(1)));
            } else {
                assert(acc@ =~= spec_join_comma(dv.take(i as int)) + seq![','] + dv[i as int]);
            }
        }
        i = i + 1;
    }
    proof {
        assert(dv.take(xs.len() as int) =~= dv);
    }
    acc
}

/// The instructions from a project's own inputs, executable form.
pub fn gather_self_inputs(project_name: &String, self_inputs: &Vec<Input>) -> (r: Vec<
    HashInstruction,
>)
    ensures
        r.deep_view() == spec_self_inputs(project_name@, self_inputs@),
{
    let (project_sets, workspace_sets) = collect_filesets(self_inputs);
    let joined = join_comma(&project_sets);
    let mut r: Vec<HashInstruction> = Vec::new();
    r.push(HashInstruction::ProjectFileSet(project_name.clone(), joined));
    r.push(HashInstruction::ProjectConfiguration(project_name.clone()));
    r.push(HashInstruction::TsConfiguration(project_name.clone()));
    let ghost head = r.deep_view();
    proof {
        let filesets = spec_filesets(self_inputs@);
        assert(head =~= seq![
            InstrV::ProjectFileSet(
                project_name@,
                spec_join_comma(filesets.filter(|p: Seq<char>| project_scoped(p))),
            ),
            InstrV::ProjectConfiguration(project_name@),
            InstrV::TsConfiguration(project_name@),
        ]);
    }
    let mut i: usize = 0;
    let ghost wsets = workspace_sets.deep_view();
    proof {
        assert(wsets.take(0) =~= Seq::<Seq<char>>::empty());
        assert(r.deep_view() =~= head + wsets.take(0).map_values(
            |p: Seq<char>| InstrV::WorkspaceFileSet(p),
        ));
    }
    while i < workspace_sets.len()
        invariant
            i <= workspace_sets.len(),
            wsets == workspace_sets.deep_view(),
            wsets.len() == workspace_sets.len(),
            r.deep_view() == head + wsets.take(i as int).map_values(
                |p: Seq<char>| InstrV::WorkspaceFileSet(p),
            ),
        decreases workspace_sets.len() - i,
    {
        let ghost pre = r.deep_view();
        r.push(HashInstruction::WorkspaceFileSet(workspace_sets[i].clone()));
        proof {
            assert(wsets[i as int] == workspace_sets@[i as int]@);
            lemma_take_push(wsets, i as int);
            crate::seqs::lemma_map_values_push(
                wsets.take(i as int),
                |p: Seq<char>| InstrV::WorkspaceFileSet(p),
                wsets[i as int],
            );
            assert(r.deep_view() =~= pre.push(InstrV::WorkspaceFileSet(wsets[i as int])));
        }
        i = i + 1;
    }
    proof {
        assert(wsets.take(workspace_sets.len() as int) =~= wsets);
    }
    let ghost mid = r.deep_view();
    let mut k: usize = 0;
    proof {
        assert(self_inputs@.take(0) =~= Seq::<Input>::empty());
        assert(r.deep_view() =~= mid + spec_runtime_env(self_inputs@.take(0)));
    }
    while k < self_inputs.len()
        invariant
            k <= self_inputs.len(),
            r.deep_view() == mid + spec_runtime_env(self_inputs@.take(k as int)),
        decreases self_inputs.len() - k,
    {
        let ghost pre = r.deep_view();
        proof {
            lemma_take_push(self_inputs@, k as int);
            assert(self_inputs@.take(k as int + 1).drop_last() =~= self_inputs@.take(k as int));
            assert(self_inputs@.take(k as int + 1).last() == self_inputs@[k as int]);
        }
        match &self_inputs[k] {
            Input::Runtime(s) => {
                r.push(HashInstruction::Runtime(s.clone()));
                proof {
                    assert(r.deep_view() =~= pre.push(InstrV::Runtime(s@)));
                    assert(spec_runtime_env(self_inputs@.take(k as int + 1)) =~= spec_runtime_env(
                        self_inputs@.take(k as int),
                    ).push(InstrV::Runtime(s@)));
                    assert(r.deep_view() =~= mid + spec_runtime_env(
                        self_inputs@.take(k as int + 1),
                    ));
                }
            },
            Input::Environment(s) => {
                r.push(HashInstruction::Environment(s.clone()));
                proof {
                    assert(r.deep_view() =~= pre.push(InstrV::Environment(s@)));
                    assert(spec_runtime_env(self_inputs@.take(k as int + 1)) =~= spec_runtime_env(
                        self_inputs@.take(k as int),
                    ).push(InstrV::Environment(s@)));
                    assert(r.deep_view() =~= mid + spec_runtime_env(
                        self_inputs@.take(k as int + 1),
                    ));
                }
            },
            _ => {
                proof {
                    assert(spec_runtime_env(self_inputs@.take(k as int + 1)) =~= spec_runtime_env(
                        self_inputs@.take(k as int),
                    ));
                    assert(r.deep_view() =~= mid + spec_runtime_env(
                        self_inputs@.take(k as int + 1),
                    ));
                }
            },
        }
        k = k + 1;
    }
    proof {
        assert(self_inputs@.take(self_inputs.len() as int) =~= self_inputs@);
        assert(r.deep_view() =~= spec_self_inputs(project_name@, self_inputs@));
    }
    r
}

// ---------------------------------------------------------------------------
// Target input: the executor's own contribution to the hash.
// ---------------------------------------------------------------------------
/// The executor identifier up to the first `:`, or all of it.
pub open spec fn up_to_colon(s: Seq<char>) -> Seq<char>
    decreases s.len(),
{
    if s.len() == 0 {
        Seq::empty()
    } else if s[0] == ':' {
        Seq::empty()
    } else {
        seq![s[0]] + up_to_colon(s.drop_first())
    }
}

proof fn lemma_up_to_colon_take(s: Seq<char>, j: int)
    requires
        0 <= j <= s.len(),
        forall|k: int| 0 <= k < j ==> s[k] != ':',
        j < s.len() ==> s[j] == ':',
    ensures
        up_to_colon(s) == s.take(j),
    decreases j,
{
    if j == 0 {
        assert(up_to_colon(s) =~= s.take(0));
    } else {
        assert(forall|k: int| 0 <= k < j - 1 ==> s.drop_first()[k] == s[k + 1]);
        lemma_up_to_colon_take(s.drop_first(), j - 1);
        assert(s.take(j) =~= seq![s[0]] + s.drop_first().take(j - 1));
    }
}

fn exec_up_to_colon(s: &str) -> (r: String)
    ensures
        r@ == up_to_colon(s@),
{
    let len = s.unicode_len();
    let mut j: usize = 0;
    loop
        invariant
            j <= len,
            len == s@.len(),
            forall|k: int| 0 <= k < j ==> s@[k] != ':',
        decreases len - j,
    {
        if j == len {
            proof {
                lemma_up_to_colon_take(s@, j as int);
                assert(s@.take(j as int) =~= s@);
            }
            return s.to_owned();
        }
        if s.get_char(j) == ':' {
            proof {
                lemma_up_to_colon_take(s@, j as int);
            }
            return s.substring_char(0, j).to_owned();
        }
        j = j + 1;
    }
}

/// A first-party executor identifier.
pub open spec fn first_party(e: Seq<char>) -> bool {
    has_prefix(e, "@nrwl/"@) || has_prefix(e, "@nx/"@)
}

/// The external packages named by the inputs' explicit external dependency
/// entries.
pub open spec fn has_external_dep_inputs(inputs: Seq<Input>) -> bool {
    exists|i: int| 0 <= i < inputs.len() && inputs[i] is ExternalDependency
}

/// A closure table in mathematical form: external node identifiers paired
/// with the names of their recorded transitive dependency closures, in order.
pub type ClosureView = Seq<(Seq<char>, Seq<Seq<char>>)>;

/// The mathematical form of a closure table.
pub open spec fn closure_view(s: Seq<DepsEntry>) -> ClosureView {
    s.map_values(|e: DepsEntry| (e.name@, e.deps.deep_view()))
}

/// First entry of the closure table for `name`, if any.
pub open spec fn cv_lookup(cv: ClosureView, name: Seq<char>) -> Option<Seq<Seq<char>>>
    decreases cv.len(),
{
    if cv.len() == 0 {
        None
    } else if cv[0].0 == name {
        Some(cv[0].1)
    } else {
        cv_lookup(cv.drop_first(), name)
    }
}

/// Looking a name up in a closure table or in its mathematical form agree.
proof fn lemma_cv_lookup_view(s: Seq<DepsEntry>, name: Seq<char>)
    ensures
        cv_lookup(closure_view(s), name) == match spec_lookup(s, name) {
            Some(e) => Some(e.deps.deep_view()),
            None => None::<Seq<Seq<char>>>,
        },
    decreases s.len(),
{
    if s.len() > 0 {
        assert(closure_view(s)[0] == (s[0].name@, s[0].deps.deep_view()));
        assert(closure_view(s).drop_first() =~= closure_view(s.drop_first()));
        lemma_cv_lookup_view(s.drop_first(), name);
    }
}

/// The transitive closure recorded for an external node, as instructions.
pub open spec fn closure_externals(cv: ClosureView, name: Seq<char>) -> Seq<InstrV> {
    match cv_lookup(cv, name) {
        Some(ds) => ds.map_values(|d: Seq<char>| InstrV::External(d)),
        None => Seq::empty(),
    }
}

/// Resolve one list of package names: each resolves to the first matching
/// external node, followed by that node's recorded transitive closure; the
/// first name with no match is the error.
pub open spec fn spec_ext_names(
    externals: Seq<String>,
    closures: ClosureView,
    names: Seq<String>,
) -> Result<Seq<InstrV>, Seq<char>>
    decreases names.len(),
{
    if names.len() == 0 {
        Ok(Seq::empty())
    } else {
        match spec_ext_names(externals, closures, names.drop_last()) {
            Err(d) => Err(d),
            Ok(pre) => match spec_find_external(externals, names.last()@) {
                None => Err(names.last()@),
                Some(n) => Ok(pre + seq![InstrV::External(n)] + closure_externals(closures, n)),
            },
        }
    }
}

/// Resolve every explicit external dependency entry among the inputs, in
/// order.
pub open spec fn spec_ext_inputs(
    externals: Seq<String>,
    closures: ClosureView,
    inputs: Seq<Input>,
) -> Result<Seq<InstrV>, Seq<char>>
    decreases inputs.len(),
{
    if inputs.len() == 0 {
        Ok(Seq::empty())
    } else {
        match spec_ext_inputs(externals, closures, inputs.drop_last()) {
            Err(d) => Err(d),
            Ok(pre) => match inputs.last() {
                Input::ExternalDependency(names) => match spec_ext_names(
                    externals,
                    closures,
                    names@,
                ) {
                    Err(d) => Err(d),
                    Ok(s) => Ok(pre + s),
                },
                _ => Ok(pre),
            },
        }
    }
}

/// An error in a prefix decides the whole list.
proof fn lemma_ext_inputs_extend_err(
    externals: Seq<String>,
    closures: ClosureView,
    inputs: Seq<Input>,
    k: int,
)
    requires
        0 <= k <= inputs.len(),
        spec_ext_inputs(externals, closures, inputs.take(k)) is Err,
    ensures
        spec_ext_inputs(externals, closures, inputs) == spec_ext_inputs(
            externals,
            closures,
            inputs.take(k),
        ),
    decreases inputs.len() - k,
{
    if k < inputs.len() {
        assert(inputs.take(k + 1).drop_last() =~= inputs.take(k));
        lemma_ext_inputs_extend_err(externals, closures, inputs, k + 1);
        assert(inputs.take(inputs.len() as int) =~= inputs);
    } else {
        assert(inputs.take(k) =~= inputs);
    }
}

proof fn lemma_ext_names_extend_err(
    externals: Seq<String>,
    closures: ClosureView,
    names: Seq<String>,
    k: int,
)
    requires
        0 <= k <= names.len(),
        spec_ext_names(externals, closures, names.take(k)) is Err,
    ensures
        spec_ext_names(externals, closures, names) == spec_ext_names(
            externals,
            closures,
            names.take(k),
        ),
    decreases names.len() - k,
{
    if k < names.len() {
        assert(names.take(k + 1).drop_last() =~= names.take(k));
        lemma_ext_names_extend_err(externals, closures, names, k + 1);
        assert(names.take(names.len() as int) =~= names);
    } else {
        assert(names.take(k) =~= names);
    }
}

/// Inputs without external dependency entries resolve to nothing.
pub proof fn lemma_no_ext_inputs_empty(
    externals: Seq<String>,
    closures: ClosureView,
    inputs: Seq<Input>,
)
    requires
        !has_external_dep_inputs(inputs),
    ensures
        spec_ext_inputs(externals, closures, inputs) == Ok::<Seq<InstrV>, Seq<char>>(Seq::empty()),
    decreases inputs.len(),
{
    if inputs.len() > 0 {
        assert(forall|i: int|
            0 <= i < inputs.len() - 1 ==> inputs.drop_last()[i] == #[trigger] inputs[i]);
        lemma_no_ext_inputs_empty(externals, closures, inputs.drop_last());
        assert(!(inputs.last() is ExternalDependency)) by {
            assert(inputs[inputs.len() - 1] == inputs.last());
        }
        assert(spec_ext_inputs(externals, closures, inputs) =~= Ok::<Seq<InstrV>, Seq<char>>(
            Seq::empty() + Seq::empty(),
        ));
        assert(Seq::<InstrV>::empty() + Seq::<InstrV>::empty() =~= Seq::<InstrV>::empty());
    }
}

/// What the executor itself contributes: a first-party executor resolves to
/// its own package as one `External` instruction; otherwise the explicitly
/// declared external dependencies resolve with their closures, the first
/// unresolvable name being the error, and with none declared the
/// `AllExternalDependencies` sentinel stands in. A missing project or target
/// contributes nothing.
pub open spec fn spec_target_input(
    nodes: Seq<ProjectNode>,
    externals: Seq<String>,
    closures: ClosureView,
    project: Seq<char>,
    target_name: Seq<char>,
    self_inputs: Seq<Input>,
) -> Result<Seq<InstrV>, Seq<char>> {
    match spec_lookup(nodes, project) {
        None => Ok(Seq::empty()),
        Some(node) => match spec_lookup(node.targets@, target_name) {
            None => Ok(Seq::empty()),
            Some(nt) => {
                let fp = match nt.target.executor {
                    Some(e) => first_party(e@),
                    None => false,
                };
                if fp {
                    let e = nt.target.executor.unwrap();
                    let pkg = up_to_colon(e@);
                    let existing = match spec_find_external(externals, pkg) {
                        Some(n) => n,
                        None => pkg,
                    };
                    Ok(seq![InstrV::External(existing)])
                } else {
                    match spec_ext_inputs(externals, closures, self_inputs) {
                        Err(d) => Err(d),
                        Ok(s) => if s.len() == 0 {
                            Ok(seq![InstrV::AllExternalDependencies])
                        } else {
                            Ok(s)
                        },
                    }
                }
            },
        },
    }
}

/// Executable form of the explicit external dependency resolution.
#[verifier::loop_isolation(false)]
fn gather_ext_inputs(
    externals: &Vec<String>,
    closures: &Vec<DepsEntry>,
    self_inputs: &Vec<Input>,
) -> (r: Result<Vec<HashInstruction>, String>)
    ensures
        match r {
            Ok(v) => spec_ext_inputs(externals@, closure_view(closures@), self_inputs@) == Ok::<_, Seq<char>>(
                v.deep_view(),
            ),
            Err(d) => spec_ext_inputs(externals@, closure_view(closures@), self_inputs@) == Err::<Seq<InstrV>, _>(
                d@,
            ),
        },
{
    let mut acc: Vec<HashInstruction> = Vec::new();
    let mut i: usize = 0;
    proof {
        assert(self_inputs@.take(0) =~= Seq::<Input>::empty());
        assert(acc.deep_view() =~= Seq::<InstrV>::empty());
    }
    while i < self_inputs.len()
        invariant
            i <= self_inputs.len(),
            spec_ext_inputs(externals@, closure_view(closures@), self_inputs@.take(i as int)) == Ok::<
                _,
                Seq<char>,
            >(acc.deep_view()),
        decreases self_inputs.len() - i,
    {
        proof {
            lemma_take_push(self_inputs@, i as int);
            assert(self_inputs@.take(i as int + 1).drop_last() =~= self_inputs@.take(i as int));
            assert(self_inputs@.take(i as int + 1).last() == self_inputs@[i as int]);
        }
        match &self_inputs[i] {
            Input::ExternalDependency(names) => {
                let mut j: usize = 0;
                let ghost pre = acc.deep_view();
                proof {
                    assert(names@.take(0) =~= Seq::<String>::empty());
                    assert(acc.deep_view() =~= pre + Seq::<InstrV>::empty());
                }
                while j < names.len()
                    invariant
                        j <= names.len(),
                        spec_ext_inputs(externals@, closure_view(closures@), self_inputs@.take(i as int)) == Ok::<
                            _,
                            Seq<char>,
                        >(pre),
                        spec_ext_names(externals@, closure_view(closures@), names@.take(j as int)) matches Ok(
                            delta,
                        ) && acc.deep_view() == pre + delta,
                    decreases names.len() - j,
                {
                    proof {
                        lemma_take_push(names@, j as int);
                        assert(names@.take(j as int + 1).drop_last() =~= names@.take(j as int));
                        assert(names@.take(j as int + 1).last() == names@[j as int]);
                    }
                    match find_external_dependency_node_name(externals, names[j].as_str()) {
                        None => {
                            proof {
                                assert(spec_ext_names(
                                    externals@,
                                    closure_view(closures@),
                                    names@.take(j as int + 1),
                                ) == Err::<Seq<InstrV>, _>(names@[j as int]@));
                                lemma_ext_names_extend_err(
                                    externals@,
                                    closure_view(closures@),
                                    names@,
                                    j as int + 1,
                                );
                                assert(spec_ext_inputs(
                                    externals@,
                                    closure_view(closures@),
                                    self_inputs@.take(i as int + 1),
                                ) == Err::<Seq<InstrV>, _>(names@[j as int]@));
                                lemma_ext_inputs_extend_err(
                                    externals@,
                                    closure_view(closures@),
                                    self_inputs@,
                                    i as int + 1,
                                );
                            }
                            return Err(names[j].clone());
                        },
                        Some(node_name) => {
                            let ghost before = acc.deep_view();
                            let resolved = node_name.clone();
                            acc.push(HashInstruction::External(resolved));
                            proof {
                                assert(acc.deep_view() =~= before.push(
                                    InstrV::External(node_name@),
                                ));
                            }
                            proof {
                                lemma_cv_lookup_view(closures@, node_name@);
                            }
                            match lookup(closures, node_name.as_str()) {
                                Some(entry) => {
                                    let ghost cd = entry.deps.deep_view();
                                    let mut c: usize = 0;
                                    let ghost base = acc.deep_view();
                                    proof {
                                        assert(cd.take(0) =~= Seq::<Seq<char>>::empty());
                                        assert(acc.deep_view() =~= base + cd.take(0).map_values(
                                            |d: Seq<char>| InstrV::External(d),
                                        ));
                                    }
                                    while c < entry.deps.len()
                                        invariant
                                            c <= entry.deps.len(),
                                            cd == entry.deps.deep_view(),
                                            cd.len() == entry.deps.len(),
                                            acc.deep_view() == base + cd.take(
                                                c as int,
                                            ).map_values(|d: Seq<char>| InstrV::External(d)),
                                        decreases entry.deps.len() - c,
                                    {
                                        let ghost b2 = acc.deep_view();
                                        acc.push(
                                            HashInstruction::External(entry.deps[c].clone()),
                                        );
                                        proof {
                                            assert(cd[c as int] == entry.deps@[c as int]@);
                                            lemma_take_push(cd, c as int);
                                            crate::seqs::lemma_map_values_push(
                                                cd.take(c as int),
                                                |d: Seq<char>| InstrV::External(d),
                                                cd[c as int],
                                            );
                                            assert(acc.deep_view() =~= b2.push(
                                                InstrV::External(cd[c as int]),
                                            ));
                                        }
                                        c = c + 1;
                                    }
                                    proof {
                                        assert(cd.take(entry.deps.len() as int) =~= cd);
                                        assert(closure_externals(closure_view(closures@), node_name@)
                                            == cd.map_values(|d: Seq<char>| InstrV::External(d)));
                                        assert(acc.deep_view() =~= pre + (spec_ext_names(
                                            externals@,
                                            closure_view(closures@),
                                            names@.take(j as int),
                                        )->Ok_0 + seq![InstrV::External(node_name@)]
                                            + closure_externals(closure_view(closures@), node_name@)));
                                    }
                                },
                                None => {
                                    proof {
                                        assert(closure_externals(closure_view(closures@), node_name@)
                                            =~= Seq::<InstrV>::empty());
                                        assert(acc.deep_view() =~= pre + (spec_ext_names(
                                            externals@,
                                            closure_view(closures@),
                                            names@.take(j as int),
                                        )->Ok_0 + seq![InstrV::External(node_name@)]
                                            + closure_externals(closure_view(closures@), node_name@)));
                                    }
                                },
                            }
                        },
                    }
                    j = j + 1;
                }
                proof {
                    assert(names@.take(names.len() as int) =~= names@);
                }
            },
            _ => {
                proof {
                    assert(acc.deep_view() =~= acc.deep_view() + Seq::<InstrV>::empty());
                }
            },
        }
        i = i + 1;
    }
    proof {
        assert(self_inputs@.take(self_inputs.len() as int) =~= self_inputs@);
    }
    Ok(acc)
}

/// The executor's contribution, executable form.
pub fn target_input(
    nodes: &Vec<ProjectNode>,
    externals: &Vec<String>,
    closures: &Vec<DepsEntry>,
    project: &String,
    target_name: &String,
    self_inputs: &Vec<Input>,
) -> (r: Result<Vec<HashInstruction>, PlanError>)
    ensures
        match r {
            Ok(v) => spec_target_input(
                nodes@,
                externals@,
                closure_view(closures@),
                project@,
                target_name@,
                self_inputs@,
            ) == Ok::<_, Seq<char>>(v.deep_view()),
            Err(e) => {
                &&& spec_target_input(
                    nodes@,
                    externals@,
                    closure_view(closures@),
                    project@,
                    target_name@,
                    self_inputs@,
                ) matches Err(d)
                &&& e matches PlanError::UnresolvedExternalDependency {
                    project: p,
                    target: t,
                    dependency: dep,
                } && p@ == project@ && t@ == target_name@ && dep@ == d
            },
        },
{
    let node = match lookup(nodes, project.as_str()) {
        None => {
            let r: Vec<HashInstruction> = Vec::new();
            proof {
                assert(r.deep_view() =~= Seq::<InstrV>::empty());
            }
            return Ok(r);
        },
        Some(n) => n,
    };
    let nt = match lookup(&node.targets, target_name.as_str()) {
        None => {
            let r: Vec<HashInstruction> = Vec::new();
            proof {
                assert(r.deep_view() =~= Seq::<InstrV>::empty());
            }
            return Ok(r);
        },
        Some(t) => t,
    };
    let fp = match &nt.target.executor {
        Some(e) => {
            if str_has_prefix_pub(e.as_str(), "@nrwl/") {
                true
            } else {
                str_has_prefix_pub(e.as_str(), "@nx/")
            }
        },
        None => false,
    };
    if fp {
        let e = match &nt.target.executor {
            Some(e) => e,
            None => {
                proof {
                    assert(false);
                }
                unreached()
            },
        };
        let pkg = exec_up_to_colon(e.as_str());
        let existing = match find_external_dependency_node_name(externals, pkg.as_str()) {
            Some(n) => n.clone(),
            None => pkg,
        };
        let mut r: Vec<HashInstruction> = Vec::new();
        r.push(HashInstruction::External(existing));
        proof {
            assert(r.deep_view() =~= seq![
                spec_target_input(
                    nodes@,
                    externals@,
                    closure_view(closures@),
                    project@,
                    target_name@,
                    self_inputs@,
                )->Ok_0[0],
            ]);
        }
        Ok(r)
    } else {
        match gather_ext_inputs(externals, closures, self_inputs) {
            Err(d) => Err(
                PlanError::UnresolvedExternalDependency {
                    project: project.clone(),
                    target: target_name.clone(),
                    dependency: d,
                },
            ),
            Ok(v) => {
                if v.len() == 0 {
                    proof {
                        assert(v.deep_view().len() == 0);
                    }
                    let mut r: Vec<HashInstruction> = Vec::new();
                    r.push(HashInstruction::AllExternalDependencies);
                    proof {
                        assert(r.deep_view() =~= seq![InstrV::AllExternalDependencies]);
                    }
                    Ok(r)
                } else {
                    proof {
                        assert(v.deep_view().len() != 0);
                    }
                    Ok(v)
                }
            },
        }
    }
}

// ---------------------------------------------------------------------------
// Transitive closures of external nodes.
// ---------------------------------------------------------------------------
/// The views of a list of names.
pub open spec fn string_views(ss: Seq<String>) -> Seq<Seq<char>> {
    ss.map_values(|s: String| s@)
}

/// The direct dependency names recorded for a node; none recorded reads as
/// none at all.
pub open spec fn spec_deps_of(deps_map: Seq<DepsEntry>, name: Seq<char>) -> Seq<String> {
    match spec_lookup(deps_map, name) {
        Some(e) => e.deps@,
        None => Seq::empty(),
    }
}

/// The walk of the dependency edges: the head of the work list is dropped
/// when already visited, else recorded, with its direct dependencies put in
/// front of the remaining work.
pub open spec fn spec_walk(
    deps_map: Seq<DepsEntry>,
    visited: Set<Seq<char>>,
    work: Seq<Seq<char>>,
    acc: Seq<Seq<char>>,
) -> Seq<Seq<char>>
    decreases unvisited_keys(deps_map, visited), work.len(),
    via spec_walk_decreases
{
    if work.len() == 0 {
        acc
    } else if visited.contains(work[0]) {
        spec_walk(deps_map, visited, work.drop_first(), acc)
    } else {
        spec_walk(
            deps_map,
            visited.insert(work[0]),
            string_views(spec_deps_of(deps_map, work[0])) + work.drop_first(),
            acc.push(work[0]),
        )
    }
}

#[via_fn]
proof fn spec_walk_decreases(
    deps_map: Seq<DepsEntry>,
    visited: Set<Seq<char>>,
    work: Seq<Seq<char>>,
    acc: Seq<Seq<char>>,
) {
    lemma_unvisited_keys_bounds(deps_map, visited);
    if work.len() > 0 && !visited.contains(work[0]) {
        let w = work[0];
        lemma_unvisited_keys_bounds(deps_map, visited.insert(w));
        lemma_unvisited_keys_monotone(deps_map, visited, visited.insert(w));
        match spec_lookup(deps_map, w) {
            Some(e) => {
                lemma_spec_lookup_contains(deps_map, w);
                let i = choose|i: int| 0 <= i < deps_map.len() && deps_map[i] == e;
                assert(deps_map[i].key() == w);
                lemma_unvisited_keys_strict(deps_map, visited, w);
            },
            None => {
                assert(string_views(spec_deps_of(deps_map, w)).len() == 0);
            },
        }
    }
}

/// Every name reachable from `start` along the dependency edges, excluding
/// `start` itself, in walk order.
pub open spec fn spec_closure(deps_map: Seq<DepsEntry>, start: Seq<char>) -> Seq<Seq<char>> {
    spec_walk(
        deps_map,
        Set::empty().insert(start),
        string_views(spec_deps_of(deps_map, start)),
        Seq::empty(),
    )
}

/// The closure table the planner precomputes: one entry per external node,
/// in enumeration order, holding that node's reachable names.
pub open spec fn spec_closure_map(graph: ProjectGraph) -> ClosureView {
    Seq::new(
        graph.external_nodes@.len(),
        |i: int|
            (
                graph.external_nodes@[i]@,
                spec_closure(graph.dependencies@, graph.external_nodes@[i]@),
            ),
    )
}

/// Executable walk: exactly `spec_closure`, duplicate-free and without the
/// start name.
#[verifier::loop_isolation(false)]
fn walk_reachable(deps_map: &Vec<DepsEntry>, start: &str) -> (r: Vec<String>)
    ensures
        r.deep_view() == spec_closure(deps_map@, start@),
        r.deep_view().no_duplicates(),
        forall|k: int| 0 <= k < r.deep_view().len() ==> r.deep_view()[k] != start@,
{
    let mut visited = visited_new();
    visited_insert(&mut visited, start);
    let mut work: Vec<String> = match lookup(deps_map, start) {
        Some(e) => crate::instruction::clone_strings(&e.deps),
        None => Vec::new(),
    };
    let mut acc: Vec<String> = Vec::new();
    proof {
        assert(visited_contents(visited) =~= Set::empty().insert(start@));
        assert(work.deep_view() =~= string_views(spec_deps_of(deps_map@, start@)));
        assert(acc.deep_view() =~= Seq::<Seq<char>>::empty());
    }
    loop
        invariant
            visited_contents(visited).contains(start@),
            forall|k: int|
                0 <= k < acc.deep_view().len() ==> visited_contents(visited).contains(
                    #[trigger] acc.deep_view()[k],
                ) && acc.deep_view()[k] != start@,
            acc.deep_view().no_duplicates(),
            spec_closure(deps_map@, start@) == spec_walk(
                deps_map@,
                visited_contents(visited),
                work.deep_view(),
                acc.deep_view(),
            ),
        decreases unvisited_keys(deps_map@, visited_contents(visited)), work.len(),
    {
        proof {
            lemma_unvisited_keys_bounds(deps_map@, visited_contents(visited));
        }
        if work.len() == 0 {
            proof {
                assert(work.deep_view().len() == 0);
            }
            return acc;
        }
        let ghost wd = work.deep_view();
        let w = work.remove(0);
        proof {
            assert(work.deep_view() =~= wd.drop_first());
            assert(w@ == wd[0]);
        }
        if !visited_contains(&visited, w.as_str()) {
            let ghost before = visited_contents(visited);
            visited_insert(&mut visited, w.as_str());
            match lookup(deps_map, w.as_str()) {
                Some(e) => {
                    proof {
                        lemma_spec_lookup_contains(deps_map@, w@);
                        let found = spec_lookup(deps_map@, w@).unwrap();
                        let i = choose|i: int|
                            0 <= i < deps_map@.len() && deps_map@[i] == found;
                        assert(deps_map@[i].key() == w@);
                        lemma_unvisited_keys_strict(deps_map@, before, w@);
                    }
                    let mut children = crate::instruction::clone_strings(&e.deps);
                    let ghost cdv = children.deep_view();
                    children.append(&mut work);
                    proof {
                        assert(children.deep_view() =~= cdv + wd.drop_first());
                        assert(cdv =~= string_views(spec_deps_of(deps_map@, w@)));
                    }
                    work = children;
                },
                None => {
                    proof {
                        lemma_unvisited_keys_monotone(deps_map@, before, before.insert(w@));
                        assert(string_views(spec_deps_of(deps_map@, w@)) + wd.drop_first()
                            =~= work.deep_view());
                    }
                },
            }
            let ghost av = acc.deep_view();
            acc.push(w);
            proof {
                assert(acc.deep_view() =~= av.push(w@));
                assert(!av.contains(w@));
                assert(acc.deep_view().no_duplicates()) by {
                    assert(forall|k: int| 0 <= k < av.len() ==> acc.deep_view()[k] == av[k]);
                    assert(acc.deep_view()[av.len() as int] == w@);
                }
            }
        }
        proof {
            lemma_unvisited_keys_bounds(deps_map@, visited_contents(visited));
        }
    }
}

/// The precomputed transitive dependency closure of every external node:
/// exactly the closure table `spec_closure_map`, each closure duplicate-free
/// and without the node itself.
fn setup_external_deps(graph: &ProjectGraph) -> (r: Vec<DepsEntry>)
    ensures
        closure_view(r@) == spec_closure_map(*graph),
        forall|i: int|
            0 <= i < r@.len() ==> (#[trigger] r@[i]).deps.deep_view().no_duplicates()
                && forall|k: int|
                0 <= k < r@[i].deps.deep_view().len() ==> r@[i].deps.deep_view()[k] != r@[i].name@,
{
    let mut r: Vec<DepsEntry> = Vec::new();
    let mut i: usize = 0;
    proof {
        assert(closure_view(r@) =~= spec_closure_map(*graph).take(0));
    }
    while i < graph.external_nodes.len()
        invariant
            i <= graph.external_nodes.len(),
            r@.len() == i,
            closure_view(r@) == spec_closure_map(*graph).take(i as int),
            forall|j: int|
                0 <= j < i ==> (#[trigger] r@[j]).deps.deep_view().no_duplicates()
                    && r@[j].name@ == graph.external_nodes@[j]@ && forall|k: int|
                    0 <= k < r@[j].deps.deep_view().len() ==> r@[j].deps.deep_view()[k]
                        != r@[j].name@,
        decreases graph.external_nodes.len() - i,
    {
        let ghost pre = closure_view(r@);
        let name = graph.external_nodes[i].clone();
        let deps = walk_reachable(&graph.dependencies, graph.external_nodes[i].as_str());
        r.push(DepsEntry { name, deps });
        proof {
            assert(closure_view(r@) =~= pre.push(
                (graph.external_nodes@[i as int]@, spec_closure(
                    graph.dependencies@,
                    graph.external_nodes@[i as int]@,
                )),
            ));
            crate::seqs::lemma_take_push(spec_closure_map(*graph), i as int);
            assert(spec_closure_map(*graph)[i as int] == (
                graph.external_nodes@[i as int]@,
                spec_closure(graph.dependencies@, graph.external_nodes@[i as int]@),
            ));
        }
        i = i + 1;
    }
    proof {
        assert(spec_closure_map(*graph).take(graph.external_nodes.len() as int)
            =~= spec_closure_map(*graph));
    }
    r
}

// ---------------------------------------------------------------------------
// Dependency traversal.
// ---------------------------------------------------------------------------
/// How one dependency-bucket input applies to a dependency project: a named
/// input reference marked for dependencies resolves against the project's
/// named-input table, then the workspace one; anything else does not apply.
pub open spec fn spec_dep_expansion(node: ProjectNode, nx: NxJson, input: Input) -> Option<
    Seq<Input>,
> {
    match input {
        Input::Inputs { input: name, dependencies } => {
            if !dependencies {
                None
            } else {
                match spec_lookup(node.named_inputs@, name@) {
                    Some(e) => Some(e.inputs@),
                    None => match spec_lookup(nx.named_inputs@, name@) {
                        Some(e) => Some(e.inputs@),
                        None => None,
                    },
                }
            }
        },
        _ => None,
    }
}

fn dep_expansion<'a>(dep_node: &'a ProjectNode, nx: &'a NxJson, input: &Input) -> (r: Option<
    &'a Vec<Input>,
>)
    ensures
        match r {
            Some(v) => spec_dep_expansion(*dep_node, *nx, *input) == Some(v@),
            None => spec_dep_expansion(*dep_node, *nx, *input) is None,
        },
{
    match input {
        Input::Inputs { input: name, dependencies } => {
            if !*dependencies {
                return None;
            }
            match lookup(&dep_node.named_inputs, name.as_str()) {
                Some(e) => Some(&e.inputs),
                None => match lookup(&nx.named_inputs, name.as_str()) {
                    Some(e) => Some(&e.inputs),
                    None => None,
                },
            }
        },
        _ => None,
    }
}

/// Walk one project's direct dependency list under one dependency-bucket
/// input, from position `j`: a name already visited is skipped entirely; a
/// new project dependency is marked visited and, when the input applies to
/// it, contributes recursively; a new external dependency is marked visited
/// and contributes itself and its recorded closure when the closure table
/// knows it.
pub open spec fn spec_deps_iter(
    graph: ProjectGraph,
    nx: NxJson,
    cv: ClosureView,
    dinput: Input,
    deps: Seq<String>,
    j: int,
    visited: Set<Seq<char>>,
) -> (Seq<InstrV>, Set<Seq<char>>)
    decreases unvisited_keys(graph.nodes@, visited), 0int, deps.len() - j,
    via spec_deps_iter_decreases
{
    if j < 0 || j >= deps.len() {
        (Seq::empty(), visited)
    } else {
        let dep = deps[j]@;
        if visited.contains(dep) {
            spec_deps_iter(graph, nx, cv, dinput, deps, j + 1, visited)
        } else {
            let v1 = visited.insert(dep);
            match spec_lookup(graph.nodes@, dep) {
                Some(node) => match spec_dep_expansion(node, nx, dinput) {
                    Some(exp) => {
                        let sub = spec_project_contrib(graph, nx, cv, node.name@, exp, dinput, v1);
                        let rest = spec_deps_iter(
                            graph,
                            nx,
                            cv,
                            dinput,
                            deps,
                            j + 1,
                            v1.union(sub.1),
                        );
                        (sub.0 + rest.0, rest.1)
                    },
                    None => spec_deps_iter(graph, nx, cv, dinput, deps, j + 1, v1),
                },
                None => {
                    let ext_part = match cv_lookup(cv, dep) {
                        Some(ds) => seq![InstrV::External(dep)] + ds.map_values(
                            |d: Seq<char>| InstrV::External(d),
                        ),
                        None => Seq::empty(),
                    };
                    let rest = spec_deps_iter(graph, nx, cv, dinput, deps, j + 1, v1);
                    (ext_part + rest.0, rest.1)
                },
            }
        }
    }
}

#[via_fn]
proof fn spec_deps_iter_decreases(
    graph: ProjectGraph,
    nx: NxJson,
    cv: ClosureView,
    dinput: Input,
    deps: Seq<String>,
    j: int,
    visited: Set<Seq<char>>,
) {
    broadcast use lemma_unvisited_keys_monotone_auto;

    lemma_unvisited_keys_bounds(graph.nodes@, visited);
    if 0 <= j < deps.len() && !visited.contains(deps[j]@) {
        let dep = deps[j]@;
        let v1 = visited.insert(dep);
        lemma_unvisited_keys_bounds(graph.nodes@, v1);
        lemma_unvisited_keys_monotone(graph.nodes@, visited, v1);
        assert(forall|v2: Set<Seq<char>>|
            0 <= #[trigger] unvisited_keys(graph.nodes@, v2)) by {
            assert forall|v2: Set<Seq<char>>| 0 <= #[trigger] unvisited_keys(
                graph.nodes@,
                v2,
            ) by {
                lemma_unvisited_keys_bounds(graph.nodes@, v2);
            }
        }
        match spec_lookup(graph.nodes@, dep) {
            Some(node) => {
                lemma_spec_lookup_contains(graph.nodes@, dep);
                let i = choose|i: int|
                    0 <= i < graph.nodes@.len() && graph.nodes@[i] == node;
                assert(graph.nodes@[i].key() == dep);
                lemma_unvisited_keys_strict(graph.nodes@, visited, dep);
            },
            None => {},
        }
    }
}

/// One project's contribution when reached as a dependency: its expanded
/// self inputs, then the walk of its own direct dependencies under the same
/// dependency-bucket input.
pub open spec fn spec_project_contrib(
    graph: ProjectGraph,
    nx: NxJson,
    cv: ClosureView,
    name: Seq<char>,
    expansion: Seq<Input>,
    dinput: Input,
    visited: Set<Seq<char>>,
) -> (Seq<InstrV>, Set<Seq<char>>)
    decreases unvisited_keys(graph.nodes@, visited), 1int, 0int,
    via spec_project_contrib_decreases
{
    let deps = spec_deps_iter(
        graph,
        nx,
        cv,
        dinput,
        spec_deps_of(graph.dependencies@, name),
        0,
        visited,
    );
    (spec_self_inputs(name, expansion) + deps.0, deps.1)
}

#[via_fn]
proof fn spec_project_contrib_decreases(
    graph: ProjectGraph,
    nx: NxJson,
    cv: ClosureView,
    name: Seq<char>,
    expansion: Seq<Input>,
    dinput: Input,
    visited: Set<Seq<char>>,
) {
    lemma_unvisited_keys_bounds(graph.nodes@, visited);
}

/// Traversal only grows the visited set.
proof fn lemma_deps_iter_monotone(
    graph: ProjectGraph,
    nx: NxJson,
    cv: ClosureView,
    dinput: Input,
    deps: Seq<String>,
    j: int,
    visited: Set<Seq<char>>,
)
    ensures
        visited.subset_of(spec_deps_iter(graph, nx, cv, dinput, deps, j, visited).1),
    decreases unvisited_keys(graph.nodes@, visited), 0int, deps.len() - j,
{
    lemma_unvisited_keys_bounds(graph.nodes@, visited);
    if 0 <= j < deps.len() {
        let dep = deps[j]@;
        if visited.contains(dep) {
            lemma_deps_iter_monotone(graph, nx, cv, dinput, deps, j + 1, visited);
        } else {
            let v1 = visited.insert(dep);
            lemma_unvisited_keys_monotone(graph.nodes@, visited, v1);
            match spec_lookup(graph.nodes@, dep) {
                Some(node) => {
                    lemma_spec_lookup_contains(graph.nodes@, dep);
                    let i = choose|i: int|
                        0 <= i < graph.nodes@.len() && graph.nodes@[i] == node;
                    assert(graph.nodes@[i].key() == dep);
                    lemma_unvisited_keys_strict(graph.nodes@, visited, dep);
                    match spec_dep_expansion(node, nx, dinput) {
                        Some(exp) => {
                            lemma_unvisited_keys_bounds(graph.nodes@, v1);
                            lemma_project_contrib_monotone(
                                graph,
                                nx,
                                cv,
                                node.name@,
                                exp,
                                dinput,
                                v1,
                            );
                            let sub = spec_project_contrib(
                                graph,
                                nx,
                                cv,
                                node.name@,
                                exp,
                                dinput,
                                v1,
                            );
                            let v2 = v1.union(sub.1);
                            lemma_unvisited_keys_bounds(graph.nodes@, v2);
                            lemma_unvisited_keys_monotone(graph.nodes@, v1, v2);
                            lemma_unvisited_keys_monotone(graph.nodes@, visited, v2);
                            lemma_deps_iter_monotone(graph, nx, cv, dinput, deps, j + 1, v2);
                        },
                        None => {
                            lemma_unvisited_keys_bounds(graph.nodes@, v1);
                            lemma_deps_iter_monotone(graph, nx, cv, dinput, deps, j + 1, v1);
                        },
                    }
                },
                None => {
                    lemma_unvisited_keys_bounds(graph.nodes@, v1);
                    lemma_deps_iter_monotone(graph, nx, cv, dinput, deps, j + 1, v1);
                },
            }
        }
    }
}

proof fn lemma_project_contrib_monotone(
    graph: ProjectGraph,
    nx: NxJson,
    cv: ClosureView,
    name: Seq<char>,
    expansion: Seq<Input>,
    dinput: Input,
    visited: Set<Seq<char>>,
)
    ensures
        visited.subset_of(
            spec_project_contrib(graph, nx, cv, name, expansion, dinput, visited).1,
        ),
    decreases unvisited_keys(graph.nodes@, visited), 1int, 0int,
{
    lemma_unvisited_keys_bounds(graph.nodes@, visited);
    lemma_deps_iter_monotone(
        graph,
        nx,
        cv,
        dinput,
        spec_deps_of(graph.dependencies@, name),
        0,
        visited,
    );
}

/// The whole dependency bucket: each input in order walks the current
/// project's direct dependency list, all under one shared visited set.
pub open spec fn spec_gather_all(
    graph: ProjectGraph,
    nx: NxJson,
    cv: ClosureView,
    deps_inputs: Seq<Input>,
    i: int,
    deps: Seq<String>,
    visited: Set<Seq<char>>,
) -> (Seq<InstrV>, Set<Seq<char>>)
    decreases deps_inputs.len() - i,
{
    if i < 0 || i >= deps_inputs.len() {
        (Seq::empty(), visited)
    } else {
        let one = spec_deps_iter(graph, nx, cv, deps_inputs[i], deps, 0, visited);
        let rest = spec_gather_all(graph, nx, cv, deps_inputs, i + 1, deps, visited.union(one.1));
        (one.0 + rest.0, rest.1)
    }
}

/// Executable walk of one dependency list under one input; exactly
/// `spec_deps_iter` from position zero.
#[verifier::loop_isolation(false)]
fn deps_iter(
    graph: &ProjectGraph,
    nx: &NxJson,
    closures: &Vec<DepsEntry>,
    dinput: &Input,
    project_deps: &Vec<String>,
    visited: &mut VisitedSet,
) -> (r: Vec<HashInstruction>)
    ensures
        spec_deps_iter(
            *graph,
            *nx,
            closure_view(closures@),
            *dinput,
            project_deps@,
            0,
            visited_contents(*old(visited)),
        ) == (r.deep_view(), visited_contents(*final (visited))),
    decreases unvisited_keys(graph.nodes@, visited_contents(*visited)), 0int,
{
    let ghost cv = closure_view(closures@);
    let ghost u0 = unvisited_keys(graph.nodes@, visited_contents(*visited));
    proof {
        lemma_unvisited_keys_bounds(graph.nodes@, visited_contents(*visited));
    }
    let mut out: Vec<HashInstruction> = Vec::new();
    let mut j: usize = 0;
    proof {
        assert(out.deep_view() =~= Seq::<InstrV>::empty());
    }
    while j < project_deps.len()
        invariant
            j <= project_deps.len(),
            unvisited_keys(graph.nodes@, visited_contents(*visited)) <= u0,
            visited_contents(*old(visited)).subset_of(visited_contents(*visited)),
            ({
                let full = spec_deps_iter(
                    *graph,
                    *nx,
                    cv,
                    *dinput,
                    project_deps@,
                    0,
                    visited_contents(*old(visited)),
                );
                let rest = spec_deps_iter(
                    *graph,
                    *nx,
                    cv,
                    *dinput,
                    project_deps@,
                    j as int,
                    visited_contents(*visited),
                );
                full == (out.deep_view() + rest.0, rest.1)
            }),
        decreases project_deps.len() - j,
    {
        let dep = &project_deps[j];
        let ghost cur = visited_contents(*visited);
        proof {
            assert(project_deps@[j as int]@ == dep@);
        }
        if !visited_contains(visited, dep.as_str()) {
            visited_insert(visited, dep.as_str());
            let ghost v1 = cur.insert(dep@);
            match lookup(&graph.nodes, dep.as_str()) {
                Some(dep_node) => {
                    proof {
                        lemma_spec_lookup_contains(graph.nodes@, dep@);
                        let found = spec_lookup(graph.nodes@, dep@).unwrap();
                        let w = choose|w: int|
                            0 <= w < graph.nodes@.len() && graph.nodes@[w] == found;
                        assert(graph.nodes@[w].key() == dep@);
                        lemma_unvisited_keys_strict(graph.nodes@, cur, dep@);
                        lemma_unvisited_keys_bounds(graph.nodes@, v1);
                        assert(dep_node.name@ == dep@);
                    }
                    match dep_expansion(dep_node, nx, dinput) {
                        None => {
                            proof {
                                lemma_unvisited_keys_monotone(graph.nodes@, cur, v1);
                            }
                        },
                        Some(exp) => {
                            let mut sub = project_contrib(
                                graph,
                                nx,
                                closures,
                                &dep_node.name,
                                exp,
                                dinput,
                                visited,
                            );
                            proof {
                                let sub_s = spec_project_contrib(
                                    *graph,
                                    *nx,
                                    cv,
                                    dep_node.name@,
                                    exp@,
                                    *dinput,
                                    v1,
                                );
                                lemma_project_contrib_monotone(
                                    *graph,
                                    *nx,
                                    cv,
                                    dep_node.name@,
                                    exp@,
                                    *dinput,
                                    v1,
                                );
                                assert(v1.union(sub_s.1) =~= sub_s.1);
                                lemma_unvisited_keys_monotone(graph.nodes@, cur, sub_s.1);
                            }
                            let ghost po = out.deep_view();
                            let ghost sd = sub.deep_view();
                            out.append(&mut sub);
                            proof {
                                assert(out.deep_view() =~= po + sd);
                                let now = visited_contents(*visited);
                                let rest2 = spec_deps_iter(
                                    *graph,
                                    *nx,
                                    cv,
                                    *dinput,
                                    project_deps@,
                                    j as int + 1,
                                    now,
                                );
                                assert(out.deep_view() + rest2.0 =~= po + (sd + rest2.0));
                            }
                        },
                    }
                },
                None => {
                    proof {
                        lemma_unvisited_keys_monotone(graph.nodes@, cur, v1);
                        lemma_cv_lookup_view(closures@, dep@);
                    }
                    match lookup(closures, dep.as_str()) {
                        Some(entry) => {
                            let ghost po = out.deep_view();
                            out.push(HashInstruction::External(dep.clone()));
                            proof {
                                assert(out.deep_view() =~= po.push(InstrV::External(dep@)));
                            }
                            let ghost edv = entry.deps.deep_view();
                            let mut c: usize = 0;
                            let ghost base = out.deep_view();
                            proof {
                                assert(edv.take(0) =~= Seq::<Seq<char>>::empty());
                                assert(out.deep_view() =~= base + edv.take(0).map_values(
                                    |d: Seq<char>| InstrV::External(d),
                                ));
                            }
                            while c < entry.deps.len()
                                invariant
                                    c <= entry.deps.len(),
                                    edv.len() == entry.deps.len(),
                                    out.deep_view() == base + edv.take(c as int).map_values(
                                        |d: Seq<char>| InstrV::External(d),
                                    ),
                                decreases entry.deps.len() - c,
                            {
                                let ghost b2 = out.deep_view();
                                out.push(HashInstruction::External(entry.deps[c].clone()));
                                proof {
                                    assert(edv[c as int] == entry.deps@[c as int]@);
                                    lemma_take_push(edv, c as int);
                                    crate::seqs::lemma_map_values_push(
                                        edv.take(c as int),
                                        |d: Seq<char>| InstrV::External(d),
                                        edv[c as int],
                                    );
                                    assert(out.deep_view() =~= b2.push(
                                        InstrV::External(edv[c as int]),
                                    ));
                                }
                                c = c + 1;
                            }
                            proof {
                                assert(edv.take(entry.deps.len() as int) =~= edv);
                                assert(out.deep_view() =~= (po + (seq![InstrV::External(dep@)]
                                    + edv.map_values(|d: Seq<char>| InstrV::External(d)))));
                                let now = visited_contents(*visited);
                                let rest2 = spec_deps_iter(
                                    *graph,
                                    *nx,
                                    cv,
                                    *dinput,
                                    project_deps@,
                                    j as int + 1,
                                    now,
                                );
                                assert(out.deep_view() + rest2.0 =~= po + ((seq![
                                    InstrV::External(dep@),
                                ] + edv.map_values(|d: Seq<char>| InstrV::External(d)))
                                    + rest2.0));
                            }
                        },
                        None => {
                            proof {
                                let now = visited_contents(*visited);
                                let rest2 = spec_deps_iter(
                                    *graph,
                                    *nx,
                                    cv,
                                    *dinput,
                                    project_deps@,
                                    j as int + 1,
                                    now,
                                );
                                assert(out.deep_view() + rest2.0 =~= out.deep_view() + (Seq::<
                                    InstrV,
                                >::empty() + rest2.0));
                            }
                        },
                    }
                },
            }
        }
        j = j + 1;
    }
    proof {
        assert(out.deep_view() + Seq::<InstrV>::empty() =~= out.deep_view());
    }
    out
}

/// Executable project contribution; exactly `spec_project_contrib`.
fn project_contrib(
    graph: &ProjectGraph,
    nx: &NxJson,
    closures: &Vec<DepsEntry>,
    name: &String,
    expansion: &Vec<Input>,
    dinput: &Input,
    visited: &mut VisitedSet,
) -> (r: Vec<HashInstruction>)
    ensures
        spec_project_contrib(
            *graph,
            *nx,
            closure_view(closures@),
            name@,
            expansion@,
            *dinput,
            visited_contents(*old(visited)),
        ) == (r.deep_view(), visited_contents(*final (visited))),
    decreases unvisited_keys(graph.nodes@, visited_contents(*visited)), 1int,
{
    proof {
        lemma_unvisited_keys_bounds(graph.nodes@, visited_contents(*visited));
    }
    let mut out = gather_self_inputs(name, expansion);
    let empty_deps: Vec<String> = Vec::new();
    let deps_ref: &Vec<String> = match lookup(&graph.dependencies, name.as_str()) {
        Some(e) => &e.deps,
        None => &empty_deps,
    };
    proof {
        assert(deps_ref@ =~= spec_deps_of(graph.dependencies@, name@));
    }
    let mut rest = deps_iter(graph, nx, closures, dinput, deps_ref, visited);
    let ghost so = out.deep_view();
    let ghost rd = rest.deep_view();
    out.append(&mut rest);
    proof {
        assert(out.deep_view() =~= so + rd);
    }
    out
}

/// Executable dependency bucket; exactly `spec_gather_all`.
#[verifier::loop_isolation(false)]
fn gather_deps(
    graph: &ProjectGraph,
    nx: &NxJson,
    closures: &Vec<DepsEntry>,
    deps_inputs: &Vec<Input>,
    project_deps: &Vec<String>,
    visited: &mut VisitedSet,
) -> (r: Vec<HashInstruction>)
    ensures
        spec_gather_all(
            *graph,
            *nx,
            closure_view(closures@),
            deps_inputs@,
            0,
            project_deps@,
            visited_contents(*old(visited)),
        ) == (r.deep_view(), visited_contents(*final (visited))),
{
    let ghost cv = closure_view(closures@);
    let mut out: Vec<HashInstruction> = Vec::new();
    let mut i: usize = 0;
    proof {
        assert(out.deep_view() =~= Seq::<InstrV>::empty());
    }
    while i < deps_inputs.len()
        invariant
            i <= deps_inputs.len(),
            ({
                let full = spec_gather_all(
                    *graph,
                    *nx,
                    cv,
                    deps_inputs@,
                    0,
                    project_deps@,
                    visited_contents(*old(visited)),
                );
                let rest = spec_gather_all(
                    *graph,
                    *nx,
                    cv,
                    deps_inputs@,
                    i as int,
                    project_deps@,
                    visited_contents(*visited),
                );
                full == (out.deep_view() + rest.0, rest.1)
            }),
        decreases deps_inputs.len() - i,
    {
        let ghost cur = visited_contents(*visited);
        let mut one = deps_iter(graph, nx, closures, &deps_inputs[i], project_deps, visited);
        proof {
            let one_s = spec_deps_iter(
                *graph,
                *nx,
                cv,
                deps_inputs@[i as int],
                project_deps@,
                0,
                cur,
            );
            lemma_deps_iter_monotone(
                *graph,
                *nx,
                cv,
                deps_inputs@[i as int],
                project_deps@,
                0,
                cur,
            );
            assert(cur.union(one_s.1) =~= one_s.1);
        }
        let ghost po = out.deep_view();
        let ghost od = one.deep_view();
        out.append(&mut one);
        proof {
            assert(out.deep_view() =~= po + od);
            let now = visited_contents(*visited);
            let rest2 = spec_gather_all(
                *graph,
                *nx,
                cv,
                deps_inputs@,
                i as int + 1,
                project_deps@,
                now,
            );
            assert(out.deep_view() + rest2.0 =~= po + (od + rest2.0));
        }
        i = i + 1;
    }
    proof {
        assert(out.deep_view() + Seq::<InstrV>::empty() =~= out.deep_view());
    }
    out
}

// ---------------------------------------------------------------------------
// Dependency outputs.
// ---------------------------------------------------------------------------
/// Instructions for the outputs of the upstream tasks of `task_id`: one
/// `TaskOutput` per first-visit dependency task in edge order, recursively
/// when `transitive`; a dependency id absent from the task graph is the
/// error. The visited set bounds the traversal on a cyclic task graph.
pub open spec fn spec_outs_task(
    tg: TaskGraph,
    pattern: Seq<char>,
    transitive: bool,
    task_id: Seq<char>,
    visited: Set<Seq<char>>,
) -> Result<(Seq<InstrV>, Set<Seq<char>>), Seq<char>>
    decreases unvisited_keys(tg.tasks@, visited), 1int, 0int,
    via spec_outs_task_decreases
{
    match spec_lookup(tg.dependencies@, task_id) {
        None => Ok((Seq::empty(), visited)),
        Some(entry) => spec_outs_deps(tg, pattern, transitive, entry.deps@, 0, visited),
    }
}

#[via_fn]
proof fn spec_outs_task_decreases(
    tg: TaskGraph,
    pattern: Seq<char>,
    transitive: bool,
    task_id: Seq<char>,
    visited: Set<Seq<char>>,
) {
    lemma_unvisited_keys_bounds(tg.tasks@, visited);
}

pub open spec fn spec_outs_deps(
    tg: TaskGraph,
    pattern: Seq<char>,
    transitive: bool,
    deps: Seq<String>,
    j: int,
    visited: Set<Seq<char>>,
) -> Result<(Seq<InstrV>, Set<Seq<char>>), Seq<char>>
    decreases unvisited_keys(tg.tasks@, visited), 0int, deps.len() - j,
    via spec_outs_deps_decreases
{
    if j < 0 || j >= deps.len() {
        Ok((Seq::empty(), visited))
    } else {
        let dep = deps[j]@;
        if visited.contains(dep) {
            spec_outs_deps(tg, pattern, transitive, deps, j + 1, visited)
        } else {
            let v1 = visited.insert(dep);
            match spec_lookup(tg.tasks@, dep) {
                None => Err(dep),
                Some(child) => {
                    let instr = InstrV::TaskOutput(pattern, child.outputs.deep_view());
                    if transitive {
                        match spec_outs_task(tg, pattern, transitive, child.id@, v1) {
                            Err(d) => Err(d),
                            Ok(sub) => match spec_outs_deps(
                                tg,
                                pattern,
                                transitive,
                                deps,
                                j + 1,
                                v1.union(sub.1),
                            ) {
                                Err(d) => Err(d),
                                Ok(rest) => Ok((seq![instr] + sub.0 + rest.0, rest.1)),
                            },
                        }
                    } else {
                        match spec_outs_deps(tg, pattern, transitive, deps, j + 1, v1) {
                            Err(d) => Err(d),
                            Ok(rest) => Ok((seq![instr] + rest.0, rest.1)),
                        }
                    }
                },
            }
        }
    }
}

#[via_fn]
proof fn spec_outs_deps_decreases(
    tg: TaskGraph,
    pattern: Seq<char>,
    transitive: bool,
    deps: Seq<String>,
    j: int,
    visited: Set<Seq<char>>,
) {
    broadcast use lemma_unvisited_keys_monotone_auto;

    lemma_unvisited_keys_bounds(tg.tasks@, visited);
    if 0 <= j < deps.len() && !visited.contains(deps[j]@) {
        let dep = deps[j]@;
        let v1 = visited.insert(dep);
        lemma_unvisited_keys_bounds(tg.tasks@, v1);
        lemma_unvisited_keys_monotone(tg.tasks@, visited, v1);
        assert(forall|v2: Set<Seq<char>>|
            0 <= #[trigger] unvisited_keys(tg.tasks@, v2)) by {
            assert forall|v2: Set<Seq<char>>| 0 <= #[trigger] unvisited_keys(tg.tasks@, v2) by {
                lemma_unvisited_keys_bounds(tg.tasks@, v2);
            }
        }
        match spec_lookup(tg.tasks@, dep) {
            Some(child) => {
                lemma_spec_lookup_contains(tg.tasks@, dep);
                let i = choose|i: int| 0 <= i < tg.tasks@.len() && tg.tasks@[i] == child;
                assert(tg.tasks@[i].key() == dep);
                lemma_unvisited_keys_strict(tg.tasks@, visited, dep);
            },
            None => {},
        }
    }
}

/// A successful traversal only grows the visited set.
proof fn lemma_outs_task_monotone(
    tg: TaskGraph,
    pattern: Seq<char>,
    transitive: bool,
    task_id: Seq<char>,
    visited: Set<Seq<char>>,
)
    ensures
        spec_outs_task(tg, pattern, transitive, task_id, visited) matches Ok(p)
            ==> visited.subset_of(p.1),
    decreases unvisited_keys(tg.tasks@, visited), 1int, 0int,
{
    lemma_unvisited_keys_bounds(tg.tasks@, visited);
    match spec_lookup(tg.dependencies@, task_id) {
        None => {},
        Some(entry) => {
            lemma_outs_deps_monotone(tg, pattern, transitive, entry.deps@, 0, visited);
        },
    }
}

proof fn lemma_outs_deps_monotone(
    tg: TaskGraph,
    pattern: Seq<char>,
    transitive: bool,
    deps: Seq<String>,
    j: int,
    visited: Set<Seq<char>>,
)
    ensures
        spec_outs_deps(tg, pattern, transitive, deps, j, visited) matches Ok(p)
            ==> visited.subset_of(p.1),
    decreases unvisited_keys(tg.tasks@, visited), 0int, deps.len() - j,
{
    lemma_unvisited_keys_bounds(tg.tasks@, visited);
    if 0 <= j < deps.len() {
        let dep = deps[j]@;
        if visited.contains(dep) {
            lemma_outs_deps_monotone(tg, pattern, transitive, deps, j + 1, visited);
        } else {
            let v1 = visited.insert(dep);
            lemma_unvisited_keys_monotone(tg.tasks@, visited, v1);
            match spec_lookup(tg.tasks@, dep) {
                None => {},
                Some(child) => {
                    lemma_spec_lookup_contains(tg.tasks@, dep);
                    let i = choose|i: int| 0 <= i < tg.tasks@.len() && tg.tasks@[i] == child;
                    assert(tg.tasks@[i].key() == dep);
                    lemma_unvisited_keys_strict(tg.tasks@, visited, dep);
                    if transitive {
                        lemma_unvisited_keys_bounds(tg.tasks@, v1);
                        lemma_outs_task_monotone(tg, pattern, transitive, child.id@, v1);
                        match spec_outs_task(tg, pattern, transitive, child.id@, v1) {
                            Ok(sub) => {
                                let v2 = v1.union(sub.1);
                                lemma_unvisited_keys_bounds(tg.tasks@, v2);
                                lemma_unvisited_keys_monotone(tg.tasks@, v1, v2);
                                lemma_unvisited_keys_monotone(tg.tasks@, visited, v2);
                                lemma_outs_deps_monotone(tg, pattern, transitive, deps, j + 1, v2);
                            },
                            Err(_) => {},
                        }
                    } else {
                        lemma_unvisited_keys_bounds(tg.tasks@, v1);
                        lemma_outs_deps_monotone(tg, pattern, transitive, deps, j + 1, v1);
                    }
                },
            }
        }
    }
}

/// Executable dependency-output traversal; exactly `spec_outs_task`.
#[verifier::loop_isolation(false)]
fn gather_dep_outputs(
    tg: &TaskGraph,
    task_id: &String,
    pattern: &String,
    transitive: bool,
    tvisited: &mut VisitedSet,
) -> (r: Result<Vec<HashInstruction>, PlanError>)
    ensures
        match r {
            Ok(v) => spec_outs_task(
                *tg,
                pattern@,
                transitive,
                task_id@,
                visited_contents(*old(tvisited)),
            ) == Ok::<_, Seq<char>>((v.deep_view(), visited_contents(*final (tvisited)))),
            Err(e) => ({
                &&& spec_outs_task(
                    *tg,
                    pattern@,
                    transitive,
                    task_id@,
                    visited_contents(*old(tvisited)),
                ) matches Err(d)
                &&& e matches PlanError::TaskNotFound { task_id: t } && t@ == d
            }),
        },
    decreases unvisited_keys(tg.tasks@, visited_contents(*tvisited)),
{
    let ghost u0 = unvisited_keys(tg.tasks@, visited_contents(*tvisited));
    proof {
        lemma_unvisited_keys_bounds(tg.tasks@, visited_contents(*tvisited));
    }
    let mut out: Vec<HashInstruction> = Vec::new();
    let deps = match lookup(&tg.dependencies, task_id.as_str()) {
        None => {
            proof {
                assert(out.deep_view() =~= Seq::<InstrV>::empty());
            }
            return Ok(out);
        },
        Some(d) => d,
    };
    let mut j: usize = 0;
    proof {
        assert(out.deep_view() =~= Seq::<InstrV>::empty());
    }
    while j < deps.deps.len()
        invariant
            j <= deps.deps.len(),
            unvisited_keys(tg.tasks@, visited_contents(*tvisited)) <= u0,
            ({
                let full = spec_outs_task(
                    *tg,
                    pattern@,
                    transitive,
                    task_id@,
                    visited_contents(*old(tvisited)),
                );
                match spec_outs_deps(
                    *tg,
                    pattern@,
                    transitive,
                    deps.deps@,
                    j as int,
                    visited_contents(*tvisited),
                ) {
                    Err(d) => full == Err::<(Seq<InstrV>, Set<Seq<char>>), _>(d),
                    Ok(rest) => full == Ok::<_, Seq<char>>(
                        (out.deep_view() + rest.0, rest.1),
                    ),
                }
            }),
        decreases deps.deps.len() - j,
    {
        let dep_id = &deps.deps[j];
        let ghost cur = visited_contents(*tvisited);
        proof {
            assert(deps.deps@[j as int]@ == dep_id@);
        }
        if !visited_contains(tvisited, dep_id.as_str()) {
            visited_insert(tvisited, dep_id.as_str());
            let ghost v1 = cur.insert(dep_id@);
            match lookup(&tg.tasks, dep_id.as_str()) {
                None => {
                    return Err(PlanError::TaskNotFound { task_id: dep_id.clone() });
                },
                Some(child) => {
                    proof {
                        lemma_spec_lookup_contains(tg.tasks@, dep_id@);
                        let found = spec_lookup(tg.tasks@, dep_id@).unwrap();
                        let i = choose|i: int| 0 <= i < tg.tasks@.len() && tg.tasks@[i] == found;
                        assert(tg.tasks@[i].key() == dep_id@);
                        lemma_unvisited_keys_strict(tg.tasks@, cur, dep_id@);
                        lemma_unvisited_keys_bounds(tg.tasks@, v1);
                    }
                    let ghost po = out.deep_view();
                    out.push(
                        HashInstruction::TaskOutput(
                            pattern.clone(),
                            crate::instruction::clone_strings(&child.outputs),
                        ),
                    );
                    proof {
                        assert(out.deep_view() =~= po.push(
                            InstrV::TaskOutput(pattern@, child.outputs.deep_view()),
                        ));
                    }
                    if transitive {
                        match gather_dep_outputs(tg, &child.id, pattern, transitive, tvisited) {
                            Ok(mut v) => {
                                proof {
                                    lemma_outs_task_monotone(
                                        *tg,
                                        pattern@,
                                        transitive,
                                        child.id@,
                                        v1,
                                    );
                                    match spec_outs_task(
                                        *tg,
                                        pattern@,
                                        transitive,
                                        child.id@,
                                        v1,
                                    ) {
                                        Ok(sub) => {
                                            assert(v1.union(sub.1) =~= sub.1);
                                            lemma_unvisited_keys_monotone(
                                                tg.tasks@,
                                                cur,
                                                sub.1,
                                            );
                                        },
                                        Err(_) => {},
                                    }
                                }
                                let ghost p2 = out.deep_view();
                                let ghost vd = v.deep_view();
                                out.append(&mut v);
                                proof {
                                    assert(out.deep_view() =~= p2 + vd);
                                    let now = visited_contents(*tvisited);
                                    match spec_outs_deps(
                                        *tg,
                                        pattern@,
                                        transitive,
                                        deps.deps@,
                                        j as int + 1,
                                        now,
                                    ) {
                                        Ok(rest2) => {
                                            assert(out.deep_view() + rest2.0 =~= po + (seq![
                                                InstrV::TaskOutput(
                                                    pattern@,
                                                    child.outputs.deep_view(),
                                                ),
                                            ] + vd + rest2.0));
                                        },
                                        Err(_) => {},
                                    }
                                }
                            },
                            Err(e) => {
                                return Err(e);
                            },
                        }
                    } else {
                        proof {
                            lemma_unvisited_keys_monotone(tg.tasks@, cur, v1);
                            let now = visited_contents(*tvisited);
                            match spec_outs_deps(
                                *tg,
                                pattern@,
                                transitive,
                                deps.deps@,
                                j as int + 1,
                                now,
                            ) {
                                Ok(rest2) => {
                                    assert(out.deep_view() + rest2.0 =~= po + (seq![
                                        InstrV::TaskOutput(pattern@, child.outputs.deep_view()),
                                    ] + rest2.0));
                                },
                                Err(_) => {},
                            }
                        }
                    }
                },
            }
        }
        j = j + 1;
    }
    proof {
        assert(out.deep_view() + Seq::<InstrV>::empty() =~= out.deep_view());
    }
    Ok(out)
}

// ---------------------------------------------------------------------------
// Project-pattern inputs.
// ---------------------------------------------------------------------------
/// Every selector list among the project-pattern inputs compiles.
pub open spec fn selectors_ok(inputs: Seq<Input>) -> bool {
    forall|i: int|
        0 <= i < inputs.len() ==> match #[trigger] inputs[i] {
            Input::Projects { projects, .. } => glob_set_compiles(projects.deep_view()),
            _ => true,
        }
}

/// The contribution of the projects matched by one selector set: for each
/// matching project in graph order, the expansion of the named input against
/// that project's configuration, as self inputs only.
pub open spec fn spec_nodes_iter(
    nodes: Seq<ProjectNode>,
    nx: NxJson,
    name: Seq<char>,
    selectors: Seq<Seq<char>>,
    k: int,
) -> Seq<InstrV>
    decreases nodes.len() - k,
{
    if k < 0 || k >= nodes.len() {
        Seq::empty()
    } else {
        (if glob_set_matches(selectors, nodes[k].name@) {
            match spec_lookup(nodes[k].named_inputs@, name) {
                Some(e) => spec_self_inputs(nodes[k].name@, e.inputs@),
                None => match spec_lookup(nx.named_inputs@, name) {
                    Some(e) => spec_self_inputs(nodes[k].name@, e.inputs@),
                    None => Seq::empty(),
                },
            }
        } else {
            Seq::empty()
        }) + spec_nodes_iter(nodes, nx, name, selectors, k + 1)
    }
}

/// The whole project-pattern bucket, in order; a selector list that does not
/// compile is the error.
pub open spec fn spec_projects_iter(
    graph: ProjectGraph,
    nx: NxJson,
    inputs: Seq<Input>,
    i: int,
) -> Result<Seq<InstrV>, ()>
    decreases inputs.len() - i,
{
    if i < 0 || i >= inputs.len() {
        Ok(Seq::empty())
    } else {
        match inputs[i] {
            Input::Projects { input: name, projects } => {
                if !glob_set_compiles(projects.deep_view()) {
                    Err(())
                } else {
                    match spec_projects_iter(graph, nx, inputs, i + 1) {
                        Err(e) => Err(e),
                        Ok(rest) => Ok(
                            spec_nodes_iter(graph.nodes@, nx, name@, projects.deep_view(), 0)
                                + rest,
                        ),
                    }
                }
            },
            _ => spec_projects_iter(graph, nx, inputs, i + 1),
        }
    }
}

/// Executable project-pattern gathering; exactly `spec_projects_iter`, and
/// successful exactly when every selector list compiles.
#[verifier::loop_isolation(false)]
fn gather_project_inputs(
    graph: &ProjectGraph,
    nx: &NxJson,
    project_inputs: &Vec<Input>,
) -> (r: Result<Vec<HashInstruction>, PlanError>)
    ensures
        match r {
            Ok(v) => spec_projects_iter(*graph, *nx, project_inputs@, 0) == Ok::<_, ()>(
                v.deep_view(),
            ) && selectors_ok(project_inputs@),
            Err(e) => spec_projects_iter(*graph, *nx, project_inputs@, 0) is Err && e
                is ProjectSelectorError && !selectors_ok(project_inputs@),
        },
{
    let mut out: Vec<HashInstruction> = Vec::new();
    let mut i: usize = 0;
    proof {
        assert(out.deep_view() =~= Seq::<InstrV>::empty());
    }
    while i < project_inputs.len()
        invariant
            i <= project_inputs.len(),
            forall|k: int|
                0 <= k < i ==> match #[trigger] project_inputs@[k] {
                    Input::Projects { projects, .. } => glob_set_compiles(projects.deep_view()),
                    _ => true,
                },
            ({
                let full = spec_projects_iter(*graph, *nx, project_inputs@, 0);
                match spec_projects_iter(*graph, *nx, project_inputs@, i as int) {
                    Err(e) => full == Err::<Seq<InstrV>, _>(e),
                    Ok(rest) => full == Ok::<_, ()>(out.deep_view() + rest),
                }
            }),
        decreases project_inputs.len() - i,
    {
        match &project_inputs[i] {
            Input::Projects { input: name, projects } => {
                let matcher = match GlobMatcher::build(projects) {
                    None => {
                        return Err(PlanError::ProjectSelectorError);
                    },
                    Some(m) => m,
                };
                let mut entry_out: Vec<HashInstruction> = Vec::new();
                let mut p: usize = 0;
                proof {
                    assert(entry_out.deep_view() =~= Seq::<InstrV>::empty());
                }
                while p < graph.nodes.len()
                    invariant
                        p <= graph.nodes.len(),
                        matcher.patterns() == projects.deep_view(),
                        spec_nodes_iter(graph.nodes@, *nx, name@, projects.deep_view(), 0)
                            == entry_out.deep_view() + spec_nodes_iter(
                            graph.nodes@,
                            *nx,
                            name@,
                            projects.deep_view(),
                            p as int,
                        ),
                    decreases graph.nodes.len() - p,
                {
                    let node = &graph.nodes[p];
                    proof {
                        assert(graph.nodes@[p as int] == *node);
                    }
                    if matcher.is_match(node.name.as_str()) {
                        let entry = match lookup(&node.named_inputs, name.as_str()) {
                            Some(e) => Some(e),
                            None => lookup(&nx.named_inputs, name.as_str()),
                        };
                        match entry {
                            Some(e) => {
                                let mut instrs = gather_self_inputs(&node.name, &e.inputs);
                                let ghost eo = entry_out.deep_view();
                                let ghost id = instrs.deep_view();
                                entry_out.append(&mut instrs);
                                proof {
                                    assert(entry_out.deep_view() =~= eo + id);
                                }
                            },
                            None => {
                                proof {
                                    assert(entry_out.deep_view() =~= entry_out.deep_view() + Seq::<
                                        InstrV,
                                    >::empty());
                                }
                            },
                        }
                    } else {
                        proof {
                            assert(entry_out.deep_view() =~= entry_out.deep_view() + Seq::<
                                InstrV,
                            >::empty());
                        }
                    }
                    p = p + 1;
                }
                proof {
                    assert(entry_out.deep_view() + Seq::<InstrV>::empty() =~= entry_out
                        .deep_view());
                }
                let ghost po = out.deep_view();
                let ghost ed = entry_out.deep_view();
                let mut tail = entry_out;
                out.append(&mut tail);
                proof {
                    assert(out.deep_view() =~= po + ed);
                    match spec_projects_iter(*graph, *nx, project_inputs@, i as int + 1) {
                        Ok(rest2) => {
                            assert(out.deep_view() + rest2 =~= po + (ed + rest2));
                        },
                        Err(_) => {},
                    }
                }
            },
            _ => {},
        }
        i = i + 1;
    }
    proof {
        assert(out.deep_view() + Seq::<InstrV>::empty() =~= out.deep_view());
    }
    Ok(out)
}

// ---------------------------------------------------------------------------
// Per-project composition.
// ---------------------------------------------------------------------------
/// The dependency-output bucket, entry by entry, each starting a fresh
/// traversal seeded with the root task.
pub open spec fn spec_outs_entries(
    tg: TaskGraph,
    entries: Seq<Input>,
    d: int,
    root_id: Seq<char>,
) -> Result<Seq<InstrV>, Seq<char>>
    decreases entries.len() - d,
{
    if d < 0 || d >= entries.len() {
        Ok(Seq::empty())
    } else {
        match entries[d] {
            Input::DepsOutputs { dependent_tasks_output_files: f, transitive } => {
                match spec_outs_task(tg, f@, transitive, root_id, Set::empty().insert(root_id)) {
                    Err(x) => Err(x),
                    Ok(one) => match spec_outs_entries(tg, entries, d + 1, root_id) {
                        Err(x) => Err(x),
                        Ok(rest) => Ok(one.0 + rest),
                    },
                }
            },
            _ => spec_outs_entries(tg, entries, d + 1, root_id),
        }
    }
}

/// One project's full contribution to a task's plan: its own inputs, the
/// dependency bucket over its direct dependency list through the shared
/// visited set, the declared dependency outputs, and the project-pattern
/// inputs, concatenated in that order.
#[verifier::loop_isolation(false)]
fn self_and_deps_inputs(
    graph: &ProjectGraph,
    nx: &NxJson,
    tg: &TaskGraph,
    closures: &Vec<DepsEntry>,
    root_task_id: &String,
    project_name: &String,
    split: &SplitInputs,
    visited: &mut VisitedSet,
) -> (r: Result<Vec<HashInstruction>, PlanError>)
    ensures
        match r {
            Ok(v) => ({
                let deps = spec_gather_all(
                    *graph,
                    *nx,
                    closure_view(closures@),
                    split.deps_inputs@,
                    0,
                    spec_deps_of(graph.dependencies@, project_name@),
                    visited_contents(*old(visited)),
                );
                &&& visited_contents(*final (visited)) == deps.1
                &&& spec_outs_entries(*tg, split.deps_outputs@, 0, root_task_id@) matches Ok(outs)
                    && spec_projects_iter(*graph, *nx, split.project_inputs@, 0) matches Ok(projs)
                    && v.deep_view() == spec_self_inputs(project_name@, split.self_inputs@)
                    + deps.0 + outs + projs
            }),
            Err(e) => ({
                &&& (e matches PlanError::TaskNotFound { task_id: d } ==> spec_outs_entries(
                    *tg,
                    split.deps_outputs@,
                    0,
                    root_task_id@,
                ) == Err::<Seq<InstrV>, _>(d@))
                &&& (e is ProjectSelectorError ==> spec_outs_entries(
                    *tg,
                    split.deps_outputs@,
                    0,
                    root_task_id@,
                ) is Ok && spec_projects_iter(*graph, *nx, split.project_inputs@, 0) is Err)
                &&& (e is TaskNotFound || e is ProjectSelectorError)
            }),
        },
{
    let ghost cv = closure_view(closures@);
    let mut out = gather_self_inputs(project_name, &split.self_inputs);
    let ghost selfv = spec_self_inputs(project_name@, split.self_inputs@);
    let empty_deps: Vec<String> = Vec::new();
    let deps_ref: &Vec<String> = match lookup(&graph.dependencies, project_name.as_str()) {
        Some(e) => &e.deps,
        None => &empty_deps,
    };
    proof {
        assert(deps_ref@ =~= spec_deps_of(graph.dependencies@, project_name@));
    }
    let mut deps = gather_deps(graph, nx, closures, &split.deps_inputs, deps_ref, visited);
    let ghost deps_s = spec_gather_all(
        *graph,
        *nx,
        cv,
        split.deps_inputs@,
        0,
        spec_deps_of(graph.dependencies@, project_name@),
        visited_contents(*old(visited)),
    );
    let ghost pre_deps = out.deep_view();
    let ghost deps_dv = deps.deep_view();
    out.append(&mut deps);
    proof {
        assert(out.deep_view() =~= pre_deps + deps_dv);
    }
    let mut d: usize = 0;
    proof {
        assert(out.deep_view() + Seq::<InstrV>::empty() =~= out.deep_view());
    }
    while d < split.deps_outputs.len()
        invariant
            d <= split.deps_outputs.len(),
            visited_contents(*visited) == deps_s.1,
            ({
                match spec_outs_entries(*tg, split.deps_outputs@, d as int, root_task_id@) {
                    Err(_) => true,
                    Ok(rest) => spec_outs_entries(*tg, split.deps_outputs@, 0, root_task_id@)
                        matches Ok(full) && selfv + deps_s.0 + full == out.deep_view() + rest,
                }
            }),
            spec_outs_entries(*tg, split.deps_outputs@, d as int, root_task_id@) is Err
                ==> spec_outs_entries(*tg, split.deps_outputs@, 0, root_task_id@)
                == spec_outs_entries(*tg, split.deps_outputs@, d as int, root_task_id@),
        decreases split.deps_outputs.len() - d,
    {
        match &split.deps_outputs[d] {
            Input::DepsOutputs { dependent_tasks_output_files, transitive } => {
                let mut tvisited = visited_new();
                visited_insert(&mut tvisited, root_task_id.as_str());
                proof {
                    assert(visited_contents(tvisited) =~= Set::empty().insert(root_task_id@));
                }
                match gather_dep_outputs(
                    tg,
                    root_task_id,
                    dependent_tasks_output_files,
                    *transitive,
                    &mut tvisited,
                ) {
                    Ok(mut v) => {
                        let ghost pre = out.deep_view();
                        let ghost vd = v.deep_view();
                        out.append(&mut v);
                        proof {
                            assert(out.deep_view() =~= pre + vd);
                        }
                    },
                    Err(e) => {
                        return Err(e);
                    },
                }
            },
            _ => {},
        }
        d = d + 1;
    }
    match gather_project_inputs(graph, nx, &split.project_inputs) {
        Ok(mut v) => {
            let ghost pre = out.deep_view();
            let ghost vd = v.deep_view();
            out.append(&mut v);
            proof {
                assert(out.deep_view() =~= pre + vd);
                let outs = spec_outs_entries(*tg, split.deps_outputs@, 0, root_task_id@);
                assert(selfv + deps_s.0 + outs->Ok_0 + vd =~= out.deep_view());
            }
            Ok(out)
        },
        Err(e) => Err(e),
    }
}

/// The three workspace-level file sets that every plan carries.
pub open spec fn mandatory_workspace(plan: Seq<InstrV>) -> bool {
    &&& plan.to_set().contains(InstrV::WorkspaceFileSet("{workspaceRoot}/nx.json"@))
    &&& plan.to_set().contains(InstrV::WorkspaceFileSet("{workspaceRoot}/.gitignore"@))
    &&& plan.to_set().contains(InstrV::WorkspaceFileSet("{workspaceRoot}/.nxignore"@))
}

/// When the conservative external fallback is owed: the task's target exists,
/// its executor is not first-party, and its self inputs name no external
/// dependencies.
pub open spec fn external_fallback_applies(graph: ProjectGraph, task: Task) -> bool {
    &&& !has_external_dep_inputs(task.inputs.self_inputs@)
    &&& spec_lookup(graph.nodes@, task.target.project@) matches Some(node)
        && spec_lookup(node.targets@, task.target.target@) matches Some(nt) && !(match nt
        .target
        .executor {
        Some(e) => first_party(e@),
        None => false,
    })
}

/// The external package a first-party executor resolves to, if the task's
/// target has one.
pub open spec fn first_party_external(graph: ProjectGraph, task: Task) -> Option<Seq<char>> {
    match spec_lookup(graph.nodes@, task.target.project@) {
        None => None,
        Some(node) => match spec_lookup(node.targets@, task.target.target@) {
            None => None,
            Some(nt) => match nt.target.executor {
                Some(e) => if first_party(e@) {
                    let pkg = up_to_colon(e@);
                    Some(
                        match spec_find_external(graph.external_nodes@, pkg) {
                            Some(n) => n,
                            None => pkg,
                        },
                    )
                } else {
                    None
                },
                None => None,
            },
        },
    }
}

/// The three workspace-level file-set instructions every plan carries, in
/// emission order.
pub open spec fn fixed_workspace_items() -> Seq<InstrV> {
    seq![
        InstrV::WorkspaceFileSet("{workspaceRoot}/nx.json"@),
        InstrV::WorkspaceFileSet("{workspaceRoot}/.gitignore"@),
        InstrV::WorkspaceFileSet("{workspaceRoot}/.nxignore"@),
    ]
}

/// Everything one task's plan gathers, before sorting and deduplication: the
/// executor's contribution, the three fixed workspace file sets, the task
/// project's own inputs, the dependency traversal seeded with that project,
/// the declared dependency outputs, and the project-pattern inputs — or the
/// first failure, in that order of discovery.
pub open spec fn spec_task_items(
    graph: ProjectGraph,
    nx: NxJson,
    tg: TaskGraph,
    id: Seq<char>,
) -> Result<Seq<InstrV>, PlanErrV> {
    match spec_lookup(tg.tasks@, id) {
        None => Err(PlanErrV::TaskNotFound(id)),
        Some(task) => {
            let cv = spec_closure_map(graph);
            let project = task.target.project@;
            match spec_target_input(
                graph.nodes@,
                graph.external_nodes@,
                cv,
                project,
                task.target.target@,
                task.inputs.self_inputs@,
            ) {
                Err(d) => Err(
                    PlanErrV::UnresolvedExternalDependency(project, task.target.target@, d),
                ),
                Ok(ti) => {
                    let deps = spec_gather_all(
                        graph,
                        nx,
                        cv,
                        task.inputs.deps_inputs@,
                        0,
                        spec_deps_of(graph.dependencies@, project),
                        Set::empty().insert(project),
                    );
                    match spec_outs_entries(tg, task.inputs.deps_outputs@, 0, task.id@) {
                        Err(d) => Err(PlanErrV::TaskNotFound(d)),
                        Ok(outs) => match spec_projects_iter(
                            graph,
                            nx,
                            task.inputs.project_inputs@,
                            0,
                        ) {
                            Err(_) => Err(PlanErrV::ProjectSelectorError),
                            Ok(projs) => Ok(
                                ti + fixed_workspace_items() + spec_self_inputs(
                                    project,
                                    task.inputs.self_inputs@,
                                ) + deps.0 + outs + projs,
                            ),
                        },
                    }
                },
            }
        },
    }
}

/// What every computed plan satisfies: canonical form, the mandatory
/// workspace instructions, the task's own project header instructions, and
/// the conservative external fallback where it is owed.
pub open spec fn plan_obligations(
    graph: ProjectGraph,
    tg: TaskGraph,
    id: Seq<char>,
    plan: Seq<InstrV>,
) -> bool {
    &&& strictly_sorted(plan)
    &&& mandatory_workspace(plan)
    &&& spec_lookup(tg.tasks@, id) matches Some(task) && {
        let header = self_header(task.target.project@, task.inputs.self_inputs@);
        &&& plan.to_set().contains(header[0])
        &&& plan.to_set().contains(header[1])
        &&& plan.to_set().contains(header[2])
        &&& external_fallback_applies(graph, task) ==> plan.to_set().contains(
            InstrV::AllExternalDependencies,
        )
        &&& first_party_external(graph, task) matches Some(n) ==> plan.to_set().contains(
            InstrV::External(n),
        )
    }
}

/// The hash instruction planner: workspace configuration, project graph and
/// workspace root, reused across planning calls.
pub struct HashPlanner {
    pub nx_json: NxJson,
    pub project_graph: ProjectGraph,
    pub workspace_root: String,
}

impl HashPlanner {
    pub fn new(workspace_root: String, nx_json: NxJson, project_graph: ProjectGraph) -> (r:
        HashPlanner)
        ensures
            r.workspace_root == workspace_root,
            r.nx_json == nx_json,
            r.project_graph == project_graph,
    {
        HashPlanner { nx_json, project_graph, workspace_root }
    }

    /// The plan for one task id: the executor's contribution, the three fixed
    /// workspace file sets, and the recursive self-and-dependency inputs,
    /// sorted and deduplicated into canonical form.
    fn plan_for_task(&self, id: &String, tg: &TaskGraph, closures: &Vec<DepsEntry>) -> (r: Result<
        Vec<HashInstruction>,
        PlanError,
    >)
        requires
            closure_view(closures@) == spec_closure_map(self.project_graph),
        ensures
            match r {
                Ok(plan) => {
                    &&& spec_task_items(self.project_graph, self.nx_json, *tg, id@) matches Ok(
                        items,
                    ) && strictly_sorted(plan.deep_view()) && plan.deep_view().to_set()
                        == items.to_set()
                    &&& plan_obligations(self.project_graph, *tg, id@, plan.deep_view())
                },
                Err(e) => spec_task_items(self.project_graph, self.nx_json, *tg, id@) == Err::<
                    Seq<InstrV>,
                    _,
                >(e.deep_view()),
            },
    {
        let task = match lookup(&tg.tasks, id.as_str()) {
            None => {
                return Err(PlanError::TaskNotFound { task_id: id.clone() });
            },
            Some(t) => t,
        };
        let ghost taskv = spec_lookup(tg.tasks@, id@).unwrap();
        let target = match target_input(
            &self.project_graph.nodes,
            &self.project_graph.external_nodes,
            closures,
            &task.target.project,
            &task.target.target,
            &task.inputs.self_inputs,
        ) {
            Ok(v) => v,
            Err(e) => {
                return Err(e);
            },
        };
        let mut visited = visited_new();
        visited_insert(&mut visited, task.target.project.as_str());
        proof {
            assert(visited_contents(visited) =~= Set::empty().insert(task.target.project@));
        }
        let selfdeps = match self_and_deps_inputs(
            &self.project_graph,
            &self.nx_json,
            tg,
            closures,
            &task.id,
            &task.target.project,
            &task.inputs,
            &mut visited,
        ) {
            Ok(v) => v,
            Err(e) => {
                return Err(e);
            },
        };
        let ghost targetv = target.deep_view();
        let mut all = target;
        all.push(HashInstruction::WorkspaceFileSet(String::from_str("{workspaceRoot}/nx.json")));
        all.push(HashInstruction::WorkspaceFileSet(String::from_str("{workspaceRoot}/.gitignore")));
        all.push(HashInstruction::WorkspaceFileSet(String::from_str("{workspaceRoot}/.nxignore")));
        let ghost withfixed = all.deep_view();
        proof {
            assert(withfixed =~= targetv + seq![
                InstrV::WorkspaceFileSet("{workspaceRoot}/nx.json"@),
                InstrV::WorkspaceFileSet("{workspaceRoot}/.gitignore"@),
                InstrV::WorkspaceFileSet("{workspaceRoot}/.nxignore"@),
            ]);
        }
        let mut tail = selfdeps;
        all.append(&mut tail);
        let ghost allv = all.deep_view();
        proof {
            assert(allv =~= withfixed + selfdeps.deep_view());
        }
        let plan = sort_dedup(all);
        proof {
            let pv = plan.deep_view();
            let n = targetv.len() as int;
            match spec_task_items(self.project_graph, self.nx_json, *tg, id@) {
                Ok(items) => {
                    assert(allv =~= items);
                },
                Err(_) => {},
            }
            let header = self_header(taskv.target.project@, taskv.inputs.self_inputs@);
            let sv = selfdeps.deep_view();
            assert(allv[n + 3] == sv[0]);
            assert(allv[n + 4] == sv[1]);
            assert(allv[n + 5] == sv[2]);
            assert(allv.to_set().contains(header[0]));
            assert(allv.to_set().contains(header[1]));
            assert(allv.to_set().contains(header[2]));
            assert(allv[n] == InstrV::WorkspaceFileSet("{workspaceRoot}/nx.json"@));
            assert(allv[n + 1] == InstrV::WorkspaceFileSet("{workspaceRoot}/.gitignore"@));
            assert(allv[n + 2] == InstrV::WorkspaceFileSet("{workspaceRoot}/.nxignore"@));
            assert(allv.to_set().contains(allv[n]));
            assert(allv.to_set().contains(allv[n + 1]));
            assert(allv.to_set().contains(allv[n + 2]));
            match first_party_external(self.project_graph, taskv) {
                Some(nm) => {
                    assert(targetv =~= seq![InstrV::External(nm)]);
                    assert(allv[0] == InstrV::External(nm));
                    assert(allv.to_set().contains(InstrV::External(nm)));
                },
                None => {},
            }
            if external_fallback_applies(self.project_graph, taskv) {
                lemma_no_ext_inputs_empty(
                    self.project_graph.external_nodes@,
                    closure_view(closures@),
                    task.inputs.self_inputs@,
                );
                assert(targetv =~= seq![InstrV::AllExternalDependencies]);
                assert(allv[0] == InstrV::AllExternalDependencies);
                assert(allv.to_set().contains(InstrV::AllExternalDependencies));
            }
        }
        Ok(plan)
    }

    /// The plans for the requested task ids, in order; the first failure is
    /// the call's failure.
    pub fn get_plans_internal(&self, task_ids: &Vec<String>, task_graph: &TaskGraph) -> (r: Result<
        Vec<(String, Vec<HashInstruction>)>,
        PlanError,
    >)
        ensures
            match r {
                Ok(plans) => {
                    &&& plans@.len() == task_ids@.len()
                    &&& forall|k: int|
                        0 <= k < plans@.len() ==> {
                            &&& (#[trigger] plans@[k]).0@ == task_ids@[k]@
                            &&& spec_task_items(
                                self.project_graph,
                                self.nx_json,
                                *task_graph,
                                task_ids@[k]@,
                            ) matches Ok(items) && strictly_sorted(plans@[k].1.deep_view())
                                && plans@[k].1.deep_view().to_set() == items.to_set()
                            &&& plan_obligations(
                                self.project_graph,
                                *task_graph,
                                task_ids@[k]@,
                                plans@[k].1.deep_view(),
                            )
                        }
                },
                Err(e) => exists|k: int|
                    {
                        &&& 0 <= k < task_ids@.len()
                        &&& #[trigger] spec_task_items(
                            self.project_graph,
                            self.nx_json,
                            *task_graph,
                            task_ids@[k]@,
                        ) == Err::<Seq<InstrV>, _>(e.deep_view())
                        &&& forall|m: int|
                            0 <= m < k ==> spec_task_items(
                                self.project_graph,
                                self.nx_json,
                                *task_graph,
                                task_ids@[m]@,
                            ) is Ok
                    },
            },
    {
        let closures = setup_external_deps(&self.project_graph);
        let mut plans: Vec<(String, Vec<HashInstruction>)> = Vec::new();
        let mut i: usize = 0;
        while i < task_ids.len()
            invariant
                i <= task_ids.len(),
                plans@.len() == i,
                closure_view(closures@) == spec_closure_map(self.project_graph),
                forall|k: int|
                    0 <= k < i ==> {
                        &&& (#[trigger] plans@[k]).0@ == task_ids@[k]@
                        &&& spec_task_items(
                            self.project_graph,
                            self.nx_json,
                            *task_graph,
                            task_ids@[k]@,
                        ) matches Ok(items) && strictly_sorted(plans@[k].1.deep_view())
                            && plans@[k].1.deep_view().to_set() == items.to_set()
                        &&& plan_obligations(
                            self.project_graph,
                            *task_graph,
                            task_ids@[k]@,
                            plans@[k].1.deep_view(),
                        )
                    },
            decreases task_ids.len() - i,
        {
            match self.plan_for_task(&task_ids[i], task_graph, &closures) {
                Ok(plan) => {
                    plans.push((task_ids[i].clone(), plan));
                },
                Err(e) => {
                    proof {
                        assert(spec_task_items(
                            self.project_graph,
                            self.nx_json,
                            *task_graph,
                            task_ids@[i as int]@,
                        ) == Err::<Seq<InstrV>, _>(e.deep_view()));
                        assert forall|m: int| 0 <= m < i implies spec_task_items(
                            self.project_graph,
                            self.nx_json,
                            *task_graph,
                            task_ids@[m]@,
                        ) is Ok by {
                            assert((#[trigger] plans@[m]).0@ == task_ids@[m]@);
                        }
                    }
                    return Err(e);
                },
            }
            i = i + 1;
        }
        Ok(plans)
    }

    /// See `get_plans_internal`; the public planning entry point.
    pub fn get_plans(&self, task_ids: &Vec<String>, task_graph: &TaskGraph) -> (r: Result<
        Vec<(String, Vec<HashInstruction>)>,
        PlanError,
    >)
        ensures
            match r {
                Ok(plans) => {
                    &&& plans@.len() == task_ids@.len()
                    &&& forall|k: int|
                        0 <= k < plans@.len() ==> {
                            &&& (#[trigger] plans@[k]).0@ == task_ids@[k]@
                            &&& spec_task_items(
                                self.project_graph,
                                self.nx_json,
                                *task_graph,
                                task_ids@[k]@,
                            ) matches Ok(items) && strictly_sorted(plans@[k].1.deep_view())
                                && plans@[k].1.deep_view().to_set() == items.to_set()
                            &&& plan_obligations(
                                self.project_graph,
                                *task_graph,
                                task_ids@[k]@,
                                plans@[k].1.deep_view(),
                            )
                        }
                },
                Err(e) => exists|k: int|
                    {
                        &&& 0 <= k < task_ids@.len()
                        &&& #[trigger] spec_task_items(
                            self.project_graph,
                            self.nx_json,
                            *task_graph,
                            task_ids@[k]@,
                        ) == Err::<Seq<InstrV>, _>(e.deep_view())
                        &&& forall|m: int|
                            0 <= m < k ==> spec_task_items(
                                self.project_graph,
                                self.nx_json,
                                *task_graph,
                                task_ids@[m]@,
                            ) is Ok
                    },
            },
    {
        self.get_plans_internal(task_ids, task_graph)
    }
}

} // verus!
