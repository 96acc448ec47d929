//! Hash instructions: the symbolic contributors to a task's cache key, with a
//! total order that makes the sorted, duplicate-free plan a canonical form.

use crate::order::{
    lemma_lex_lt_asymmetric, lemma_lex_lt_irreflexive, lemma_lex_lt_transitive,
    lemma_lex_lt_trichotomy, lemma_strs_lt_asymmetric, lemma_strs_lt_transitive,
    lemma_strs_lt_trichotomy, lex_lt, str_lt, string_list_lt, strs_lt,
};
use vstd::prelude::*;

verus! {

/// One symbolic contributor to a task's cache key.
#[derive(Debug, PartialEq, Eq)]
pub enum HashInstruction {
    /// A glob or path pattern scoped to the workspace root.
    WorkspaceFileSet(String),
    /// The output of a runtime command.
    Runtime(String),
    /// The value of an environment variable.
    Environment(String),
    /// A project name together with its comma-joined file-set patterns.
    ProjectFileSet(String, String),
    /// The configuration of a project.
    ProjectConfiguration(String),
    /// The compiler configuration that applies to a project.
    TsConfiguration(String),
    /// Outputs of an upstream task matching a declared pattern.
    TaskOutput(String, Vec<String>),
    /// One external package.
    External(String),
    /// Sentinel: the entire external dependency graph.
    AllExternalDependencies,
}

/// Mathematical form of a hash instruction, over character sequences.
#[verifier::ext_equal]
pub enum InstrV {
    WorkspaceFileSet(Seq<char>),
    Runtime(Seq<char>),
    Environment(Seq<char>),
    ProjectFileSet(Seq<char>, Seq<char>),
    ProjectConfiguration(Seq<char>),
    TsConfiguration(Seq<char>),
    TaskOutput(Seq<char>, Seq<Seq<char>>),
    External(Seq<char>),
    AllExternalDependencies,
}

impl DeepView for HashInstruction {
    type V = InstrV;

    open spec fn deep_view(&self) -> InstrV {
        match self {
            HashInstruction::WorkspaceFileSet(s) => InstrV::WorkspaceFileSet(s@),
            HashInstruction::Runtime(s) => InstrV::Runtime(s@),
            HashInstruction::Environment(s) => InstrV::Environment(s@),
            HashInstruction::ProjectFileSet(p, f) => InstrV::ProjectFileSet(p@, f@),
            HashInstruction::ProjectConfiguration(s) => InstrV::ProjectConfiguration(s@),
            HashInstruction::TsConfiguration(s) => InstrV::TsConfiguration(s@),
            HashInstruction::TaskOutput(p, o) => InstrV::TaskOutput(p@, o.deep_view()),
            HashInstruction::External(s) => InstrV::External(s@),
            HashInstruction::AllExternalDependencies => InstrV::AllExternalDependencies,
        }
    }
}

/// Position of an instruction's variant in the total order.
pub open spec fn rank(i: InstrV) -> int {
    match i {
        InstrV::WorkspaceFileSet(_) => 0,
        InstrV::Runtime(_) => 1,
        InstrV::Environment(_) => 2,
        InstrV::ProjectFileSet(_, _) => 3,
        InstrV::ProjectConfiguration(_) => 4,
        InstrV::TsConfiguration(_) => 5,
        InstrV::TaskOutput(_, _) => 6,
        InstrV::External(_) => 7,
        InstrV::AllExternalDependencies => 8,
    }
}

/// The strict total order on hash instructions: by variant, then by payload,
/// lexicographically.
pub open spec fn instr_lt(a: InstrV, b: InstrV) -> bool {
    if rank(a) != rank(b) {
        rank(a) < rank(b)
    } else {
        match (a, b) {
            (InstrV::WorkspaceFileSet(x), InstrV::WorkspaceFileSet(y)) => lex_lt(x, y),
            (InstrV::Runtime(x), InstrV::Runtime(y)) => lex_lt(x, y),
            (InstrV::Environment(x), InstrV::Environment(y)) => lex_lt(x, y),
            (InstrV::ProjectFileSet(x1, x2), InstrV::ProjectFileSet(y1, y2)) => lex_lt(x1, y1) || (
            x1 == y1 && lex_lt(x2, y2)),
            (InstrV::ProjectConfiguration(x), InstrV::ProjectConfiguration(y)) => lex_lt(x, y),
            (InstrV::TsConfiguration(x), InstrV::TsConfiguration(y)) => lex_lt(x, y),
            (InstrV::TaskOutput(x1, x2), InstrV::TaskOutput(y1, y2)) => lex_lt(x1, y1) || (x1 == y1
                && strs_lt(x2, y2)),
            (InstrV::External(x), InstrV::External(y)) => lex_lt(x, y),
            _ => false,
        }
    }
}

pub open spec fn instr_le(a: InstrV, b: InstrV) -> bool {
    instr_lt(a, b) || a == b
}

pub proof fn lemma_instr_lt_trichotomy(a: InstrV, b: InstrV)
    ensures
        instr_lt(a, b) || instr_lt(b, a) || a == b,
{
    if rank(a) == rank(b) {
        match (a, b) {
            (InstrV::WorkspaceFileSet(x), InstrV::WorkspaceFileSet(y)) => {
                lemma_lex_lt_trichotomy(x, y);
            },
            (InstrV::Runtime(x), InstrV::Runtime(y)) => {
                lemma_lex_lt_trichotomy(x, y);
            },
            (InstrV::Environment(x), InstrV::Environment(y)) => {
                lemma_lex_lt_trichotomy(x, y);
            },
            (InstrV::ProjectFileSet(x1, x2), InstrV::ProjectFileSet(y1, y2)) => {
                lemma_lex_lt_trichotomy(x1, y1);
                lemma_lex_lt_trichotomy(x2, y2);
            },
            (InstrV::ProjectConfiguration(x), InstrV::ProjectConfiguration(y)) => {
                lemma_lex_lt_trichotomy(x, y);
            },
            (InstrV::TsConfiguration(x), InstrV::TsConfiguration(y)) => {
                lemma_lex_lt_trichotomy(x, y);
            },
            (InstrV::TaskOutput(x1, x2), InstrV::TaskOutput(y1, y2)) => {
                lemma_lex_lt_trichotomy(x1, y1);
                lemma_strs_lt_trichotomy(x2, y2);
            },
            (InstrV::External(x), InstrV::External(y)) => {
                lemma_lex_lt_trichotomy(x, y);
            },
            _ => {},
        }
    }
}

pub proof fn lemma_instr_lt_asymmetric(a: InstrV, b: InstrV)
    ensures
        !(instr_lt(a, b) && instr_lt(b, a)),
{
    match (a, b) {
        (InstrV::WorkspaceFileSet(x), InstrV::WorkspaceFileSet(y)) => {
            lemma_lex_lt_asymmetric(x, y);
        },
        (InstrV::Runtime(x), InstrV::Runtime(y)) => {
            lemma_lex_lt_asymmetric(x, y);
        },
        (InstrV::Environment(x), InstrV::Environment(y)) => {
            lemma_lex_lt_asymmetric(x, y);
        },
        (InstrV::ProjectFileSet(x1, x2), InstrV::ProjectFileSet(y1, y2)) => {
            lemma_lex_lt_asymmetric(x1, y1);
            lemma_lex_lt_irreflexive(x1);
            lemma_lex_lt_asymmetric(x2, y2);
        },
        (InstrV::ProjectConfiguration(x), InstrV::ProjectConfiguration(y)) => {
            lemma_lex_lt_asymmetric(x, y);
        },
        (InstrV::TsConfiguration(x), InstrV::TsConfiguration(y)) => {
            lemma_lex_lt_asymmetric(x, y);
        },
        (InstrV::TaskOutput(x1, x2), InstrV::TaskOutput(y1, y2)) => {
            lemma_lex_lt_asymmetric(x1, y1);
            lemma_lex_lt_irreflexive(x1);
            lemma_strs_lt_asymmetric(x2, y2);
        },
        (InstrV::External(x), InstrV::External(y)) => {
            lemma_lex_lt_asymmetric(x, y);
        },
        _ => {},
    }
}

pub proof fn lemma_instr_lt_irreflexive(a: InstrV)
    ensures
        !instr_lt(a, a),
{
    lemma_instr_lt_asymmetric(a, a);
}

pub proof fn lemma_instr_lt_transitive(a: InstrV, b: InstrV, c: InstrV)
    requires
        instr_lt(a, b),
        instr_lt(b, c),
    ensures
        instr_lt(a, c),
{
    if rank(a) == rank(b) && rank(b) == rank(c) {
        match (a, b, c) {
            (
                InstrV::WorkspaceFileSet(x),
                InstrV::WorkspaceFileSet(y),
                InstrV::WorkspaceFileSet(z),
            ) => {
                lemma_lex_lt_transitive(x, y, z);
            },
            (InstrV::Runtime(x), InstrV::Runtime(y), InstrV::Runtime(z)) => {
                lemma_lex_lt_transitive(x, y, z);
            },
            (InstrV::Environment(x), InstrV::Environment(y), InstrV::Environment(z)) => {
                lemma_lex_lt_transitive(x, y, z);
            },
            (
                InstrV::ProjectFileSet(x1, x2),
                InstrV::ProjectFileSet(y1, y2),
                InstrV::ProjectFileSet(z1, z2),
            ) => {
                if lex_lt(x1, y1) && lex_lt(y1, z1) {
                    lemma_lex_lt_transitive(x1, y1, z1);
                } else if x1 == y1 && y1 == z1 {
                    lemma_lex_lt_transitive(x2, y2, z2);
                }
            },
            (
                InstrV::ProjectConfiguration(x),
                InstrV::ProjectConfiguration(y),
                InstrV::ProjectConfiguration(z),
            ) => {
                lemma_lex_lt_transitive(x, y, z);
            },
            (
                InstrV::TsConfiguration(x),
                InstrV::TsConfiguration(y),
                InstrV::TsConfiguration(z),
            ) => {
                lemma_lex_lt_transitive(x, y, z);
            },
            (
                InstrV::TaskOutput(x1, x2),
                InstrV::TaskOutput(y1, y2),
                InstrV::TaskOutput(z1, z2),
            ) => {
                if lex_lt(x1, y1) && lex_lt(y1, z1) {
                    lemma_lex_lt_transitive(x1, y1, z1);
                } else if x1 == y1 && y1 == z1 {
                    lemma_strs_lt_transitive(x2, y2, z2);
                }
            },
            (InstrV::External(x), InstrV::External(y), InstrV::External(z)) => {
                lemma_lex_lt_transitive(x, y, z);
            },
            _ => {},
        }
    }
}

/// Rank of an instruction's variant, executable form.
fn rank_of(i: &HashInstruction) -> (r: u64)
    ensures
        r as int == rank(i.deep_view()),
{
    match i {
        HashInstruction::WorkspaceFileSet(_) => 0,
        HashInstruction::Runtime(_) => 1,
        HashInstruction::Environment(_) => 2,
        HashInstruction::ProjectFileSet(_, _) => 3,
        HashInstruction::ProjectConfiguration(_) => 4,
        HashInstruction::TsConfiguration(_) => 5,
        HashInstruction::TaskOutput(_, _) => 6,
        HashInstruction::External(_) => 7,
        HashInstruction::AllExternalDependencies => 8,
    }
}

/// Executable strict comparison of two instructions.
pub fn instr_lt_exec(a: &HashInstruction, b: &HashInstruction) -> (r: bool)
    ensures
        r == instr_lt(a.deep_view(), b.deep_view()),
{
    let ra = rank_of(a);
    let rb = rank_of(b);
    if ra != rb {
        return ra < rb;
    }
    match (a, b) {
        (HashInstruction::WorkspaceFileSet(x), HashInstruction::WorkspaceFileSet(y)) => str_lt(
            x.as_str(),
            y.as_str(),
        ),
        (HashInstruction::Runtime(x), HashInstruction::Runtime(y)) => str_lt(x.as_str(), y.as_str()),
        (HashInstruction::Environment(x), HashInstruction::Environment(y)) => str_lt(
            x.as_str(),
            y.as_str(),
        ),
        (HashInstruction::ProjectFileSet(x1, x2), HashInstruction::ProjectFileSet(y1, y2)) => {
            if str_lt(x1.as_str(), y1.as_str()) {
                true
            } else if x1.eq(y1) {
                str_lt(x2.as_str(), y2.as_str())
            } else {
                false
            }
        },
        (
            HashInstruction::ProjectConfiguration(x),
            HashInstruction::ProjectConfiguration(y),
        ) => str_lt(x.as_str(), y.as_str()),
        (HashInstruction::TsConfiguration(x), HashInstruction::TsConfiguration(y)) => str_lt(
            x.as_str(),
            y.as_str(),
        ),
        (HashInstruction::TaskOutput(x1, x2), HashInstruction::TaskOutput(y1, y2)) => {
            if str_lt(x1.as_str(), y1.as_str()) {
                true
            } else if x1.eq(y1) {
                string_list_lt(x2, y2)
            } else {
                false
            }
        },
        (HashInstruction::External(x), HashInstruction::External(y)) => str_lt(
            x.as_str(),
            y.as_str(),
        ),
        _ => false,
    }
}

/// Executable equality of two instructions' mathematical forms.
pub fn instr_eq_exec(a: &HashInstruction, b: &HashInstruction) -> (r: bool)
    ensures
        r == (a.deep_view() == b.deep_view()),
{
    match (a, b) {
        (HashInstruction::WorkspaceFileSet(x), HashInstruction::WorkspaceFileSet(y)) => x.eq(y),
        (HashInstruction::Runtime(x), HashInstruction::Runtime(y)) => x.eq(y),
        (HashInstruction::Environment(x), HashInstruction::Environment(y)) => x.eq(y),
        (HashInstruction::ProjectFileSet(x1, x2), HashInstruction::ProjectFileSet(y1, y2)) => x1.eq(
            y1,
        ) && x2.eq(y2),
        (HashInstruction::ProjectConfiguration(x), HashInstruction::ProjectConfiguration(y)) => x
            .eq(y),
        (HashInstruction::TsConfiguration(x), HashInstruction::TsConfiguration(y)) => x.eq(y),
        (HashInstruction::TaskOutput(x1, x2), HashInstruction::TaskOutput(y1, y2)) => x1.eq(y1)
            && string_list_eq(x2, y2),
        (HashInstruction::External(x), HashInstruction::External(y)) => x.eq(y),
        (HashInstruction::AllExternalDependencies, HashInstruction::AllExternalDependencies) => true,
        _ => {
            proof {
                assert(rank(a.deep_view()) != rank(b.deep_view()));
            }
            false
        },
    }
}

/// Executable equality of two string lists' mathematical forms.
pub fn string_list_eq(a: &Vec<String>, b: &Vec<String>) -> (r: bool)
    ensures
        r == (a.deep_view() == b.deep_view()),
{
    if a.len() != b.len() {
        proof {
            assert(a.deep_view().len() == a.len());
            assert(b.deep_view().len() == b.len());
        }
        return false;
    }
    let mut i: usize = 0;
    while i < a.len()
        invariant
            i <= a.len(),
            a.len() == b.len(),
            a.deep_view().len() == a.len(),
            b.deep_view().len() == b.len(),
            forall|k: int| 0 <= k < i ==> a.deep_view()[k] == b.deep_view()[k],
        decreases a.len() - i,
    {
        proof {
            assert(a.deep_view()[i as int] == a@[i as int]@);
            assert(b.deep_view()[i as int] == b@[i as int]@);
        }
        if !a[i].eq(&b[i]) {
            return false;
        }
        i = i + 1;
    }
    proof {
        assert(a.deep_view() =~= b.deep_view());
    }
    true
}

/// An exact copy of a string list, pinned at the level of views.
pub fn clone_strings(v: &Vec<String>) -> (r: Vec<String>)
    ensures
        r.deep_view() == v.deep_view(),
{
    let mut r: Vec<String> = Vec::new();
    let mut i: usize = 0;
    while i < v.len()
        invariant
            i <= v.len(),
            r.len() == i,
            v.deep_view().len() == v.len(),
            r.deep_view().len() == i,
            forall|k: int| 0 <= k < i ==> r.deep_view()[k] == v.deep_view()[k],
        decreases v.len() - i,
    {
        r.push(v[i].clone());
        proof {
            assert(r.deep_view()[i as int] == r@[i as int]@);
            assert(v.deep_view()[i as int] == v@[i as int]@);
        }
        i = i + 1;
    }
    proof {
        assert(r.deep_view() =~= v.deep_view());
    }
    r
}

impl HashInstruction {
    /// An exact copy, pinned at the level of views.
    pub fn duplicate(&self) -> (r: HashInstruction)
        ensures
            r.deep_view() == self.deep_view(),
    {
        match self {
            HashInstruction::WorkspaceFileSet(s) => HashInstruction::WorkspaceFileSet(s.clone()),
            HashInstruction::Runtime(s) => HashInstruction::Runtime(s.clone()),
            HashInstruction::Environment(s) => HashInstruction::Environment(s.clone()),
            HashInstruction::ProjectFileSet(p, f) => HashInstruction::ProjectFileSet(
                p.clone(),
                f.clone(),
            ),
            HashInstruction::ProjectConfiguration(s) => HashInstruction::ProjectConfiguration(
                s.clone(),
            ),
            HashInstruction::TsConfiguration(s) => HashInstruction::TsConfiguration(s.clone()),
            HashInstruction::TaskOutput(p, o) => HashInstruction::TaskOutput(
                p.clone(),
                clone_strings(o),
            ),
            HashInstruction::External(s) => HashInstruction::External(s.clone()),
            HashInstruction::AllExternalDependencies => HashInstruction::AllExternalDependencies,
        }
    }
}

/// A plan fragment is strictly sorted: every earlier instruction is strictly
/// below every later one; in particular it holds no duplicates.
pub open spec fn strictly_sorted(s: Seq<InstrV>) -> bool {
    forall|i: int, j: int| 0 <= i < j < s.len() ==> instr_lt(s[i], s[j])
}

/// A strictly sorted sequence is the canonical form of its element set: two
/// strictly sorted sequences over the same elements are equal.
pub proof fn lemma_strictly_sorted_unique(a: Seq<InstrV>, b: Seq<InstrV>)
    requires
        strictly_sorted(a),
        strictly_sorted(b),
        a.to_set() == b.to_set(),
    ensures
        a == b,
    decreases a.len(),
{
    if a.len() == 0 && b.len() == 0 {
        assert(a =~= b);
    } else if a.len() == 0 {
        assert(b.to_set().contains(b[0]));
        assert(a.contains(b[0]));
    } else if b.len() == 0 {
        assert(a.to_set().contains(a[0]));
        assert(b.contains(a[0]));
    } else {
        // the heads are equal: each head is the strict minimum of the shared set
        assert(a.to_set().contains(a[0]));
        assert(b.to_set().contains(b[0]));
        assert(a.contains(b[0]));
        assert(b.contains(a[0]));
        let ia = choose|i: int| 0 <= i < a.len() && a[i] == b[0];
        let ib = choose|i: int| 0 <= i < b.len() && b[i] == a[0];
        if ia > 0 && ib > 0 {
            assert(instr_lt(a[0], a[ia]));
            assert(instr_lt(b[0], b[ib]));
            lemma_instr_lt_asymmetric(a[0], b[0]);
        }
        assert(a[0] == b[0]);
        let ad = a.drop_first();
        let bd = b.drop_first();
        assert forall|x: InstrV| ad.to_set().contains(x) implies bd.to_set().contains(x) by {
            let i = choose|i: int| 0 <= i < ad.len() && ad[i] == x;
            assert(a[i + 1] == x);
            assert(instr_lt(a[0], x));
            assert(a.to_set().contains(x));
            assert(b.contains(x));
            let j = choose|j: int| 0 <= j < b.len() && b[j] == x;
            lemma_instr_lt_irreflexive(x);
            assert(j > 0);
            assert(bd[j - 1] == x);
            assert(bd.contains(x));
        }
        assert forall|x: InstrV| bd.to_set().contains(x) implies ad.to_set().contains(x) by {
            let i = choose|i: int| 0 <= i < bd.len() && bd[i] == x;
            assert(b[i + 1] == x);
            assert(instr_lt(b[0], x));
            assert(b.to_set().contains(x));
            assert(a.contains(x));
            let j = choose|j: int| 0 <= j < a.len() && a[j] == x;
            lemma_instr_lt_irreflexive(x);
            assert(j > 0);
            assert(ad[j - 1] == x);
            assert(ad.contains(x));
        }
        assert(ad.to_set() =~= bd.to_set());
        assert(strictly_sorted(ad)) by {
            assert(forall|i: int, j: int|
                0 <= i < j < ad.len() ==> ad[i] == a[i + 1] && ad[j] == a[j + 1]);
        }
        assert(strictly_sorted(bd)) by {
            assert(forall|i: int, j: int|
                0 <= i < j < bd.len() ==> bd[i] == b[i + 1] && bd[j] == b[j + 1]);
        }
        lemma_strictly_sorted_unique(ad, bd);
        assert(a =~= b) by {
            assert(forall|i: int| 1 <= i < a.len() ==> a[i] == ad[i - 1] && b[i] == bd[i - 1]);
        }
    }
}

/// Where to place `x` in the strictly sorted list `out`.
fn find_insert_pos(out: &Vec<HashInstruction>, x: &HashInstruction) -> (j: usize)
    requires
        strictly_sorted(out.deep_view()),
    ensures
        j <= out.len(),
        forall|k: int| 0 <= k < j ==> instr_lt(out.deep_view()[k], x.deep_view()),
        j < out.len() ==> !instr_lt(out.deep_view()[j as int], x.deep_view()),
{
    let mut j: usize = 0;
    loop
        invariant
            j <= out.len(),
            out.deep_view().len() == out.len(),
            forall|k: int| 0 <= k < j ==> instr_lt(out.deep_view()[k], x.deep_view()),
        decreases out.len() - j,
    {
        if j == out.len() {
            return j;
        }
        if !instr_lt_exec(&out[j], x) {
            return j;
        }
        proof {
            assert(out.deep_view()[j as int] == out@[j as int].deep_view());
        }
        j = j + 1;
    }
}

/// Insert `x` into the strictly sorted list `out`, unless it is already there.
pub fn insert_unique_sorted(out: &mut Vec<HashInstruction>, x: HashInstruction)
    requires
        strictly_sorted(old(out).deep_view()),
    ensures
        strictly_sorted(final (out).deep_view()),
        final (out).deep_view().to_set() == old(out).deep_view().to_set().insert(x.deep_view()),
{
    let ghost dv0 = out.deep_view();
    let ghost xv = x.deep_view();
    let j = find_insert_pos(out, &x);
    if j < out.len() {
        if instr_eq_exec(&out[j], &x) {
            proof {
                assert(out.deep_view()[j as int] == out@[j as int].deep_view());
                assert(dv0.contains(xv));
                assert(dv0.to_set().insert(xv) =~= dv0.to_set());
            }
            return ;
        }
    }
    proof {
        if j < out.len() {
            lemma_instr_lt_trichotomy(dv0[j as int], xv);
            assert(instr_lt(xv, dv0[j as int]));
        }
    }
    out.insert(j, x);
    proof {
        let dv1 = out.deep_view();
        assert(out@ == old(out)@.insert(j as int, x));
        assert(dv1 =~= dv0.insert(j as int, xv)) by {
            dv0.insert_ensures(j as int, xv);
            assert(dv1.len() == out@.len());
            assert(forall|k: int|
                0 <= k < dv1.len() ==> dv1[k] == #[trigger] out@[k].deep_view());
            assert(forall|k: int|
                0 <= k < j ==> out@[k] == old(out)@[k] && dv0[k] == old(out)@[k].deep_view());
            assert(out@[j as int] == x);
            assert(forall|k: int|
                j < k < dv1.len() ==> out@[k] == old(out)@[k - 1] && dv0[k - 1] == old(
                    out,
                )@[k - 1].deep_view());
        }
        dv0.insert_ensures(j as int, xv);
        assert(strictly_sorted(dv1)) by {
            assert forall|p: int, q: int| 0 <= p < q < dv1.len() implies instr_lt(
                dv1[p],
                dv1[q],
            ) by {
                let jj = j as int;
                if p < jj && q == jj {
                    assert(dv1[p] == dv0[p]);
                    assert(dv1[q] == xv);
                } else if p < jj && q > jj {
                    assert(dv1[p] == dv0[p]);
                    assert(dv1[q] == dv0[q - 1]);
                    if q - 1 == jj {
                        // x sits strictly below the old element at j
                        assert(instr_lt(dv0[p], xv));
                        assert(instr_lt(xv, dv0[jj]));
                        lemma_instr_lt_transitive(dv0[p], xv, dv0[jj]);
                    }
                } else if p == jj && q > jj {
                    assert(dv1[p] == xv);
                    assert(dv1[q] == dv0[q - 1]);
                    if q - 1 > jj {
                        assert(instr_lt(xv, dv0[jj]));
                        assert(instr_lt(dv0[jj], dv0[q - 1]));
                        lemma_instr_lt_transitive(xv, dv0[jj], dv0[q - 1]);
                    }
                } else if p > jj {
                    assert(dv1[p] == dv0[p - 1]);
                    assert(dv1[q] == dv0[q - 1]);
                }
            }
        }
        assert(dv1.to_set() =~= dv0.to_set().insert(xv)) by {
            assert forall|y: InstrV| dv1.to_set().contains(y) implies dv0.to_set().insert(
                xv,
            ).contains(y) by {
                let i = choose|i: int| 0 <= i < dv1.len() && dv1[i] == y;
                if i < j {
                    assert(dv0[i] == y);
                } else if i > j {
                    assert(dv0[i - 1] == y);
                }
            }
            assert forall|y: InstrV| dv0.to_set().insert(xv).contains(y) implies dv1
                .to_set().contains(y) by {
                if y == xv {
                    assert(dv1[j as int] == y);
                } else {
                    let i = choose|i: int| 0 <= i < dv0.len() && dv0[i] == y;
                    if i < j {
                        assert(dv1[i] == y);
                    } else {
                        assert(dv1[i + 1] == y);
                    }
                }
            }
        }
    }
}

/// Sort the instructions under the total order and drop every duplicate: the
/// canonical, deterministic form of a plan.
pub fn sort_dedup(v: Vec<HashInstruction>) -> (r: Vec<HashInstruction>)
    ensures
        strictly_sorted(r.deep_view()),
        r.deep_view().to_set() == v.deep_view().to_set(),
{
    let mut out: Vec<HashInstruction> = Vec::new();
    let mut i: usize = 0;
    proof {
        assert(out.deep_view().to_set() =~= v.deep_view().take(0).to_set()) by {
            assert(out.deep_view().len() == 0);
            assert(v.deep_view().take(0).len() == 0);
        }
    }
    while i < v.len()
        invariant
            i <= v.len(),
            v.deep_view().len() == v.len(),
            strictly_sorted(out.deep_view()),
            out.deep_view().to_set() == v.deep_view().take(i as int).to_set(),
        decreases v.len() - i,
    {
        let ghost pre = v.deep_view().take(i as int);
        insert_unique_sorted(&mut out, v[i].duplicate());
        proof {
            assert(v.deep_view()[i as int] == v@[i as int].deep_view());
            let post = v.deep_view().take(i as int + 1);
            assert(post =~= pre.push(v.deep_view()[i as int]));
            assert(post.to_set() =~= pre.to_set().insert(v.deep_view()[i as int])) by {
                assert forall|y: InstrV| post.to_set().contains(y) implies pre.to_set().insert(
                    v.deep_view()[i as int],
                ).contains(y) by {
                    let k = choose|k: int| 0 <= k < post.len() && post[k] == y;
                    if k < i {
                        assert(pre[k] == y);
                    }
                }
                assert forall|y: InstrV|
                    pre.to_set().insert(v.deep_view()[i as int]).contains(y) implies post
                    .to_set().contains(y) by {
                    if y == v.deep_view()[i as int] {
                        assert(post[i as int] == y);
                    } else {
                        let k = choose|k: int| 0 <= k < pre.len() && pre[k] == y;
                        assert(post[k] == y);
                    }
                }
            }
        }
        i = i + 1;
    }
    proof {
        assert(v.deep_view().take(v.len() as int) =~= v.deep_view());
    }
    out
}

} // verus!
