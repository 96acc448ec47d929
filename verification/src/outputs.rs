//! Output expansion: resolving declared output entries against a snapshot of
//! the filesystem under a root directory.
//!
//! The snapshot holds the tree twice, as paths relative to the root (with
//! `/` separators) and a directory flag each: once as the ignore-honoring
//! walker yields it, and once unfiltered for the direct existence probes.
//! The calling side takes the snapshot from disk; both expansion functions
//! are pure in it.

use crate::glob::{glob_set_compiles, glob_set_matches, GlobMatcher};
use crate::model::PlanError;
use crate::order::{lex_le, lex_lt, str_eq, str_lt};
use crate::seqs::{lemma_filter_push, lemma_take_push};
use vstd::prelude::*;
use vstd::multiset::Multiset;
use vstd::string::StrSliceExecFns;

verus! {

/// One filesystem entry: a relative path and whether it is a directory.
pub struct FsEntry {
    pub path: String,
    pub is_dir: bool,
}

/// What output expansion sees of the directory under a root: `walked` is the
/// tree as the ignore-honoring walker yields it, in walk order, and feeds
/// glob matching and directory expansion; `present` is every entry that
/// exists under the root, ignore rules not applied, and answers the direct
/// existence probes for declared entries.
pub struct FsSnapshot {
    pub walked: Vec<FsEntry>,
    pub present: Vec<FsEntry>,
}

/// The snapshot holds an entry with this path.
pub open spec fn snap_has(snap: Seq<FsEntry>, path: Seq<char>) -> bool {
    exists|i: int| 0 <= i < snap.len() && snap[i].path@ == path
}

/// The snapshot holds a directory entry with this path.
pub open spec fn snap_has_dir(snap: Seq<FsEntry>, path: Seq<char>) -> bool {
    exists|i: int| 0 <= i < snap.len() && snap[i].path@ == path && snap[i].is_dir
}

/// The paths of the snapshot, in walk order.
pub open spec fn snap_paths(snap: Seq<FsEntry>) -> Seq<Seq<char>> {
    snap.map_values(|e: FsEntry| e.path@)
}

/// Entries that exist in the snapshot.
pub open spec fn exists_pred(snap: Seq<FsEntry>) -> spec_fn(Seq<char>) -> bool {
    |e: Seq<char>| snap_has(snap, e)
}

/// Entries that do not exist in the snapshot.
pub open spec fn missing_pred(snap: Seq<FsEntry>) -> spec_fn(Seq<char>) -> bool {
    |e: Seq<char>| !snap_has(snap, e)
}

/// Paths matched by the glob set compiled from `patterns`.
pub open spec fn match_pred(patterns: Seq<Seq<char>>) -> spec_fn(Seq<char>) -> bool {
    |p: Seq<char>| glob_set_matches(patterns, p)
}

fn snapshot_contains(entries: &Vec<FsEntry>, path: &str) -> (r: bool)
    ensures
        r == snap_has(entries@, path@),
{
    let mut i: usize = 0;
    while i < entries.len()
        invariant
            i <= entries.len(),
            forall|k: int| 0 <= k < i ==> entries@[k].path@ != path@,
        decreases entries.len() - i,
    {
        if str_eq(entries[i].path.as_str(), path) {
            return true;
        }
        i = i + 1;
    }
    false
}

fn snapshot_has_dir(entries: &Vec<FsEntry>, path: &str) -> (r: bool)
    ensures
        r == snap_has_dir(entries@, path@),
{
    let mut i: usize = 0;
    while i < entries.len()
        invariant
            i <= entries.len(),
            forall|k: int| 0 <= k < i ==> !(entries@[k].path@ == path@ && entries@[k].is_dir),
        decreases entries.len() - i,
    {
        if entries[i].is_dir {
            if str_eq(entries[i].path.as_str(), path) {
                return true;
            }
        }
        i = i + 1;
    }
    false
}

/// `pre` is a prefix of `p`.
pub open spec fn has_prefix(p: Seq<char>, pre: Seq<char>) -> bool {
    p.len() >= pre.len() && p.subrange(0, pre.len() as int) == pre
}

fn str_has_prefix(p: &str, pre: &str) -> (r: bool)
    ensures
        r == has_prefix(p@, pre@),
{
    let plen = p.unicode_len();
    let prelen = pre.unicode_len();
    if plen < prelen {
        return false;
    }
    let head = p.substring_char(0, prelen);
    str_eq(head, pre)
}

/// What existence expansion returns: entries that literally exist under the
/// root (probed directly, ignore rules not applied) are kept; the rest are
/// compiled as one glob set (`None` when that fails) and every walked path
/// matching it is collected, ahead of the kept entries. No deduplication
/// happens between the two groups.
pub open spec fn spec_expand_outputs(
    walked: Seq<FsEntry>,
    present: Seq<FsEntry>,
    es: Seq<Seq<char>>,
) -> Option<Seq<Seq<char>>> {
    let existing = es.filter(exists_pred(present));
    let missing = es.filter(missing_pred(present));
    if missing.len() == 0 {
        Some(existing)
    } else if !glob_set_compiles(missing) {
        None
    } else {
        Some(snap_paths(walked).filter(match_pred(missing)) + existing)
    }
}

/// Split the declared entries into those that exist in the snapshot and
/// those that do not, keeping order.
fn partition_existing(present: &Vec<FsEntry>, entries: &Vec<String>) -> (r: (
    Vec<String>,
    Vec<String>,
))
    ensures
        r.0.deep_view() == entries.deep_view().filter(exists_pred(present@)),
        r.1.deep_view() == entries.deep_view().filter(missing_pred(present@)),
{
    let ghost es = entries.deep_view();
    let mut existing: Vec<String> = Vec::new();
    let mut missing: Vec<String> = Vec::new();
    let mut i: usize = 0;
    proof {
        assert(es.take(0) =~= Seq::<Seq<char>>::empty());
        assert(existing.deep_view() =~= es.take(0).filter(exists_pred(present@)));
        assert(missing.deep_view() =~= es.take(0).filter(missing_pred(present@)));
    }
    while i < entries.len()
        invariant
            i <= entries.len(),
            es == entries.deep_view(),
            es.len() == entries.len(),
            existing.deep_view() == es.take(i as int).filter(exists_pred(present@)),
            missing.deep_view() == es.take(i as int).filter(missing_pred(present@)),
        decreases entries.len() - i,
    {
        proof {
            assert(es[i as int] == entries@[i as int]@);
            lemma_take_push(es, i as int);
            lemma_filter_push(es.take(i as int), exists_pred(present@), es[i as int]);
            lemma_filter_push(es.take(i as int), missing_pred(present@), es[i as int]);
        }
        if snapshot_contains(present, entries[i].as_str()) {
            let ghost pre = existing.deep_view();
            existing.push(entries[i].clone());
            proof {
                assert(existing.deep_view() =~= pre.push(es[i as int]));
            }
        } else {
            let ghost pre = missing.deep_view();
            missing.push(entries[i].clone());
            proof {
                assert(missing.deep_view() =~= pre.push(es[i as int]));
            }
        }
        i = i + 1;
    }
    proof {
        assert(es.take(entries.len() as int) =~= es);
    }
    (existing, missing)
}

/// Walked paths matching the compiled glob set, in walk order.
fn matching_walked_paths(walked: &Vec<FsEntry>, matcher: &GlobMatcher) -> (r: Vec<String>)
    ensures
        r.deep_view() == snap_paths(walked@).filter(match_pred(matcher.patterns())),
{
    let ghost ps = snap_paths(walked@);
    let mut found: Vec<String> = Vec::new();
    let mut i: usize = 0;
    proof {
        assert(ps.take(0) =~= Seq::<Seq<char>>::empty());
        assert(found.deep_view() =~= ps.take(0).filter(match_pred(matcher.patterns())));
    }
    while i < walked.len()
        invariant
            i <= walked.len(),
            ps == snap_paths(walked@),
            ps.len() == walked.len(),
            found.deep_view() == ps.take(i as int).filter(match_pred(matcher.patterns())),
        decreases walked.len() - i,
    {
        proof {
            assert(ps[i as int] == walked@[i as int].path@);
            lemma_take_push(ps, i as int);
            lemma_filter_push(ps.take(i as int), match_pred(matcher.patterns()), ps[i as int]);
        }
        if matcher.is_match(walked[i].path.as_str()) {
            let ghost pre = found.deep_view();
            found.push(walked[i].path.clone());
            proof {
                assert(found.deep_view() =~= pre.push(ps[i as int]));
            }
        }
        i = i + 1;
    }
    proof {
        assert(ps.take(walked.len() as int) =~= ps);
    }
    found
}

/// Expand the declared entries into existing directories and files: entries
/// that exist under the root are kept as they are; the remainder is treated
/// as glob patterns over the walked tree. Used when copying outputs to and
/// from the cache.
pub fn expand_outputs(snapshot: &FsSnapshot, entries: &Vec<String>) -> (r: Result<
    Vec<String>,
    PlanError,
>)
    ensures
        match r {
            Ok(v) => spec_expand_outputs(
                snapshot.walked@,
                snapshot.present@,
                entries.deep_view(),
            ) == Some(v.deep_view()),
            Err(e) => spec_expand_outputs(
                snapshot.walked@,
                snapshot.present@,
                entries.deep_view(),
            ) is None && e is InvalidGlobPattern,
        },
{
    let (existing, missing) = partition_existing(&snapshot.present, entries);
    if missing.len() == 0 {
        proof {
            assert(missing.deep_view().len() == 0);
        }
        return Ok(existing);
    }
    proof {
        assert(missing.deep_view().len() == missing.len());
    }
    match GlobMatcher::build(&missing) {
        None => Err(PlanError::InvalidGlobPattern),
        Some(matcher) => {
            let mut result = matching_walked_paths(&snapshot.walked, &matcher);
            let ghost found = result.deep_view();
            let mut tail = existing;
            let ghost kept = tail.deep_view();
            result.append(&mut tail);
            proof {
                assert(result.deep_view() =~= found + kept);
            }
            Ok(result)
        },
    }
}

/// Declared entries that exist as directories.
pub open spec fn dir_pred(snap: Seq<FsEntry>) -> spec_fn(Seq<char>) -> bool {
    |e: Seq<char>| snap_has(snap, e) && snap_has_dir(snap, e)
}

/// Declared entries that exist as plain files.
pub open spec fn file_pred(snap: Seq<FsEntry>) -> spec_fn(Seq<char>) -> bool {
    |e: Seq<char>| snap_has(snap, e) && !snap_has_dir(snap, e)
}

/// Snapshot entries that are files lying under the given prefix.
pub open spec fn under_dir_pred(pre: Seq<char>) -> spec_fn(FsEntry) -> bool {
    |en: FsEntry| has_prefix(en.path@, pre) && !en.is_dir
}

/// Every file of the snapshot under the directory `dir`, in walk order: the
/// paths with prefix `dir/` whose entries are not directories.
pub open spec fn files_under(snap: Seq<FsEntry>, dir: Seq<char>) -> Seq<Seq<char>> {
    snap.filter(under_dir_pred(dir.push('/'))).map_values(|en: FsEntry| en.path@)
}

/// The concatenated file lists of the declared directories, in order.
pub open spec fn dir_expansion(snap: Seq<FsEntry>, dirs: Seq<Seq<char>>) -> Seq<Seq<char>>
    decreases dirs.len(),
{
    if dirs.len() == 0 {
        Seq::empty()
    } else {
        dir_expansion(snap, dirs.drop_last()) + files_under(snap, dirs.last())
    }
}

/// What file-list expansion collects before sorting: the entries probed as
/// plain files, then every walked path matching the glob set compiled from
/// the non-existing entries, then the walked files under each declared
/// directory. Probing uses the unfiltered entries; matching and directory
/// walks use the ignore-honoring walk.
pub open spec fn spec_files_for_outputs(
    walked: Seq<FsEntry>,
    present: Seq<FsEntry>,
    es: Seq<Seq<char>>,
) -> Option<Seq<Seq<char>>> {
    let globs = es.filter(missing_pred(present));
    let plain = es.filter(file_pred(present));
    let dirs = es.filter(dir_pred(present));
    if globs.len() > 0 && !glob_set_compiles(globs) {
        None
    } else {
        let with_globs = if globs.len() == 0 {
            plain
        } else {
            plain + snap_paths(walked).filter(match_pred(globs))
        };
        Some(with_globs + dir_expansion(walked, dirs))
    }
}

/// A string list sorted under the lexicographic order.
pub open spec fn sorted_strings(s: Seq<Seq<char>>) -> bool {
    forall|i: int, j: int| 0 <= i < j < s.len() ==> lex_le(s[i], s[j])
}

/// The files of the snapshot under `dir`, in walk order.
fn collect_files_under(walked: &Vec<FsEntry>, dir: &String) -> (r: Vec<String>)
    ensures
        r.deep_view() == files_under(walked@, dir@),
{
    let pre = dir.clone().concat("/");
    proof {
        reveal_strlit("/");
        assert(pre@ =~= dir@.push('/'));
    }
    let ghost p = under_dir_pred(dir@.push('/'));
    let ghost sn = walked@;
    let mut out: Vec<String> = Vec::new();
    let mut i: usize = 0;
    proof {
        assert(sn.take(0) =~= Seq::<FsEntry>::empty());
        crate::seqs::lemma_filter_empty(p);
        assert(out.deep_view() =~= sn.take(0).filter(p).map_values(|en: FsEntry| en.path@));
    }
    while i < walked.len()
        invariant
            i <= walked.len(),
            sn == walked@,
            sn.len() == walked.len(),
            p == under_dir_pred(dir@.push('/')),
            pre@ == dir@.push('/'),
            out.deep_view() == sn.take(i as int).filter(p).map_values(|en: FsEntry| en.path@),
        decreases walked.len() - i,
    {
        proof {
            lemma_take_push(sn, i as int);
            lemma_filter_push(sn.take(i as int), p, sn[i as int]);
            crate::seqs::lemma_map_values_push(
                sn.take(i as int).filter(p),
                |en: FsEntry| en.path@,
                sn[i as int],
            );
        }
        let keep = if walked[i].is_dir {
            false
        } else {
            str_has_prefix(walked[i].path.as_str(), pre.as_str())
        };
        if keep {
            out.push(walked[i].path.clone());
        }
        i = i + 1;
    }
    proof {
        assert(sn.take(walked.len() as int) =~= sn);
    }
    out
}

/// Where to place `x` in the sorted string list `out`.
fn find_str_pos(out: &Vec<String>, x: &String) -> (j: usize)
    requires
        sorted_strings(out.deep_view()),
    ensures
        j <= out.len(),
        forall|k: int| 0 <= k < j ==> lex_le(out.deep_view()[k], x@),
        j < out.len() ==> lex_lt(x@, out.deep_view()[j as int]),
{
    let mut j: usize = 0;
    loop
        invariant
            j <= out.len(),
            out.deep_view().len() == out.len(),
            forall|k: int| 0 <= k < j ==> lex_le(out.deep_view()[k], x@),
        decreases out.len() - j,
    {
        if j == out.len() {
            return j;
        }
        proof {
            assert(out.deep_view()[j as int] == out@[j as int]@);
        }
        if str_lt(x.as_str(), out[j].as_str()) {
            return j;
        }
        proof {
            crate::order::lemma_lex_lt_trichotomy(out.deep_view()[j as int], x@);
        }
        j = j + 1;
    }
}

/// Insert `x` into the sorted string list `out`, keeping duplicates.
fn insert_sorted_string(out: &mut Vec<String>, x: String)
    requires
        sorted_strings(old(out).deep_view()),
    ensures
        sorted_strings(final (out).deep_view()),
        final (out).deep_view().to_multiset() == old(out).deep_view().to_multiset().insert(x@),
{
    let ghost dv0 = out.deep_view();
    let ghost xv = x@;
    let j = find_str_pos(out, &x);
    out.insert(j, x);
    proof {
        let dv1 = out.deep_view();
        assert(forall|k: int| 0 <= k < j ==> lex_le(#[trigger] dv0[k], xv));
        assert(j < dv0.len() ==> lex_lt(xv, dv0[j as int]));
        dv0.insert_ensures(j as int, xv);
        assert(dv1 =~= dv0.insert(j as int, xv)) by {
            assert(forall|k: int| 0 <= k < dv1.len() ==> dv1[k] == #[trigger] out@[k]@);
            assert(forall|k: int| 0 <= k < j ==> out@[k] == old(out)@[k] && dv0[k] == old(out)@[k]@);
            assert(out@[j as int]@ == xv);
            assert(forall|k: int|
                j < k < dv1.len() ==> out@[k] == old(out)@[k - 1] && dv0[k - 1] == old(
                    out,
                )@[k - 1]@);
        }
        crate::seqs::lemma_to_multiset_insert(dv0, j as int, xv);
        assert(sorted_strings(dv1)) by {
            assert forall|p: int, q: int| 0 <= p < q < dv1.len() implies lex_le(
                dv1[p],
                dv1[q],
            ) by {
                let jj = j as int;
                if q < jj {
                    assert(dv1[p] == dv0[p]);
                    assert(dv1[q] == dv0[q]);
                    assert(lex_le(dv0[p], dv0[q]));
                } else if p < jj && q == jj {
                    assert(dv1[p] == dv0[p]);
                    assert(dv1[q] == xv);
                    assert(lex_le(dv0[p], xv));
                } else if p < jj && q > jj {
                    assert(dv1[p] == dv0[p]);
                    assert(dv1[q] == dv0[q - 1]);
                    if p < q - 1 {
                        assert(lex_le(dv0[p], dv0[q - 1]));
                    }
                } else if p == jj && q > jj {
                    assert(dv1[p] == xv);
                    assert(dv1[q] == dv0[q - 1]);
                    assert(lex_lt(xv, dv0[jj]));
                    if q - 1 > jj {
                        assert(lex_le(dv0[jj], dv0[q - 1]));
                        if lex_lt(dv0[jj], dv0[q - 1]) {
                            crate::order::lemma_lex_lt_transitive(xv, dv0[jj], dv0[q - 1]);
                        }
                    }
                } else if p > jj {
                    assert(dv1[p] == dv0[p - 1]);
                    assert(dv1[q] == dv0[q - 1]);
                    assert(lex_le(dv0[p - 1], dv0[q - 1]));
                }
            }
        }
    }
}

/// Sort a string list lexicographically, keeping duplicates.
#[verifier::loop_isolation(false)]
fn sort_strings(input: Vec<String>) -> (r: Vec<String>)
    ensures
        sorted_strings(r.deep_view()),
        r.deep_view().to_multiset() == input.deep_view().to_multiset(),
{
    broadcast use vstd::seq_lib::group_to_multiset_ensures;
    broadcast use vstd::multiset::group_multiset_axioms;

    let ghost total = input.deep_view().to_multiset();
    let mut v = input;
    let mut out: Vec<String> = Vec::new();
    proof {
        assert(out.deep_view() =~= Seq::<Seq<char>>::empty());
        assert(out.deep_view().to_multiset().add(v.deep_view().to_multiset()) =~= total);
    }
    loop
        invariant
            sorted_strings(out.deep_view()),
            out.deep_view().to_multiset().add(v.deep_view().to_multiset()) == total,
            v.deep_view().len() == v.len(),
            total == input.deep_view().to_multiset(),
        decreases v.len(),
    {
        if v.len() == 0 {
            proof {
                assert(v.deep_view().to_multiset().len() == v.deep_view().len());
                vstd::multiset::lemma_multiset_empty_len(v.deep_view().to_multiset());
                assert(v.deep_view().to_multiset() =~= Multiset::<Seq<char>>::empty());
                assert(out.deep_view().to_multiset().add(Multiset::<Seq<char>>::empty()) =~= out
                    .deep_view().to_multiset());
                assert(out.deep_view().to_multiset() == total);
            }
            return out;
        }
        let ghost vd = v.deep_view();
        let ghost od = out.deep_view();
        let x = match v.pop() {
            Some(x) => x,
            None => {
                proof {
                    assert(false);
                }
                unreached()
            },
        };
        proof {
            assert(v.deep_view() =~= vd.drop_last());
            assert(x@ == vd.last());
            crate::seqs::lemma_to_multiset_drop_last(vd);
        }
        insert_sorted_string(&mut out, x);
        proof {
            assert(out.deep_view().to_multiset().add(v.deep_view().to_multiset()) =~= total) by {
                assert(out.deep_view().to_multiset() == od.to_multiset().insert(vd.last()));
                assert(vd.to_multiset() == v.deep_view().to_multiset().insert(vd.last()));
            }
        }
    }
}

/// Expand the declared entries into the list of files they denote, sorted
/// lexicographically: plain files are kept, non-existing entries are resolved
/// as globs over the walked tree, and each directory contributes every file
/// under it. Used when hashing outputs.
pub fn get_files_for_outputs(snapshot: &FsSnapshot, entries: &Vec<String>) -> (r: Result<
    Vec<String>,
    PlanError,
>)
    ensures
        match r {
            Ok(v) => {
                &&& spec_files_for_outputs(
                    snapshot.walked@,
                    snapshot.present@,
                    entries.deep_view(),
                ) matches Some(fs) && v.deep_view().to_multiset() == fs.to_multiset()
                &&& sorted_strings(v.deep_view())
            },
            Err(e) => spec_files_for_outputs(
                snapshot.walked@,
                snapshot.present@,
                entries.deep_view(),
            ) is None && e is InvalidGlobPattern,
        },
{
    let ghost wk = snapshot.walked@;
    let ghost sn = snapshot.present@;
    let ghost es = entries.deep_view();
    let mut globs: Vec<String> = Vec::new();
    let mut plain: Vec<String> = Vec::new();
    let mut dirs: Vec<String> = Vec::new();
    let mut i: usize = 0;
    proof {
        assert(es.take(0) =~= Seq::<Seq<char>>::empty());
        crate::seqs::lemma_filter_empty(missing_pred(sn));
        crate::seqs::lemma_filter_empty(file_pred(sn));
        crate::seqs::lemma_filter_empty(dir_pred(sn));
        assert(globs.deep_view() =~= es.take(0).filter(missing_pred(sn)));
        assert(plain.deep_view() =~= es.take(0).filter(file_pred(sn)));
        assert(dirs.deep_view() =~= es.take(0).filter(dir_pred(sn)));
    }
    while i < entries.len()
        invariant
            i <= entries.len(),
            es == entries.deep_view(),
            es.len() == entries.len(),
            sn == snapshot.present@,
            globs.deep_view() == es.take(i as int).filter(missing_pred(sn)),
            plain.deep_view() == es.take(i as int).filter(file_pred(sn)),
            dirs.deep_view() == es.take(i as int).filter(dir_pred(sn)),
        decreases entries.len() - i,
    {
        proof {
            assert(es[i as int] == entries@[i as int]@);
            lemma_take_push(es, i as int);
            lemma_filter_push(es.take(i as int), missing_pred(sn), es[i as int]);
            lemma_filter_push(es.take(i as int), file_pred(sn), es[i as int]);
            lemma_filter_push(es.take(i as int), dir_pred(sn), es[i as int]);
        }
        if !snapshot_contains(&snapshot.present, entries[i].as_str()) {
            let ghost pre = globs.deep_view();
            globs.push(entries[i].clone());
            proof {
                assert(globs.deep_view() =~= pre.push(es[i as int]));
            }
        } else if snapshot_has_dir(&snapshot.present, entries[i].as_str()) {
            let ghost pre = dirs.deep_view();
            dirs.push(entries[i].clone());
            proof {
                assert(dirs.deep_view() =~= pre.push(es[i as int]));
            }
        } else {
            let ghost pre = plain.deep_view();
            plain.push(entries[i].clone());
            proof {
                assert(plain.deep_view() =~= pre.push(es[i as int]));
            }
        }
        i = i + 1;
    }
    proof {
        assert(es.take(entries.len() as int) =~= es);
    }
    let mut files = plain;
    if globs.len() > 0 {
        proof {
            assert(globs.deep_view().len() == globs.len());
        }
        match GlobMatcher::build(&globs) {
            None => {
                return Err(PlanError::InvalidGlobPattern);
            },
            Some(matcher) => {
                let ghost before = files.deep_view();
                let mut matched = matching_walked_paths(&snapshot.walked, &matcher);
                let ghost md = matched.deep_view();
                files.append(&mut matched);
                proof {
                    assert(files.deep_view() =~= before + md);
                }
            },
        }
    } else {
        proof {
            assert(globs.deep_view().len() == 0);
        }
    }
    let ghost with_globs = files.deep_view();
    let ghost dv = dirs.deep_view();
    let mut k: usize = 0;
    proof {
        assert(dv.take(0) =~= Seq::<Seq<char>>::empty());
        assert(files.deep_view() =~= with_globs + dir_expansion(wk, dv.take(0)));
    }
    while k < dirs.len()
        invariant
            k <= dirs.len(),
            wk == snapshot.walked@,
            dv == dirs.deep_view(),
            dv.len() == dirs.len(),
            files.deep_view() == with_globs + dir_expansion(wk, dv.take(k as int)),
        decreases dirs.len() - k,
    {
        let ghost before = files.deep_view();
        let mut found = collect_files_under(&snapshot.walked, &dirs[k]);
        let ghost fd = found.deep_view();
        files.append(&mut found);
        proof {
            assert(dv[k as int] == dirs@[k as int]@);
            assert(files.deep_view() =~= before + fd);
            lemma_take_push(dv, k as int);
            assert(dv.take(k as int + 1).drop_last() =~= dv.take(k as int));
            assert(dir_expansion(wk, dv.take(k as int + 1)) == dir_expansion(
                wk,
                dv.take(k as int),
            ) + files_under(wk, dv[k as int]));
            assert(files.deep_view() =~= with_globs + dir_expansion(wk, dv.take(k as int + 1)));
        }
        k = k + 1;
    }
    proof {
        assert(dv.take(dirs.len() as int) =~= dv);
    }
    Ok(sort_strings(files))
}

} // verus!
