//! Lexicographic orders on character sequences and on lists of character
//! sequences. These are the building blocks of the total order on hash
//! instructions, which makes sorted, deduplicated plans a canonical form.

use vstd::prelude::*;
use vstd::string::StrSliceExecFns;

verus! {

/// Strict lexicographic order on character sequences, comparing characters by
/// unicode scalar value.
pub open spec fn lex_lt(a: Seq<char>, b: Seq<char>) -> bool
    decreases a.len(),
{
    if a.len() == 0 {
        b.len() > 0
    } else if b.len() == 0 {
        false
    } else if a[0] != b[0] {
        (a[0] as u32) < (b[0] as u32)
    } else {
        lex_lt(a.drop_first(), b.drop_first())
    }
}

/// Reflexive closure of `lex_lt`.
pub open spec fn lex_le(a: Seq<char>, b: Seq<char>) -> bool {
    lex_lt(a, b) || a == b
}

/// Distinct characters have distinct unicode scalar values.
pub proof fn lemma_char_scalar_injective(x: char, y: char)
    ensures
        x == y <==> (x as u32) == (y as u32),
{
}

pub proof fn lemma_lex_lt_irreflexive(a: Seq<char>)
    ensures
        !lex_lt(a, a),
    decreases a.len(),
{
    if a.len() > 0 {
        lemma_lex_lt_irreflexive(a.drop_first());
    }
}

pub proof fn lemma_lex_lt_trichotomy(a: Seq<char>, b: Seq<char>)
    ensures
        lex_lt(a, b) || lex_lt(b, a) || a == b,
    decreases a.len(),
{
    if a.len() == 0 && b.len() == 0 {
        assert(a =~= b);
    } else if a.len() > 0 && b.len() > 0 && a[0] == b[0] {
        let ad = a.drop_first();
        let bd = b.drop_first();
        lemma_lex_lt_trichotomy(ad, bd);
        if ad == bd {
            assert(ad.len() == a.len() - 1);
            assert(bd.len() == b.len() - 1);
            assert forall|i: int| 0 <= i < a.len() implies a[i] == b[i] by {
                if i > 0 {
                    assert(a[i] == ad[i - 1]);
                    assert(b[i] == bd[i - 1]);
                }
            }
            assert(a =~= b);
        }
    } else if a.len() > 0 && b.len() > 0 {
        lemma_char_scalar_injective(a[0], b[0]);
    }
}

pub proof fn lemma_lex_lt_asymmetric(a: Seq<char>, b: Seq<char>)
    ensures
        !(lex_lt(a, b) && lex_lt(b, a)),
    decreases a.len(),
{
    if a.len() > 0 && b.len() > 0 && a[0] == b[0] {
        lemma_lex_lt_asymmetric(a.drop_first(), b.drop_first());
    }
}

pub proof fn lemma_lex_lt_transitive(a: Seq<char>, b: Seq<char>, c: Seq<char>)
    requires
        lex_lt(a, b),
        lex_lt(b, c),
    ensures
        lex_lt(a, c),
    decreases a.len(),
{
    if a.len() > 0 {
        if a[0] == b[0] && b[0] == c[0] {
            lemma_lex_lt_transitive(a.drop_first(), b.drop_first(), c.drop_first());
        }
    }
}

/// Strict lexicographic order on lists of character sequences, ordering
/// elements by `lex_lt`.
pub open spec fn strs_lt(a: Seq<Seq<char>>, b: Seq<Seq<char>>) -> bool
    decreases a.len(),
{
    if a.len() == 0 {
        b.len() > 0
    } else if b.len() == 0 {
        false
    } else if a[0] != b[0] {
        lex_lt(a[0], b[0])
    } else {
        strs_lt(a.drop_first(), b.drop_first())
    }
}

pub proof fn lemma_strs_lt_trichotomy(a: Seq<Seq<char>>, b: Seq<Seq<char>>)
    ensures
        strs_lt(a, b) || strs_lt(b, a) || a == b,
    decreases a.len(),
{
    if a.len() == 0 && b.len() == 0 {
        assert(a =~= b);
    } else if a.len() > 0 && b.len() > 0 {
        if a[0] == b[0] {
            let ad = a.drop_first();
            let bd = b.drop_first();
            lemma_strs_lt_trichotomy(ad, bd);
            if ad == bd {
                assert(ad.len() == a.len() - 1);
                assert(bd.len() == b.len() - 1);
                assert forall|i: int| 0 <= i < a.len() implies a[i] == b[i] by {
                    if i > 0 {
                        assert(a[i] == ad[i - 1]);
                        assert(b[i] == bd[i - 1]);
                    }
                }
                assert(a =~= b);
            }
        } else {
            lemma_lex_lt_trichotomy(a[0], b[0]);
        }
    }
}

pub proof fn lemma_strs_lt_asymmetric(a: Seq<Seq<char>>, b: Seq<Seq<char>>)
    ensures
        !(strs_lt(a, b) && strs_lt(b, a)),
    decreases a.len(),
{
    if a.len() > 0 && b.len() > 0 {
        if a[0] == b[0] {
            lemma_strs_lt_asymmetric(a.drop_first(), b.drop_first());
        } else {
            lemma_lex_lt_asymmetric(a[0], b[0]);
        }
    }
}

pub proof fn lemma_strs_lt_transitive(a: Seq<Seq<char>>, b: Seq<Seq<char>>, c: Seq<Seq<char>>)
    requires
        strs_lt(a, b),
        strs_lt(b, c),
    ensures
        strs_lt(a, c),
    decreases a.len(),
{
    if a.len() > 0 {
        if a[0] == b[0] && b[0] == c[0] {
            lemma_strs_lt_transitive(a.drop_first(), b.drop_first(), c.drop_first());
        } else if a[0] == b[0] {
            // heads of a and c differ: otherwise lex_lt(b[0], c[0]) with c[0] == b[0]
            lemma_lex_lt_irreflexive(b[0]);
        } else if b[0] == c[0] {
            lemma_lex_lt_irreflexive(b[0]);
        } else {
            lemma_lex_lt_transitive(a[0], b[0], c[0]);
            if a[0] == c[0] {
                lemma_lex_lt_asymmetric(a[0], b[0]);
            }
        }
    }
}

/// Executable equality of two string slices' views.
pub fn str_eq(a: &str, b: &str) -> (r: bool)
    ensures
        r == (a@ == b@),
{
    a.to_owned().eq(&b.to_owned())
}

/// Executable strict lexicographic comparison of two strings.
pub fn str_lt(a: &str, b: &str) -> (r: bool)
    ensures
        r == lex_lt(a@, b@),
{
    let alen = a.unicode_len();
    let blen = b.unicode_len();
    let mut i: usize = 0;
    proof {
        assert(a@.skip(0) =~= a@);
        assert(b@.skip(0) =~= b@);
    }
    loop
        invariant
            i <= alen,
            i <= blen,
            alen == a@.len(),
            blen == b@.len(),
            lex_lt(a@, b@) == lex_lt(a@.skip(i as int), b@.skip(i as int)),
        decreases alen - i,
    {
        if i == alen || i == blen {
            proof {
                assert(a@.skip(i as int).len() == alen - i);
                assert(b@.skip(i as int).len() == blen - i);
            }
            return i == alen && i < blen;
        }
        let ca = a.get_char(i);
        let cb = b.get_char(i);
        proof {
            assert(a@.skip(i as int)[0] == a@[i as int]);
            assert(b@.skip(i as int)[0] == b@[i as int]);
        }
        if ca != cb {
            return (ca as u32) < (cb as u32);
        }
        proof {
            assert(a@.skip(i as int).drop_first() =~= a@.skip(i as int + 1));
            assert(b@.skip(i as int).drop_first() =~= b@.skip(i as int + 1));
        }
        i = i + 1;
    }
}

/// Executable strict comparison of two string lists under `strs_lt`.
pub fn string_list_lt(a: &Vec<String>, b: &Vec<String>) -> (r: bool)
    ensures
        r == strs_lt(a.deep_view(), b.deep_view()),
{
    let mut i: usize = 0;
    proof {
        assert(a.deep_view().skip(0) =~= a.deep_view());
        assert(b.deep_view().skip(0) =~= b.deep_view());
    }
    loop
        invariant
            i <= a.len(),
            i <= b.len(),
            a.deep_view().len() == a.len(),
            b.deep_view().len() == b.len(),
            strs_lt(a.deep_view(), b.deep_view()) == strs_lt(
                a.deep_view().skip(i as int),
                b.deep_view().skip(i as int),
            ),
        decreases a.len() - i,
    {
        if i == a.len() || i == b.len() {
            proof {
                assert(a.deep_view().skip(i as int).len() == a.len() - i);
                assert(b.deep_view().skip(i as int).len() == b.len() - i);
            }
            return i == a.len() && i < b.len();
        }
        proof {
            assert(a.deep_view().skip(i as int)[0] == a.deep_view()[i as int]);
            assert(b.deep_view().skip(i as int)[0] == b.deep_view()[i as int]);
            assert(a.deep_view()[i as int] == a@[i as int]@);
            assert(b.deep_view()[i as int] == b@[i as int]@);
        }
        if !a[i].eq(&b[i]) {
            return str_lt(a[i].as_str(), b[i].as_str());
        }
        proof {
            assert(a.deep_view().skip(i as int).drop_first() =~= a.deep_view().skip(i as int + 1));
            assert(b.deep_view().skip(i as int).drop_first() =~= b.deep_view().skip(i as int + 1));
        }
        i = i + 1;
    }
}

} // verus!
