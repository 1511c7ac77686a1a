//! Case-insensitive ordering of entries by name: code-point order on the
//! lowercased names, and a stable sort that establishes it.
use vstd::prelude::*;

use crate::entry::AppEntry;
use crate::text::{chars_of, lower_of, lowercase};

verus! {

/// Strict code-point (lexicographic) order on character sequences; this is the
/// order of `String`'s `Ord`.
pub open spec fn lex_lt(a: Seq<char>, b: Seq<char>) -> bool
    decreases a.len(),
{
    if b.len() == 0 {
        false
    } else if a.len() == 0 {
        true
    } else if a[0] != b[0] {
        (a[0] as int) < (b[0] as int)
    } else {
        lex_lt(a.drop_first(), b.drop_first())
    }
}

pub proof fn lemma_lex_irreflexive(a: Seq<char>)
    ensures
        !lex_lt(a, a),
    decreases a.len(),
{
    if a.len() > 0 {
        lemma_lex_irreflexive(a.drop_first());
    }
}

pub proof fn lemma_lex_transitive(a: Seq<char>, b: Seq<char>, c: Seq<char>)
    requires
        lex_lt(a, b),
        lex_lt(b, c),
    ensures
        lex_lt(a, c),
    decreases a.len(),
{
    if a.len() > 0 && b.len() > 0 && c.len() > 0 && a[0] == b[0] && b[0] == c[0] {
        lemma_lex_transitive(a.drop_first(), b.drop_first(), c.drop_first());
    }
}

/// Two different sequences are ordered one way or the other.
pub proof fn lemma_lex_total(a: Seq<char>, b: Seq<char>)
    requires
        a != b,
    ensures
        lex_lt(a, b) || lex_lt(b, a),
    decreases a.len(),
{
    if a.len() > 0 && b.len() > 0 {
        if a[0] == b[0] {
            if a.drop_first() == b.drop_first() {
                assert(a =~= seq![a[0]] + a.drop_first());
                assert(b =~= seq![b[0]] + b.drop_first());
            }
            lemma_lex_total(a.drop_first(), b.drop_first());
        } else {
            assert((a[0] as int) != (b[0] as int));
        }
    } else if a.len() == 0 && b.len() == 0 {
        assert(a =~= b);
    }
}

/// The key by which an index is ordered: the lowercased name.
pub open spec fn name_key(e: AppEntry) -> Seq<char> {
    lower_of(e.name@)
}

/// `s` is in ascending case-insensitive order of names.
pub open spec fn sorted_by_name(s: Seq<AppEntry>) -> bool {
    forall|i: int, j: int| 0 <= i < j < s.len() ==> !lex_lt(name_key(s[j]), name_key(s[i]))
}

/// `s` is in strictly ascending case-insensitive order of names.
pub open spec fn strictly_sorted_by_name(s: Seq<AppEntry>) -> bool {
    forall|i: int, j: int| 0 <= i < j < s.len() ==> lex_lt(name_key(s[i]), name_key(s[j]))
}

/// `out` holds the items of `input` in the order given by `perm`, which lists
/// each position of `input` once.
pub open spec fn permuted_by<T>(out: Seq<T>, input: Seq<T>, perm: Seq<int>) -> bool {
    &&& perm.len() == out.len() == input.len()
    &&& forall|k: int| 0 <= k < perm.len() ==> 0 <= #[trigger] perm[k] < input.len()
    &&& forall|k: int, l: int| 0 <= k < l < perm.len() ==> perm[k] != perm[l]
    &&& forall|k: int| 0 <= k < out.len() ==> out[k] == input[#[trigger] perm[k]]
}

/// `out` is `input` stably sorted by name: a permutation of it, ascending by
/// name key, with entries of equal key in the order they had.
pub open spec fn stable_sort_of(out: Seq<AppEntry>, input: Seq<AppEntry>) -> bool {
    exists|perm: Seq<int>|
        {
            &&& #[trigger] permuted_by(out, input, perm)
            &&& sorted_by_name(out)
            &&& forall|k: int, l: int|
                0 <= k < l < out.len() && name_key(out[k]) == name_key(out[l]) ==> perm[k]
                    < perm[l]
        }
}

/// An index in ascending case-insensitive order of names whose lowercased
/// names are pairwise different is in strictly ascending order.
pub proof fn lemma_strictly_sorted(s: Seq<AppEntry>)
    requires
        sorted_by_name(s),
        forall|i: int, j: int| 0 <= i < j < s.len() ==> name_key(s[i]) != name_key(s[j]),
    ensures
        strictly_sorted_by_name(s),
{
    assert forall|i: int, j: int| 0 <= i < j < s.len() implies lex_lt(name_key(s[i]), name_key(s[j])) by {
        lemma_lex_total(name_key(s[i]), name_key(s[j]));
    }
}

/// No two entries share a name.
pub open spec fn names_distinct(s: Seq<AppEntry>) -> bool {
    forall|i: int, j: int| 0 <= i < j < s.len() ==> s[i].name@ != s[j].name@
}

/// No two entries share a launch target.
pub open spec fn targets_distinct(s: Seq<AppEntry>) -> bool {
    forall|i: int, j: int| 0 <= i < j < s.len() ==> s[i].launch_target@ != s[j].launch_target@
}

/// A stable sort holds the same entries: each output entry is an input
/// entry, and distinct names stay distinct.
pub proof fn lemma_stable_sort_keeps(out: Seq<AppEntry>, input: Seq<AppEntry>)
    requires
        stable_sort_of(out, input),
    ensures
        out.len() == input.len(),
        forall|i: int| 0 <= i < out.len() ==> input.contains(#[trigger] out[i]),
        names_distinct(input) ==> names_distinct(out),
        targets_distinct(input) ==> targets_distinct(out),
{
    let perm = choose|perm: Seq<int>|
        {
            &&& #[trigger] permuted_by(out, input, perm)
            &&& sorted_by_name(out)
            &&& forall|k: int, l: int|
                0 <= k < l < out.len() && name_key(out[k]) == name_key(out[l]) ==> perm[k]
                    < perm[l]
        };
    assert forall|i: int| 0 <= i < out.len() implies input.contains(#[trigger] out[i]) by {
        assert(out[i] == input[perm[i]]);
    }
    if names_distinct(input) {
        assert forall|i: int, j: int| 0 <= i < j < out.len() implies out[i].name@ != out[j].name@ by {
            assert(out[i] == input[perm[i]]);
            assert(out[j] == input[perm[j]]);
            assert(perm[i] != perm[j]);
        }
    }
    if targets_distinct(input) {
        assert forall|i: int, j: int| 0 <= i < j < out.len() implies out[i].launch_target@
            != out[j].launch_target@ by {
            assert(out[i] == input[perm[i]]);
            assert(out[j] == input[perm[j]]);
            assert(perm[i] != perm[j]);
        }
    }
}

/// Whether `a` comes strictly before `b` in code-point order.
pub fn lex_less(a: &Vec<char>, b: &Vec<char>) -> (r: bool)
    ensures
        r == lex_lt(a@, b@),
{
    let mut i: usize = 0;
    assert(a@.skip(0) =~= a@);
    assert(b@.skip(0) =~= b@);
    while i < a.len() && i < b.len()
        invariant
            i <= a.len(),
            i <= b.len(),
            lex_lt(a@, b@) == lex_lt(a@.skip(i as int), b@.skip(i as int)),
        decreases a.len() - i,
    {
        if a[i] != b[i] {
            return a[i] < b[i];
        }
        assert(a@.skip(i as int).drop_first() =~= a@.skip(i + 1));
        assert(b@.skip(i as int).drop_first() =~= b@.skip(i + 1));
        i = i + 1;
    }
    i < b.len()
}

/// Sorts entries by lowercased name; entries whose lowercased names are equal
/// keep their relative order.
pub fn sort_by_name(entries: Vec<AppEntry>) -> (r: Vec<AppEntry>)
    ensures
        stable_sort_of(r@, entries@),
{
    let mut out: Vec<AppEntry> = Vec::new();
    let mut keys: Vec<Vec<char>> = Vec::new();
    let ghost mut perm: Seq<int> = Seq::empty();
    let n = entries.len();
    let mut rest = entries;
    let ghost input = rest@;
    // Take entries from the back so that each can be moved out by `pop`.
    let mut pending: Vec<AppEntry> = Vec::new();
    while rest.len() > 0
        invariant
            pending@ =~= input.skip(rest.len() as int).reverse(),
            rest@ =~= input.take(rest.len() as int),
            rest.len() <= input.len(),
        decreases rest.len(),
    {
        let e = rest.pop().unwrap();
        pending.push(e);
    }
    assert(pending@ =~= input.reverse());
    let mut i: usize = 0;
    while pending.len() > 0
        invariant
            n == input.len(),
            i + pending.len() == n,
            pending@ =~= input.skip(i as int).reverse(),
            out.len() == keys.len() == i,
            forall|k: int| 0 <= k < i ==> keys@[k]@ == #[trigger] name_key(out@[k]),
            permuted_by(out@, input.take(i as int), perm),
            sorted_by_name(out@),
            forall|k: int, l: int|
                0 <= k < l < out.len() && name_key(out@[k]) == name_key(out@[l]) ==> perm[k]
                    < perm[l],
        decreases pending.len(),
    {
        let e = pending.pop().unwrap();
        assert(e == input[i as int]);
        let lower = lowercase(e.name.as_str());
        let key = chars_of(lower.as_str());
        let mut p: usize = 0;
        let mut found = false;
        while p < out.len() && !found
            invariant
                p <= out.len(),
                out.len() == keys.len(),
                forall|k: int| 0 <= k < out.len() ==> keys@[k]@ == #[trigger] name_key(out@[k]),
                forall|k: int| 0 <= k < p ==> !lex_lt(key@, #[trigger] name_key(out@[k])),
                found ==> p < out.len() && lex_lt(key@, name_key(out@[p as int])),
            decreases out.len() - p + (if found { 0int } else { 1int }),
        {
            if lex_less(&key, &keys[p]) {
                found = true;
            } else {
                p = p + 1;
            }
        }
        let ghost old_out = out@;
        let ghost old_perm = perm;
        out.insert(p, e);
        keys.insert(p, key);
        proof {
            perm = old_perm.insert(p as int, i as int);
            assert(input.take(i + 1) =~= input.take(i as int).push(input[i as int]));
            assert forall|k: int, l: int| 0 <= k < l < out.len() implies !lex_lt(
                name_key(out@[l]),
                name_key(out@[k]),
            ) by {
                if l == p {
                    assert(out@[k] == old_out[k]);
                } else if k == p {
                    assert(out@[l] == old_out[l - 1]);
                    if lex_lt(name_key(old_out[l - 1]), key@) {
                        lemma_lex_transitive(
                            name_key(old_out[l - 1]),
                            key@,
                            name_key(old_out[p as int]),
                        );
                        lemma_lex_irreflexive(name_key(old_out[p as int]));
                    }
                } else {
                    let k0 = if k < p {
                        k
                    } else {
                        k - 1
                    };
                    let l0 = if l < p {
                        l
                    } else {
                        l - 1
                    };
                    assert(out@[k] == old_out[k0]);
                    assert(out@[l] == old_out[l0]);
                }
            }
            assert forall|k: int, l: int|
                0 <= k < l < out.len() && name_key(out@[k]) == name_key(
                    out@[l],
                ) implies perm[k] < perm[l] by {
                if k == p {
                    assert(out@[l] == old_out[l - 1]);
                    lemma_lex_irreflexive(name_key(old_out[p as int]));
                    if l - 1 > p {
                        assert(!lex_lt(name_key(old_out[l - 1]), name_key(old_out[p as int])));
                    }
                } else if l != p {
                    let k0 = if k < p {
                        k
                    } else {
                        k - 1
                    };
                    let l0 = if l < p {
                        l
                    } else {
                        l - 1
                    };
                    assert(out@[k] == old_out[k0]);
                    assert(out@[l] == old_out[l0]);
                }
            }
            assert forall|k: int, l: int| 0 <= k < l < perm.len() implies perm[k] != perm[l] by {
                if k != p && l != p {
                    let k0 = if k < p {
                        k
                    } else {
                        k - 1
                    };
                    let l0 = if l < p {
                        l
                    } else {
                        l - 1
                    };
                    assert(old_perm[k0] != old_perm[l0]);
                }
            }
            assert(input.skip(i + 1).reverse() =~= input.skip(i as int).reverse().drop_last());
        }
        i = i + 1;
    }
    assert(input.take(n as int) =~= input);
    out
}

} // verus!
