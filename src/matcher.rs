//! The fuzzy ranking engine: scores entry names against a query with
//! nucleo's matcher, and orders the matching entries by descending score.
use vstd::prelude::*;
use vstd::string::StringSliceAdditionalSpecFns;
use vstd::utf8::encode_utf8;

use nucleo_matcher::pattern::{Atom, AtomKind, CaseMatching, Normalization};
use nucleo_matcher::{Config, Matcher, Utf32Str};

use crate::entry::AppEntry;

verus! {

/// nucleo's `Matcher`, carried opaque: the configuration and the scratch
/// space that every score uses.
#[verifier::external_type_specification]
#[verifier::external_body]
pub struct ExMatcher(Matcher);

/// The fuzzy score of `name` against `query` under smart case matching and
/// smart normalization with the path-matching configuration; `None` when the
/// name cannot match.
pub uninterp spec fn fuzzy_score(query: Seq<char>, name: Seq<char>) -> Option<u16>;

/// Relies on `nucleo_matcher::Matcher::new` with `Config::DEFAULT.match_paths()`:
/// a matcher whose scratch space serves every later score.
#[verifier::external_body]
fn path_matcher() -> Matcher {
    Matcher::new(Config::DEFAULT.match_paths())
}

/// Relies on `Atom::new` (smart case, smart normalization, fuzzy kind, no
/// whitespace escapes) and `Atom::score`: the score depends on the query and
/// the name alone, since the atom resets the matcher's case and normalization
/// settings before each match. That holds for a matcher built by
/// `path_matcher`, the only way this library makes one. `Matcher::fuzzy_match`
/// asserts that the haystack is at most `u32::MAX` long; `Utf32Str::new`
/// hands it the name's bytes, or its graphemes, which are never more than its
/// bytes, so `requires` bounds the byte length.
#[verifier::external_body]
fn score_name(matcher: &mut Matcher, query: &str, name: &str) -> (r: Option<u16>)
    requires
        name.spec_bytes().len() <= 0xffff_ffff,
    ensures
        r == fuzzy_score(query@, name@),
{
    let atom = Atom::new(query, CaseMatching::Smart, Normalization::Smart, AtomKind::Fuzzy, false);
    let mut buf = Vec::new();
    atom.score(Utf32Str::new(name, &mut buf), matcher)
}

/// The score of a name, where names too long for the matcher (more than
/// `u32::MAX` bytes of UTF-8) never match.
pub open spec fn name_score(query: Seq<char>, name: Seq<char>) -> Option<u16> {
    if encode_utf8(name).len() <= 0xffff_ffff {
        fuzzy_score(query, name)
    } else {
        None
    }
}

/// The score of each entry's name against `query`.
pub open spec fn scores_of(query: Seq<char>, entries: Seq<AppEntry>) -> Seq<Option<u16>> {
    Seq::new(entries.len(), |i: int| name_score(query, entries[i].name@))
}

/// Position `a` ranks before position `b`: a higher score, or an equal score
/// and an earlier position.
pub open spec fn ranks_before(scores: Seq<Option<u16>>, a: int, b: int) -> bool {
    let sa = scores[a]->0;
    let sb = scores[b]->0;
    sa > sb || (sa == sb && a < b)
}

/// `r` lists exactly the positions that have a score, best first.
pub open spec fn ranked(r: Seq<usize>, scores: Seq<Option<u16>>) -> bool {
    &&& forall|k: int| 0 <= k < r.len() ==> #[trigger] r[k] < scores.len() && scores[r[k] as int] is Some
    &&& forall|i: int| 0 <= i < scores.len() && scores[i] is Some ==> r.contains(i as usize)
    &&& forall|k: int, l: int| 0 <= k < l < r.len() ==> ranks_before(scores, r[k] as int, r[l] as int)
}

/// The positions `0, 1, ..., n - 1`.
pub open spec fn identity_order(n: nat) -> Seq<usize> {
    Seq::new(n, |i: int| i as usize)
}

/// Orders the positions that have a score by descending score; equal scores
/// keep their positions' order.
pub fn rank_by_score(scores: &Vec<Option<u16>>) -> (r: Vec<usize>)
    ensures
        ranked(r@, scores@),
{
    let mut out: Vec<usize> = Vec::new();
    let mut i: usize = 0;
    while i < scores.len()
        invariant
            i <= scores.len(),
            forall|k: int| 0 <= k < out.len() ==> #[trigger] out@[k] < i && scores@[out@[k] as int] is Some,
            forall|j: int| 0 <= j < i && scores@[j] is Some ==> out@.contains(j as usize),
            forall|k: int, l: int| 0 <= k < l < out.len() ==> ranks_before(scores@, out@[k] as int, out@[l] as int),
        decreases scores.len() - i,
    {
        match scores[i] {
            Some(s) => {
                let mut p: usize = 0;
                let mut found = false;
                while p < out.len() && !found
                    invariant
                        p <= out.len(),
                        i < scores.len(),
                        forall|k: int| 0 <= k < p ==> ranks_before(scores@, #[trigger] out@[k] as int, i as int),
                        forall|k: int| 0 <= k < out.len() ==> #[trigger] out@[k] < i && scores@[out@[k] as int] is Some,
                        scores@[i as int] == Some(s),
                        found ==> p < out.len() && ranks_before(scores@, i as int, out@[p as int] as int),
                    decreases out.len() - p + (if found { 0int } else { 1int }),
                {
                    let t = scores[out[p]].unwrap();
                    if s > t {
                        found = true;
                    } else {
                        p = p + 1;
                    }
                }
                let ghost old_out = out@;
                out.insert(p, i);
                proof {
                    assert forall|k: int, l: int| 0 <= k < l < out.len() implies ranks_before(
                        scores@,
                        out@[k] as int,
                        out@[l] as int,
                    ) by {
                        if k == p {
                            assert(out@[l] == old_out[l - 1]);
                            if l - 1 > p {
                                assert(ranks_before(scores@, old_out[p as int] as int, old_out[l - 1] as int));
                            }
                        } else if l == p {
                            assert(out@[k] == old_out[k]);
                        } else {
                            let k0 = if k < p { k } else { k - 1 };
                            let l0 = if l < p { l } else { l - 1 };
                            assert(out@[k] == old_out[k0]);
                            assert(out@[l] == old_out[l0]);
                        }
                    }
                    assert forall|j: int| 0 <= j < i + 1 && scores@[j] is Some implies out@.contains(j as usize) by {
                        if j == i {
                            assert(out@[p as int] == i);
                        } else {
                            let k = choose|k: int| 0 <= k < old_out.len() && old_out[k] == j as usize;
                            if k < p {
                                assert(out@[k] == j as usize);
                            } else {
                                assert(out@[k + 1] == j as usize);
                            }
                        }
                    }
                    assert forall|k: int| 0 <= k < out.len() implies #[trigger] out@[k] < i + 1 && scores@[out@[k] as int] is Some by {
                        if k < p {
                            assert(out@[k] == old_out[k]);
                        } else if k > p {
                            assert(out@[k] == old_out[k - 1]);
                        }
                    }
                }
            },
            None => {},
        }
        i = i + 1;
    }
    out
}

/// The ranking engine. It keeps the matcher's scratch space between searches,
/// so one instance must not serve two searches at once.
pub struct FuzzyMatcher {
    matcher: Matcher,
}

impl FuzzyMatcher {
    pub fn new() -> Self {
        FuzzyMatcher { matcher: path_matcher() }
    }

    /// Positions of `apps` whose names match `query`, best first. An empty
    /// query gives every position in order.
    pub fn search(&mut self, query: &str, apps: &[AppEntry]) -> (r: Vec<usize>)
        ensures
            query@.len() == 0 ==> r@ == identity_order(apps@.len()),
            query@.len() > 0 ==> ranked(r@, scores_of(query@, apps@)),
    {
        if query.is_empty() {
            let mut all: Vec<usize> = Vec::new();
            let mut i: usize = 0;
            while i < apps.len()
                invariant
                    i <= apps@.len(),
                    all@ =~= identity_order(i as nat),
                decreases apps@.len() - i,
            {
                all.push(i);
                i = i + 1;
            }
            return all;
        }
        let mut scores: Vec<Option<u16>> = Vec::new();
        let mut i: usize = 0;
        while i < apps.len()
            invariant
                i <= apps@.len(),
                scores@ =~= scores_of(query@, apps@).take(i as int),
            decreases apps@.len() - i,
        {
            let name = apps[i].name.as_str();
            let score = if name.as_bytes().len() <= 0xffff_ffff {
                score_name(&mut self.matcher, query, name)
            } else {
                None
            };
            scores.push(score);
            i = i + 1;
        }
        assert(scores@ =~= scores_of(query@, apps@));
        rank_by_score(&scores)
    }
}

} // verus!
