//! Query-time work over the indices: ranking an index against a query,
//! capping the hits, and listing a directory for browsing.
use vstd::prelude::*;

use crate::entry::{AppEntry, AppResult, EntryView, ResultType};
use crate::matcher::{identity_order, ranked, scores_of, FuzzyMatcher};
use crate::order::{sort_by_name, stable_sort_of};
use crate::text::{chars_of, ends_with, has_suffix, starts_with, string_of};
use crate::walk::{image_name, is_hidden, is_image_name, same_text};

verus! {

/// Hits returned by an application search.
pub const MAX_APP_RESULTS: usize = 50;

/// Hits returned by a folder search.
pub const MAX_FOLDER_RESULTS: usize = 10;

/// Hits returned by an image search.
pub const MAX_IMAGE_RESULTS: usize = 20;

/// Children returned by a directory listing.
pub const MAX_BROWSE_RESULTS: usize = 50;

/// Folder and image searches ignore queries shorter than this many bytes.
pub const MIN_QUERY_BYTES: usize = 2;

pub open spec fn results_view(r: Seq<AppResult>) -> Seq<EntryView> {
    Seq::new(r.len(), |i: int| r[i]@)
}

pub open spec fn min_nat(a: nat, b: nat) -> nat {
    if a <= b {
        a
    } else {
        b
    }
}

/// The first `cap` positions of `order`, as the entries they name.
pub open spec fn picked(entries: Seq<AppEntry>, order: Seq<usize>, cap: nat) -> Seq<EntryView> {
    Seq::new(min_nat(cap, order.len()), |k: int| entries[order[k] as int]@)
}

/// Whether a folder, image or content search takes `query`: it must be at
/// least `MIN_QUERY_BYTES` bytes long.
pub fn accepts_query(query: &str) -> (r: bool)
    ensures
        r == (query.len() >= MIN_QUERY_BYTES),
{
    query.len() >= MIN_QUERY_BYTES
}

/// The result records of the first `cap` positions of `order`.
pub fn pick_results(entries: &[AppEntry], order: &Vec<usize>, cap: usize) -> (r: Vec<AppResult>)
    requires
        forall|k: int| 0 <= k < order.len() ==> #[trigger] order@[k] < entries@.len(),
    ensures
        results_view(r@) == picked(entries@, order@, cap as nat),
{
    let mut r: Vec<AppResult> = Vec::new();
    let mut k: usize = 0;
    while k < order.len() && k < cap
        invariant
            k <= order.len(),
            k <= cap,
            forall|j: int| 0 <= j < order.len() ==> #[trigger] order@[j] < entries@.len(),
            results_view(r@) =~= Seq::new(k as nat, |j: int| entries@[order@[j] as int]@),
        decreases order.len() - k,
    {
        let ghost before = r@;
        let e = &entries[order[k]];
        assert(*e == entries@[order@[k as int] as int]);
        r.push(AppResult::from(e));
        assert(results_view(r@) =~= results_view(before).push(entries@[order@[k as int] as int]@));
        k = k + 1;
        assert(results_view(r@) =~= Seq::new(k as nat, |j: int| entries@[order@[j] as int]@));
    }
    assert(results_view(r@) =~= picked(entries@, order@, cap as nat));
    r
}

/// Ranks `entries` against `query` and returns the records of the best
/// `cap` hits; a query shorter than `min_query_bytes` bytes gets none, and an
/// empty one gets the first `cap` entries in index order.
pub fn search_entries(
    matcher: &mut FuzzyMatcher,
    query: &str,
    entries: &[AppEntry],
    cap: usize,
    min_query_bytes: usize,
) -> (r: Vec<AppResult>)
    ensures
        query.len() < min_query_bytes ==> r.len() == 0,
        query.len() >= min_query_bytes && query@.len() == 0 ==> results_view(r@)
            == picked(entries@, identity_order(entries@.len()), cap as nat),
        query.len() >= min_query_bytes && query@.len() > 0 ==> exists|order: Seq<
            usize,
        >|
            #[trigger] ranked(order, scores_of(query@, entries@)) && results_view(r@) == picked(
                entries@,
                order,
                cap as nat,
            ),
{
    if query.len() < min_query_bytes {
        return Vec::new();
    }
    let order = matcher.search(query, entries);
    proof {
        if query@.len() > 0 {
            assert(ranked(order@, scores_of(query@, entries@)));
            assert forall|k: int| 0 <= k < order.len() implies #[trigger] order@[k] < entries@.len() by {
                assert(scores_of(query@, entries@).len() == entries@.len());
            }
        }
    }
    pick_results(entries, &order, cap)
}

/// One child of a listed directory.
pub struct DirChild {
    pub name: String,
    pub path: String,
    pub is_dir: bool,
}

/// What a child of a browsed directory is shown as, if it is shown: folders
/// (and bundles as applications) and images; hidden children and other files
/// are left out.
pub open spec fn browse_kind(name: Seq<char>, is_dir: bool) -> Option<ResultType> {
    if is_hidden(name) {
        None
    } else if is_dir {
        if has_suffix(name, ".app"@) {
            Some(ResultType::App)
        } else {
            Some(ResultType::Folder)
        }
    } else if is_image_name(name) {
        Some(ResultType::Image)
    } else {
        None
    }
}

/// The entries of the shown children of `dir`, in listing order.
pub open spec fn browse_listing(dir: Seq<char>, children: Seq<DirChild>) -> Seq<EntryView>
    decreases children.len(),
{
    if children.len() == 0 {
        Seq::empty()
    } else {
        let prev = browse_listing(dir, children.drop_last());
        let c = children.last();
        match browse_kind(c.name@, c.is_dir) {
            Some(kind) => prev.push(
                EntryView {
                    name: c.name@,
                    launch_target: c.path@,
                    icon: if kind == ResultType::Image {
                        Some(c.path@)
                    } else {
                        None
                    },
                    description: Some(dir),
                    result_type: kind,
                },
            ),
            None => prev,
        }
    }
}

pub open spec fn views_of(s: Seq<AppEntry>) -> Seq<EntryView> {
    Seq::new(s.len(), |i: int| s[i]@)
}

/// The entries of the shown children of `dir`.
pub fn browse_entries(dir: &str, children: Vec<DirChild>) -> (r: Vec<AppEntry>)
    ensures
        views_of(r@) == browse_listing(dir@, children@),
{
    let ghost input = children@;
    let n = children.len();
    let mut pending = crate::index::reversed(children);
    let mut out: Vec<AppEntry> = Vec::new();
    let mut i: usize = 0;
    while pending.len() > 0
        invariant
            n == input.len(),
            i + pending.len() == n,
            pending@ =~= input.skip(i as int).reverse(),
            views_of(out@) == browse_listing(dir@, input.take(i as int)),
        decreases pending.len(),
    {
        let c = pending.pop().unwrap();
        proof {
            assert(c == input[i as int]);
            assert(input.take(i + 1).drop_last() =~= input.take(i as int));
            assert(input.skip(i + 1).reverse() =~= input.skip(i as int).reverse().drop_last());
        }
        let kind = if starts_with(c.name.as_str(), ".") {
            None
        } else if c.is_dir {
            if ends_with(c.name.as_str(), ".app") {
                Some(ResultType::App)
            } else {
                Some(ResultType::Folder)
            }
        } else if image_name(c.name.as_str()) {
            Some(ResultType::Image)
        } else {
            None
        };
        match kind {
            Some(k) => {
                let icon = if k == ResultType::Image {
                    Some(c.path.clone())
                } else {
                    None
                };
                let ghost before = out@;
                out.push(
                    AppEntry {
                        name: c.name,
                        launch_target: c.path,
                        icon,
                        description: Some(string_of(dir)),
                        result_type: k,
                    },
                );
                assert(views_of(out@) =~= views_of(before).push(out@[out.len() - 1]@));
            },
            None => {},
        }
        i = i + 1;
    }
    assert(input.take(i as int) =~= input);
    out
}

/// The entries of `s` of one kind, in order.
pub open spec fn of_kind(s: Seq<AppEntry>, kind: ResultType) -> Seq<AppEntry>
    decreases s.len(),
{
    if s.len() == 0 {
        Seq::empty()
    } else {
        let prev = of_kind(s.drop_last(), kind);
        if s.last().result_type == kind {
            prev.push(s.last())
        } else {
            prev
        }
    }
}

/// Folders first, then applications, then images, each part in the order of
/// `s`.
pub open spec fn grouped_by_kind(s: Seq<AppEntry>) -> Seq<AppEntry> {
    of_kind(s, ResultType::Folder) + of_kind(s, ResultType::App) + of_kind(s, ResultType::Image)
}

/// Appends the entries of `s` of one kind to `out`.
fn append_kind(out: &mut Vec<AppEntry>, s: &Vec<AppEntry>, kind: ResultType)
    ensures
        final(out)@ == old(out)@ + of_kind(s@, kind),
{
    let ghost start = out@;
    let mut i: usize = 0;
    while i < s.len()
        invariant
            i <= s.len(),
            out@ == start + of_kind(s@.take(i as int), kind),
        decreases s.len() - i,
    {
        assert(s@.take(i + 1).drop_last() =~= s@.take(i as int));
        if s[i].result_type == kind {
            out.push(s[i].duplicate());
            assert(out@ =~= start + of_kind(s@.take(i + 1), kind));
        } else {
            assert(out@ =~= start + of_kind(s@.take(i + 1), kind));
        }
        i = i + 1;
    }
    assert(s@.take(i as int) =~= s@);
}

/// Lists the shown children of `dir`: with an empty `filter`, folders, then
/// applications, then images, each part in ascending case-insensitive order
/// of names; otherwise the children whose names match `filter`, best first.
/// At most the first `MAX_BROWSE_RESULTS` are returned.
pub fn browse_directory(dir: &str, children: Vec<DirChild>, filter: &str) -> (r: Vec<AppResult>)
    ensures
        exists|listed: Seq<AppEntry>|
            #[trigger] views_of(listed) == browse_listing(dir@, children@) && ({
                if filter@.len() == 0 {
                    exists|sorted: Seq<AppEntry>|
                        #[trigger] stable_sort_of(sorted, listed) && results_view(r@) == picked(
                            grouped_by_kind(sorted),
                            identity_order(grouped_by_kind(sorted).len()),
                            MAX_BROWSE_RESULTS as nat,
                        )
                } else {
                    exists|order: Seq<usize>|
                        #[trigger] ranked(order, scores_of(filter@, listed)) && results_view(r@)
                            == picked(listed, order, MAX_BROWSE_RESULTS as nat)
                }
            }),
{
    let entries = browse_entries(dir, children);
    let ghost listed = entries@;
    if filter.is_empty() {
        let sorted = sort_by_name(entries);
        let mut grouped: Vec<AppEntry> = Vec::new();
        append_kind(&mut grouped, &sorted, ResultType::Folder);
        append_kind(&mut grouped, &sorted, ResultType::App);
        append_kind(&mut grouped, &sorted, ResultType::Image);
        assert(grouped@ =~= grouped_by_kind(sorted@));
        let mut all: Vec<usize> = Vec::new();
        let mut i: usize = 0;
        while i < grouped.len()
            invariant
                i <= grouped.len(),
                all@ =~= identity_order(i as nat),
            decreases grouped.len() - i,
        {
            all.push(i);
            i = i + 1;
        }
        let r = pick_results(grouped.as_slice(), &all, MAX_BROWSE_RESULTS);
        assert(stable_sort_of(sorted@, listed));
        r
    } else {
        let mut matcher = FuzzyMatcher::new();
        let order = matcher.search(filter, entries.as_slice());
        proof {
            assert forall|k: int| 0 <= k < order.len() implies #[trigger] order@[k] < entries@.len() by {
                assert(scores_of(filter@, entries@).len() == entries@.len());
            }
        }
        pick_results(entries.as_slice(), &order, MAX_BROWSE_RESULTS)
    }
}

/// File-content hits returned by a content search.
pub const MAX_CONTENT_RESULTS: usize = 20;

/// The position of the last `/` in `s`, or -1 when there is none.
pub open spec fn last_slash(s: Seq<char>) -> int
    decreases s.len(),
{
    if s.len() == 0 {
        -1
    } else if s.last() == '/' {
        s.len() - 1
    } else {
        last_slash(s.drop_last())
    }
}

/// `s` without trailing separators and trailing `.` components, as path
/// components are read; a lone `/` or `.` stays.
pub open spec fn trim_end(s: Seq<char>) -> Seq<char>
    decreases s.len(),
{
    if s.len() >= 2 && (s.last() == '/' || (s.last() == '.' && s[s.len() - 2] == '/')) {
        trim_end(s.drop_last())
    } else {
        s
    }
}

/// The last component of a path.
pub open spec fn file_name_of(s: Seq<char>) -> Seq<char> {
    let t = trim_end(s);
    t.subrange(last_slash(t) + 1, t.len() as int)
}

/// The path without its last component: the root when only the root is
/// left, nothing for a single relative component.
pub open spec fn parent_of(s: Seq<char>) -> Seq<char> {
    let t = trim_end(s);
    let k = last_slash(t);
    if k < 0 {
        Seq::empty()
    } else if k == 0 {
        "/"@
    } else {
        trim_end(t.subrange(0, k))
    }
}

/// A listed path that ends in a file name.
pub open spec fn names_a_file(s: Seq<char>) -> bool {
    let n = file_name_of(s);
    n.len() > 0 && n != "."@ && n != ".."@
}

/// The hits of the paths a content search listed, in its order.
pub open spec fn content_hits(lines: Seq<String>) -> Seq<EntryView>
    decreases lines.len(),
{
    if lines.len() == 0 {
        Seq::empty()
    } else {
        let prev = content_hits(lines.drop_last());
        let l = lines.last()@;
        if names_a_file(l) {
            prev.push(
                EntryView {
                    name: file_name_of(l),
                    launch_target: l,
                    icon: None,
                    description: Some(parent_of(l)),
                    result_type: ResultType::File,
                },
            )
        } else {
            prev
        }
    }
}

proof fn lemma_last_slash_bounds(s: Seq<char>)
    ensures
        -1 <= last_slash(s) < s.len(),
        last_slash(s) >= 0 ==> s[last_slash(s)] == '/',
        forall|m: int| last_slash(s) < m < s.len() ==> s[m] != '/',
    decreases s.len(),
{
    if s.len() > 0 && s.last() != '/' {
        let d = s.drop_last();
        lemma_last_slash_bounds(d);
        assert forall|m: int| last_slash(s) < m < s.len() implies s[m] != '/' by {
            if m < d.len() {
                assert(s[m] == d[m]);
            }
        }
    }
}

/// `v` with trailing separators and `.` components removed.
fn trim_end_chars(v: Vec<char>) -> (r: Vec<char>)
    ensures
        r@ == trim_end(v@),
{
    let ghost start = v@;
    let mut v = v;
    while v.len() >= 2 && (v[v.len() - 1] == '/' || (v[v.len() - 1] == '.' && v[v.len() - 2]
        == '/'))
        invariant
            trim_end(v@) == trim_end(start),
        decreases v.len(),
    {
        v.pop();
    }
    v
}

/// The characters `v[lo..hi]` as a string.
fn string_from(v: &Vec<char>, lo: usize, hi: usize) -> (r: String)
    requires
        lo <= hi <= v.len(),
    ensures
        r@ == v@.subrange(lo as int, hi as int),
{
    let mut r = String::new();
    let mut i = lo;
    while i < hi
        invariant
            lo <= i <= hi <= v.len(),
            r@ == v@.subrange(lo as int, i as int),
        decreases hi - i,
    {
        r.push(v[i]);
        assert(v@.subrange(lo as int, i + 1) =~= v@.subrange(lo as int, i as int).push(v@[i as int]));
        i = i + 1;
    }
    r
}

/// One past the position of the last `/` in `v`, or 0.
fn after_last_slash(v: &Vec<char>) -> (k: usize)
    ensures
        k as int == last_slash(v@) + 1,
        k <= v.len(),
{
    let mut k: usize = v.len();
    while k > 0 && v[k - 1] != '/'
        invariant
            k <= v.len(),
            forall|m: int| k <= m < v.len() ==> v@[m] != '/',
        decreases k,
    {
        k = k - 1;
    }
    proof {
        lemma_last_slash_bounds(v@);
        let j = last_slash(v@);
        if j + 1 < k {
            assert(v@[k - 1] == '/');
        }
        if j + 1 > k {
            assert(k >= 1 ==> v@[k - 1] == '/');
        }
    }
    k
}

/// The hit for one listed path, if it names a file.
fn content_hit(line: &String) -> (r: Option<AppResult>)
    ensures
        names_a_file(line@) ==> (r matches Some(h) && h@ == (EntryView {
            name: file_name_of(line@),
            launch_target: line@,
            icon: None,
            description: Some(parent_of(line@)),
            result_type: ResultType::File,
        })),
        !names_a_file(line@) ==> r is None,
{
    let t = trim_end_chars(chars_of(line.as_str()));
    let k = after_last_slash(&t);
    let name = string_from(&t, k, t.len());
    if name.as_str().unicode_len() == 0 || same_text(name.as_str(), ".") || same_text(
        name.as_str(),
        "..",
    ) {
        return None;
    }
    let parent = if k == 0 {
        String::new()
    } else if k == 1 {
        string_of("/")
    } else {
        let p = trim_end_chars(crate::text::chars_of(string_from(&t, 0, k - 1).as_str()));
        string_from(&p, 0, p.len())
    };
    proof {
        if k > 1 {
            let p = trim_end(t@.subrange(0, (k - 1) as int));
            assert(p.subrange(0, p.len() as int) =~= p);
        }
    }
    Some(
        AppResult {
            name,
            launch_target: line.clone(),
            icon: None,
            description: Some(parent),
            result_type: ResultType::File,
        },
    )
}

/// The first `MAX_CONTENT_RESULTS` hits of the paths that a content search
/// listed, one per line; lines that do not end in a file name are skipped.
pub fn content_matches(lines: &Vec<String>) -> (r: Vec<AppResult>)
    ensures
        results_view(r@) == content_hits(lines@).take(
            min_nat(MAX_CONTENT_RESULTS as nat, content_hits(lines@).len()) as int,
        ),
{
    let mut r: Vec<AppResult> = Vec::new();
    let mut i: usize = 0;
    while i < lines.len()
        invariant
            i <= lines.len(),
            results_view(r@) == content_hits(lines@.take(i as int)).take(
                min_nat(MAX_CONTENT_RESULTS as nat, content_hits(lines@.take(i as int)).len()) as int,
            ),
        decreases lines.len() - i,
    {
        let ghost before = content_hits(lines@.take(i as int));
        assert(lines@.take(i + 1).drop_last() =~= lines@.take(i as int));
        let hit = content_hit(&lines[i]);
        match hit {
            Some(h) => {
                if r.len() < MAX_CONTENT_RESULTS {
                    let ghost old_r = r@;
                    r.push(h);
                    assert(results_view(r@) =~= results_view(old_r).push(r@[r.len() - 1]@));
                }
            },
            None => {},
        }
        let ghost after = content_hits(lines@.take(i + 1));
        assert(results_view(r@) =~= after.take(min_nat(MAX_CONTENT_RESULTS as nat, after.len()) as int));
        i = i + 1;
    }
    assert(lines@.take(i as int) =~= lines@);
    r
}

} // verus!
