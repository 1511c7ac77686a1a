//! Building the Application index from either discovery strategy: the first
//! claim of each name wins, and the index is sorted case-insensitively.
use vstd::prelude::*;

use crate::entry::{AppEntry, ResultType};
use crate::text::{ends_with, has_suffix, string_of};
use crate::order::{lemma_stable_sort_keeps, names_distinct, sort_by_name, stable_sort_of};

verus! {

/// What a declarative desktop manifest says, as plain values.
pub struct DesktopInfo {
    /// The manifest's `Type` key.
    pub entry_type: Option<String>,
    pub no_display: bool,
    pub hidden: bool,
    pub name: Option<String>,
    /// The manifest's `Exec` key.
    pub command: Option<String>,
    pub icon: Option<String>,
    pub comment: Option<String>,
}

/// What an application bundle's metadata says, as plain values.
pub struct BundleInfo {
    /// The bundle's path, which is also what launching it opens.
    pub path: String,
    /// The display name or bundle name from the metadata, if it is a string.
    pub metadata_name: Option<String>,
    /// The bundle's file name without its extension.
    pub file_stem: Option<String>,
    /// The resolved icon file inside the bundle, if one exists.
    pub icon: Option<String>,
    /// The metadata's info string.
    pub info: Option<String>,
}

/// The discovered applications of the host platform.
pub enum AppSource {
    /// Desktop manifests, in discovery order.
    Manifests(Vec<DesktopInfo>),
    /// Application bundles, in discovery order.
    Bundles(Vec<BundleInfo>),
    /// The platform has no supported discovery strategy.
    Unsupported,
}

/// A name seen during discovery, with the entry it yields if it has one.
pub struct Claim {
    pub name: String,
    pub entry: Option<AppEntry>,
}

pub open spec fn claim_well_formed(c: Claim) -> bool {
    c.entry matches Some(e) ==> e.name@ == c.name@ && e.result_type == ResultType::App
}

/// The name of `s[k]` was claimed by an earlier item of `s`.
pub open spec fn claimed_before(s: Seq<Claim>, k: int) -> bool {
    exists|j: int| 0 <= j < k && #[trigger] s[j].name@ == s[k].name@
}

/// The entries of the first claim of each name, in order; a first claim
/// without an entry still holds its name.
pub open spec fn winners(s: Seq<Claim>) -> Seq<AppEntry>
    decreases s.len(),
{
    if s.len() == 0 {
        Seq::empty()
    } else {
        let prev = winners(s.drop_last());
        let k = s.len() - 1;
        if claimed_before(s, k) || s[k].entry is None {
            prev
        } else {
            prev.push(s[k].entry->0)
        }
    }
}

/// A manifest is listed when it describes a visible application with a name
/// and a command.
pub open spec fn listed(d: DesktopInfo) -> bool {
    &&& d.entry_type matches Some(t) && t@ == "Application"@
    &&& !d.no_display
    &&& !d.hidden
    &&& d.name is Some
    &&& d.command is Some
}

pub open spec fn desktop_entry(d: DesktopInfo) -> AppEntry {
    AppEntry {
        name: d.name->0,
        launch_target: d.command->0,
        icon: d.icon,
        description: d.comment,
        result_type: ResultType::App,
    }
}

/// The claims of listed manifests, each with its entry; manifests that are
/// not listed (no name, no command, hidden, or not an application) claim
/// nothing.
pub open spec fn desktop_claims(s: Seq<DesktopInfo>) -> Seq<Claim>
    decreases s.len(),
{
    if s.len() == 0 {
        Seq::empty()
    } else {
        let prev = desktop_claims(s.drop_last());
        let d = s.last();
        if listed(d) {
            prev.push(
                Claim { name: d.name->0, entry: Some(desktop_entry(d)) },
            )
        } else {
            prev
        }
    }
}

/// A bundle's name: from its metadata, else its file stem.
pub open spec fn bundle_name(b: BundleInfo) -> Option<String> {
    if b.metadata_name is Some {
        b.metadata_name
    } else {
        b.file_stem
    }
}

pub open spec fn bundle_entry(b: BundleInfo) -> AppEntry {
    AppEntry {
        name: bundle_name(b)->0,
        launch_target: b.path,
        icon: b.icon,
        description: b.info,
        result_type: ResultType::App,
    }
}

/// The claims of bundles that have a name.
pub open spec fn bundle_claims(s: Seq<BundleInfo>) -> Seq<Claim>
    decreases s.len(),
{
    if s.len() == 0 {
        Seq::empty()
    } else {
        let prev = bundle_claims(s.drop_last());
        let b = s.last();
        if bundle_name(b) is Some {
            prev.push(Claim { name: bundle_name(b)->0, entry: Some(bundle_entry(b)) })
        } else {
            prev
        }
    }
}

pub open spec fn source_claims(source: AppSource) -> Seq<Claim> {
    match source {
        AppSource::Manifests(v) => desktop_claims(v@),
        AppSource::Bundles(v) => bundle_claims(v@),
        AppSource::Unsupported => Seq::empty(),
    }
}

/// The items of `v`, last first.
pub fn reversed<T>(v: Vec<T>) -> (r: Vec<T>)
    ensures
        r@ == v@.reverse(),
{
    let ghost input = v@;
    let mut rest = v;
    let mut out: Vec<T> = Vec::new();
    while rest.len() > 0
        invariant
            out@ =~= input.skip(rest.len() as int).reverse(),
            rest@ =~= input.take(rest.len() as int),
            rest.len() <= input.len(),
        decreases rest.len(),
    {
        let x = rest.pop().unwrap();
        out.push(x);
    }
    assert(out@ =~= input.reverse());
    out
}

/// Whether some string of `v` equals `s`.
pub fn contains_name(v: &Vec<String>, s: &String) -> (r: bool)
    ensures
        r == exists|j: int| 0 <= j < v.len() && #[trigger] v@[j]@ == s@,
{
    let mut i: usize = 0;
    while i < v.len()
        invariant
            i <= v.len(),
            forall|j: int| 0 <= j < i ==> #[trigger] v@[j]@ != s@,
        decreases v.len() - i,
    {
        if v[i] == *s {
            return true;
        }
        i = i + 1;
    }
    false
}

/// The claims of the listed manifests, in order.
pub fn claims_from_manifests(infos: Vec<DesktopInfo>) -> (r: Vec<Claim>)
    ensures
        r@ == desktop_claims(infos@),
        forall|k: int| 0 <= k < r.len() ==> claim_well_formed(#[trigger] r@[k]),
{
    let n = infos.len();
    let ghost input = infos@;
    let mut pending = reversed(infos);
    let mut out: Vec<Claim> = Vec::new();
    let mut i: usize = 0;
    while pending.len() > 0
        invariant
            n == input.len(),
            i + pending.len() == n,
            pending@ =~= input.skip(i as int).reverse(),
            out@ == desktop_claims(input.take(i as int)),
            forall|k: int| 0 <= k < out.len() ==> claim_well_formed(#[trigger] out@[k]),
        decreases pending.len(),
    {
        let d = pending.pop().unwrap();
        proof {
            assert(d == input[i as int]);
            assert(input.take(i + 1).drop_last() =~= input.take(i as int));
            assert(input.skip(i + 1).reverse() =~= input.skip(i as int).reverse().drop_last());
            reveal_strlit("Application");
        }
        let is_app = match &d.entry_type {
            Some(t) => *t == String::from_str("Application"),
            None => false,
        };
        if is_app && !d.no_display && !d.hidden && d.name.is_some() && d.command.is_some() {
            let name = d.name.unwrap();
            let entry = AppEntry {
                name: name.clone(),
                launch_target: d.command.unwrap(),
                icon: d.icon,
                description: d.comment,
                result_type: ResultType::App,
            };
            out.push(Claim { name, entry: Some(entry) });
        }
        i = i + 1;
    }
    assert(input.take(i as int) =~= input);
    out
}

/// The claims of the named bundles, in order.
pub fn claims_from_bundles(bundles: Vec<BundleInfo>) -> (r: Vec<Claim>)
    ensures
        r@ == bundle_claims(bundles@),
        forall|k: int| 0 <= k < r.len() ==> claim_well_formed(#[trigger] r@[k]),
{
    let n = bundles.len();
    let ghost input = bundles@;
    let mut pending = reversed(bundles);
    let mut out: Vec<Claim> = Vec::new();
    let mut i: usize = 0;
    while pending.len() > 0
        invariant
            n == input.len(),
            i + pending.len() == n,
            pending@ =~= input.skip(i as int).reverse(),
            out@ == bundle_claims(input.take(i as int)),
            forall|k: int| 0 <= k < out.len() ==> claim_well_formed(#[trigger] out@[k]),
        decreases pending.len(),
    {
        let b = pending.pop().unwrap();
        proof {
            assert(b == input[i as int]);
            assert(input.take(i + 1).drop_last() =~= input.take(i as int));
            assert(input.skip(i + 1).reverse() =~= input.skip(i as int).reverse().drop_last());
        }
        let name = match b.metadata_name {
            Some(n) => Some(n),
            None => b.file_stem,
        };
        match name {
            Some(name) => {
                let entry = AppEntry {
                    name: name.clone(),
                    launch_target: b.path,
                    icon: b.icon,
                    description: b.info,
                    result_type: ResultType::App,
                };
                out.push(Claim { name, entry: Some(entry) });
            },
            None => {},
        }
        i = i + 1;
    }
    assert(input.take(i as int) =~= input);
    out
}

/// Every winner's name was claimed, by a claim that yields that winner.
pub proof fn lemma_winners_claimed(s: Seq<Claim>)
    requires
        forall|k: int| 0 <= k < s.len() ==> claim_well_formed(#[trigger] s[k]),
    ensures
        forall|i: int|
            0 <= i < winners(s).len() ==> exists|j: int|
                0 <= j < s.len() && #[trigger] s[j].name@ == (#[trigger] winners(s)[i]).name@,
        names_distinct(winners(s)),
    decreases s.len(),
{
    if s.len() > 0 {
        let p = s.drop_last();
        lemma_winners_claimed(p);
        let k = s.len() - 1;
        let w = winners(s);
        assert forall|i: int| 0 <= i < w.len() implies exists|j: int|
            0 <= j < s.len() && #[trigger] s[j].name@ == (#[trigger] w[i]).name@ by {
            if i < winners(p).len() {
                let j = choose|j: int|
                    0 <= j < p.len() && #[trigger] p[j].name@ == (#[trigger] winners(p)[i]).name@;
                assert(s[j] == p[j]);
            } else {
                assert(s[k].name@ == w[i].name@);
            }
        }
        if !(claimed_before(s, k) || s[k].entry is None) {
            assert forall|i: int, j: int| 0 <= i < j < w.len() implies w[i].name@
                != w[j].name@ by {
                if j == w.len() - 1 {
                    if w[i].name@ == w[j].name@ {
                        let m = choose|m: int|
                            0 <= m < p.len() && #[trigger] p[m].name@ == (#[trigger] winners(
                                p,
                            )[i]).name@;
                        assert(s[m] == p[m]);
                        assert(claimed_before(s, k));
                    }
                }
            }
        }
    }
}

/// Keeps the entry of the first claim of each name.
pub fn resolve_claims(claims: Vec<Claim>) -> (r: Vec<AppEntry>)
    requires
        forall|k: int| 0 <= k < claims.len() ==> claim_well_formed(#[trigger] claims@[k]),
    ensures
        r@ == winners(claims@),
        forall|i: int| 0 <= i < r.len() ==> (#[trigger] r@[i]).result_type == ResultType::App,
{
    let n = claims.len();
    let ghost input = claims@;
    let mut pending = reversed(claims);
    let mut seen: Vec<String> = Vec::new();
    let mut out: Vec<AppEntry> = Vec::new();
    let mut i: usize = 0;
    while pending.len() > 0
        invariant
            n == input.len(),
            i + pending.len() == n,
            pending@ =~= input.skip(i as int).reverse(),
            seen.len() == i,
            forall|j: int| 0 <= j < i ==> (#[trigger] seen@[j])@ == input[j].name@,
            out@ == winners(input.take(i as int)),
            forall|k: int| 0 <= k < input.len() ==> claim_well_formed(#[trigger] input[k]),
            forall|k: int| 0 <= k < out.len() ==> (#[trigger] out@[k]).result_type == ResultType::App,
        decreases pending.len(),
    {
        let c = pending.pop().unwrap();
        proof {
            assert(c == input[i as int]);
            let t = input.take(i + 1);
            assert(t.drop_last() =~= input.take(i as int));
            assert(input.skip(i + 1).reverse() =~= input.skip(i as int).reverse().drop_last());
            assert(claimed_before(t, i as int) == exists|j: int|
                0 <= j < seen.len() && #[trigger] seen@[j]@ == c.name@) by {
                if claimed_before(t, i as int) {
                    let j = choose|j: int| 0 <= j < i && #[trigger] t[j].name@ == t[i as int].name@;
                    assert(seen@[j]@ == c.name@);
                }
                if exists|j: int| 0 <= j < seen.len() && #[trigger] seen@[j]@ == c.name@ {
                    let j = choose|j: int| 0 <= j < seen.len() && #[trigger] seen@[j]@ == c.name@;
                    assert(t[j].name@ == t[i as int].name@);
                }
            }
        }
        let known = contains_name(&seen, &c.name);
        seen.push(c.name);
        if !known {
            match c.entry {
                Some(e) => out.push(e),
                None => {},
            }
        }
        i = i + 1;
    }
    assert(input.take(i as int) =~= input);
    out
}

/// Builds the Application index: the first entry of each name, in ascending
/// case-insensitive order of names.
pub fn build_index(source: AppSource) -> (r: Vec<AppEntry>)
    ensures
        stable_sort_of(r@, winners(source_claims(source))),
        names_distinct(r@),
        forall|i: int| 0 <= i < r.len() ==> (#[trigger] r@[i]).result_type == ResultType::App,
{
    let ghost claims_spec = source_claims(source);
    let claims = match source {
        AppSource::Manifests(v) => claims_from_manifests(v),
        AppSource::Bundles(v) => claims_from_bundles(v),
        AppSource::Unsupported => Vec::new(),
    };
    assert(claims@ =~= claims_spec);
    proof {
        lemma_winners_claimed(claims@);
    }
    let unique = resolve_claims(claims);
    let r = sort_by_name(unique);
    proof {
        lemma_stable_sort_keeps(r@, winners(claims_spec));
    }
    r
}

/// The icon file a bundle's metadata names: the name itself when it already
/// has the vector icon extension, else the name with that extension added.
pub fn icon_file_name(icon_name: &str) -> (r: String)
    ensures
        has_suffix(icon_name@, ".icns"@) ==> r@ == icon_name@,
        !has_suffix(icon_name@, ".icns"@) ==> r@ == icon_name@ + ".icns"@,
{
    let mut r = string_of(icon_name);
    if !ends_with(icon_name, ".icns") {
        r.append(".icns");
    }
    r
}

/// A metadata key as read: absent, present but not a string, or a string.
pub enum MetadataValue {
    Absent,
    NotText,
    Text(String),
}

/// The name a bundle's metadata gives: the display-name key when present,
/// else the bundle-name key; only a string value names the bundle.
pub open spec fn metadata_name_of(display: MetadataValue, bundle: MetadataValue) -> Option<Seq<char>> {
    let chosen = if display is Absent {
        bundle
    } else {
        display
    };
    match chosen {
        MetadataValue::Text(s) => Some(s@),
        _ => None,
    }
}

/// The name a bundle's metadata gives, from its display-name and
/// bundle-name keys.
pub fn bundle_metadata_name(display: MetadataValue, bundle: MetadataValue) -> (r: Option<String>)
    ensures
        crate::entry::opt_view(r) == metadata_name_of(display, bundle),
{
    let chosen = match display {
        MetadataValue::Absent => bundle,
        other => other,
    };
    match chosen {
        MetadataValue::Text(s) => Some(s),
        _ => None,
    }
}

/// Relies on `freedesktop_desktop_entry::DesktopEntry::from_str` with the
/// English locale, and on its `type_`, `no_display`, `hidden`, `name`,
/// `exec`, `icon` and `comment` getters, which only read the parsed keys:
/// the manifest's keys, or nothing when the text does not parse.
#[verifier::external_body]
fn parse_manifest(path: &str, content: &str) -> Option<DesktopInfo> {
    let l = ["en"];
    let e = freedesktop_desktop_entry::DesktopEntry::from_str(path, content, Some(&l[..])).ok()?;
    Some(DesktopInfo {
        entry_type: e.type_().map(String::from),
        no_display: e.no_display(),
        hidden: e.hidden(),
        name: e.name(&l).map(String::from),
        command: e.exec().map(String::from),
        icon: e.icon().map(String::from),
        comment: e.comment(&l).map(String::from),
    })
}

/// The manifests among `files` (each a path and its text) that parse, in
/// order; one that does not parse is skipped.
pub fn parse_manifests(files: &Vec<(String, String)>) -> (r: Vec<DesktopInfo>)
    ensures
        r.len() <= files.len(),
{
    let mut r: Vec<DesktopInfo> = Vec::new();
    let mut i: usize = 0;
    while i < files.len()
        invariant
            i <= files.len(),
            r.len() <= i,
        decreases files.len() - i,
    {
        match parse_manifest(files[i].0.as_str(), files[i].1.as_str()) {
            Some(d) => r.push(d),
            None => {},
        }
        i = i + 1;
    }
    r
}

} // verus!
