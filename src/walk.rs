//! The bounded tree walk behind the Folder and Image indices. The walker
//! decides, for each child that a directory listing yields, whether it
//! becomes an entry and whether the walk descends into it; whoever lists the
//! directories drives it.
use vstd::prelude::*;

use crate::entry::{AppEntry, ResultType};
use crate::order::{lemma_stable_sort_keeps, sort_by_name, stable_sort_of, targets_distinct};
use crate::text::{chars_of, ends_with, has_prefix, has_suffix, lower_of, lowercase, starts_with, string_of};

verus! {

/// At most this many folders are indexed.
pub const MAX_FOLDERS: usize = 500;

/// At most this many images are indexed.
pub const MAX_IMAGES: usize = 2000;

/// How many directory levels below each root are listed.
pub const WALK_DEPTH: usize = 2;

/// What a walk collects.
#[derive(Debug, Clone, Copy, PartialEq, Eq, Structural)]
pub enum WalkKind {
    Folders,
    Images,
}

/// Directory names that are pruned without descending: build output,
/// caches, version-control and package-manager data, reserved directories.
pub open spec fn is_noise_dir(name: Seq<char>) -> bool {
    name == "node_modules"@ || name == "target"@ || name == "build"@ || name == "dist"@ || name
        == "__pycache__"@ || name == ".git"@ || name == "Library"@ || name == "Caches"@ || name
        == "Containers"@ || name == "HTTPStorages"@ || name == "WebKit"@ || name
        == "Saved Application State"@ || name == "Application Support"@ || name
        == "Application Scripts"@ || name == "Group Containers"@ || name == "GPUCache"@ || name
        == "DerivedData"@ || name == "Logs"@ || name == "tmp"@ || name == "var"@ || name == "usr"@
}

/// Hidden names begin with a dot.
pub open spec fn is_hidden(name: Seq<char>) -> bool {
    has_prefix(name, "."@)
}

/// A directory the walk neither lists nor indexes.
pub open spec fn is_pruned_dir(name: Seq<char>) -> bool {
    is_hidden(name) || is_noise_dir(name) || has_suffix(name, ".app"@)
}

/// The extensions, lowercased, of indexed images.
pub open spec fn is_image_extension(ext: Seq<char>) -> bool {
    ext == "png"@ || ext == "jpg"@ || ext == "jpeg"@ || ext == "gif"@ || ext == "webp"@ || ext
        == "svg"@
}

/// The file name has an extension after a last dot that is not its first
/// character, and that extension, lowercased, is an image extension.
pub open spec fn is_image_name(name: Seq<char>) -> bool {
    exists|k: int|
        0 < k < name.len() && name[k] == '.' && (forall|m: int| k < m < name.len() ==> name[m]
            != '.') && is_image_extension(#[trigger] lower_of(name.subrange(k + 1, name.len() as int)))
}

/// Whether `a` and `b` hold the same characters.
pub fn same_text(a: &str, b: &str) -> (r: bool)
    ensures
        r == (a@ == b@),
{
    let x = string_of(a);
    let y = string_of(b);
    x == y
}

/// Whether `name` is one of the pruned noise directories.
pub fn noise_dir(name: &str) -> (r: bool)
    ensures
        r == is_noise_dir(name@),
{
    same_text(name, "node_modules") || same_text(name, "target") || same_text(name, "build")
        || same_text(name, "dist") || same_text(name, "__pycache__") || same_text(name, ".git")
        || same_text(name, "Library") || same_text(name, "Caches") || same_text(name, "Containers")
        || same_text(name, "HTTPStorages") || same_text(name, "WebKit") || same_text(
        name,
        "Saved Application State",
    ) || same_text(name, "Application Support") || same_text(name, "Application Scripts")
        || same_text(name, "Group Containers") || same_text(name, "GPUCache") || same_text(
        name,
        "DerivedData",
    ) || same_text(name, "Logs") || same_text(name, "tmp") || same_text(name, "var") || same_text(
        name,
        "usr",
    )
}

/// Whether the walk skips the directory `name`.
pub fn pruned_dir(name: &str) -> (r: bool)
    ensures
        r == is_pruned_dir(name@),
{
    starts_with(name, ".") || noise_dir(name) || ends_with(name, ".app")
}

/// Whether `name` is the file name of an image.
pub fn image_name(name: &str) -> (r: bool)
    ensures
        r == is_image_name(name@),
{
    let c = chars_of(name);
    let mut k: usize = c.len();
    while k > 0 && c[k - 1] != '.'
        invariant
            k <= c.len(),
            c@ == name@,
            forall|m: int| k <= m < c.len() ==> c@[m] != '.',
        decreases k,
    {
        k = k - 1;
    }
    if k <= 1 {
        // No dot, or only a leading one: no extension.
        assert forall|j: int|
            0 < j < name@.len() && name@[j] == '.' && (forall|m: int| j < m < name@.len() ==> name@[m]
                != '.') implies !is_image_extension(
            #[trigger] lower_of(name@.subrange(j + 1, name@.len() as int)),
        ) by {
            assert(j < k);
        }
        return false;
    }
    let ext = name.substring_char(k, c.len());
    let lower = lowercase(ext);
    let l = lower.as_str();
    let r = same_text(l, "png") || same_text(l, "jpg") || same_text(l, "jpeg") || same_text(l, "gif")
        || same_text(l, "webp") || same_text(l, "svg");
    proof {
        let d = (k - 1) as int;
        assert(name@[d] == '.');
        if r {
            assert(is_image_extension(lower_of(name@.subrange(d + 1, name@.len() as int))));
        } else {
            assert forall|j: int|
                0 < j < name@.len() && name@[j] == '.' && (forall|m: int| j < m < name@.len() ==> name@[m]
                    != '.') implies !is_image_extension(
                #[trigger] lower_of(name@.subrange(j + 1, name@.len() as int)),
            ) by {
                if j < d {
                    assert(name@[d] != '.');
                }
            }
        }
    }
    r
}

/// Whether some entry of `entries` has the launch target `path`.
pub fn has_target(entries: &Vec<AppEntry>, path: &str) -> (r: bool)
    ensures
        r == exists|j: int| 0 <= j < entries.len() && (#[trigger] entries@[j]).launch_target@ == path@,
{
    let mut i: usize = 0;
    while i < entries.len()
        invariant
            i <= entries.len(),
            forall|j: int| 0 <= j < i ==> (#[trigger] entries@[j]).launch_target@ != path@,
        decreases entries.len() - i,
    {
        if same_text(entries[i].launch_target.as_str(), path) {
            return true;
        }
        i = i + 1;
    }
    false
}

/// The entry a walk records for a child.
pub open spec fn walk_entry(kind: WalkKind, parent: Seq<char>, name: Seq<char>, path: Seq<char>) -> (
    Seq<char>,
    Seq<char>,
    Option<Seq<char>>,
    Option<Seq<char>>,
    ResultType,
) {
    match kind {
        WalkKind::Folders => (name, path, None, Some(parent), ResultType::Folder),
        WalkKind::Images => (name, path, Some(path), Some(parent), ResultType::Image),
    }
}

pub open spec fn entry_parts(e: AppEntry) -> (
    Seq<char>,
    Seq<char>,
    Option<Seq<char>>,
    Option<Seq<char>>,
    ResultType,
) {
    (e.name@, e.launch_target@, e@.icon, e@.description, e.result_type)
}

/// A child that the walk records, when no entry has its path yet.
pub open spec fn is_collected(kind: WalkKind, name: Seq<char>, is_dir: bool, is_file: bool) -> bool {
    match kind {
        WalkKind::Folders => is_dir && !is_pruned_dir(name),
        WalkKind::Images => !is_hidden(name) && !is_dir && is_file && is_image_name(name),
    }
}

/// A child that the walk descends into, given whether its path was new.
pub open spec fn is_descended(kind: WalkKind, name: Seq<char>, is_dir: bool, new_path: bool) -> bool {
    match kind {
        WalkKind::Folders => is_dir && !is_pruned_dir(name) && new_path,
        WalkKind::Images => is_dir && !is_pruned_dir(name),
    }
}

/// A name the walk keeps an entry for: a folder that is not pruned, or an
/// image file that is not hidden.
pub open spec fn accepted_name(kind: WalkKind, name: Seq<char>) -> bool {
    match kind {
        WalkKind::Folders => !is_pruned_dir(name),
        WalkKind::Images => !is_hidden(name) && is_image_name(name),
    }
}

/// `e` is the entry a walk of `kind` records for an accepted child of the
/// directory in its description.
pub open spec fn walk_entry_ok(kind: WalkKind, e: AppEntry) -> bool {
    &&& e@.description is Some
    &&& entry_parts(e) == walk_entry(kind, e@.description->0, e.name@, e.launch_target@)
    &&& accepted_name(kind, e.name@)
}

/// One walk over a set of roots, collecting folders or images.
pub struct TreeWalk {
    kind: WalkKind,
    entries: Vec<AppEntry>,
}

impl TreeWalk {
    /// The walk's entries so far.
    pub closed spec fn collected(&self) -> Seq<AppEntry> {
        self.entries@
    }

    pub closed spec fn walk_kind(&self) -> WalkKind {
        self.kind
    }

    /// No two collected entries share a path, and each is the entry of an
    /// accepted child.
    pub open spec fn wf(&self) -> bool {
        &&& targets_distinct(self.collected())
        &&& forall|i: int|
            0 <= i < self.collected().len() ==> walk_entry_ok(
                self.walk_kind(),
                #[trigger] self.collected()[i],
            )
    }

    pub fn new(kind: WalkKind) -> (r: TreeWalk)
        ensures
            r.wf(),
            r.walk_kind() == kind,
            r.collected().len() == 0,
    {
        TreeWalk { kind, entries: Vec::new() }
    }

    /// The most entries this walk keeps.
    pub open spec fn cap_of(kind: WalkKind) -> nat {
        match kind {
            WalkKind::Folders => MAX_FOLDERS as nat,
            WalkKind::Images => MAX_IMAGES as nat,
        }
    }

    pub fn cap(&self) -> (r: usize)
        ensures
            r == Self::cap_of(self.walk_kind()),
    {
        match self.kind {
            WalkKind::Folders => MAX_FOLDERS,
            WalkKind::Images => MAX_IMAGES,
        }
    }

    /// Whether a directory at `depth` below its root is listed: the walk stops
    /// at the depth limit and once it holds as many entries as it keeps.
    pub fn should_list(&self, depth: usize) -> (r: bool)
        ensures
            r == (depth < WALK_DEPTH && self.collected().len() < Self::cap_of(self.walk_kind())),
    {
        depth < WALK_DEPTH && self.entries.len() < self.cap()
    }

    /// Whether the walk starts on the next root.
    pub fn wants_more(&self) -> (r: bool)
        ensures
            r == (self.collected().len() < Self::cap_of(self.walk_kind())),
    {
        self.entries.len() < self.cap()
    }

    /// Considers one child of the directory `parent`: `name` is its file name
    /// and `path` its resolved path. Records an entry for a collected child
    /// whose path is new, and returns whether to descend into it.
    pub fn visit(&mut self, parent: &str, name: &str, path: &str, is_dir: bool, is_file: bool) -> (r:
        bool)
        requires
            old(self).wf(),
        ensures
            final(self).wf(),
            final(self).walk_kind() == old(self).walk_kind(),
            ({
                let kind = old(self).walk_kind();
                let before = old(self).collected();
                let new_path = !exists|j: int|
                    0 <= j < before.len() && (#[trigger] before[j]).launch_target@ == path@;
                let collect = is_collected(kind, name@, is_dir, is_file) && new_path;
                &&& r == is_descended(kind, name@, is_dir, new_path)
                &&& collect ==> final(self).collected().len() == before.len() + 1
                    && final(self).collected().drop_last() == before && entry_parts(
                    final(self).collected().last(),
                ) == walk_entry(kind, parent@, name@, path@)
                &&& !collect ==> final(self).collected() == before
            }),
    {
        let hidden = starts_with(name, ".");
        let pruned = pruned_dir(name);
        let known = has_target(&self.entries, path);
        match self.kind {
            WalkKind::Folders => {
                if !is_dir || pruned || known {
                    return false;
                }
                self.entries.push(
                    AppEntry {
                        name: string_of(name),
                        launch_target: string_of(path),
                        icon: None,
                        description: Some(string_of(parent)),
                        result_type: ResultType::Folder,
                    },
                );
                assert(self.entries@.drop_last() =~= old(self).entries@);
                true
            },
            WalkKind::Images => {
                if hidden {
                    return false;
                }
                if is_dir {
                    return !pruned;
                }
                if is_file && !known && image_name(name) {
                    self.entries.push(
                        AppEntry {
                            name: string_of(name),
                            launch_target: string_of(path),
                            icon: Some(string_of(path)),
                            description: Some(string_of(parent)),
                            result_type: ResultType::Image,
                        },
                    );
                    assert(self.entries@.drop_last() =~= old(self).entries@);
                }
                false
            },
        }
    }

    /// The finished index: the first entries up to the cap, in ascending
    /// case-insensitive order of names.
    pub fn finish(self) -> (r: Vec<AppEntry>)
        requires
            self.wf(),
        ensures
            ({
                let c = self.collected();
                let kept = if c.len() <= Self::cap_of(self.walk_kind()) {
                    c
                } else {
                    c.take(Self::cap_of(self.walk_kind()) as int)
                };
                stable_sort_of(r@, kept)
            }),
            r.len() <= Self::cap_of(self.walk_kind()),
            targets_distinct(r@),
            forall|i: int| 0 <= i < r.len() ==> walk_entry_ok(self.walk_kind(), #[trigger] r@[i]),
    {
        let cap = self.cap();
        let ghost c = self.entries@;
        let mut entries = self.entries;
        entries.truncate(cap);
        let ghost kept = entries@;
        assert(c.len() > cap ==> kept =~= c.take(cap as int));
        assert(c.len() <= cap ==> kept =~= c);
        let r = sort_by_name(entries);
        proof {
            lemma_stable_sort_keeps(r@, kept);
        }
        r
    }
}

} // verus!
