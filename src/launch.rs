//! The launch security gate: turns a launch target into a spawn request, and
//! checks resolved paths against the allowed locations.
use vstd::prelude::*;

use crate::entry::CommandError;
use crate::text::{chars_of, contains, ends_with, has_infix, has_prefix, has_suffix, is_white_space, is_whitespace, starts_with, string_of};

verus! {

/// The words of `s`: maximal runs of characters without Unicode whitespace.
pub open spec fn words(s: Seq<char>) -> Seq<Seq<char>>
    decreases s.len(),
{
    if s.len() == 0 {
        Seq::empty()
    } else {
        let w = words(s.drop_last());
        let c = s.last();
        if is_white_space(c) {
            w
        } else if s.len() >= 2 && !is_white_space(s[s.len() - 2]) {
            w.update(w.len() - 1, w.last().push(c))
        } else {
            w.push(seq![c])
        }
    }
}

/// A placeholder that desktop manifests put in commands (`%u`, `%F`, ...).
pub open spec fn is_field_code(w: Seq<char>) -> bool {
    w.len() > 0 && w[0] == '%'
}

/// `ws` without its field codes.
pub open spec fn without_field_codes(ws: Seq<Seq<char>>) -> Seq<Seq<char>>
    decreases ws.len(),
{
    if ws.len() == 0 {
        Seq::empty()
    } else {
        let k = without_field_codes(ws.drop_last());
        if is_field_code(ws.last()) {
            k
        } else {
            k.push(ws.last())
        }
    }
}

/// The words joined by single spaces.
pub open spec fn join_words(ws: Seq<Seq<char>>) -> Seq<char>
    decreases ws.len(),
{
    if ws.len() == 0 {
        Seq::empty()
    } else if ws.len() == 1 {
        ws[0]
    } else {
        join_words(ws.drop_last()) + seq![' '] + ws.last()
    }
}

/// The words of a command line that are not field codes.
pub open spec fn command_parts(s: Seq<char>) -> Seq<Seq<char>> {
    without_field_codes(words(s))
}

/// A command line with its field codes removed and its words single-spaced.
pub open spec fn stripped(s: Seq<char>) -> Seq<char> {
    join_words(command_parts(s))
}

pub open spec fn views(v: Seq<String>) -> Seq<Seq<char>> {
    Seq::new(v.len(), |i: int| v[i]@)
}

/// The words of `exec` that are not field codes, in order.
pub fn command_words(exec: &str) -> (r: Vec<String>)
    ensures
        views(r@) == command_parts(exec@),
{
    let s = chars_of(exec);
    let ghost input = exec@;
    let mut out: Vec<String> = Vec::new();
    let mut cur = String::new();
    let ghost mut done: Seq<Seq<char>> = Seq::empty();
    let mut i: usize = 0;
    while i < s.len()
        invariant
            s@ == input,
            i <= s.len(),
            (i > 0 && !is_white_space(input[i - 1])) ==> words(input.take(i as int)) == done.push(
                cur@,
            ) && cur@.len() > 0,
            !(i > 0 && !is_white_space(input[i - 1])) ==> words(input.take(i as int)) == done
                && cur@.len() == 0,
            views(out@) == without_field_codes(done),
        decreases s.len() - i,
    {
        let c = s[i];
        let ghost t = input.take(i + 1);
        assert(t.drop_last() =~= input.take(i as int));
        assert(t.last() == c);
        assert(i > 0 ==> t[i - 1] == input[i - 1]);
        if is_whitespace(c) {
            if cur.as_str().unicode_len() > 0 {
                let ghost old_done = done;
                proof {
                    done = done.push(cur@);
                    assert(done.drop_last() =~= old_done);
                }
                let first = cur.as_str().get_char(0);
                if first != '%' {
                    let ghost before = out@;
                    out.push(cur);
                    assert(views(out@) =~= views(before).push(out@[out.len() - 1]@));
                }
                cur = String::new();
            }
        } else {
            if i > 0 && !is_whitespace(s[i - 1]) {
                let ghost w = words(input.take(i as int));
                assert(w.update(w.len() - 1, w.last().push(c)) =~= done.push(cur@.push(c)));
            } else {
                assert(cur@ =~= Seq::<char>::empty());
                assert(cur@.push(c) =~= seq![c]);
            }
            cur.push(c);
        }
        i = i + 1;
    }
    assert(input.take(i as int) =~= input);
    if cur.as_str().unicode_len() > 0 {
        let ghost old_done = done;
        proof {
            done = done.push(cur@);
            assert(done.drop_last() =~= old_done);
        }
        let first = cur.as_str().get_char(0);
        if first != '%' {
            let ghost before = out@;
            out.push(cur);
            assert(views(out@) =~= views(before).push(out@[out.len() - 1]@));
        }
    }
    out
}

/// Removes the field codes (words beginning with `%`) from a command line,
/// leaving the other words joined by single spaces.
pub fn strip_field_codes(exec: &str) -> (r: String)
    ensures
        r@ == stripped(exec@),
{
    let parts = command_words(exec);
    let ghost ws = views(parts@);
    let mut r = String::new();
    let mut k: usize = 0;
    while k < parts.len()
        invariant
            k <= parts.len(),
            ws == views(parts@),
            r@ == join_words(ws.take(k as int)),
        decreases parts.len() - k,
    {
        assert(ws.take(k + 1).drop_last() =~= ws.take(k as int));
        if k > 0 {
            r.push(' ');
        }
        r.append(parts[k].as_str());
        proof {
            if k == 0 {
                assert(r@ =~= ws.take(1)[0]);
            }
        }
        k = k + 1;
    }
    assert(ws.take(k as int) =~= ws);
    r
}

/// What to spawn for a validated launch target.
pub enum LaunchRequest {
    /// Open an application bundle by its path.
    Bundle(String),
    /// Run `program` with `args` attached verbatim.
    Program { program: String, args: Vec<String> },
}

/// `r` is a launch rejection carrying the message `m`.
pub open spec fn rejected_with<T>(r: Result<T, CommandError>, m: Seq<char>) -> bool {
    r matches Err(CommandError::LaunchError(s)) && s@ == m
}

/// A target that names an application bundle.
pub open spec fn is_bundle_target(s: Seq<char>) -> bool {
    has_suffix(s, ".app"@) || has_infix(s, ".app/"@)
}

/// Unix paths are absolute when they begin at the root.
pub open spec fn is_absolute(s: Seq<char>) -> bool {
    has_prefix(s, "/"@)
}

/// Whether `path` is absolute.
pub fn path_is_absolute(path: &str) -> (r: bool)
    ensures
        r == is_absolute(path@),
{
    starts_with(path, "/")
}

/// Turns a launch target into a spawn request, before any path is resolved.
/// With `bundles`, a target naming an application bundle is opened as a
/// whole; otherwise its first word is the program to run. The path to run
/// must be absolute.
pub fn prepare_launch(exec: &str, bundles: bool) -> (r: Result<LaunchRequest, CommandError>)
    ensures
        ({
            let st = stripped(exec@);
            let parts = command_parts(exec@);
            if bundles && is_bundle_target(st) {
                if is_absolute(st) {
                    r matches Ok(LaunchRequest::Bundle(p)) && p@ == st
                } else {
                    rejected_with(r, "Exec path must be absolute"@)
                }
            } else if parts.len() == 0 {
                rejected_with(r, "Empty exec command"@)
            } else if !is_absolute(parts[0]) {
                rejected_with(r, "Exec path must be absolute"@)
            } else {
                r matches Ok(LaunchRequest::Program { program, args }) && program@ == parts[0]
                    && views(args@) == parts.drop_first()
            }
        }),
{
    let st = strip_field_codes(exec);
    if bundles && (ends_with(st.as_str(), ".app") || contains(st.as_str(), ".app/")) {
        if path_is_absolute(st.as_str()) {
            return Ok(LaunchRequest::Bundle(st));
        }
        return Err(CommandError::LaunchError(string_of("Exec path must be absolute")));
    }
    let mut parts = command_words(exec);
    if parts.len() == 0 {
        return Err(CommandError::LaunchError(string_of("Empty exec command")));
    }
    let ghost all = views(parts@);
    let program = parts.remove(0);
    assert(views(parts@) =~= all.drop_first());
    if !path_is_absolute(program.as_str()) {
        return Err(CommandError::LaunchError(string_of("Exec path must be absolute")));
    }
    Ok(LaunchRequest::Program { program, args: parts })
}

/// `path` is `dir` or lies below it, comparing whole path segments.
pub open spec fn within_dir(path: Seq<char>, dir: Seq<char>) -> bool {
    has_prefix(path, dir) && (path.len() == dir.len() || has_suffix(dir, "/"@) || path[dir.len()
        as int] == '/')
}

/// Whether `path` is `dir` or lies below it.
pub fn path_within(path: &str, dir: &str) -> (r: bool)
    ensures
        r == within_dir(path@, dir@),
{
    if !starts_with(path, dir) {
        return false;
    }
    let pc = chars_of(path);
    let dc = chars_of(dir);
    pc.len() == dc.len() || ends_with(dir, "/") || pc[dc.len()] == '/'
}

/// The system directories from which programs may be launched.
pub open spec fn system_launch_dir(path: Seq<char>) -> bool {
    within_dir(path, "/Applications"@) || within_dir(path, "/System/Applications"@) || within_dir(
        path,
        "/usr/bin"@,
    ) || within_dir(path, "/usr/local/bin"@) || within_dir(path, "/opt"@)
}

/// Checks a resolved launch path against the allowed locations: the system
/// application and binary directories, and the user's own applications
/// directory when it is known. The rejection names the path.
pub fn check_launch_path(canonical: &str, user_apps: Option<&str>) -> (r: Result<(), CommandError>)
    ensures
        (system_launch_dir(canonical@) || (user_apps matches Some(u) && within_dir(
            canonical@,
            u@,
        ))) ==> r is Ok,
        !(system_launch_dir(canonical@) || (user_apps matches Some(u) && within_dir(
            canonical@,
            u@,
        ))) ==> rejected_with(r, "Path not in allowed locations: "@ + canonical@),
{
    let allowed = path_within(canonical, "/Applications") || path_within(
        canonical,
        "/System/Applications",
    ) || path_within(canonical, "/usr/bin") || path_within(canonical, "/usr/local/bin")
        || path_within(canonical, "/opt") || match user_apps {
        Some(u) => path_within(canonical, u),
        None => false,
    };
    if allowed {
        Ok(())
    } else {
        let mut m = string_of("Path not in allowed locations: ");
        m.append(canonical);
        Err(CommandError::LaunchError(m))
    }
}

/// Rejects a path that is not absolute.
pub fn require_absolute(path: &str) -> (r: Result<(), CommandError>)
    ensures
        is_absolute(path@) ==> r is Ok,
        !is_absolute(path@) ==> rejected_with(r, "Path must be absolute"@),
{
    if path_is_absolute(path) {
        Ok(())
    } else {
        Err(CommandError::LaunchError(string_of("Path must be absolute")))
    }
}

/// Checks that a resolved path lies in the user's home directory, with no
/// exception for system paths. `action` names what was asked ("open",
/// "browse") in the rejection.
pub fn require_within_home(canonical: &str, home: &str, action: &str) -> (r: Result<
    (),
    CommandError,
>)
    ensures
        within_dir(canonical@, home@) ==> r is Ok,
        !within_dir(canonical@, home@) ==> rejected_with(
            r,
            "Can only "@ + action@ + " paths under home directory"@,
        ),
{
    if path_within(canonical, home) {
        Ok(())
    } else {
        let mut m = string_of("Can only ");
        m.append(action);
        m.append(" paths under home directory");
        Err(CommandError::LaunchError(m))
    }
}

/// Only secure web addresses are opened.
pub fn check_url(url: &str) -> (r: Result<(), CommandError>)
    ensures
        has_prefix(url@, "https://"@) ==> r is Ok,
        !has_prefix(url@, "https://"@) ==> rejected_with(r, "Only HTTPS URLs allowed"@),
{
    if starts_with(url, "https://") {
        Ok(())
    } else {
        Err(CommandError::LaunchError(string_of("Only HTTPS URLs allowed")))
    }
}

/// The checks on a directory to browse that come before it is resolved: the
/// path must be absolute and name a directory (`is_dir`, as the file system
/// reports it).
pub fn check_browse_target(path: &str, is_dir: bool) -> (r: Result<(), CommandError>)
    ensures
        !is_absolute(path@) ==> rejected_with(r, "Path must be absolute"@),
        is_absolute(path@) && !is_dir ==> rejected_with(r, "Path is not a directory"@),
        is_absolute(path@) && is_dir ==> r is Ok,
{
    require_absolute(path)?;
    if !is_dir {
        return Err(CommandError::LaunchError(string_of("Path is not a directory")));
    }
    Ok(())
}

/// The checks on a path to open that come before it is resolved: the path
/// must be absolute and exist (`exists`, as the file system reports it).
pub fn check_open_target(path: &str, exists: bool) -> (r: Result<(), CommandError>)
    ensures
        !is_absolute(path@) ==> rejected_with(r, "Path must be absolute"@),
        is_absolute(path@) && !exists ==> rejected_with(r, "Path does not exist"@),
        is_absolute(path@) && exists ==> r is Ok,
{
    require_absolute(path)?;
    if !exists {
        return Err(CommandError::LaunchError(string_of("Path does not exist")));
    }
    Ok(())
}

} // verus!
