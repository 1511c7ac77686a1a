//! The static table of system actions, and the icon-normalization pass over
//! the Application index.
use vstd::prelude::*;

use crate::entry::{AppEntry, EntryView, ResultType};
use crate::order::{sort_by_name, stable_sort_of};
use crate::text::{alphanumeric, contains, ends_with, has_infix, has_suffix, is_alphanumeric, string_of};
use crate::walk::same_text;

verus! {

/// The host platform, for what differs between platforms.
#[derive(Debug, Clone, Copy, PartialEq, Eq, Structural)]
pub enum Platform {
    Linux,
    MacOs,
    Other,
}

pub open spec fn action(name: Seq<char>, id: Seq<char>, about: Seq<char>) -> EntryView {
    EntryView {
        name,
        launch_target: id,
        icon: None,
        description: Some(about),
        result_type: ResultType::System,
    }
}

/// The system actions of each platform, in table order.
pub open spec fn system_table(platform: Platform) -> Seq<EntryView> {
    match platform {
        Platform::MacOs => seq![
            action("Lock Screen"@, "system:lock"@, "Lock the screen"@),
            action("Sleep"@, "system:sleep"@, "Put the computer to sleep"@),
            action("Restart"@, "system:restart"@, "Restart the computer"@),
            action("Shut Down"@, "system:shutdown"@, "Shut down the computer"@),
            action("Log Out"@, "system:logout"@, "Log out of the current session"@),
            action("Empty Trash"@, "system:empty-trash"@, "Empty the Trash"@),
            action(
                "Toggle Dark Mode"@,
                "system:toggle-dark-mode"@,
                "Switch between light and dark mode"@,
            ),
        ],
        Platform::Linux => seq![
            action("Lock Screen"@, "system:lock"@, "Lock the screen"@),
            action("Sleep"@, "system:sleep"@, "Suspend the computer"@),
            action("Restart"@, "system:restart"@, "Restart the computer"@),
            action("Shut Down"@, "system:shutdown"@, "Shut down the computer"@),
            action("Log Out"@, "system:logout"@, "Log out of the current session"@),
        ],
        Platform::Other => Seq::empty(),
    }
}

pub open spec fn entry_views(s: Seq<AppEntry>) -> Seq<EntryView> {
    Seq::new(s.len(), |i: int| s[i]@)
}

fn push_action(v: &mut Vec<AppEntry>, name: &str, id: &str, about: &str)
    ensures
        entry_views(final(v)@) == entry_views(old(v)@).push(action(name@, id@, about@)),
{
    let ghost before = v@;
    v.push(
        AppEntry {
            name: string_of(name),
            launch_target: string_of(id),
            icon: None,
            description: Some(string_of(about)),
            result_type: ResultType::System,
        },
    );
    assert(entry_views(v@) =~= entry_views(before).push(action(name@, id@, about@)));
}

/// The System index of `platform`: its actions, in ascending
/// case-insensitive order of names.
pub fn build_system_commands(platform: Platform) -> (r: Vec<AppEntry>)
    ensures
        exists|t: Seq<AppEntry>| entry_views(t) == system_table(platform) && #[trigger] stable_sort_of(r@, t),
{
    let mut cmds: Vec<AppEntry> = Vec::new();
    match platform {
        Platform::MacOs => {
            push_action(&mut cmds, "Lock Screen", "system:lock", "Lock the screen");
            push_action(&mut cmds, "Sleep", "system:sleep", "Put the computer to sleep");
            push_action(&mut cmds, "Restart", "system:restart", "Restart the computer");
            push_action(&mut cmds, "Shut Down", "system:shutdown", "Shut down the computer");
            push_action(&mut cmds, "Log Out", "system:logout", "Log out of the current session");
            push_action(&mut cmds, "Empty Trash", "system:empty-trash", "Empty the Trash");
            push_action(
                &mut cmds,
                "Toggle Dark Mode",
                "system:toggle-dark-mode",
                "Switch between light and dark mode",
            );
        },
        Platform::Linux => {
            push_action(&mut cmds, "Lock Screen", "system:lock", "Lock the screen");
            push_action(&mut cmds, "Sleep", "system:sleep", "Suspend the computer");
            push_action(&mut cmds, "Restart", "system:restart", "Restart the computer");
            push_action(&mut cmds, "Shut Down", "system:shutdown", "Shut down the computer");
            push_action(&mut cmds, "Log Out", "system:logout", "Log out of the current session");
        },
        Platform::Other => {},
    }
    let ghost t = cmds@;
    assert(entry_views(t) =~= system_table(platform));
    let r = sort_by_name(cmds);
    assert(stable_sort_of(r@, t));
    r
}

/// An icon that the normalization pass converts: a vector icon file.
pub open spec fn needs_conversion(icon: Option<Seq<char>>) -> bool {
    icon matches Some(p) && has_suffix(p, ".icns"@)
}

/// Whether `icon` is converted by the normalization pass.
pub fn icon_needs_conversion(icon: &Option<String>) -> (r: bool)
    ensures
        r == needs_conversion(crate::entry::opt_view(*icon)),
{
    match icon {
        Some(p) => ends_with(p.as_str(), ".icns"),
        None => false,
    }
}

/// The entries after the pass: each icon that needs conversion and was
/// converted is replaced by the converted file; a failed conversion leaves
/// the entry's icon as it was, and every other field and icon stays.
pub open spec fn with_converted_icons(apps: Seq<AppEntry>, outcomes: Seq<Option<String>>) -> Seq<
    AppEntry,
> {
    Seq::new(
        apps.len(),
        |i: int|
            if needs_conversion(apps[i]@.icon) && i < outcomes.len() && outcomes[i] is Some {
                AppEntry { icon: outcomes[i], ..apps[i] }
            } else {
                apps[i]
            },
    )
}

/// The icon-normalization pass: `outcomes[i]` is what converting the icon of
/// `apps[i]` gave (its cached raster image, or nothing on failure; an entry
/// past the end of `outcomes` has no outcome). Only icons that need
/// conversion and were converted change.
pub fn convert_icons(apps: &mut Vec<AppEntry>, outcomes: &Vec<Option<String>>)
    ensures
        final(apps)@ == with_converted_icons(old(apps)@, outcomes@),
{
    let ghost start = apps@;
    let mut i: usize = 0;
    while i < apps.len()
        invariant
            apps.len() == start.len(),
            i <= apps.len(),
            forall|k: int| 0 <= k < i ==> apps@[k] == with_converted_icons(start, outcomes@)[k],
            forall|k: int| i <= k < apps.len() ==> apps@[k] == start[k],
        decreases apps.len() - i,
    {
        if icon_needs_conversion(&apps[i].icon) && i < outcomes.len() && outcomes[i].is_some() {
            let mut e = apps.remove(i);
            e.icon = crate::entry::clone_opt(&outcomes[i]);
            apps.insert(i, e);
        }
        i = i + 1;
    }
    assert(apps@ =~= with_converted_icons(start, outcomes@));
}

/// The cache file name for an application's icon: the name with every
/// character other than letters, digits, `-` and `_` replaced by `_`.
pub open spec fn safe_file_name(name: Seq<char>) -> Seq<char> {
    Seq::new(
        name.len(),
        |i: int|
            if alphanumeric(name[i]) || name[i] == '-' || name[i] == '_' {
                name[i]
            } else {
                '_'
            },
    )
}

/// The cached raster icon for the application `app_name` in `cache_dir`.
pub fn icon_cache_file(cache_dir: &str, app_name: &str) -> (r: String)
    ensures
        r@ == cache_dir@ + "/"@ + safe_file_name(app_name@) + ".png"@,
        has_suffix(r@, ".png"@),
{
    let chars = crate::text::chars_of(app_name);
    let mut safe = String::new();
    let mut i: usize = 0;
    while i < chars.len()
        invariant
            i <= chars.len(),
            chars@ == app_name@,
            safe@ == safe_file_name(app_name@).take(i as int),
        decreases chars.len() - i,
    {
        let c = chars[i];
        if is_alphanumeric(c) || c == '-' || c == '_' {
            safe.push(c);
        } else {
            safe.push('_');
        }
        assert(safe@ =~= safe_file_name(app_name@).take(i + 1));
        i = i + 1;
    }
    assert(safe@ =~= safe_file_name(app_name@));
    let mut r = string_of(cache_dir);
    r.append("/");
    r.append(safe.as_str());
    r.append(".png");
    proof {
        reveal_strlit(".png");
        let n = r@.len();
        assert(r@.subrange(n - 4, n as int) =~= ".png"@);
    }
    r
}

/// Icons are converted only from inside an application bundle's resources.
pub fn is_bundle_resource(canonical: &str) -> (r: bool)
    ensures
        r == has_infix(canonical@, ".app/Contents/Resources/"@),
{
    contains(canonical, ".app/Contents/Resources/")
}

/// An icon converted by the pass to a cached raster image (a `.png` file)
/// no longer needs conversion, so running the pass again leaves that entry
/// as it is, whatever the later outcomes; so does every entry without a
/// vector icon.
pub proof fn lemma_conversion_idempotent(
    apps: Seq<AppEntry>,
    first: Seq<Option<String>>,
    second: Seq<Option<String>>,
)
    requires
        forall|i: int| 0 <= i < first.len() && (#[trigger] first[i]) is Some ==> has_suffix(first[i]->0@, ".png"@),
    ensures
        forall|i: int|
            0 <= i < apps.len() && i < first.len() && needs_conversion(apps[i]@.icon) && first[i] is Some
                ==> !needs_conversion(#[trigger] with_converted_icons(apps, first)[i]@.icon),
        forall|i: int|
            0 <= i < apps.len() && !needs_conversion(with_converted_icons(apps, first)[i]@.icon)
                ==> #[trigger] with_converted_icons(with_converted_icons(apps, first), second)[i]
                == with_converted_icons(apps, first)[i],
{
    let once = with_converted_icons(apps, first);
    assert forall|i: int|
        0 <= i < apps.len() && i < first.len() && needs_conversion(apps[i]@.icon) && first[i] is Some
            implies !needs_conversion(#[trigger] once[i]@.icon) by {
        let p = first[i]->0@;
        reveal_strlit(".png");
        reveal_strlit(".icns");
        if has_suffix(p, ".icns"@) {
            assert(p[p.len() - 1] == ".png"@[3]);
            assert(p[p.len() - 1] == ".icns"@[4]);
        }
    }
}

/// What to spawn for a system action.
pub struct SystemCommand {
    pub program: String,
    pub args: Vec<String>,
}

pub open spec fn command_view(c: SystemCommand) -> (Seq<char>, Seq<Seq<char>>) {
    (c.program@, crate::launch::views(c.args@))
}

/// The program and arguments that perform a system action on a platform;
/// `None` for an action the platform does not have.
pub open spec fn action_command(platform: Platform, id: Seq<char>, user: Seq<char>) -> Option<
    (Seq<char>, Seq<Seq<char>>),
> {
    match platform {
        Platform::MacOs => if id == "lock"@ {
            Some(("open"@, seq!["/System/Library/CoreServices/ScreenSaverEngine.app"@]))
        } else if id == "sleep"@ {
            Some(("osascript"@, seq!["-e"@, "tell app \"System Events\" to sleep"@]))
        } else if id == "restart"@ {
            Some(("osascript"@, seq!["-e"@, "tell app \"System Events\" to restart"@]))
        } else if id == "shutdown"@ {
            Some(("osascript"@, seq!["-e"@, "tell app \"System Events\" to shut down"@]))
        } else if id == "logout"@ {
            Some(("osascript"@, seq!["-e"@, "tell app \"System Events\" to log out"@]))
        } else if id == "empty-trash"@ {
            Some(("osascript"@, seq!["-e"@, "tell app \"Finder\" to empty the trash"@]))
        } else if id == "toggle-dark-mode"@ {
            Some(
                (
                    "osascript"@,
                    seq![
                        "-e"@,
                        "tell app \"System Events\" to tell appearance preferences to set dark mode to not dark mode"@,
                    ],
                ),
            )
        } else {
            None
        },
        Platform::Linux => if id == "lock"@ {
            Some(("loginctl"@, seq!["lock-session"@]))
        } else if id == "sleep"@ {
            Some(("systemctl"@, seq!["suspend"@]))
        } else if id == "restart"@ {
            Some(("systemctl"@, seq!["reboot"@]))
        } else if id == "shutdown"@ {
            Some(("systemctl"@, seq!["poweroff"@]))
        } else if id == "logout"@ {
            Some(("loginctl"@, seq!["terminate-user"@, user]))
        } else {
            None
        },
        Platform::Other => None,
    }
}

fn command_of(program: &str, first: &str, second: Option<&str>) -> (r: SystemCommand)
    ensures
        command_view(r) == (program@, match second {
            Some(a) => seq![first@, a@],
            None => seq![first@],
        }),
{
    let mut args: Vec<String> = Vec::new();
    args.push(string_of(first));
    match second {
        Some(a) => args.push(string_of(a)),
        None => {},
    }
    let r = SystemCommand { program: string_of(program), args };
    assert(crate::launch::views(r.args@) =~= match second {
        Some(a) => seq![first@, a@],
        None => seq![first@],
    });
    r
}

/// What to spawn for the system action `id` (the part of a System entry's
/// launch target after `system:`). `user` is the session's user name, which
/// logging out on Linux names. A platform without system actions runs
/// nothing; an unknown action is rejected.
pub fn system_action(platform: Platform, id: &str, user: &str) -> (r: Result<
    Option<SystemCommand>,
    crate::entry::CommandError,
>)
    ensures
        platform == Platform::Other ==> r matches Ok(None),
        platform != Platform::Other && action_command(platform, id@, user@) is Some ==> (r matches Ok(
            Some(c),
        ) && command_view(c) == action_command(platform, id@, user@)->0),
        platform != Platform::Other && action_command(platform, id@, user@) is None
            ==> crate::launch::rejected_with(r, "Unknown system command: "@ + id@),
{
    let c = match platform {
        Platform::Other => return Ok(None),
        Platform::MacOs => if same_text(id, "lock") {
            Some(command_of("open", "/System/Library/CoreServices/ScreenSaverEngine.app", None))
        } else if same_text(id, "sleep") {
            Some(command_of("osascript", "-e", Some("tell app \"System Events\" to sleep")))
        } else if same_text(id, "restart") {
            Some(command_of("osascript", "-e", Some("tell app \"System Events\" to restart")))
        } else if same_text(id, "shutdown") {
            Some(command_of("osascript", "-e", Some("tell app \"System Events\" to shut down")))
        } else if same_text(id, "logout") {
            Some(command_of("osascript", "-e", Some("tell app \"System Events\" to log out")))
        } else if same_text(id, "empty-trash") {
            Some(command_of("osascript", "-e", Some("tell app \"Finder\" to empty the trash")))
        } else if same_text(id, "toggle-dark-mode") {
            Some(
                command_of(
                    "osascript",
                    "-e",
                    Some(
                        "tell app \"System Events\" to tell appearance preferences to set dark mode to not dark mode",
                    ),
                ),
            )
        } else {
            None
        },
        Platform::Linux => if same_text(id, "lock") {
            Some(command_of("loginctl", "lock-session", None))
        } else if same_text(id, "sleep") {
            Some(command_of("systemctl", "suspend", None))
        } else if same_text(id, "restart") {
            Some(command_of("systemctl", "reboot", None))
        } else if same_text(id, "shutdown") {
            Some(command_of("systemctl", "poweroff", None))
        } else if same_text(id, "logout") {
            Some(command_of("loginctl", "terminate-user", Some(user)))
        } else {
            None
        },
    };
    match c {
        Some(c) => Ok(Some(c)),
        None => {
            let mut m = string_of("Unknown system command: ");
            m.append(id);
            Err(crate::entry::CommandError::LaunchError(m))
        },
    }
}

/// What the normalization pass does with one vector icon.
#[derive(Debug, Clone, Copy, PartialEq, Eq, Structural)]
pub enum IconStep {
    /// Leave the icon: it does not resolve to a file inside a bundle's
    /// resources.
    Skip,
    /// Use the cached raster image that already exists.
    UseCache,
    /// Convert the icon into the cache.
    Convert,
}

/// The step for one vector icon: `resolved` is its resolved path, if it
/// resolves, and `cached` whether its cache file already exists. Only icons
/// inside a bundle's resources are touched, and an existing cache file is
/// used as it is.
pub fn icon_step(resolved: Option<&str>, cached: bool) -> (r: IconStep)
    ensures
        r == (match resolved {
            Some(p) => if !has_infix(p@, ".app/Contents/Resources/"@) {
                IconStep::Skip
            } else if cached {
                IconStep::UseCache
            } else {
                IconStep::Convert
            },
            None => IconStep::Skip,
        }),
{
    match resolved {
        Some(p) => if !is_bundle_resource(p) {
            IconStep::Skip
        } else if cached {
            IconStep::UseCache
        } else {
            IconStep::Convert
        },
        None => IconStep::Skip,
    }
}

} // verus!
