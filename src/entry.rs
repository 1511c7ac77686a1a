//! The entry model shared by every index, and the records and errors handed
//! to the user interface.
use vstd::prelude::*;

verus! {

/// The kind of item an entry stands for.
#[derive(Debug, Clone, Copy, PartialEq, Eq, Structural)]
pub enum ResultType {
    App,
    Folder,
    Image,
    System,
    File,
}

/// One launchable or openable item.
#[derive(Debug, Clone)]
pub struct AppEntry {
    pub name: String,
    /// Launch target: executable command, bundle or directory path, system
    /// action id, or file path.
    pub launch_target: String,
    pub icon: Option<String>,
    pub description: Option<String>,
    pub result_type: ResultType,
}

/// An entry as mathematical values.
pub struct EntryView {
    pub name: Seq<char>,
    pub launch_target: Seq<char>,
    pub icon: Option<Seq<char>>,
    pub description: Option<Seq<char>>,
    pub result_type: ResultType,
}

pub open spec fn opt_view(o: Option<String>) -> Option<Seq<char>> {
    match o {
        Some(s) => Some(s@),
        None => None,
    }
}

impl View for AppEntry {
    type V = EntryView;

    open spec fn view(&self) -> EntryView {
        EntryView {
            name: self.name@,
            launch_target: self.launch_target@,
            icon: opt_view(self.icon),
            description: opt_view(self.description),
            result_type: self.result_type,
        }
    }
}

/// A copy of an optional string.
pub fn clone_opt(o: &Option<String>) -> (r: Option<String>)
    ensures
        r == *o,
{
    match o {
        Some(s) => Some(s.clone()),
        None => None,
    }
}

impl AppEntry {
    /// A field-for-field copy.
    pub fn duplicate(&self) -> (r: AppEntry)
        ensures
            r == *self,
    {
        AppEntry {
            name: self.name.clone(),
            launch_target: self.launch_target.clone(),
            icon: clone_opt(&self.icon),
            description: clone_opt(&self.description),
            result_type: self.result_type,
        }
    }
}

/// The record returned to the user interface for one search hit.
#[derive(Debug)]
pub struct AppResult {
    pub name: String,
    pub launch_target: String,
    pub icon: Option<String>,
    pub description: Option<String>,
    pub result_type: ResultType,
}

impl View for AppResult {
    type V = EntryView;

    open spec fn view(&self) -> EntryView {
        EntryView {
            name: self.name@,
            launch_target: self.launch_target@,
            icon: opt_view(self.icon),
            description: opt_view(self.description),
            result_type: self.result_type,
        }
    }
}

impl<'a> From<&'a AppEntry> for AppResult {
    /// The result record that shows `entry`.
    fn from(entry: &'a AppEntry) -> (r: AppResult)
        ensures
            r == (AppResult {
                name: entry.name,
                launch_target: entry.launch_target,
                icon: entry.icon,
                description: entry.description,
                result_type: entry.result_type,
            }),
    {
        AppResult {
            name: entry.name.clone(),
            launch_target: entry.launch_target.clone(),
            icon: clone_opt(&entry.icon),
            description: clone_opt(&entry.description),
            result_type: entry.result_type,
        }
    }
}

impl<'a> vstd::std_specs::convert::FromSpecImpl<&'a AppEntry> for AppResult {
    open spec fn obeys_from_spec() -> bool {
        true
    }

    open spec fn from_spec(entry: &'a AppEntry) -> AppResult {
        AppResult {
            name: entry.name,
            launch_target: entry.launch_target,
            icon: entry.icon,
            description: entry.description,
            result_type: entry.result_type,
        }
    }
}

/// Failures surfaced to the user interface; each carries the reason.
#[derive(Debug)]
pub enum CommandError {
    LaunchError(String),
    WindowError(String),
}

impl CommandError {
    /// The message shown for this error.
    pub fn message(&self) -> (r: String)
        ensures
            r@ == self.message_spec(),
    {
        let mut r = match self {
            CommandError::LaunchError(_) => String::from_str("Failed to launch application: "),
            CommandError::WindowError(_) => String::from_str("Window error: "),
        };
        proof {
            reveal_strlit("Failed to launch application: ");
            reveal_strlit("Window error: ");
        }
        match self {
            CommandError::LaunchError(s) => r.append(s.as_str()),
            CommandError::WindowError(s) => r.append(s.as_str()),
        }
        r
    }

    pub open spec fn message_spec(&self) -> Seq<char> {
        match self {
            CommandError::LaunchError(s) => "Failed to launch application: "@ + s@,
            CommandError::WindowError(s) => "Window error: "@ + s@,
        }
    }
}

} // verus!
