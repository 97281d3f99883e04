//! The update record and the error type shared by all components.
use vstd::prelude::*;

verus! {

/// One pending update of one package, from either source.
#[derive(Clone, Debug)]
pub struct PackageUpdate {
    pub repository: String,
    pub selected: bool,
    pub name: String,
    pub description: String,
    pub current_version: String,
    pub new_version: String,
    /// Signed change of installed size in bytes; 0 means unknown or equal.
    pub size: i64,
}

impl Default for PackageUpdate {
    fn default() -> (r: Self)
        ensures
            r.repository@.len() == 0,
            !r.selected,
            r.name@.len() == 0,
            r.description@.len() == 0,
            r.current_version@.len() == 0,
            r.new_version@.len() == 0,
            r.size == 0,
    {
        PackageUpdate {
            repository: String::new(),
            selected: false,
            name: String::new(),
            description: String::new(),
            current_version: String::new(),
            new_version: String::new(),
            size: 0,
        }
    }
}

/// Failures surfaced to the caller, each with its raw diagnostic text.
#[derive(Clone, Debug)]
pub enum UpdateError {
    CommandFailed(String),
    IoError(String),
    SyncFailed(String),
}

/// The text of an optional string.
pub open spec fn opt_view(o: Option<String>) -> Option<Seq<char>> {
    match o {
        Some(s) => Some(s@),
        None => None,
    }
}

/// The text of an optional string slice.
pub open spec fn opt_str(o: Option<&str>) -> Option<Seq<char>> {
    match o {
        Some(s) => Some(s@),
        None => None,
    }
}

pub open spec fn error_text(e: UpdateError) -> Seq<char> {
    match e {
        UpdateError::CommandFailed(m) => "Command failed: "@ + m@,
        UpdateError::IoError(m) => "IO error: "@ + m@,
        UpdateError::SyncFailed(m) => "Sync failed: "@ + m@,
    }
}

impl UpdateError {
    /// The message shown to the user.
    pub fn to_string(&self) -> (r: String)
        ensures
            r@ == error_text(*self),
    {
        match self {
            UpdateError::CommandFailed(m) => {
                let mut r = String::from_str("Command failed: ");
                r.append(m.as_str());
                r
            },
            UpdateError::IoError(m) => {
                let mut r = String::from_str("IO error: ");
                r.append(m.as_str());
                r
            },
            UpdateError::SyncFailed(m) => {
                let mut r = String::from_str("Sync failed: ");
                r.append(m.as_str());
                r
            },
        }
    }
}

} // verus!
