//! The directory that is watched until another one is chosen.

use crate::path::{Component, ComponentView, PathView, WatchPath};
use vstd::prelude::*;
use vstd::string::StringExecFns;

verus! {

/// What stands for the home directory where none can be found.
pub const HOME_PLACEHOLDER: &'static str = "~";

/// The directory below the home directory that holds the replay directory.
pub const DOCUMENTS_DIRECTORY: &'static str = "Documents";

/// The directory that replay files are written to.
pub const REPLAY_DIRECTORY: &'static str = "slippi";

/// The default directory for a given home directory: the replay directory
/// in the documents directory, below the home directory or, without one,
/// below the placeholder.
pub open spec fn default_dir_of(home: Option<PathView>) -> PathView {
    let base = match home {
        Some(home) => home,
        None => seq![ComponentView::Normal(HOME_PLACEHOLDER@)],
    };
    base.push(ComponentView::Normal(DOCUMENTS_DIRECTORY@)).push(
        ComponentView::Normal(REPLAY_DIRECTORY@),
    )
}

/// The view of a home directory that may be absent.
pub open spec fn home_view(home: Option<WatchPath>) -> Option<PathView> {
    match home {
        Some(home) => Some(home@),
        None => None,
    }
}

/// The default directory to watch, given the user's home directory where
/// it is known.
pub fn default_slippi_dir(home: Option<WatchPath>) -> (dir: WatchPath)
    ensures
        dir@ == default_dir_of(home_view(home)),
{
    let mut base = match home {
        Some(home) => home,
        None => {
            let mut parts: Vec<Component> = Vec::new();
            parts.push(Component::Normal(String::from_str(HOME_PLACEHOLDER)));
            WatchPath::new(parts)
        },
    };
    base.push(Component::Normal(String::from_str(DOCUMENTS_DIRECTORY)));
    base.push(Component::Normal(String::from_str(REPLAY_DIRECTORY)));
    base
}

/// The user's home directory, as `dirs::home_dir` finds it, split into its
/// components; a name that is not valid Unicode is carried in its lossy
/// form.  What comes back hangs on the environment and the user database,
/// and `None` is among the answers: nothing is claimed of it.
#[verifier::external_body]
fn home_dir() -> (home: Option<WatchPath>) {
    dirs::home_dir().map(|home| {
        WatchPath::new(home.components().map(|part| match part {
            std::path::Component::Prefix(prefix) => {
                Component::Prefix(prefix.as_os_str().to_string_lossy().into_owned())
            },
            std::path::Component::RootDir => Component::RootDir,
            std::path::Component::CurDir => Component::CurDir,
            std::path::Component::ParentDir => Component::ParentDir,
            std::path::Component::Normal(name) => {
                Component::Normal(name.to_string_lossy().into_owned())
            },
        }).collect())
    })
}

/// The default directory to watch for the user who runs the program.
/// Whatever the home directory turns out to be, the result is the default
/// directory for it.
pub fn get_default_watched_path() -> (dir: WatchPath)
    ensures
        exists|home: Option<PathView>| dir@ == #[trigger] default_dir_of(home),
{
    default_slippi_dir(home_dir())
}

} // verus!
