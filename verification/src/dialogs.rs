//! Native file dialogs: what a pick is for, and what the files chosen turn
//! into. The dialog itself, its future and the commands it leads to are the
//! caller's; this module only decides.

use std::sync::Arc;
use vstd::prelude::*;

verus! {

/// What a file dialog was opened for.
#[derive(Debug)]
pub enum Purpose {
    /// A path parameter of a backend.
    Backend { backend: String, key: String },
    /// A backend's script file; `navigation` is the editor navigation the
    /// pick belongs to.
    Script { backend: String, key: String, navigation: Arc<()> },
    /// The clip the object test plays.
    ObjectClip,
    /// SOFA files to import into the local cache.
    Sofa,
}

/// What the files chosen lead to.
#[derive(Debug)]
pub enum Picked {
    /// Import every chosen file into the SOFA cache.
    ImportSofa(Vec<String>),
    /// Open the script at `path` in the editor.
    OpenScript { backend: String, key: String, path: String, navigation: Arc<()> },
    /// Set the backend's path parameter `key` to `path`.
    SetBackendParam { backend: String, key: String, path: String },
    /// Play `path` as the object test clip.
    SetObjectClip(String),
    /// Nothing was chosen.
    Nothing,
}

impl Purpose {
    /// Whether the dialog lets the user choose several files.
    pub fn picks_many(&self) -> (r: bool)
        ensures
            r == (*self is Sofa),
    {
        match self {
            Purpose::Sofa => true,
            _ => false,
        }
    }
}

/// The action for the files chosen (`paths`, in the dialog's order): a SOFA
/// import takes them all; every other purpose takes the first, and nothing
/// happens when there is none.
pub fn after_pick(purpose: Purpose, paths: Vec<String>) -> (r: Picked)
    ensures
        match purpose {
            Purpose::Sofa => r == Picked::ImportSofa(paths),
            Purpose::Script { backend, key, navigation } => if paths@.len() == 0 {
                r is Nothing
            } else {
                r == (Picked::OpenScript { backend, key, path: paths@[0], navigation })
            },
            Purpose::Backend { backend, key } => if paths@.len() == 0 {
                r is Nothing
            } else {
                r == (Picked::SetBackendParam { backend, key, path: paths@[0] })
            },
            Purpose::ObjectClip => if paths@.len() == 0 {
                r is Nothing
            } else {
                r == Picked::SetObjectClip(paths@[0])
            },
        },
{
    let mut paths = paths;
    if let Purpose::Sofa = purpose {
        return Picked::ImportSofa(paths);
    }
    if paths.len() == 0 {
        return Picked::Nothing;
    }
    let path = paths.swap_remove(0);
    match purpose {
        Purpose::Script { backend, key, navigation } => Picked::OpenScript { backend, key, path, navigation },
        Purpose::Backend { backend, key } => Picked::SetBackendParam { backend, key, path },
        Purpose::ObjectClip => Picked::SetObjectClip(path),
        Purpose::Sofa => Picked::ImportSofa(paths),
    }
}

} // verus!
