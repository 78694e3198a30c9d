//! The settings that the server runs with.
use vstd::prelude::*;

use crate::protocol::{TraceValue, Uri, WorkspaceFolder};

verus! {

/// The folders that make up the workspace, as the client announced them.
#[derive(Clone, Debug, PartialEq)]
pub enum Workspace {
    Root(Option<Uri>),
    Folders(Option<Vec<WorkspaceFolder>>),
}

/// The URIs and names of the folders.
pub open spec fn folder_views(v: Seq<WorkspaceFolder>) -> Seq<(Seq<char>, Seq<char>)> {
    v.map_values(|f: WorkspaceFolder| (f.uri@, f.name@))
}

/// Two workspaces name the same root, or the same folders in the same order.
pub open spec fn same_workspace(a: Workspace, b: Workspace) -> bool {
    match (a, b) {
        (Workspace::Root(x), Workspace::Root(y)) => x == y,
        (Workspace::Folders(None), Workspace::Folders(None)) => true,
        (Workspace::Folders(Some(x)), Workspace::Folders(Some(y))) => folder_views(x@) == folder_views(y@),
        _ => false,
    }
}

/// A copy of the workspace.
pub fn copy_workspace(w: &Workspace) -> (c: Workspace)
    ensures
        same_workspace(c, *w),
{
    match w {
        Workspace::Root(None) => Workspace::Root(None),
        Workspace::Root(Some(u)) => Workspace::Root(Some(u.clone())),
        Workspace::Folders(None) => Workspace::Folders(None),
        Workspace::Folders(Some(folders)) => {
            let mut v: Vec<WorkspaceFolder> = Vec::new();
            let mut i: usize = 0;
            while i < folders.len()
                invariant
                    i <= folders@.len(),
                    v@.len() == i,
                    folder_views(v@) == folder_views(folders@).take(i as int),
                decreases folders@.len() - i,
            {
                let f = WorkspaceFolder { uri: folders[i].uri.clone(), name: folders[i].name.clone() };
                let ghost v0 = v@;
                v.push(f);
                proof {
                    let a = folder_views(v@);
                    let b = folder_views(folders@).take(i + 1);
                    assert forall|k: int| 0 <= k < i + 1 implies #[trigger] a[k] == b[k] by {
                        if k < i {
                            assert(v@[k] == v0[k]);
                            assert(folder_views(v0)[k] == (v0[k].uri@, v0[k].name@));
                        }
                    }
                    assert(a =~= b);
                }
                i = i + 1;
            }
            proof {
                assert(folder_views(v@) =~= folder_views(folders@));
            }
            Workspace::Folders(Some(v))
        },
    }
}

/// The settings that the server's decisions depend on.
#[derive(Debug, PartialEq)]
pub struct Config {
    pub trace_level: TraceValue,
    pub server_progress_supported: bool,
}

} // verus!
