//! What the server knows of how the parsed scripts refer to each other: which
//! scripts call a script, where a script is named as a call target, where a
//! command is used, and which scripts refer to a macro of a given name.
use vstd::prelude::*;

use crate::lookups::FileLocationMap;
use crate::protocol::Uri;
use crate::textdoc::str_equal;

verus! {

/// The position of the first entry whose key has the characters `k`, or -1.
pub open spec fn entry_pos<T>(entries: Seq<(String, T)>, k: Seq<char>) -> int {
    if exists|i: int| 0 <= i < entries.len() && #[trigger] entries[i].0@ == k {
        choose|i: int| 0 <= i < entries.len() && #[trigger] entries[i].0@ == k
    } else {
        -1
    }
}

/// The value of the entry for `k`, where there is one.
pub open spec fn entry_of<T>(entries: Seq<(String, T)>, k: Seq<char>) -> Option<T> {
    let p = entry_pos(entries, k);
    if p >= 0 {
        Some(entries[p].1)
    } else {
        None
    }
}

/// No two entries have keys with the same characters.
pub open spec fn entries_distinct<T>(entries: Seq<(String, T)>) -> bool {
    forall|i: int, j: int|
        #![trigger entries[i], entries[j]]
        0 <= i < entries.len() && 0 <= j < entries.len() && i != j ==> entries[i].0@ != entries[j].0@
}

/// Finds the entry for `k`.
fn find_entry<T>(entries: &Vec<(String, T)>, k: &str) -> (r: Option<usize>)
    requires
        entries_distinct(entries@),
    ensures
        match r {
            Some(i) => i < entries@.len() && entry_pos(entries@, k@) == i,
            None => entry_pos(entries@, k@) == -1,
        },
{
    let mut i: usize = 0;
    while i < entries.len()
        invariant
            entries_distinct(entries@),
            i <= entries@.len(),
            forall|j: int| 0 <= j < i ==> #[trigger] entries@[j].0@ != k@,
        decreases entries@.len() - i,
    {
        if str_equal(entries[i].0.as_str(), k) {
            proof {
                let p = entry_pos(entries@, k@);
                assert(entries@[i as int].0@ == k@);
                if p != i {
                    assert(entries@[p].0@ == k@);
                }
            }
            return Some(i);
        }
        i = i + 1;
    }
    None
}

/// The cross references among the parsed scripts, each kind keyed by a
/// script or a name.
#[derive(Debug)]
pub struct ScriptRefs {
    /// Each script with the scripts that call it.
    pub callers: Vec<(Uri, Vec<Uri>)>,
    /// Each script with the places, by document, that name it as a call target.
    pub file_targets: Vec<(Uri, FileLocationMap)>,
    /// Each command with the places, by document, where it is used.
    pub commands: Vec<(String, FileLocationMap)>,
    /// Each macro name with the scripts that refer to a macro of that name.
    pub macro_scripts: Vec<(String, Vec<Uri>)>,
}

impl ScriptRefs {
    /// Each kind has one entry per key, and the place maps are well formed.
    pub open spec fn wf(&self) -> bool {
        &&& entries_distinct(self.callers@)
        &&& entries_distinct(self.file_targets@)
        &&& entries_distinct(self.commands@)
        &&& entries_distinct(self.macro_scripts@)
        &&& forall|i: int| 0 <= i < self.file_targets@.len() ==> (#[trigger] self.file_targets@[i]).1.wf()
        &&& forall|i: int| 0 <= i < self.commands@.len() ==> (#[trigger] self.commands@[i]).1.wf()
    }

    /// No cross references at all.
    pub fn new() -> (r: Self)
        ensures
            r.wf(),
            r.callers@.len() == 0,
            r.file_targets@.len() == 0,
            r.commands@.len() == 0,
            r.macro_scripts@.len() == 0,
    {
        ScriptRefs { callers: Vec::new(), file_targets: Vec::new(), commands: Vec::new(), macro_scripts: Vec::new() }
    }

    /// The scripts that call the script `uri`.
    pub fn get_callers(&self, uri: &str) -> (r: Option<&Vec<Uri>>)
        requires
            self.wf(),
        ensures
            match r {
                Some(v) => entry_of(self.callers@, uri@) == Some(*v),
                None => entry_of(self.callers@, uri@) is None,
            },
    {
        match find_entry(&self.callers, uri) {
            Some(i) => Some(&self.callers[i].1),
            None => None,
        }
    }

    /// The places that name the script `uri` as a call target.
    pub fn get_all_target_file_refs(&self, uri: &str) -> (r: Option<&FileLocationMap>)
        requires
            self.wf(),
        ensures
            match r {
                Some(v) => entry_of(self.file_targets@, uri@) == Some(*v),
                None => entry_of(self.file_targets@, uri@) is None,
            },
            r matches Some(m) ==> m.wf(),
    {
        match find_entry(&self.file_targets, uri) {
            Some(i) => Some(&self.file_targets[i].1),
            None => None,
        }
    }

    /// The places where the command `cmd` is used.
    pub fn get_all_command_refs(&self, cmd: &str) -> (r: Option<&FileLocationMap>)
        requires
            self.wf(),
        ensures
            match r {
                Some(v) => entry_of(self.commands@, cmd@) == Some(*v),
                None => entry_of(self.commands@, cmd@) is None,
            },
            r matches Some(m) ==> m.wf(),
    {
        match find_entry(&self.commands, cmd) {
            Some(i) => Some(&self.commands[i].1),
            None => None,
        }
    }

    /// The scripts that refer to a macro named `name`.
    pub fn get_all_scripts_with_macro(&self, name: &str) -> (r: Option<&Vec<Uri>>)
        requires
            self.wf(),
        ensures
            match r {
                Some(v) => entry_of(self.macro_scripts@, name@) == Some(*v),
                None => entry_of(self.macro_scripts@, name@) is None,
            },
    {
        match find_entry(&self.macro_scripts, name) {
            Some(i) => Some(&self.macro_scripts[i].1),
            None => None,
        }
    }
}

} // verus!
