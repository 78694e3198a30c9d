//! The scripts of the workspace, and the index by which a script is found
//! from its file name.
//!
//! A path is held component by component, as the standard library walks it:
//! the root `/`, then the names. Where two scripts share a file name, each is
//! found by the shortest tail of its path that no other script of that name
//! shares.
use vstd::prelude::*;

use crate::config::Workspace;
use crate::lookups::{add_value, group_pos};
use crate::protocol::{FileRename, Uri, WorkspaceFolder};
use crate::references::contains_uri;
use crate::text::{push_char, str_chars};
use crate::textdoc::str_equal;

verus! {

/// The components of the path of a file URI (`url::Url::parse` followed by
/// `Url::to_file_path` and `Path::iter`): each one as its text where it is
/// valid Unicode (`OsStr::to_str`), and as the bytes of its platform
/// encoding otherwise (`OsStr::as_encoded_bytes`); none where the text is no
/// URL or the URL names no file path. The calls are named together: the
/// `Url` and the `PathBuf` between them are opaque values, and what the
/// library needs is a function of the text. Like the two names below, this
/// one is fixed for a build target, and differs between Unix and Windows
/// builds, whose path syntax differs.
pub uninterp spec fn spec_url_file_components(uri: Seq<char>) -> Option<Seq<Result<Seq<char>, Seq<u8>>>>;

/// The components of a text read as a path (`PathBuf::from`), as the build
/// target's path syntax splits it.
pub uninterp spec fn spec_plain_path(text: Seq<char>) -> Seq<Seq<char>>;

/// The file URL of a path (`url::Url::from_file_path`), as text; none where
/// the path cannot be expressed as one (on Unix, a path that is not
/// absolute; on Windows, also one without a drive or server prefix).
pub uninterp spec fn spec_file_url(path: Seq<Seq<char>>) -> Option<Seq<char>>;

/// The characters of each component.
pub open spec fn pv(p: Seq<String>) -> Seq<Seq<char>> {
    p.map_values(|c: String| c@)
}

/// A path component by its value: text, or bytes where it is no text.
pub open spec fn comp_view(c: Result<String, Vec<u8>>) -> Result<Seq<char>, Seq<u8>> {
    match c {
        Ok(t) => Ok(t@),
        Err(b) => Err(b@),
    }
}

/// The NUL character, which no path component holds.
pub open spec fn nul() -> char {
    0u8 as char
}

/// A path component as text: its own text where it is text; otherwise NUL
/// followed by one character per byte, so that components that are no text
/// stay apart from each other and from those that are.
pub open spec fn component_text(c: Result<Seq<char>, Seq<u8>>) -> Seq<char> {
    match c {
        Ok(t) => t,
        Err(b) => seq![nul()] + b.map_values(|x: u8| x as char),
    }
}

/// The path of a file URI, component by component, as text.
#[verifier::opaque]
pub open spec fn url_file_path_text(uri: Seq<char>) -> Option<Seq<Seq<char>>> {
    match spec_url_file_components(uri) {
        Some(cs) => Some(cs.map_values(|c: Result<Seq<char>, Seq<u8>>| component_text(c))),
        None => None,
    }
}

/// Calls `Url::parse`, `Url::to_file_path` and `Path::iter`, and takes each
/// component as text (`OsStr::to_str`) or, where it is none, as its bytes
/// (`OsStr::as_encoded_bytes`); the result is named by
/// `spec_url_file_components`, which depends on the text alone.
#[verifier::external_body]
fn url_file_components(uri: &str) -> (r: Option<Vec<Result<String, Vec<u8>>>>)
    ensures
        match r {
            Some(p) => spec_url_file_components(uri@) == Some(p@.map_values(|c: Result<String, Vec<u8>>| comp_view(c))),
            None => spec_url_file_components(uri@) is None,
        },
{
    let path = url::Url::parse(uri).ok()?.to_file_path().ok()?;
    Some(
        path.iter().map(|c| match c.to_str() {
            Some(t) => Ok(t.to_string()),
            None => Err(c.as_encoded_bytes().to_vec()),
        }).collect(),
    )
}

/// A path component as text (`component_text`).
fn component_string(c: &Result<String, Vec<u8>>) -> (t: String)
    ensures
        t@ == component_text(comp_view(*c)),
{
    match c {
        Ok(t) => t.clone(),
        Err(b) => {
            let mut t = String::new();
            push_char(&mut t, 0u8 as char);
            let mut j: usize = 0;
            while j < b.len()
                invariant
                    j <= b@.len(),
                    t@ == seq![nul()] + b@.take(j as int).map_values(|x: u8| x as char),
                decreases b@.len() - j,
            {
                push_char(&mut t, b[j] as char);
                proof {
                    assert(b@.take(j + 1).map_values(|x: u8| x as char) =~= b@.take(j as int).map_values(|x: u8| x as char).push(b@[j as int] as char));
                }
                j = j + 1;
            }
            proof {
                assert(b@.take(b@.len() as int) =~= b@);
            }
            t
        },
    }
}

/// The path of a file URI, component by component, as text; none where the
/// text is no URL or the URL names no file path.
fn url_file_path(uri: &str) -> (r: Option<Vec<String>>)
    ensures
        match r {
            Some(p) => url_file_path_text(uri@) == Some(pv(p@)),
            None => url_file_path_text(uri@) is None,
        },
{
    proof {
        reveal(url_file_path_text);
    }
    let comps = match url_file_components(uri) {
        Some(c) => c,
        None => {
            return None;
        },
    };
    let ghost cs = comps@.map_values(|c: Result<String, Vec<u8>>| comp_view(c));
    let mut out: Vec<String> = Vec::new();
    let mut i: usize = 0;
    while i < comps.len()
        invariant
            i <= comps@.len(),
            cs == comps@.map_values(|c: Result<String, Vec<u8>>| comp_view(c)),
            out@.len() == i,
            pv(out@) == cs.take(i as int).map_values(|c: Result<Seq<char>, Seq<u8>>| component_text(c)),
        decreases comps@.len() - i,
    {
        let t = component_string(&comps[i]);
        let ghost before = out@;
        out.push(t);
        proof {
            assert(cs[i as int] == comp_view(comps@[i as int]));
            let want = cs.take(i + 1).map_values(|c: Result<Seq<char>, Seq<u8>>| component_text(c));
            assert forall|k: int| 0 <= k < i + 1 implies #[trigger] pv(out@)[k] == want[k] by {
                if k < i {
                    assert(out@[k] == before[k]);
                    assert(pv(before)[k] == cs.take(i as int).map_values(|c: Result<Seq<char>, Seq<u8>>| component_text(c))[k]);
                }
            }
            assert(pv(out@) =~= want);
        }
        i = i + 1;
    }
    proof {
        assert(cs.take(cs.len() as int) =~= cs);
    }
    Some(out)
}

/// Calls `PathBuf::from`; the components are named by `spec_plain_path`.
#[verifier::external_body]
fn plain_path(text: &str) -> (r: Vec<String>)
    ensures
        pv(r@) == spec_plain_path(text@),
{
    std::path::PathBuf::from(text).iter().map(|c| c.to_string_lossy().into_owned()).collect()
}

/// Calls `Url::from_file_path`; the result is named by `spec_file_url`. A
/// component that was no text is handed over as the text that stands for it
/// (`component_text`): its bytes cannot be turned back into a path
/// component without `unsafe` or `std::os`.
#[verifier::external_body]
fn file_url(path: &Vec<String>) -> (r: Option<String>)
    ensures
        match r {
            Some(u) => spec_file_url(pv(path@)) == Some(u@),
            None => spec_file_url(pv(path@)) is None,
        },
{
    let path: std::path::PathBuf = path.iter().collect();
    url::Url::from_file_path(path).ok().map(|u| u.to_string())
}

/// The path that a URI names: the path of the file URL, or else the text
/// itself read as a path.
pub open spec fn uri_path(uri: Seq<char>) -> Seq<Seq<char>> {
    match url_file_path_text(uri) {
        Some(p) => p,
        None => spec_plain_path(uri),
    }
}

/// The path that a URI names; a text that is no file URL may still be a
/// plain path.
pub fn convert_uri_to_path(uri: &str) -> (p: Vec<String>)
    ensures
        pv(p@) == uri_path(uri@),
{
    match url_file_path(uri) {
        Some(path) => path,
        None => plain_path(uri),
    }
}

/// A component that names a file or directory, not the root or a step.
pub open spec fn is_name(c: Seq<char>) -> bool {
    c != "/"@ && c != "."@ && c != ".."@
}

/// A component that was text in the path (see `component_text`).
pub open spec fn is_text(c: Seq<char>) -> bool {
    c.len() == 0 || c[0] != nul()
}

/// The last component, where it is a name and text (`Path::file_name`
/// followed by `OsStr::to_str`).
pub open spec fn file_name(p: Seq<Seq<char>>) -> Option<Seq<char>> {
    if p.len() > 0 && is_name(p.last()) && is_text(p.last()) {
        Some(p.last())
    } else {
        None
    }
}

/// The path without its last component, where there is one beyond the root
/// (`Path::parent`).
pub open spec fn parent(p: Seq<Seq<char>>) -> Option<Seq<Seq<char>>> {
    if p.len() == 0 || (p.len() == 1 && p[0] == "/"@) {
        None
    } else {
        Some(p.drop_last())
    }
}

/// `q` is a tail of `p`, component by component (`Path::ends_with`).
pub open spec fn ends_with(p: Seq<Seq<char>>, q: Seq<Seq<char>>) -> bool {
    q.len() <= p.len() && p.skip(p.len() - q.len()) == q
}

/// Compares two paths component by component.
pub fn path_equal(a: &Vec<String>, b: &Vec<String>) -> (r: bool)
    ensures
        r == (pv(a@) == pv(b@)),
{
    if a.len() != b.len() {
        proof {
            assert(pv(a@).len() != pv(b@).len());
        }
        return false;
    }
    let ghost pa = pv(a@);
    let ghost pb = pv(b@);
    let mut i: usize = 0;
    while i < a.len()
        invariant
            a@.len() == b@.len(),
            pa == pv(a@),
            pb == pv(b@),
            i <= a@.len(),
            forall|k: int| 0 <= k < i ==> #[trigger] pa[k] == pb[k],
        decreases a@.len() - i,
    {
        if !str_equal(a[i].as_str(), b[i].as_str()) {
            proof {
                assert(pa[i as int] == a@[i as int]@);
                assert(pb[i as int] == b@[i as int]@);
                assert(pa[i as int] != pb[i as int]);
            }
            return false;
        }
        proof {
            assert(pa[i as int] == a@[i as int]@);
            assert(pb[i as int] == b@[i as int]@);
        }
        i = i + 1;
    }
    proof {
        assert(pa.len() == pb.len());
        assert(pa =~= pb);
    }
    true
}

/// The file name of a path.
pub fn path_file_name(p: &Vec<String>) -> (r: Option<String>)
    ensures
        match r {
            Some(n) => file_name(pv(p@)) == Some(n@),
            None => file_name(pv(p@)) is None,
        },
{
    if p.len() == 0 {
        return None;
    }
    let last = &p[p.len() - 1];
    let chars = str_chars(last.as_str());
    if str_equal(last.as_str(), "/") || str_equal(last.as_str(), ".") || str_equal(last.as_str(), "..") {
        None
    } else if chars.len() > 0 && chars[0] == 0u8 as char {
        None
    } else {
        Some(last.clone())
    }
}

/// The parent directory of a path.
pub fn path_parent(p: &Vec<String>) -> (r: Option<Vec<String>>)
    ensures
        match r {
            Some(d) => parent(pv(p@)) == Some(pv(d@)),
            None => parent(pv(p@)) is None,
        },
{
    if p.len() == 0 || (p.len() == 1 && str_equal(p[0].as_str(), "/")) {
        return None;
    }
    let mut d: Vec<String> = Vec::new();
    let n = p.len() - 1;
    let mut i: usize = 0;
    while i < n
        invariant
            n == p@.len() - 1,
            i <= n,
            pv(d@) == pv(p@).take(i as int),
        decreases n - i,
    {
        let ghost d0 = d@;
        let c = p[i].clone();
        d.push(c);
        proof {
            assert(d@ == d0.push(p@[i as int]));
            assert(pv(d0).len() == d0.len());
            assert(d0.len() == i);
            assert forall|k: int| 0 <= k < i + 1 implies #[trigger] pv(d@)[k] == pv(p@).take(i + 1)[k] by {
                assert(pv(d@)[k] == d@[k]@);
                assert(pv(p@)[k] == p@[k]@);
                if k < i {
                    assert(d@[k] == d0[k]);
                    assert(pv(d0)[k] == d0[k]@);
                    assert(pv(d0)[k] == pv(p@).take(i as int)[k]);
                } else {
                    assert(d@[k] == p@[i as int]);
                }
            }
            assert(pv(d@) =~= pv(p@).take(i + 1));
        }
        i = i + 1;
    }
    proof {
        assert(pv(p@).drop_last() =~= pv(p@).take(i as int));
    }
    Some(d)
}

/// Whether `p` ends with the components of `q`.
pub fn path_ends_with(p: &Vec<String>, q: &Vec<String>) -> (r: bool)
    ensures
        r == ends_with(pv(p@), pv(q@)),
{
    if q.len() > p.len() {
        return false;
    }
    let pl = p.len();
    let off = pl - q.len();
    let mut i: usize = 0;
    while i < q.len()
        invariant
            pl == p@.len(),
            off == p@.len() - q@.len(),
            off + q@.len() == p@.len(),
            i <= q@.len(),
            forall|k: int| 0 <= k < i ==> #[trigger] q@[k]@ == p@[off + k]@,
        decreases q@.len() - i,
    {
        if !str_equal(p[off + i].as_str(), q[i].as_str()) {
            assert(pv(p@).skip(off as int)[i as int] != pv(q@)[i as int]);
            return false;
        }
        i = i + 1;
    }
    assert(pv(p@).skip(off as int) =~= pv(q@));
    true
}

/// The scripts found in the workspace, and the roots that do not exist.
#[derive(Clone, Debug, PartialEq)]
pub struct WorkspaceMembers {
    pub files: Vec<Uri>,
    pub missing_roots: Vec<Uri>,
}

impl WorkspaceMembers {
    /// The number of scripts found, as a progress count.
    pub fn get_num_files(&self) -> (n: u32)
        ensures
            n == self.files@.len() as u32,
    {
        #[verifier::truncate]
        (self.files.len() as u32)
    }
}

/// The roots of the workspace: the root URI, or the URIs of the folders, in
/// order; none where the client named none.
pub open spec fn roots_of(w: Workspace) -> Seq<Seq<char>> {
    match w {
        Workspace::Root(Some(u)) => seq![u@],
        Workspace::Folders(Some(f)) => f@.map_values(|x: WorkspaceFolder| x.uri@),
        _ => Seq::empty(),
    }
}

/// The URIs of the roots of the workspace, in order.
pub fn workspace_roots(workspace: &Workspace) -> (roots: Vec<Uri>)
    ensures
        texts(roots@) == roots_of(*workspace),
{
    let mut roots: Vec<Uri> = Vec::new();
    match workspace {
        Workspace::Root(Some(u)) => {
            roots.push(u.clone());
            proof {
                assert(texts(roots@) =~= seq![u@]);
            }
        },
        Workspace::Folders(Some(folders)) => {
            let ghost want = folders@.map_values(|x: WorkspaceFolder| x.uri@);
            let mut i: usize = 0;
            while i < folders.len()
                invariant
                    i <= folders@.len(),
                    want == folders@.map_values(|x: WorkspaceFolder| x.uri@),
                    roots@.len() == i,
                    texts(roots@) == want.take(i as int),
                decreases folders@.len() - i,
            {
                let ghost r0 = roots@;
                roots.push(folders[i].uri.clone());
                proof {
                    assert(texts(r0).len() == r0.len());
                    assert forall|k: int| 0 <= k < i + 1 implies #[trigger] texts(roots@)[k] == want.take(i + 1)[k] by {
                        if k < i {
                            assert(roots@[k] == r0[k]);
                            assert(texts(r0)[k] == want.take(i as int)[k]);
                        }
                    }
                    assert(texts(roots@) =~= want.take(i + 1));
                }
                i = i + 1;
            }
            proof {
                assert(want.take(folders@.len() as int) =~= want);
            }
        },
        _ => {
            proof {
                assert(texts(roots@) =~= Seq::<Seq<char>>::empty());
            }
        },
    }
    roots
}

/// The scripts found under the first `n` roots that exist, in order.
pub open spec fn found_files(scans: Seq<(Uri, Option<Vec<Uri>>)>, n: int) -> Seq<Seq<char>>
    decreases n,
{
    if n <= 0 {
        Seq::empty()
    } else {
        found_files(scans, n - 1) + match scans[n - 1].1 {
            Some(files) => texts(files@),
            None => Seq::empty(),
        }
    }
}

/// The first `n` roots that do not exist, in order.
pub open spec fn missing_of(scans: Seq<(Uri, Option<Vec<Uri>>)>, n: int) -> Seq<Seq<char>>
    decreases n,
{
    if n <= 0 {
        Seq::empty()
    } else {
        missing_of(scans, n - 1) + match scans[n - 1].1 {
            Some(_) => Seq::empty(),
            None => seq![scans[n - 1].0@],
        }
    }
}

/// The members of the workspace from what was found under each root: the
/// scripts of each root that exists, in the order of the roots, and the roots
/// that do not exist.
pub fn collect_members(scans: Vec<(Uri, Option<Vec<Uri>>)>) -> (m: WorkspaceMembers)
    ensures
        texts(m.files@) == found_files(scans@, scans@.len() as int),
        texts(m.missing_roots@) == missing_of(scans@, scans@.len() as int),
{
    let ghost all = scans@;
    let mut files: Vec<Uri> = Vec::new();
    let mut missing_roots: Vec<Uri> = Vec::new();
    let mut i: usize = 0;
    while i < scans.len()
        invariant
            i <= scans@.len(),
            all == scans@,
            texts(files@) == found_files(all, i as int),
            texts(missing_roots@) == missing_of(all, i as int),
        decreases scans@.len() - i,
    {
        match &scans[i].1 {
            Some(found) => {
                let ghost f0 = files@;
                let mut more = copy_path(found);
                files.append(&mut more);
                proof {
                    assert(texts(files@) =~= texts(f0) + texts(found@));
                    assert(texts(missing_roots@) =~= missing_of(all, i as int) + Seq::<Seq<char>>::empty());
                }
            },
            None => {
                let ghost m0 = missing_roots@;
                missing_roots.push(scans[i].0.clone());
                proof {
                    assert(texts(missing_roots@) =~= texts(m0) + seq![scans@[i as int].0@]);
                    assert(texts(files@) =~= found_files(all, i as int) + Seq::<Seq<char>>::empty());
                }
            },
        }
        i = i + 1;
    }
    WorkspaceMembers { files, missing_roots }
}

/// Finds scripts by file name: a name that one script has leads to its URI;
/// scripts that share a name are found by a tail of their path.
#[derive(Clone, Debug, PartialEq)]
pub struct FileIndex {
    pub by_filename: Vec<(String, Uri)>,
    pub by_directory: Vec<(Vec<String>, Vec<String>)>,
    pub conflict_resolutions: Option<(Vec<Vec<String>>, Vec<Uri>)>,
}

impl FileIndex {
    pub fn new() -> (f: Self)
        ensures
            f.wf(),
            f.by_filename@.len() == 0,
            f.by_directory@.len() == 0,
            f.conflict_resolutions is None,
    {
        FileIndex { by_filename: Vec::new(), by_directory: Vec::new(), conflict_resolutions: None }
    }
}

/// The first pair whose key is `k`, or -1.
pub open spec fn pair_pos<K, V>(s: Seq<(K, V)>, k: K) -> int {
    if exists|i: int| 0 <= i < s.len() && #[trigger] s[i].0 == k {
        choose|i: int| 0 <= i < s.len() && #[trigger] s[i].0 == k
    } else {
        -1
    }
}

/// No two pairs have the same key.
pub open spec fn pairs_distinct<K, V>(s: Seq<(K, V)>) -> bool {
    forall|i: int, j: int| 0 <= i < s.len() && 0 <= j < s.len() && i != j ==> #[trigger] s[i].0 != #[trigger] s[j].0
}

/// With distinct keys, a key that occurs at `i` is found at `i`.
pub proof fn lemma_pair_pos_at<K, V>(s: Seq<(K, V)>, i: int)
    requires
        pairs_distinct(s),
        0 <= i < s.len(),
    ensures
        pair_pos(s, s[i].0) == i,
{
    let p = pair_pos(s, s[i].0);
    assert(s[i].0 == s[i].0);
    if p != i {
        assert(s[p].0 == s[i].0);
    }
}

/// What the index holds while it is built: the names that one script has so
/// far, with its URI; the directories with the names of their scripts; and
/// the scripts whose name is shared, with name, path and URI.
pub type IndexState = (
    Seq<(Seq<char>, Seq<char>)>,
    Seq<(Seq<Seq<char>>, Seq<Seq<char>>)>,
    Seq<(Seq<char>, Seq<Seq<char>>, Seq<char>)>,
);

/// A script whose name is already shared is added to the shared ones; a
/// script whose name one other script has makes both shared; any other
/// script is found by its name.
pub open spec fn index_step(st: IndexState, uri: Seq<char>) -> IndexState {
    match url_file_path_text(uri) {
        None => st,
        Some(path) => match file_name(path) {
            None => st,
            Some(name) => {
                let (unique, dirs, conflicts) = st;
                let dirs2 = match parent(path) {
                    Some(d) => add_value(dirs, d, name),
                    None => dirs,
                };
                let p = pair_pos(unique, name);
                if p >= 0 {
                    let earlier = unique[p].1;
                    (
                        unique.remove(p),
                        dirs2,
                        conflicts.push((name, url_file_path_text(earlier)->Some_0, earlier)).push((name, path, uri)),
                    )
                } else if exists|j: int| 0 <= j < conflicts.len() && #[trigger] conflicts[j].0 == name {
                    (unique, dirs2, conflicts.push((name, path, uri)))
                } else {
                    (unique.push((name, uri)), dirs2, conflicts)
                }
            },
        },
    }
}

/// The index state after the first `n` scripts.
pub open spec fn index_fold(files: Seq<Seq<char>>, n: int) -> IndexState
    decreases n,
{
    if n <= 0 {
        (Seq::empty(), Seq::empty(), Seq::empty())
    } else {
        index_step(index_fold(files, n - 1), files[n - 1])
    }
}

/// The characters of each text.
pub open spec fn texts(s: Seq<String>) -> Seq<Seq<char>> {
    s.map_values(|t: String| t@)
}

impl FileIndex {
    /// The names with their URIs.
    pub open spec fn unique_view(&self) -> Seq<(Seq<char>, Seq<char>)> {
        self.by_filename@.map_values(|e: (String, Uri)| (e.0@, e.1@))
    }

    /// The directories with the names of their scripts.
    pub open spec fn dirs_view(&self) -> Seq<(Seq<Seq<char>>, Seq<Seq<char>>)> {
        self.by_directory@.map_values(|e: (Vec<String>, Vec<String>)| (pv(e.0@), texts(e.1@)))
    }

    /// The tails by which scripts with a shared name are found, with their URIs.
    pub open spec fn resolutions_view(&self) -> Option<(Seq<Seq<Seq<char>>>, Seq<Seq<char>>)> {
        res_view(self.conflict_resolutions)
    }
}

/// The view of the tails and their URIs.
pub open spec fn res_view(r: Option<(Vec<Vec<String>>, Vec<Uri>)>) -> Option<(Seq<Seq<Seq<char>>>, Seq<Seq<char>>)> {
    match r {
        Some((paths, uris)) => Some((paths@.map_values(|p: Vec<String>| pv(p@)), texts(uris@))),
        None => None,
    }
}

/// Finds the directory `d` in the exec table.
fn find_dir(dirs: &Vec<(Vec<String>, Vec<String>)>, d: &Vec<String>) -> (r: Option<usize>)
    ensures
        match r {
            Some(i) => i < dirs@.len() && pv(dirs@[i as int].0@) == pv(d@),
            None => forall|i: int| 0 <= i < dirs@.len() ==> #[trigger] pv(dirs@[i].0@) != pv(d@),
        },
{
    let mut i: usize = 0;
    while i < dirs.len()
        invariant
            i <= dirs@.len(),
            forall|k: int| 0 <= k < i ==> #[trigger] pv(dirs@[k].0@) != pv(d@),
        decreases dirs@.len() - i,
    {
        if path_equal(&dirs[i].0, d) {
            return Some(i);
        }
        i = i + 1;
    }
    None
}

/// Adds the name of a script to its directory.
fn add_to_dir(dirs: &mut Vec<(Vec<String>, Vec<String>)>, d: Vec<String>, name: String)
    requires
        pairs_distinct(old(dirs)@.map_values(|e: (Vec<String>, Vec<String>)| (pv(e.0@), texts(e.1@)))),
    ensures
        final(dirs)@.map_values(|e: (Vec<String>, Vec<String>)| (pv(e.0@), texts(e.1@))) == add_value(
            old(dirs)@.map_values(|e: (Vec<String>, Vec<String>)| (pv(e.0@), texts(e.1@))),
            pv(d@),
            name@,
        ),
        pairs_distinct(final(dirs)@.map_values(|e: (Vec<String>, Vec<String>)| (pv(e.0@), texts(e.1@)))),
{
    let ghost g = old(dirs)@.map_values(|e: (Vec<String>, Vec<String>)| (pv(e.0@), texts(e.1@)));
    let ghost dv = pv(d@);
    let ghost nv = name@;
    match find_dir(dirs, &d) {
        Some(i) => {
            proof {
                assert(g[i as int].0 == dv);
                lemma_pair_pos_at(g, i as int);
                assert(group_pos(g, dv) == pair_pos(g, dv));
            }
            dirs[i].1.push(name);
            proof {
                let g2 = dirs@.map_values(|e: (Vec<String>, Vec<String>)| (pv(e.0@), texts(e.1@)));
                assert(texts(dirs@[i as int].1@) =~= texts(old(dirs)@[i as int].1@).push(nv));
                assert(g2 =~= g.update(i as int, (dv, g[i as int].1.push(nv))));
                assert forall|a: int, b: int| 0 <= a < g2.len() && 0 <= b < g2.len() && a != b implies #[trigger] g2[a].0 != #[trigger] g2[b].0 by {
                    assert(g2[a].0 == g[a].0);
                    assert(g2[b].0 == g[b].0);
                }
            }
        },
        None => {
            proof {
                assert forall|k: int| 0 <= k < g.len() implies #[trigger] g[k].0 != dv by {
                    assert(g[k].0 == pv(old(dirs)@[k].0@));
                }
                assert(group_pos(g, dv) == -1);
            }
            let mut names: Vec<String> = Vec::new();
            names.push(name);
            dirs.push((d, names));
            proof {
                let g2 = dirs@.map_values(|e: (Vec<String>, Vec<String>)| (pv(e.0@), texts(e.1@)));
                assert(texts(names@) =~= seq![nv]);
                assert(g2 =~= g.push((dv, seq![nv])));
                assert forall|a: int, b: int| 0 <= a < g2.len() && 0 <= b < g2.len() && a != b implies #[trigger] g2[a].0 != #[trigger] g2[b].0 by {
                    if a < g.len() {
                        assert(g2[a] == g[a]);
                    }
                    if b < g.len() {
                        assert(g2[b] == g[b]);
                    }
                }
            }
        },
    }
}

/// The number of trailing components that `p` and `q` share.
pub open spec fn common_tail(p: Seq<Seq<char>>, q: Seq<Seq<char>>) -> nat
    decreases p.len(),
{
    if p.len() == 0 || q.len() == 0 || p.last() != q.last() {
        0
    } else {
        1 + common_tail(p.drop_last(), q.drop_last())
    }
}

/// How many trailing components of `q` a comparison with `p` looks at: one
/// more than the shared tail, but no more than the shorter path has.
pub open spec fn tail_len(p: Seq<Seq<char>>, q: Seq<Seq<char>>) -> int {
    let m = if p.len() < q.len() { p.len() } else { q.len() };
    if common_tail(p, q) < m {
        common_tail(p, q) as int + 1
    } else {
        m as int
    }
}

/// The length of the shortest tail of `path` that tells it apart from every
/// other path of the first `n` with the same name.
pub open spec fn suffix_len(
    name: Seq<char>,
    path: Seq<Seq<char>>,
    names: Seq<Seq<char>>,
    paths: Seq<Seq<Seq<char>>>,
    n: int,
) -> int
    decreases n,
{
    if n <= 0 {
        0
    } else {
        let prev = suffix_len(name, path, names, paths, n - 1);
        let here = if names[n - 1] == name && paths[n - 1] != path {
            tail_len(paths[n - 1], path)
        } else {
            0
        };
        if here > prev {
            here
        } else {
            prev
        }
    }
}

/// The trailing components match for `k` steps.
pub open spec fn tails_match(p: Seq<Seq<char>>, q: Seq<Seq<char>>, k: int) -> bool {
    forall|t: int| 0 <= t < k ==> #[trigger] p[p.len() - 1 - t] == q[q.len() - 1 - t]
}

proof fn lemma_common_tail(p: Seq<Seq<char>>, q: Seq<Seq<char>>, k: int)
    requires
        0 <= k <= p.len(),
        k <= q.len(),
        tails_match(p, q, k),
    ensures
        common_tail(p, q) >= k,
        k < p.len() && k < q.len() && p[p.len() - 1 - k] != q[q.len() - 1 - k] ==> common_tail(p, q) == k,
    decreases k,
{
    if k > 0 {
        assert(p[p.len() - 1 - 0] == q[q.len() - 1 - 0]);
        let p2 = p.drop_last();
        let q2 = q.drop_last();
        assert forall|t: int| 0 <= t < k - 1 implies #[trigger] p2[p2.len() - 1 - t] == q2[q2.len() - 1 - t] by {
            assert(p[p.len() - 1 - (t + 1)] == q[q.len() - 1 - (t + 1)]);
        }
        lemma_common_tail(p2, q2, k - 1);
        if k < p.len() && k < q.len() && p[p.len() - 1 - k] != q[q.len() - 1 - k] {
            assert(p2[p2.len() - 1 - (k - 1)] == p[p.len() - 1 - k]);
            assert(q2[q2.len() - 1 - (k - 1)] == q[q.len() - 1 - k]);
        }
    } else {
        if 0 < p.len() && 0 < q.len() && p[p.len() - 1] != q[q.len() - 1] {
            assert(p.last() != q.last());
        }
    }
}

/// How many trailing components of `q` a comparison with `p` looks at.
fn tail_match_len(p: &Vec<String>, q: &Vec<String>) -> (n: usize)
    ensures
        n == tail_len(pv(p@), pv(q@)),
{
    let m = if p.len() < q.len() { p.len() } else { q.len() };
    let mut ii: usize = 0;
    while ii < m
        invariant
            m == if p@.len() < q@.len() { p@.len() } else { q@.len() },
            ii <= m,
            tails_match(pv(p@), pv(q@), ii as int),
        decreases m - ii,
    {
        let a = &p[p.len() - 1 - ii];
        let b = &q[q.len() - 1 - ii];
        if !str_equal(a.as_str(), b.as_str()) {
            proof {
                lemma_common_tail(pv(p@), pv(q@), ii as int);
            }
            return ii + 1;
        }
        proof {
            assert forall|t: int| 0 <= t < ii + 1 implies #[trigger] pv(p@)[pv(p@).len() - 1 - t] == pv(q@)[pv(q@).len() - 1 - t] by {
                if t < ii {
                    assert(tails_match(pv(p@), pv(q@), ii as int));
                }
            }
        }
        ii = ii + 1;
    }
    proof {
        lemma_common_tail(pv(p@), pv(q@), m as int);
        assert(common_tail(pv(p@), pv(q@)) <= m) by {
            lemma_common_tail_bound(pv(p@), pv(q@));
        }
    }
    m
}

proof fn lemma_common_tail_bound(p: Seq<Seq<char>>, q: Seq<Seq<char>>)
    ensures
        common_tail(p, q) <= p.len(),
        common_tail(p, q) <= q.len(),
    decreases p.len(),
{
    if p.len() > 0 && q.len() > 0 && p.last() == q.last() {
        lemma_common_tail_bound(p.drop_last(), q.drop_last());
    }
}

/// The length of the shortest tail of `filepath` that tells it apart from
/// the other paths with its name.
fn unique_suffix_len(filename: &str, filepath: &Vec<String>, names: &Vec<String>, paths: &Vec<Vec<String>>) -> (n: usize)
    requires
        names@.len() == paths@.len(),
    ensures
        n == suffix_len(filename@, pv(filepath@), texts(names@), paths@.map_values(|p: Vec<String>| pv(p@)), names@.len() as int),
        n <= filepath@.len(),
{
    let ghost ps = paths@.map_values(|p: Vec<String>| pv(p@));
    let mut num: usize = 0;
    let mut j: usize = 0;
    while j < names.len()
        invariant
            names@.len() == paths@.len(),
            ps == paths@.map_values(|p: Vec<String>| pv(p@)),
            j <= names@.len(),
            num == suffix_len(filename@, pv(filepath@), texts(names@), ps, j as int),
            num <= filepath@.len(),
        decreases names@.len() - j,
    {
        proof {
            assert(texts(names@)[j as int] == names@[j as int]@);
            assert(ps[j as int] == pv(paths@[j as int]@));
        }
        if str_equal(names[j].as_str(), filename) && !path_equal(&paths[j], filepath) {
            let here = tail_match_len(&paths[j], filepath);
            if here > num {
                num = here;
            }
        }
        j = j + 1;
    }
    num
}

/// The shortest tail of `filepath` that none of the other paths with the
/// same name shares.
pub fn find_shortest_unique_path_suffix(
    filename: &str,
    filepath: &Vec<String>,
    conflicts: (&Vec<String>, &Vec<Vec<String>>),
) -> (r: Vec<String>)
    requires
        conflicts.0@.len() == conflicts.1@.len(),
        suffix_len(filename@, pv(filepath@), texts(conflicts.0@), conflicts.1@.map_values(|p: Vec<String>| pv(p@)), conflicts.0@.len() as int) > 0,
    ensures
        ({
            let n = suffix_len(filename@, pv(filepath@), texts(conflicts.0@), conflicts.1@.map_values(|p: Vec<String>| pv(p@)), conflicts.0@.len() as int);
            pv(r@) == pv(filepath@).skip(filepath@.len() - n)
        }),
{
    let num = unique_suffix_len(filename, filepath, conflicts.0, conflicts.1);
    let begin = filepath.len() - num;
    let mut suffix: Vec<String> = Vec::new();
    let mut i: usize = begin;
    while i < filepath.len()
        invariant
            begin <= i <= filepath@.len(),
            pv(suffix@) == pv(filepath@).subrange(begin as int, i as int),
        decreases filepath@.len() - i,
    {
        let ghost s0 = suffix@;
        suffix.push(filepath[i].clone());
        proof {
            assert(pv(s0).len() == s0.len());
            assert forall|k: int| 0 <= k < suffix@.len() implies #[trigger] pv(suffix@)[k] == pv(filepath@).subrange(begin as int, i + 1)[k] by {
                if k < s0.len() {
                    assert(suffix@[k] == s0[k]);
                    assert(pv(s0)[k] == s0[k]@);
                }
            }
            assert(pv(suffix@) =~= pv(filepath@).subrange(begin as int, i + 1));
        }
        i = i + 1;
    }
    suffix
}

/// The tails by which the scripts with shared names are found, each with the
/// script's URI.
pub open spec fn resolved(
    names: Seq<Seq<char>>,
    paths: Seq<Seq<Seq<char>>>,
) -> Seq<Seq<Seq<char>>> {
    Seq::new(paths.len(), |i: int| paths[i].skip(paths[i].len() - suffix_len(names[i], paths[i], names, paths, names.len() as int)))
}

/// Every script with a shared name has some other script of that name with
/// another path, so that a tail tells it apart.
pub open spec fn resolvable(names: Seq<Seq<char>>, paths: Seq<Seq<Seq<char>>>) -> bool {
    forall|i: int| 0 <= i < names.len() ==> #[trigger] suffix_len(names[i], paths[i], names, paths, names.len() as int) > 0
}

/// Finds, for each script with a shared name, the tail of its path that
/// tells it apart.
pub fn resolve_path_conflicts(
    filenames: Vec<String>,
    filepaths: Vec<Vec<String>>,
    uris: Vec<Uri>,
) -> (r: (Vec<Vec<String>>, Vec<Uri>))
    requires
        filenames@.len() == filepaths@.len(),
        filenames@.len() == uris@.len(),
        resolvable(texts(filenames@), filepaths@.map_values(|p: Vec<String>| pv(p@))),
    ensures
        r.0@.map_values(|p: Vec<String>| pv(p@)) == resolved(texts(filenames@), filepaths@.map_values(|p: Vec<String>| pv(p@))),
        r.1@ == uris@,
        r.0@.len() == filenames@.len(),
{
    let ghost names = texts(filenames@);
    let ghost paths = filepaths@.map_values(|p: Vec<String>| pv(p@));
    let mut suffixes: Vec<Vec<String>> = Vec::new();
    let mut i: usize = 0;
    while i < filenames.len()
        invariant
            filenames@.len() == filepaths@.len(),
            names == texts(filenames@),
            paths == filepaths@.map_values(|p: Vec<String>| pv(p@)),
            resolvable(names, paths),
            i <= filenames@.len(),
            suffixes@.len() == i,
            forall|k: int| 0 <= k < i ==> pv(#[trigger] suffixes@[k]@) == resolved(names, paths)[k],
        decreases filenames@.len() - i,
    {
        proof {
            assert(names[i as int] == filenames@[i as int]@);
            assert(paths[i as int] == pv(filepaths@[i as int]@));
            assert(suffix_len(names[i as int], paths[i as int], names, paths, names.len() as int) > 0);
        }
        let suffix = find_shortest_unique_path_suffix(filenames[i].as_str(), &filepaths[i], (&filenames, &filepaths));
        suffixes.push(suffix);
        i = i + 1;
    }
    proof {
        assert(suffixes@.map_values(|p: Vec<String>| pv(p@)) =~= resolved(names, paths));
    }
    (suffixes, uris)
}

/// The names of the shared-name scripts.
pub open spec fn conflict_names(c: Seq<(Seq<char>, Seq<Seq<char>>, Seq<char>)>) -> Seq<Seq<char>> {
    c.map_values(|e: (Seq<char>, Seq<Seq<char>>, Seq<char>)| e.0)
}

/// The paths of the shared-name scripts.
pub open spec fn conflict_paths(c: Seq<(Seq<char>, Seq<Seq<char>>, Seq<char>)>) -> Seq<Seq<Seq<char>>> {
    c.map_values(|e: (Seq<char>, Seq<Seq<char>>, Seq<char>)| e.1)
}

/// The URIs of the shared-name scripts.
pub open spec fn conflict_uris(c: Seq<(Seq<char>, Seq<Seq<char>>, Seq<char>)>) -> Seq<Seq<char>> {
    c.map_values(|e: (Seq<char>, Seq<Seq<char>>, Seq<char>)| e.2)
}

/// The index state after all scripts.
pub open spec fn index_result(files: Seq<Seq<char>>) -> IndexState {
    index_fold(files, files.len() as int)
}

/// Indexing the scripts can complete: each script with a shared name is told
/// apart from the others by a tail of its path.
pub open spec fn index_defined(files: Seq<Seq<char>>) -> bool {
    let c = index_result(files).2;
    resolvable(conflict_names(c), conflict_paths(c))
}

/// The index holds what indexing `files` gives.
pub open spec fn indexes(f: FileIndex, files: Seq<Seq<char>>) -> bool {
    let st = index_result(files);
    &&& f.unique_view() == st.0
    &&& f.dirs_view() == st.1
    &&& f.resolutions_view() == if st.2.len() == 0 {
        None
    } else {
        Some((resolved(conflict_names(st.2), conflict_paths(st.2)), conflict_uris(st.2)))
    }
}

/// Finds the entry for the file name `name`.
fn find_name(unique: &Vec<(String, Uri)>, name: &str) -> (r: Option<usize>)
    ensures
        match r {
            Some(i) => i < unique@.len() && unique@[i as int].0@ == name@,
            None => forall|t: int| 0 <= t < unique@.len() ==> #[trigger] unique@[t].0@ != name@,
        },
{
    let mut j: usize = 0;
    while j < unique.len()
        invariant
            j <= unique@.len(),
            forall|t: int| 0 <= t < j ==> #[trigger] unique@[t].0@ != name@,
        decreases unique@.len() - j,
    {
        if str_equal(unique[j].0.as_str(), name) {
            return Some(j);
        }
        j = j + 1;
    }
    None
}

/// Whether every shared-name script is told apart by a tail of its path.
fn all_resolvable(names: &Vec<String>, paths: &Vec<Vec<String>>) -> (r: bool)
    requires
        names@.len() == paths@.len(),
    ensures
        r == resolvable(texts(names@), paths@.map_values(|p: Vec<String>| pv(p@))),
{
    let ghost ns = texts(names@);
    let ghost ps = paths@.map_values(|p: Vec<String>| pv(p@));
    let mut i: usize = 0;
    while i < names.len()
        invariant
            names@.len() == paths@.len(),
            ns == texts(names@),
            ps == paths@.map_values(|p: Vec<String>| pv(p@)),
            i <= names@.len(),
            forall|k: int| 0 <= k < i ==> #[trigger] suffix_len(ns[k], ps[k], ns, ps, ns.len() as int) > 0,
        decreases names@.len() - i,
    {
        proof {
            assert(ns[i as int] == names@[i as int]@);
            assert(ps[i as int] == pv(paths@[i as int]@));
        }
        if unique_suffix_len(names[i].as_str(), &paths[i], names, paths) == 0 {
            proof {
                assert(!(suffix_len(ns[i as int], ps[i as int], ns, ps, ns.len() as int) > 0));
            }
            return false;
        }
        i = i + 1;
    }
    true
}

/// The exec view of the shared-name scripts.
pub open spec fn conflicts_view(names: Seq<String>, paths: Seq<Vec<String>>, uris: Seq<Uri>) -> Seq<(Seq<char>, Seq<Seq<char>>, Seq<char>)> {
    Seq::new(names.len(), |i: int| (names[i]@, pv(paths[i]@), uris[i]@))
}

/// Runs through the scripts in order, collecting the names that one script
/// has, the directories, and the scripts with shared names.
fn collect_index(files: &Vec<Uri>) -> (r: (Vec<(String, Uri)>, Vec<(Vec<String>, Vec<String>)>, Vec<String>, Vec<Vec<String>>, Vec<Uri>))
    ensures
        ({
            let st = index_result(texts(files@));
            let (unique, directories, names, paths, uris) = r;
            &&& unique@.map_values(|e: (String, Uri)| (e.0@, e.1@)) == st.0
            &&& directories@.map_values(|e: (Vec<String>, Vec<String>)| (pv(e.0@), texts(e.1@))) == st.1
            &&& names@.len() == paths@.len()
            &&& names@.len() == uris@.len()
            &&& conflict_names(st.2) == texts(names@)
            &&& conflict_paths(st.2) == paths@.map_values(|p: Vec<String>| pv(p@))
            &&& conflict_uris(st.2) == texts(uris@)
            &&& pairs_distinct(unique@.map_values(|e: (String, Uri)| (e.0@, e.1@)))
            &&& pairs_distinct(directories@.map_values(|e: (Vec<String>, Vec<String>)| (pv(e.0@), texts(e.1@))))
            &&& forall|k: int| 0 <= k < unique@.len() ==> #[trigger] url_file_path_text(unique@[k].1@) is Some
        }),
{
    let ghost fs = texts(files@);
    let mut unique: Vec<(String, Uri)> = Vec::new();
    let mut directories: Vec<(Vec<String>, Vec<String>)> = Vec::new();
    let mut names: Vec<String> = Vec::new();
    let mut paths: Vec<Vec<String>> = Vec::new();
    let mut uris: Vec<Uri> = Vec::new();
    proof {
        assert(unique@.map_values(|e: (String, Uri)| (e.0@, e.1@)) =~= Seq::empty());
        assert(directories@.map_values(|e: (Vec<String>, Vec<String>)| (pv(e.0@), texts(e.1@))) =~= Seq::empty());
        assert(conflicts_view(names@, paths@, uris@) =~= Seq::empty());
    }
    let mut i: usize = 0;
    while i < files.len()
        invariant
            i <= files@.len(),
            fs == texts(files@),
            names@.len() == paths@.len(),
            names@.len() == uris@.len(),
            unique@.map_values(|e: (String, Uri)| (e.0@, e.1@)) == index_fold(fs, i as int).0,
            directories@.map_values(|e: (Vec<String>, Vec<String>)| (pv(e.0@), texts(e.1@))) == index_fold(fs, i as int).1,
            conflicts_view(names@, paths@, uris@) == index_fold(fs, i as int).2,
            pairs_distinct(unique@.map_values(|e: (String, Uri)| (e.0@, e.1@))),
            pairs_distinct(directories@.map_values(|e: (Vec<String>, Vec<String>)| (pv(e.0@), texts(e.1@)))),
            forall|k: int| 0 <= k < unique@.len() ==> #[trigger] url_file_path_text(unique@[k].1@) is Some,
        decreases files@.len() - i,
    {
        let uri = files[i].clone();
        let ghost k = i as int;
        let ghost st = index_fold(fs, k);
        let ghost uv0 = unique@.map_values(|e: (String, Uri)| (e.0@, e.1@));
        let ghost cv0 = conflicts_view(names@, paths@, uris@);
        proof {
            assert(fs[k] == uri@);
        }
        if let Some(script) = url_file_path(uri.as_str()) {
            if let Some(filename) = path_file_name(&script) {
                if let Some(dirname) = path_parent(&script) {
                    add_to_dir(&mut directories, dirname, filename.clone());
                }
                match find_name(&unique, filename.as_str()) {
                    Some(p) => {
                        proof {
                            assert(uv0[p as int].0 == filename@);
                            lemma_pair_pos_at(uv0, p as int);
                        }
                        let ghost u0 = unique@;
                        let (_, earlier) = unique.remove(p);
                        let earlier_path = match url_file_path(earlier.as_str()) {
                            Some(ep) => ep,
                            None => Vec::new(),
                        };
                        names.push(filename.clone());
                        paths.push(earlier_path);
                        uris.push(earlier);
                        names.push(filename);
                        paths.push(script);
                        uris.push(uri);
                        proof {
                            let uv = unique@.map_values(|e: (String, Uri)| (e.0@, e.1@));
                            assert(uv =~= uv0.remove(p as int));
                            assert forall|a: int, b: int| 0 <= a < uv.len() && 0 <= b < uv.len() && a != b implies #[trigger] uv[a].0 != #[trigger] uv[b].0 by {
                                let a0 = if a < p { a } else { a + 1 };
                                let b0 = if b < p { b } else { b + 1 };
                                assert(uv[a] == uv0[a0]);
                                assert(uv[b] == uv0[b0]);
                            }
                            assert forall|t: int| 0 <= t < unique@.len() implies #[trigger] url_file_path_text(unique@[t].1@) is Some by {
                                let t0 = if t < p { t } else { t + 1 };
                                assert(unique@[t] == u0[t0]);
                            }
                            assert(conflicts_view(names@, paths@, uris@) =~= cv0.push((filename@, url_file_path_text(uv0[p as int].1)->Some_0, uv0[p as int].1)).push((filename@, pv(script@), uri@)));
                        }
                    },
                    None => {
                        proof {
                            assert forall|t: int| 0 <= t < uv0.len() implies #[trigger] uv0[t].0 != filename@ by {
                                assert(uv0[t].0 == unique@[t].0@);
                            }
                        }
                        if contains_uri(&names, filename.as_str()) {
                            proof {
                                let j = choose|j: int| 0 <= j < texts(names@).len() && texts(names@)[j] == filename@;
                                assert(cv0[j].0 == filename@);
                            }
                            names.push(filename);
                            paths.push(script);
                            uris.push(uri);
                            proof {
                                assert(conflicts_view(names@, paths@, uris@) =~= cv0.push((filename@, pv(script@), uri@)));
                            }
                        } else {
                            proof {
                                assert forall|j: int| 0 <= j < cv0.len() implies #[trigger] cv0[j].0 != filename@ by {
                                    assert(texts(names@)[j] == names@[j]@);
                                }
                            }
                            unique.push((filename, uri));
                            proof {
                                let uv = unique@.map_values(|e: (String, Uri)| (e.0@, e.1@));
                                assert(uv =~= uv0.push((filename@, uri@)));
                                assert forall|a: int, b: int| 0 <= a < uv.len() && 0 <= b < uv.len() && a != b implies #[trigger] uv[a].0 != #[trigger] uv[b].0 by {
                                    if a < uv0.len() {
                                        assert(uv[a] == uv0[a]);
                                    }
                                    if b < uv0.len() {
                                        assert(uv[b] == uv0[b]);
                                    }
                                }
                            }
                        }
                    },
                }
            }
        }
        i = i + 1;
    }
    proof {
        let c = index_result(fs).2;
        assert(conflict_names(c) =~= texts(names@));
        assert(conflict_paths(c) =~= paths@.map_values(|p: Vec<String>| pv(p@)));
        assert(conflict_uris(c) =~= texts(uris@));
    }
    (unique, directories, names, paths, uris)
}

/// Whether indexing the scripts can complete.
pub fn index_is_defined(files: &Vec<Uri>) -> (r: bool)
    ensures
        r == index_defined(texts(files@)),
{
    let (_, _, names, paths, _) = collect_index(files);
    all_resolvable(&names, &paths)
}

/// Indexes the scripts by file name: a name that one script has leads to its
/// URI, each directory lists the names of its scripts, and scripts that share
/// a name are found by the shortest tail of their path that tells them apart.
pub fn index_files(files: Vec<Uri>) -> (f: FileIndex)
    requires
        index_defined(texts(files@)),
    ensures
        indexes(f, texts(files@)),
        f.wf(),
        f.paths_known(),
{
    let (unique, directories, names, paths, uris) = collect_index(&files);
    if uris.len() == 0 {
        return FileIndex { by_filename: unique, by_directory: directories, conflict_resolutions: None };
    }
    let resolution = resolve_path_conflicts(names, paths, uris);
    FileIndex { by_filename: unique, by_directory: directories, conflict_resolutions: Some(resolution) }
}

/// Indexes the scripts, or gives nothing where two scripts with the same name
/// cannot be told apart by their paths.
pub fn try_index_files(files: Vec<Uri>) -> (r: Option<FileIndex>)
    ensures
        r is Some <==> index_defined(texts(files@)),
        r matches Some(f) ==> indexes(f, texts(files@)) && f.wf() && f.paths_known(),
{
    if index_is_defined(&files) {
        Some(index_files(files))
    } else {
        None
    }
}

/// The file ends with one of the tails.
pub open spec fn in_tails(res: Option<(Seq<Seq<Seq<char>>>, Seq<Seq<char>>)>, file: Seq<Seq<char>>) -> bool {
    match res {
        Some((tails, _)) => exists|j: int| 0 <= j < tails.len() && ends_with(file, #[trigger] tails[j]),
        None => false,
    }
}

impl FileIndex {
    /// The index is consistent: names and directories are listed once, each
    /// URI names a file path, and each tail has its URI.
    pub open spec fn wf(&self) -> bool {
        &&& pairs_distinct(self.unique_view())
        &&& pairs_distinct(self.dirs_view())
        &&& self.conflict_resolutions matches Some((paths, uris)) ==> paths@.len() == uris@.len()
    }

    /// Each script found by its name has a file path.
    pub open spec fn paths_known(&self) -> bool {
        forall|k: int| 0 <= k < self.by_filename@.len() ==> #[trigger] url_file_path_text(self.by_filename@[k].1@) is Some
    }

    /// The index knows the file: one script has its name and that script is
    /// the file, or the file ends with one of the tails of the scripts with
    /// shared names.
    pub open spec fn knows(&self, file: Seq<Seq<char>>) -> bool {
        knows_in(self.view_all(), file)
    }

    /// Whether the index knows the file. Where one script has the file's
    /// name, its URI must name a file path.
    pub fn contains(&self, file: &Vec<String>) -> (r: bool)
        requires
            self.wf(),
            lookup_defined(self.view_all(), pv(file@)),
        ensures
            r == self.knows(pv(file@)),
    {
        let filename = match path_file_name(file) {
            Some(name) => name,
            None => { return false; },
        };
        let ghost uv = self.unique_view();
        if let Some(i) = find_name(&self.by_filename, filename.as_str()) {
            proof {
                assert(uv[i as int].0 == filename@);
                lemma_pair_pos_at(uv, i as int);
            }
            let found = match url_file_path(self.by_filename[i].1.as_str()) {
                Some(path) => path_equal(&path, file),
                None => false,
            };
            if found {
                return true;
            }
        } else {
            proof {
                assert forall|t: int| 0 <= t < uv.len() implies #[trigger] uv[t].0 != filename@ by {
                    assert(uv[t].0 == self.by_filename@[t].0@);
                }
            }
        }
        match &self.conflict_resolutions {
            Some((paths, uris)) => {
                let ghost tails = paths@.map_values(|p: Vec<String>| pv(p@));
                proof {
                    assert(self.resolutions_view() == Some((tails, texts(uris@))));
                }
                let mut j: usize = 0;
                while j < paths.len()
                    invariant
                        j <= paths@.len(),
                        tails == paths@.map_values(|p: Vec<String>| pv(p@)),
                        self.resolutions_view() == Some((tails, texts(uris@))),
                        file_name(pv(file@)) == Some(filename@),
                        forall|t: int| 0 <= t < j ==> !ends_with(pv(file@), #[trigger] tails[t]),
                    decreases paths@.len() - j,
                {
                    if path_ends_with(file, &paths[j]) {
                        proof {
                            assert(ends_with(pv(file@), tails[j as int]));
                            assert(self.resolutions_view() == Some((tails, texts(uris@))));
                            let rt = self.resolutions_view()->Some_0.0;
                            assert(rt == tails);
                            assert(ends_with(pv(file@), rt[j as int]));
                            assert(in_tails(self.resolutions_view(), pv(file@)));
                        }
                        return true;
                    }
                    j = j + 1;
                }
                false
            },
            None => false,
        }
    }
}

/// The index knows the file: one script has its name and that script is the
/// file, or the file ends with one of the tails of the scripts with shared
/// names.
pub open spec fn knows_in(v: IndexView, file: Seq<Seq<char>>) -> bool {
    match file_name(file) {
        None => false,
        Some(name) => {
            let p = pair_pos(v.0, name);
            ||| (p >= 0 && url_file_path_text(v.0[p].1) == Some(file))
            ||| in_tails(v.2, file)
        },
    }
}

/// Where one script has the file's name, its URI names a file path.
pub open spec fn lookup_defined(v: IndexView, file: Seq<Seq<char>>) -> bool {
    match file_name(file) {
        None => true,
        Some(name) => {
            let p = pair_pos(v.0, name);
            p >= 0 ==> url_file_path_text(v.0[p].1) is Some
        },
    }
}

impl FileIndex {
    /// Whether `contains` can look the file up (`lookup_defined`).
    fn lookup_defined_check(&self, file: &Vec<String>) -> (r: bool)
        requires
            self.wf(),
        ensures
            r == lookup_defined(self.view_all(), pv(file@)),
    {
        let filename = match path_file_name(file) {
            Some(name) => name,
            None => { return true; },
        };
        let ghost uv = self.unique_view();
        match find_name(&self.by_filename, filename.as_str()) {
            Some(i) => {
                proof {
                    assert(uv[i as int].0 == filename@);
                    lemma_pair_pos_at(uv, i as int);
                }
                url_file_path(self.by_filename[i].1.as_str()).is_some()
            },
            None => {
                proof {
                    assert forall|t: int| 0 <= t < uv.len() implies #[trigger] uv[t].0 != filename@ by {
                        assert(uv[t].0 == self.by_filename@[t].0@);
                    }
                }
                true
            },
        }
    }
}

/// The script names a file path with a file name.
pub open spec fn indexable(uri: Seq<char>) -> bool {
    url_file_path_text(uri) matches Some(p) && file_name(p) is Some
}

/// What the index state keeps of the scripts: the names with one script are
/// listed once, each with a script of that name, and every script seen so
/// far is listed under its name or among the shared names with its path.
pub open spec fn index_state_ok(st: IndexState, files: Seq<Seq<char>>, n: int) -> bool {
    &&& pairs_distinct(st.0)
    &&& forall|i: int| 0 <= i < st.0.len() ==> {
        let e = #[trigger] st.0[i];
        url_file_path_text(e.1) matches Some(p) && file_name(p) == Some(e.0)
    }
    &&& forall|k: int| 0 <= k < n && indexable(#[trigger] files[k]) ==> {
        let p = url_file_path_text(files[k])->Some_0;
        let nm = file_name(p)->Some_0;
        ||| exists|i: int| 0 <= i < st.0.len() && #[trigger] st.0[i] == (nm, files[k])
        ||| exists|j: int| 0 <= j < st.2.len() && #[trigger] st.2[j] == (nm, p, files[k])
    }
}

proof fn lemma_index_fold_ok(files: Seq<Seq<char>>, n: int)
    requires
        0 <= n <= files.len(),
    ensures
        index_state_ok(index_fold(files, n), files, n),
    decreases n,
{
    if n > 0 {
        lemma_index_fold_ok(files, n - 1);
        let st = index_fold(files, n - 1);
        let st2 = index_fold(files, n);
        let uri = files[n - 1];
        assert(st2 == index_step(st, uri));
        if indexable(uri) {
            let path = url_file_path_text(uri)->Some_0;
            let name = file_name(path)->Some_0;
            let p = pair_pos(st.0, name);
            if p >= 0 {
                assert(st.0[p].0 == name);
                let earlier = st.0[p].1;
                assert(st2.0 == st.0.remove(p));
                assert(st2.2 == st.2.push((name, url_file_path_text(earlier)->Some_0, earlier)).push((name, path, uri)));
                assert forall|a: int, b: int| 0 <= a < st2.0.len() && 0 <= b < st2.0.len() && a != b implies #[trigger] st2.0[a].0 != #[trigger] st2.0[b].0 by {
                    let a0 = if a < p { a } else { a + 1 };
                    let b0 = if b < p { b } else { b + 1 };
                    assert(st2.0[a] == st.0[a0]);
                    assert(st2.0[b] == st.0[b0]);
                }
                assert forall|i: int| 0 <= i < st2.0.len() implies {
                    let e = #[trigger] st2.0[i];
                    url_file_path_text(e.1) matches Some(q) && file_name(q) == Some(e.0)
                } by {
                    let i0 = if i < p { i } else { i + 1 };
                    assert(st2.0[i] == st.0[i0]);
                }
                assert forall|k: int| 0 <= k < n && indexable(#[trigger] files[k]) implies {
                    let q = url_file_path_text(files[k])->Some_0;
                    let nm = file_name(q)->Some_0;
                    ||| exists|i: int| 0 <= i < st2.0.len() && #[trigger] st2.0[i] == (nm, files[k])
                    ||| exists|j: int| 0 <= j < st2.2.len() && #[trigger] st2.2[j] == (nm, q, files[k])
                } by {
                    let q = url_file_path_text(files[k])->Some_0;
                    let nm = file_name(q)->Some_0;
                    if k == n - 1 {
                        assert(st2.2[st.2.len() + 1int] == (nm, q, files[k]));
                    } else if exists|i: int| 0 <= i < st.0.len() && #[trigger] st.0[i] == (nm, files[k]) {
                        let i = choose|i: int| 0 <= i < st.0.len() && #[trigger] st.0[i] == (nm, files[k]);
                        if i == p {
                            assert(st2.2[st.2.len() as int] == (nm, q, files[k]));
                        } else if i < p {
                            assert(st2.0[i] == st.0[i]);
                        } else {
                            assert(st2.0[i - 1] == st.0[i]);
                        }
                    } else {
                        let j = choose|j: int| 0 <= j < st.2.len() && #[trigger] st.2[j] == (nm, q, files[k]);
                        assert(st2.2[j] == st.2[j]);
                    }
                }
            } else if exists|j: int| 0 <= j < st.2.len() && #[trigger] st.2[j].0 == name {
                assert(st2 == (st.0, st2.1, st.2.push((name, path, uri))));
                assert forall|k: int| 0 <= k < n && indexable(#[trigger] files[k]) implies {
                    let q = url_file_path_text(files[k])->Some_0;
                    let nm = file_name(q)->Some_0;
                    ||| exists|i: int| 0 <= i < st2.0.len() && #[trigger] st2.0[i] == (nm, files[k])
                    ||| exists|j: int| 0 <= j < st2.2.len() && #[trigger] st2.2[j] == (nm, q, files[k])
                } by {
                    let q = url_file_path_text(files[k])->Some_0;
                    let nm = file_name(q)->Some_0;
                    if k == n - 1 {
                        assert(st2.2[st.2.len() as int] == (nm, q, files[k]));
                    } else if exists|i: int| 0 <= i < st.0.len() && #[trigger] st.0[i] == (nm, files[k]) {
                        let i = choose|i: int| 0 <= i < st.0.len() && #[trigger] st.0[i] == (nm, files[k]);
                        assert(st2.0[i] == st.0[i]);
                    } else {
                        let j = choose|j: int| 0 <= j < st.2.len() && #[trigger] st.2[j] == (nm, q, files[k]);
                        assert(st2.2[j] == st.2[j]);
                    }
                }
            } else {
                assert(st2 == (st.0.push((name, uri)), st2.1, st.2));
                assert forall|i: int| 0 <= i < st.0.len() implies #[trigger] st.0[i].0 != name by {}
                assert forall|a: int, b: int| 0 <= a < st2.0.len() && 0 <= b < st2.0.len() && a != b implies #[trigger] st2.0[a].0 != #[trigger] st2.0[b].0 by {
                    if a < st.0.len() {
                        assert(st2.0[a] == st.0[a]);
                    }
                    if b < st.0.len() {
                        assert(st2.0[b] == st.0[b]);
                    }
                }
                assert forall|i: int| 0 <= i < st2.0.len() implies {
                    let e = #[trigger] st2.0[i];
                    url_file_path_text(e.1) matches Some(q) && file_name(q) == Some(e.0)
                } by {
                    if i < st.0.len() {
                        assert(st2.0[i] == st.0[i]);
                    }
                }
                assert forall|k: int| 0 <= k < n && indexable(#[trigger] files[k]) implies {
                    let q = url_file_path_text(files[k])->Some_0;
                    let nm = file_name(q)->Some_0;
                    ||| exists|i: int| 0 <= i < st2.0.len() && #[trigger] st2.0[i] == (nm, files[k])
                    ||| exists|j: int| 0 <= j < st2.2.len() && #[trigger] st2.2[j] == (nm, q, files[k])
                } by {
                    let q = url_file_path_text(files[k])->Some_0;
                    let nm = file_name(q)->Some_0;
                    if k == n - 1 {
                        assert(st2.0[st.0.len() as int] == (nm, files[k]));
                    } else if exists|i: int| 0 <= i < st.0.len() && #[trigger] st.0[i] == (nm, files[k]) {
                        let i = choose|i: int| 0 <= i < st.0.len() && #[trigger] st.0[i] == (nm, files[k]);
                        assert(st2.0[i] == st.0[i]);
                    } else {
                        let j = choose|j: int| 0 <= j < st.2.len() && #[trigger] st.2[j] == (nm, q, files[k]);
                        assert(st2.2[j] == st.2[j]);
                    }
                }
            }
        } else {
            assert(st2 == st);
        }
    }
}

proof fn lemma_suffix_len_bound(name: Seq<char>, path: Seq<Seq<char>>, names: Seq<Seq<char>>, paths: Seq<Seq<Seq<char>>>, n: int)
    requires
        n <= names.len(),
        names.len() == paths.len(),
    ensures
        0 <= suffix_len(name, path, names, paths, n) <= path.len(),
    decreases n,
{
    if n > 0 {
        lemma_suffix_len_bound(name, path, names, paths, n - 1);
        lemma_common_tail_bound(paths[n - 1], path);
    }
}

/// Every script of the workspace that names a file is known to the index
/// built from the scripts: under its name where no other script shares it,
/// else by the tail of its path.
pub proof fn law_indexed_files_are_found(files: Seq<Seq<char>>, f: FileIndex, k: int)
    requires
        indexes(f, files),
        0 <= k < files.len(),
        indexable(files[k]),
    ensures
        f.knows(url_file_path_text(files[k])->Some_0),
{
    lemma_index_fold_ok(files, files.len() as int);
    let st = index_result(files);
    let q = url_file_path_text(files[k])->Some_0;
    let nm = file_name(q)->Some_0;
    assert(indexable(files[k]));
    if exists|i: int| 0 <= i < st.0.len() && #[trigger] st.0[i] == (nm, files[k]) {
        let i = choose|i: int| 0 <= i < st.0.len() && #[trigger] st.0[i] == (nm, files[k]);
        lemma_pair_pos_at(st.0, i);
        assert(f.unique_view() == st.0);
    } else {
        let j = choose|j: int| 0 <= j < st.2.len() && #[trigger] st.2[j] == (nm, q, files[k]);
        let names = conflict_names(st.2);
        let paths = conflict_paths(st.2);
        assert(paths[j] == q);
        lemma_suffix_len_bound(names[j], paths[j], names, paths, names.len() as int);
        let tails = resolved(names, paths);
        assert(f.resolutions_view() == Some((tails, conflict_uris(st.2))));
        let rt = f.resolutions_view()->Some_0.0;
        assert(rt == tails);
        assert(ends_with(q, rt[j]));
        assert(in_tails(f.resolutions_view(), q));
    }
}

/// The pairs without the one with key `k`.
pub open spec fn pair_remove<K, V>(s: Seq<(K, V)>, k: K) -> Seq<(K, V)> {
    let p = pair_pos(s, k);
    if p >= 0 {
        s.remove(p)
    } else {
        s
    }
}

/// The pairs with `v` under the key `k`, in place of what was there, or
/// added at the end.
pub open spec fn pair_insert<K, V>(s: Seq<(K, V)>, k: K, v: V) -> Seq<(K, V)> {
    let p = pair_pos(s, k);
    if p >= 0 {
        s.update(p, (k, v))
    } else {
        s.push((k, v))
    }
}

/// The value under the key `k`.
pub open spec fn pair_get<K, V>(s: Seq<(K, V)>, k: K) -> Option<V> {
    let p = pair_pos(s, k);
    if p >= 0 {
        Some(s[p].1)
    } else {
        None
    }
}

/// The view of the name table.
pub open spec fn names_view(v: Seq<(String, Uri)>) -> Seq<(Seq<char>, Seq<char>)> {
    v.map_values(|e: (String, Uri)| (e.0@, e.1@))
}

/// Takes the entry for `name` out of the name table.
fn remove_name(v: &mut Vec<(String, Uri)>, name: &str) -> (r: Option<Uri>)
    requires
        pairs_distinct(names_view(old(v)@)),
    ensures
        names_view(final(v)@) == pair_remove(names_view(old(v)@), name@),
        pairs_distinct(names_view(final(v)@)),
        match r {
            Some(u) => pair_get(names_view(old(v)@), name@) == Some(u@),
            None => pair_get(names_view(old(v)@), name@) is None,
        },
{
    let ghost g = names_view(v@);
    match find_name(v, name) {
        Some(i) => {
            proof {
                assert(g[i as int].0 == name@);
                lemma_pair_pos_at(g, i as int);
            }
            let (_, u) = v.remove(i);
            proof {
                let g2 = names_view(v@);
                assert(g2 =~= g.remove(i as int));
                assert forall|a: int, b: int| 0 <= a < g2.len() && 0 <= b < g2.len() && a != b implies #[trigger] g2[a].0 != #[trigger] g2[b].0 by {
                    let a0 = if a < i { a } else { a + 1 };
                    let b0 = if b < i { b } else { b + 1 };
                    assert(g2[a] == g[a0]);
                    assert(g2[b] == g[b0]);
                }
            }
            Some(u)
        },
        None => {
            proof {
                assert forall|t: int| 0 <= t < g.len() implies #[trigger] g[t].0 != name@ by {
                    assert(g[t].0 == v@[t].0@);
                }
            }
            None
        },
    }
}

/// Puts `uri` under `name` in the name table.
fn insert_name(v: &mut Vec<(String, Uri)>, name: String, uri: Uri)
    requires
        pairs_distinct(names_view(old(v)@)),
    ensures
        names_view(final(v)@) == pair_insert(names_view(old(v)@), name@, uri@),
        pairs_distinct(names_view(final(v)@)),
{
    let ghost g = names_view(v@);
    let ghost nv = name@;
    let ghost uv = uri@;
    match find_name(v, name.as_str()) {
        Some(i) => {
            proof {
                assert(g[i as int].0 == nv);
                lemma_pair_pos_at(g, i as int);
            }
            v.set(i, (name, uri));
            proof {
                let g2 = names_view(v@);
                assert(g2 =~= g.update(i as int, (nv, uv)));
                assert forall|a: int, b: int| 0 <= a < g2.len() && 0 <= b < g2.len() && a != b implies #[trigger] g2[a].0 != #[trigger] g2[b].0 by {
                    assert(g2[a].0 == g[a].0);
                    assert(g2[b].0 == g[b].0);
                }
            }
        },
        None => {
            proof {
                assert forall|t: int| 0 <= t < g.len() implies #[trigger] g[t].0 != nv by {
                    assert(g[t].0 == v@[t].0@);
                }
            }
            v.push((name, uri));
            proof {
                let g2 = names_view(v@);
                assert(g2 =~= g.push((nv, uv)));
                assert forall|a: int, b: int| 0 <= a < g2.len() && 0 <= b < g2.len() && a != b implies #[trigger] g2[a].0 != #[trigger] g2[b].0 by {
                    if a < g.len() {
                        assert(g2[a] == g[a]);
                    }
                    if b < g.len() {
                        assert(g2[b] == g[b]);
                    }
                }
            }
        },
    }
}

/// A path, component by component.
pub type PathView = Seq<Seq<char>>;

/// What the index holds: names with their URIs, directories with their
/// names, and the tails with the URIs of the scripts with shared names.
pub type IndexView = (
    Seq<(Seq<char>, Seq<char>)>,
    Seq<(PathView, Seq<Seq<char>>)>,
    Option<(Seq<PathView>, Seq<Seq<char>>)>,
);

impl FileIndex {
    pub open spec fn view_all(&self) -> IndexView {
        (self.unique_view(), self.dirs_view(), self.resolutions_view())
    }
}

/// The sequence with the element at `i` replaced by the last one, and the
/// last one dropped (`Vec::swap_remove`).
pub open spec fn swap_removed<T>(s: Seq<T>, i: int) -> Seq<T> {
    s.update(i, s.last()).drop_last()
}

/// The first tail that `file` ends with, or -1.
pub open spec fn first_tail(tails: Seq<PathView>, file: PathView) -> int {
    if exists|j: int| 0 <= j < tails.len() && ends_with(file, #[trigger] tails[j]) {
        choose|j: int|
            0 <= j < tails.len() && ends_with(file, #[trigger] tails[j]) && forall|t: int|
                0 <= t < j ==> !ends_with(file, #[trigger] tails[t])
    } else {
        -1
    }
}

/// The resolutions without the tail that `file` ends with first, and whether
/// there was one. When the last tail goes, so do the resolutions.
pub open spec fn drop_tail(
    res: Option<(Seq<PathView>, Seq<Seq<char>>)>,
    file: PathView,
) -> (Option<(Seq<PathView>, Seq<Seq<char>>)>, bool) {
    match res {
        Some((tails, uris)) => {
            let ii = first_tail(tails, file);
            if ii >= 0 {
                let t2 = swap_removed(tails, ii);
                if t2.len() == 0 {
                    (None, true)
                } else {
                    (Some((t2, swap_removed(uris, ii))), true)
                }
            } else {
                (res, false)
            }
        },
        None => (None, false),
    }
}

/// What moving a script from `old` to `new` does to the name table and the
/// tails, and which paths it leaves to be resolved again.
pub open spec fn filename_step(v: IndexView, old: PathView, new: PathView) -> (IndexView, Option<Seq<PathView>>) {
    let on = file_name(old)->Some_0;
    let nn = file_name(new)->Some_0;
    if on == nn {
        let p = pair_pos(v.0, on);
        if p >= 0 {
            let url = spec_file_url(new)->Some_0;
            let u2 = if url != v.0[p].1 { pair_insert(v.0, on, url) } else { v.0 };
            ((u2, v.1, v.2), None)
        } else {
            ((v.0, v.1, drop_tail(v.2, old).0), Some(seq![new]))
        }
    } else {
        match pair_get(v.0, nn) {
            Some(dup) => {
                let u1 = pair_remove(v.0, nn);
                let had_old = pair_get(u1, on) is Some;
                let r2 = if had_old { v.2 } else { drop_tail(v.2, old).0 };
                ((pair_remove(u1, on), v.1, r2), Some(seq![url_file_path_text(dup)->Some_0, new]))
            },
            None => {
                let had_old = pair_get(v.0, on) is Some;
                let r2 = if had_old { v.2 } else { drop_tail(v.2, old).0 };
                ((pair_remove(v.0, on), v.1, r2), Some(seq![new]))
            },
        }
    }
}

/// Moving a script from `old` to `new` can be recorded in the name table:
/// both paths have file names, the new path has a URL where it is needed, a
/// script known only by its tail is found among the tails, and a replaced
/// name's script has a path.
pub open spec fn filename_step_ok(v: IndexView, old: PathView, new: PathView) -> bool {
    &&& file_name(old) is Some
    &&& file_name(new) is Some
    &&& {
        let on = file_name(old)->Some_0;
        let nn = file_name(new)->Some_0;
        if on == nn {
            if pair_pos(v.0, on) >= 0 {
                spec_file_url(new) is Some
            } else {
                drop_tail(v.2, old).1
            }
        } else {
            match pair_get(v.0, nn) {
                Some(dup) => {
                    &&& url_file_path_text(dup) is Some
                    &&& (pair_get(pair_remove(v.0, nn), on) is None ==> drop_tail(v.2, old).1)
                },
                None => true,
            }
        }
    }
}

/// The first position of `x`, or -1.
pub open spec fn first_pos<T>(s: Seq<T>, x: T) -> int {
    if exists|i: int| 0 <= i < s.len() && s[i] == x {
        choose|i: int| 0 <= i < s.len() && s[i] == x && forall|t: int| 0 <= t < i ==> s[t] != x
    } else {
        -1
    }
}

/// What moving a script from `old` to `new` does to the directory table.
pub open spec fn dir_step(d: Seq<(PathView, Seq<Seq<char>>)>, old: PathView, new: PathView) -> Seq<(PathView, Seq<Seq<char>>)> {
    let od = parent(old)->Some_0;
    let nd = parent(new)->Some_0;
    let on = file_name(old)->Some_0;
    let nn = file_name(new)->Some_0;
    if od == nd {
        match pair_get(d, od) {
            Some(files) => if files.contains(nn) {
                d
            } else {
                pair_insert(d, od, files.update(first_pos(files, on), nn))
            },
            None => d,
        }
    } else {
        let files = pair_get(d, od)->Some_0;
        let d1 = pair_insert(d, od, swap_removed(files, first_pos(files, on)));
        match pair_get(d1, nd) {
            Some(nf) => if nf.contains(nn) {
                d1
            } else {
                pair_insert(d1, nd, nf.push(nn))
            },
            None => pair_insert(d1, nd, seq![nn]),
        }
    }
}

/// Moving a script from `old` to `new` can be recorded in the directory
/// table: both paths have a directory and a name, and the old name is listed
/// where it has to be.
pub open spec fn dir_step_ok(d: Seq<(PathView, Seq<Seq<char>>)>, old: PathView, new: PathView) -> bool {
    &&& parent(old) is Some
    &&& parent(new) is Some
    &&& file_name(old) is Some
    &&& file_name(new) is Some
    &&& {
        let od = parent(old)->Some_0;
        let nd = parent(new)->Some_0;
        let on = file_name(old)->Some_0;
        let nn = file_name(new)->Some_0;
        if od == nd {
            pair_get(d, od) matches Some(files) ==> (files.contains(nn) || files.contains(on))
        } else {
            pair_get(d, od) matches Some(files) && files.contains(on)
        }
    }
}

proof fn lemma_first_tail(tails: Seq<PathView>, file: PathView, i: int)
    requires
        0 <= i < tails.len(),
        ends_with(file, tails[i]),
        forall|t: int| 0 <= t < i ==> !ends_with(file, #[trigger] tails[t]),
    ensures
        first_tail(tails, file) == i,
{
    let k = first_tail(tails, file);
    assert(ends_with(file, tails[i]));
    if k < i {
        assert(!ends_with(file, tails[k]));
    } else if k > i {
        assert(!ends_with(file, tails[i]));
    }
}

/// Each tail has its URI.
pub open spec fn res_lens_ok(r: Option<(Vec<Vec<String>>, Vec<Uri>)>) -> bool {
    r matches Some((t, u)) ==> t@.len() == u@.len()
}

/// Finds the first tail that `file` ends with.
fn find_tail(paths: &Vec<Vec<String>>, file: &Vec<String>) -> (r: Option<usize>)
    ensures
        match r {
            Some(i) => i < paths@.len() && first_tail(paths@.map_values(|p: Vec<String>| pv(p@)), pv(file@)) == i,
            None => first_tail(paths@.map_values(|p: Vec<String>| pv(p@)), pv(file@)) == -1,
        },
{
    let ghost tails = paths@.map_values(|p: Vec<String>| pv(p@));
    let mut j: usize = 0;
    while j < paths.len()
        invariant
            j <= paths@.len(),
            tails == paths@.map_values(|p: Vec<String>| pv(p@)),
            forall|t: int| 0 <= t < j ==> !ends_with(pv(file@), #[trigger] tails[t]),
        decreases paths@.len() - j,
    {
        if path_ends_with(file, &paths[j]) {
            proof {
                lemma_first_tail(tails, pv(file@), j as int);
            }
            return Some(j);
        }
        j = j + 1;
    }
    None
}

/// Removes the tail that `file` ends with first, and its URI.
fn drop_tail_exec(res: &mut Option<(Vec<Vec<String>>, Vec<Uri>)>, file: &Vec<String>) -> (found: bool)
    requires
        res_lens_ok(*old(res)),
    ensures
        res_view(*final(res)) == drop_tail(res_view(*old(res)), pv(file@)).0,
        found == drop_tail(res_view(*old(res)), pv(file@)).1,
        res_lens_ok(*final(res)),
{
    let mut taken: Option<(Vec<Vec<String>>, Vec<Uri>)> = None;
    std::mem::swap(&mut taken, res);
    match taken {
        Some((mut paths, mut uris)) => {
            let ghost tails = paths@.map_values(|p: Vec<String>| pv(p@));
            let ghost us = texts(uris@);
            match find_tail(&paths, file) {
                Some(ii) => {
                    paths.swap_remove(ii);
                    proof {
                        assert(paths@.map_values(|p: Vec<String>| pv(p@)) =~= swap_removed(tails, ii as int));
                    }
                    if paths.len() == 0 {
                        *res = None;
                    } else {
                        uris.swap_remove(ii);
                        proof {
                            assert(texts(uris@) =~= swap_removed(us, ii as int));
                        }
                        *res = Some((paths, uris));
                    }
                    true
                },
                None => {
                    *res = Some((paths, uris));
                    false
                },
            }
        },
        None => false,
    }
}

/// A copy of a path.
pub fn copy_path(p: &Vec<String>) -> (r: Vec<String>)
    ensures
        r@ == p@,
{
    let mut r: Vec<String> = Vec::new();
    let mut i: usize = 0;
    while i < p.len()
        invariant
            i <= p@.len(),
            r@ == p@.take(i as int),
        decreases p@.len() - i,
    {
        r.push(p[i].clone());
        proof {
            assert(r@ =~= p@.take(i + 1));
        }
        i = i + 1;
    }
    proof {
        assert(r@ =~= p@);
    }
    r
}

impl FileIndex {
    /// Records in the name table that a script moved from `old_path` to
    /// `new_path`; gives the paths whose names must be resolved again.
    fn update_lookup_by_filename(&mut self, old_path: &Vec<String>, new_path: &Vec<String>) -> (r: Option<Vec<Vec<String>>>)
        requires
            old(self).wf(),
            filename_step_ok(old(self).view_all(), pv(old_path@), pv(new_path@)),
        ensures
            final(self).wf(),
            final(self).view_all() == filename_step(old(self).view_all(), pv(old_path@), pv(new_path@)).0,
            match r {
                Some(v) => filename_step(old(self).view_all(), pv(old_path@), pv(new_path@)).1 == Some(
                    v@.map_values(|p: Vec<String>| pv(p@)),
                ),
                None => filename_step(old(self).view_all(), pv(old_path@), pv(new_path@)).1 is None,
            },
    {
        let ghost v = self.view_all();
        let ghost op = pv(old_path@);
        let ghost np = pv(new_path@);
        let old_filename = match path_file_name(old_path) {
            Some(n) => n,
            None => { return None; },
        };
        let new_filename = match path_file_name(new_path) {
            Some(n) => n,
            None => { return None; },
        };
        if str_equal(old_filename.as_str(), new_filename.as_str()) {
            if let Some(i) = find_name(&self.by_filename, old_filename.as_str()) {
                proof {
                    assert(v.0[i as int].0 == old_filename@);
                    lemma_pair_pos_at(v.0, i as int);
                }
                let path = match file_url(new_path) {
                    Some(u) => u,
                    None => { return None; },
                };
                if !str_equal(path.as_str(), self.by_filename[i].1.as_str()) {
                    self.by_filename.set(i, (old_filename, path));
                    proof {
                        assert(self.unique_view() =~= v.0.update(i as int, (op.last(), spec_file_url(np)->Some_0)));
                        let g2 = self.unique_view();
                        assert forall|a: int, b: int| 0 <= a < g2.len() && 0 <= b < g2.len() && a != b implies #[trigger] g2[a].0 != #[trigger] g2[b].0 by {
                            assert(g2[a].0 == v.0[a].0);
                            assert(g2[b].0 == v.0[b].0);
                        }
                    }
                }
                None
            } else {
                proof {
                    assert forall|t: int| 0 <= t < v.0.len() implies #[trigger] v.0[t].0 != old_filename@ by {
                        assert(v.0[t].0 == self.by_filename@[t].0@);
                    }
                }
                drop_tail_exec(&mut self.conflict_resolutions, old_path);
                let mut deferred: Vec<Vec<String>> = Vec::new();
                deferred.push(copy_path(new_path));
                proof {
                    assert(deferred@.map_values(|p: Vec<String>| pv(p@)) =~= seq![np]);
                }
                Some(deferred)
            }
        } else if let Some(dup) = remove_name(&mut self.by_filename, new_filename.as_str()) {
            let ghost u1 = self.unique_view();
            if remove_name(&mut self.by_filename, old_filename.as_str()).is_none() {
                drop_tail_exec(&mut self.conflict_resolutions, old_path);
            }
            let dup_path = match url_file_path(dup.as_str()) {
                Some(p) => p,
                None => { return None; },
            };
            let mut deferred: Vec<Vec<String>> = Vec::new();
            deferred.push(dup_path);
            deferred.push(copy_path(new_path));
            proof {
                assert(deferred@.map_values(|p: Vec<String>| pv(p@)) =~= seq![url_file_path_text(dup@)->Some_0, np]);
            }
            Some(deferred)
        } else {
            if remove_name(&mut self.by_filename, old_filename.as_str()).is_none() {
                drop_tail_exec(&mut self.conflict_resolutions, old_path);
            }
            let mut deferred: Vec<Vec<String>> = Vec::new();
            deferred.push(copy_path(new_path));
            proof {
                assert(deferred@.map_values(|p: Vec<String>| pv(p@)) =~= seq![np]);
            }
            Some(deferred)
        }
    }
}

proof fn lemma_first_pos<T>(s: Seq<T>, x: T, i: int)
    requires
        0 <= i < s.len(),
        s[i] == x,
        forall|t: int| 0 <= t < i ==> s[t] != x,
    ensures
        first_pos(s, x) == i,
{
    let k = first_pos(s, x);
    assert(s[i] == x);
    if k < i {
        assert(s[k] != x);
    } else if k > i {
        assert(s[i] != x);
    }
}

/// Finds the first text with the characters of `x`.
fn find_text(v: &Vec<String>, x: &str) -> (r: Option<usize>)
    ensures
        match r {
            Some(i) => i < v@.len() && texts(v@)[i as int] == x@ && first_pos(texts(v@), x@) == i,
            None => !texts(v@).contains(x@),
        },
{
    let ghost t = texts(v@);
    let mut j: usize = 0;
    while j < v.len()
        invariant
            j <= v@.len(),
            t == texts(v@),
            forall|k: int| 0 <= k < j ==> #[trigger] t[k] != x@,
        decreases v@.len() - j,
    {
        if str_equal(v[j].as_str(), x) {
            proof {
                assert(t[j as int] == x@);
                lemma_first_pos(t, x@, j as int);
            }
            return Some(j);
        }
        j = j + 1;
    }
    None
}

impl FileIndex {
    /// Records in the directory table that a script moved from `old` to `new`.
    #[verifier::rlimit(100)]
    #[verifier::spinoff_prover]
    fn update_lookup_by_directory(&mut self, old_file: &Vec<String>, new_file: &Vec<String>)
        requires
            old(self).wf(),
            dir_step_ok(old(self).dirs_view(), pv(old_file@), pv(new_file@)),
        ensures
            final(self).wf(),
            final(self).dirs_view() == dir_step(old(self).dirs_view(), pv(old_file@), pv(new_file@)),
            final(self).unique_view() == old(self).unique_view(),
            final(self).conflict_resolutions == old(self).conflict_resolutions,
    {
        let ghost d = self.dirs_view();
        let old_dir = match path_parent(old_file) {
            Some(p) => p,
            None => { return; },
        };
        let new_dir = match path_parent(new_file) {
            Some(p) => p,
            None => { return; },
        };
        let old_filename = match path_file_name(old_file) {
            Some(n) => n,
            None => { return; },
        };
        let new_filename = match path_file_name(new_file) {
            Some(n) => n,
            None => { return; },
        };
        if path_equal(&old_dir, &new_dir) {
            if let Some(i) = find_dir(&self.by_directory, &old_dir) {
                proof {
                    assert(d[i as int].0 == pv(old_dir@));
                    lemma_pair_pos_at(d, i as int);
                    assert(d[i as int].1 == texts(self.by_directory@[i as int].1@));
                }
                if find_text(&self.by_directory[i].1, new_filename.as_str()).is_some() {
                    return;
                }
                if let Some(idx) = find_text(&self.by_directory[i].1, old_filename.as_str()) {
                    let ghost dirs0 = self.by_directory@;
                    let ghost fv0 = self.by_directory@[i as int].1@;
                    let ghost nv = new_filename@;
                    self.by_directory[i].1.set(idx, new_filename);
                    proof {
                        assert(self.by_directory@[i as int].1@ == fv0.update(idx as int, self.by_directory@[i as int].1@[idx as int]));
                        assert(texts(self.by_directory@[i as int].1@) =~= texts(fv0).update(idx as int, nv));
                        assert(forall|a: int| 0 <= a < dirs0.len() && a != i ==> self.by_directory@[a] == dirs0[a]);
                        let d2 = self.dirs_view();
                        assert(d2 =~= d.update(i as int, (d[i as int].0, d[i as int].1.update(idx as int, pv(new_file@).last()))));
                        assert forall|a: int, b: int| 0 <= a < d2.len() && 0 <= b < d2.len() && a != b implies #[trigger] d2[a].0 != #[trigger] d2[b].0 by {
                            assert(d2[a].0 == d[a].0);
                            assert(d2[b].0 == d[b].0);
                        }
                    }
                }
            } else {
                proof {
                    assert forall|t: int| 0 <= t < d.len() implies #[trigger] d[t].0 != pv(old_dir@) by {
                        assert(d[t].0 == pv(self.by_directory@[t].0@));
                    }
                }
            }
        } else if let Some(i) = find_dir(&self.by_directory, &old_dir) {
            proof {
                assert(d[i as int].0 == pv(old_dir@));
                lemma_pair_pos_at(d, i as int);
                assert(d[i as int].1 == texts(self.by_directory@[i as int].1@));
            }
            if let Some(idx) = find_text(&self.by_directory[i].1, old_filename.as_str()) {
                let ghost f0 = d[i as int].1;
                let ghost dirs0 = self.by_directory@;
                let ghost fv0 = self.by_directory@[i as int].1@;
                self.by_directory[i].1.swap_remove(idx);
                let ghost d1 = self.dirs_view();
                proof {
                    assert(self.by_directory@[i as int].1@ == swap_removed(fv0, idx as int));
                    assert(texts(self.by_directory@[i as int].1@) =~= swap_removed(texts(fv0), idx as int));
                    assert(forall|a: int| 0 <= a < dirs0.len() && a != i ==> self.by_directory@[a] == dirs0[a]);
                    assert(d1 =~= d.update(i as int, (d[i as int].0, swap_removed(f0, idx as int))));
                    assert forall|a: int, b: int| 0 <= a < d1.len() && 0 <= b < d1.len() && a != b implies #[trigger] d1[a].0 != #[trigger] d1[b].0 by {
                        assert(d1[a].0 == d[a].0);
                        assert(d1[b].0 == d[b].0);
                    }
                }
                if let Some(j) = find_dir(&self.by_directory, &new_dir) {
                    proof {
                        assert(d1[j as int].0 == pv(new_dir@));
                        lemma_pair_pos_at(d1, j as int);
                        assert(d1[j as int].1 == texts(self.by_directory@[j as int].1@));
                    }
                    if find_text(&self.by_directory[j].1, new_filename.as_str()).is_some() {
                        return;
                    }
                    let ghost dirs1 = self.by_directory@;
                    let ghost fv1 = self.by_directory@[j as int].1@;
                    let ghost nv = new_filename@;
                    self.by_directory[j].1.push(new_filename);
                    proof {
                        assert(texts(self.by_directory@[j as int].1@) =~= texts(fv1).push(nv));
                        assert(forall|a: int| 0 <= a < dirs1.len() && a != j ==> self.by_directory@[a] == dirs1[a]);
                        let d2 = self.dirs_view();
                        assert(d2 =~= d1.update(j as int, (d1[j as int].0, d1[j as int].1.push(pv(new_file@).last()))));
                        assert forall|a: int, b: int| 0 <= a < d2.len() && 0 <= b < d2.len() && a != b implies #[trigger] d2[a].0 != #[trigger] d2[b].0 by {
                            assert(d2[a].0 == d1[a].0);
                            assert(d2[b].0 == d1[b].0);
                        }
                    }
                } else {
                    proof {
                        assert forall|t: int| 0 <= t < d1.len() implies #[trigger] d1[t].0 != pv(new_dir@) by {
                            assert(d1[t].0 == pv(self.by_directory@[t].0@));
                        }
                    }
                    let mut names: Vec<String> = Vec::new();
                    names.push(new_filename);
                    self.by_directory.push((new_dir, names));
                    proof {
                        let d2 = self.dirs_view();
                        assert(texts(names@) =~= seq![pv(new_file@).last()]);
                        assert(d2 =~= d1.push((pv(new_dir@), seq![pv(new_file@).last()])));
                        assert forall|a: int, b: int| 0 <= a < d2.len() && 0 <= b < d2.len() && a != b implies #[trigger] d2[a].0 != #[trigger] d2[b].0 by {
                            if a < d1.len() {
                                assert(d2[a] == d1[a]);
                            }
                            if b < d1.len() {
                                assert(d2[b] == d1[b]);
                            }
                        }
                    }
                }
            }
        }
    }
}

/// How often `x` occurs among the first `n` names.
pub open spec fn count_of(names: Seq<Seq<char>>, x: Seq<char>, n: int) -> nat
    decreases n,
{
    if n <= 0 {
        0
    } else {
        count_of(names, x, n - 1) + if names[n - 1] == x { 1nat } else { 0nat }
    }
}

/// The mark by which a path stays among the shared names: its name's count
/// less one, as a byte.
pub open spec fn keep_mark(names: Seq<Seq<char>>, i: int) -> u8 {
    (count_of(names, names[i], names.len() as int) - 1) as u8
}

/// The elements of `s` whose mark is not zero.
pub open spec fn kept<T>(s: Seq<T>, names: Seq<Seq<char>>, n: int) -> Seq<T>
    decreases n,
{
    if n <= 0 {
        Seq::empty()
    } else {
        let prev = kept(s, names, n - 1);
        if keep_mark(names, n - 1) != 0 {
            prev.push(s[n - 1])
        } else {
            prev
        }
    }
}

/// The name table after the names that occur once among `names` have been
/// put in, in order.
pub open spec fn names_put(
    u: Seq<(Seq<char>, Seq<char>)>,
    names: Seq<Seq<char>>,
    urls: Seq<Seq<char>>,
    n: int,
) -> Seq<(Seq<char>, Seq<char>)>
    decreases n,
{
    if n <= 0 {
        u
    } else {
        let prev = names_put(u, names, urls, n - 1);
        if count_of(names, names[n - 1], names.len() as int) == 1 {
            pair_insert(prev, names[n - 1], urls[n - 1])
        } else {
            prev
        }
    }
}

/// The file names of the paths.
pub open spec fn names_of(files: Seq<PathView>) -> Seq<Seq<char>> {
    files.map_values(|p: PathView| file_name(p)->Some_0)
}

/// The file URLs of the paths.
pub open spec fn urls_of(files: Seq<PathView>) -> Seq<Seq<char>> {
    files.map_values(|p: PathView| spec_file_url(p)->Some_0)
}

/// The paths can be resolved again: each has a name and a URL, and those
/// that keep shared names are told apart by their tails.
pub open spec fn conflict_step_ok(files: Seq<PathView>) -> bool {
    let names = names_of(files);
    &&& forall|i: int| 0 <= i < files.len() ==> file_name(#[trigger] files[i]) is Some
    &&& forall|i: int| 0 <= i < files.len() ==> spec_file_url(#[trigger] files[i]) is Some
    &&& resolvable(kept(names, names, names.len() as int), kept(files, names, names.len() as int))
}

/// The index after the paths have been resolved again: names that occur
/// once go to the name table, the others get tails.
pub open spec fn conflict_step(v: IndexView, files: Seq<PathView>) -> IndexView {
    let names = names_of(files);
    let urls = urls_of(files);
    let n = names.len() as int;
    let kn = kept(names, names, n);
    (
        names_put(v.0, names, urls, n),
        v.1,
        if kn.len() == 0 {
            None
        } else {
            Some((resolved(kn, kept(files, names, n)), kept(urls, names, n)))
        },
    )
}

proof fn lemma_kept_len<A, B>(a: Seq<A>, b: Seq<B>, names: Seq<Seq<char>>, n: int)
    ensures
        kept(a, names, n).len() == kept(b, names, n).len(),
    decreases n,
{
    if n > 0 {
        lemma_kept_len(a, b, names, n - 1);
    }
}

/// How often `x` occurs among the texts.
fn count_text(v: &Vec<String>, x: &str) -> (n: usize)
    ensures
        n == count_of(texts(v@), x@, v@.len() as int),
{
    let ghost t = texts(v@);
    let mut n: usize = 0;
    let mut i: usize = 0;
    while i < v.len()
        invariant
            i <= v@.len(),
            t == texts(v@),
            n == count_of(t, x@, i as int),
            n <= i,
        decreases v@.len() - i,
    {
        proof {
            assert(t[i as int] == v@[i as int]@);
        }
        if str_equal(v[i].as_str(), x) {
            n = n + 1;
        }
        i = i + 1;
    }
    n
}

proof fn lemma_count_at_least_one(names: Seq<Seq<char>>, i: int, n: int)
    requires
        0 <= i < n <= names.len(),
    ensures
        count_of(names, names[i], n) >= 1,
    decreases n,
{
    if n - 1 > i {
        lemma_count_at_least_one(names, i, n - 1);
    }
}

impl FileIndex {
    /// Resolves the names of the paths again: a name that one path has goes
    /// to the name table, and the paths with shared names get new tails.
    fn update_conflict_resolutions(&mut self, files: Vec<Vec<String>>)
        requires
            old(self).wf(),
            conflict_step_ok(files@.map_values(|p: Vec<String>| pv(p@))),
        ensures
            final(self).wf(),
            final(self).view_all() == conflict_step(old(self).view_all(), files@.map_values(|p: Vec<String>| pv(p@))),
    {
        let ghost fv = files@.map_values(|p: Vec<String>| pv(p@));
        let ghost names_v = names_of(fv);
        let ghost urls_v = urls_of(fv);
        let mut filenames: Vec<String> = Vec::new();
        let mut uris: Vec<Uri> = Vec::new();
        let mut i: usize = 0;
        while i < files.len()
            invariant
                i <= files@.len(),
                fv == files@.map_values(|p: Vec<String>| pv(p@)),
                conflict_step_ok(fv),
                names_v == names_of(fv),
                urls_v == urls_of(fv),
                texts(filenames@) == names_v.take(i as int),
                texts(uris@) == urls_v.take(i as int),
            decreases files@.len() - i,
        {
            proof {
                assert(fv[i as int] == pv(files@[i as int]@));
                assert(file_name(fv[i as int]) is Some);
                assert(spec_file_url(fv[i as int]) is Some);
            }
            let name = match path_file_name(&files[i]) {
                Some(n) => n,
                None => String::new(),
            };
            let url = match file_url(&files[i]) {
                Some(u) => u,
                None => String::new(),
            };
            let ghost f0 = filenames@;
            let ghost u0 = uris@;
            let ghost nv = name@;
            let ghost uv = url@;
            filenames.push(name);
            uris.push(url);
            proof {
                assert(names_v[i as int] == file_name(fv[i as int])->Some_0);
                assert(urls_v[i as int] == spec_file_url(fv[i as int])->Some_0);
                assert(nv == names_v[i as int]);
                assert(uv == urls_v[i as int]);
                assert(texts(f0).len() == f0.len());
                assert(texts(u0).len() == u0.len());
                assert forall|k: int| 0 <= k < i + 1 implies #[trigger] texts(filenames@)[k] == names_v.take(i + 1)[k] by {
                    assert(texts(filenames@)[k] == filenames@[k]@);
                    if k < i {
                        assert(filenames@[k] == f0[k]);
                        assert(texts(f0)[k] == f0[k]@);
                    }
                }
                assert forall|k: int| 0 <= k < i + 1 implies #[trigger] texts(uris@)[k] == urls_v.take(i + 1)[k] by {
                    assert(texts(uris@)[k] == uris@[k]@);
                    if k < i {
                        assert(uris@[k] == u0[k]);
                        assert(texts(u0)[k] == u0[k]@);
                    }
                }
                assert(texts(filenames@) =~= names_v.take(i + 1));
                assert(texts(uris@) =~= urls_v.take(i + 1));
            }
            i = i + 1;
        }
        proof {
            assert(texts(filenames@) =~= names_v);
            assert(texts(uris@) =~= urls_v);
        }
        let n = filenames.len();
        let mut kept_names: Vec<String> = Vec::new();
        let mut kept_files: Vec<Vec<String>> = Vec::new();
        let mut kept_uris: Vec<Uri> = Vec::new();
        let mut ii: usize = 0;
        while ii < n
            invariant
                n == filenames@.len(),
                n == files@.len(),
                n == uris@.len(),
                ii <= n,
                fv == files@.map_values(|p: Vec<String>| pv(p@)),
                names_v == names_of(fv),
                urls_v == urls_of(fv),
                texts(filenames@) == names_v,
                texts(uris@) == urls_v,
                self.wf(),
                self.unique_view() == names_put(old(self).unique_view(), names_v, urls_v, ii as int),
                self.by_directory == old(self).by_directory,
                self.conflict_resolutions == old(self).conflict_resolutions,
                texts(kept_names@) == kept(names_v, names_v, ii as int),
                kept_files@.map_values(|p: Vec<String>| pv(p@)) == kept(fv, names_v, ii as int),
                texts(kept_uris@) == kept(urls_v, names_v, ii as int),
            decreases n - ii,
        {
            proof {
                assert(names_v[ii as int] == filenames@[ii as int]@);
                assert(urls_v[ii as int] == uris@[ii as int]@);
                lemma_count_at_least_one(names_v, ii as int, n as int);
            }
            let num = count_text(&filenames, filenames[ii].as_str());
            let mark = (num - 1) as u8;
            if num == 1 {
                insert_name(&mut self.by_filename, filenames[ii].clone(), uris[ii].clone());
            }
            if mark != 0 {
                kept_names.push(filenames[ii].clone());
                kept_files.push(copy_path(&files[ii]));
                kept_uris.push(uris[ii].clone());
                proof {
                    assert(texts(kept_names@) =~= kept(names_v, names_v, ii as int).push(names_v[ii as int]));
                    assert(kept_files@.map_values(|p: Vec<String>| pv(p@)) =~= kept(fv, names_v, ii as int).push(fv[ii as int]));
                    assert(texts(kept_uris@) =~= kept(urls_v, names_v, ii as int).push(urls_v[ii as int]));
                }
            }
            ii = ii + 1;
        }
        proof {
            lemma_kept_len(names_v, fv, names_v, n as int);
            lemma_kept_len(names_v, urls_v, names_v, n as int);
            assert(texts(kept_names@).len() == kept_names@.len());
            assert(texts(kept_uris@).len() == kept_uris@.len());
            assert(kept_files@.map_values(|p: Vec<String>| pv(p@)).len() == kept_files@.len());
        }
        if kept_names.len() == 0 {
            self.conflict_resolutions = None;
        } else {
            let resolution = resolve_path_conflicts(kept_names, kept_files, kept_uris);
            self.conflict_resolutions = Some(resolution);
        }
    }
}

/// A copy of each path.
fn copy_paths(v: &Vec<Vec<String>>) -> (r: Vec<Vec<String>>)
    ensures
        r@.map_values(|q: Vec<String>| pv(q@)) == v@.map_values(|q: Vec<String>| pv(q@)),
{
    let mut r: Vec<Vec<String>> = Vec::new();
    let mut i: usize = 0;
    while i < v.len()
        invariant
            i <= v@.len(),
            r@.len() == i,
            r@.map_values(|q: Vec<String>| pv(q@)) == v@.map_values(|q: Vec<String>| pv(q@)).take(i as int),
        decreases v@.len() - i,
    {
        let ghost r0 = r@;
        r.push(copy_path(&v[i]));
        proof {
            let rm = r@.map_values(|q: Vec<String>| pv(q@));
            let vm = v@.map_values(|q: Vec<String>| pv(q@)).take(i + 1);
            assert forall|k: int| 0 <= k < i + 1 implies #[trigger] rm[k] == vm[k] by {
                if k < i {
                    assert(r@[k] == r0[k]);
                    assert(r0.map_values(|q: Vec<String>| pv(q@))[k] == pv(r0[k]@));
                }
            }
            assert(r@.map_values(|q: Vec<String>| pv(q@)) =~= v@.map_values(|q: Vec<String>| pv(q@)).take(i + 1));
        }
        i = i + 1;
    }
    proof {
        assert(r@.map_values(|q: Vec<String>| pv(q@)) =~= v@.map_values(|q: Vec<String>| pv(q@)));
    }
    r
}

impl FileIndex {
    /// A copy of the index.
    pub fn copy_index(&self) -> (c: FileIndex)
        ensures
            c.view_all() == self.view_all(),
            self.wf() ==> c.wf(),
    {
        let mut names: Vec<(String, Uri)> = Vec::new();
        let mut i: usize = 0;
        while i < self.by_filename.len()
            invariant
                i <= self.by_filename@.len(),
                names@.len() == i,
                names@.map_values(|e: (String, Uri)| (e.0@, e.1@)) == self.unique_view().take(i as int),
            decreases self.by_filename@.len() - i,
        {
            let e = (self.by_filename[i].0.clone(), self.by_filename[i].1.clone());
            let ghost n0 = names@;
            names.push(e);
            proof {
                let nm = names@.map_values(|e: (String, Uri)| (e.0@, e.1@));
                let um = self.unique_view().take(i + 1);
                assert forall|k: int| 0 <= k < i + 1 implies #[trigger] nm[k] == um[k] by {
                    if k < i {
                        assert(names@[k] == n0[k]);
                        assert(n0.map_values(|e: (String, Uri)| (e.0@, e.1@))[k] == (n0[k].0@, n0[k].1@));
                    }
                }
                assert(names@.map_values(|e: (String, Uri)| (e.0@, e.1@)) =~= self.unique_view().take(i + 1));
            }
            i = i + 1;
        }
        let mut dirs: Vec<(Vec<String>, Vec<String>)> = Vec::new();
        let mut j: usize = 0;
        while j < self.by_directory.len()
            invariant
                j <= self.by_directory@.len(),
                dirs@.len() == j,
                dirs@.map_values(|e: (Vec<String>, Vec<String>)| (pv(e.0@), texts(e.1@))) == self.dirs_view().take(j as int),
            decreases self.by_directory@.len() - j,
        {
            let e = (copy_path(&self.by_directory[j].0), copy_path(&self.by_directory[j].1));
            let ghost d0 = dirs@;
            dirs.push(e);
            proof {
                let dm = dirs@.map_values(|e: (Vec<String>, Vec<String>)| (pv(e.0@), texts(e.1@)));
                let vm = self.dirs_view().take(j + 1);
                assert forall|k: int| 0 <= k < j + 1 implies #[trigger] dm[k] == vm[k] by {
                    if k < j {
                        assert(dirs@[k] == d0[k]);
                        assert(d0.map_values(|e: (Vec<String>, Vec<String>)| (pv(e.0@), texts(e.1@)))[k] == (pv(d0[k].0@), texts(d0[k].1@)));
                    }
                }
                assert(dirs@.map_values(|e: (Vec<String>, Vec<String>)| (pv(e.0@), texts(e.1@))) =~= self.dirs_view().take(j + 1));
            }
            j = j + 1;
        }
        let res = match &self.conflict_resolutions {
            Some((paths, uris)) => {
                let ps = copy_paths(paths);
                proof {
                    assert(ps@.map_values(|q: Vec<String>| pv(q@)).len() == ps@.len());
                    assert(paths@.map_values(|q: Vec<String>| pv(q@)).len() == paths@.len());
                }
                Some((ps, copy_path(uris)))
            },
            None => None,
        };
        proof {
            assert(names@.map_values(|e: (String, Uri)| (e.0@, e.1@)) =~= self.unique_view());
            assert(dirs@.map_values(|e: (Vec<String>, Vec<String>)| (pv(e.0@), texts(e.1@))) =~= self.dirs_view());
        }
        FileIndex { by_filename: names, by_directory: dirs, conflict_resolutions: res }
    }
}

/// The file names and file URLs of the paths, where each path has both.
fn names_and_urls(files: &Vec<Vec<String>>) -> (r: Option<(Vec<String>, Vec<Uri>)>)
    ensures
        r is Some <==> ({
            let fv = files@.map_values(|p: Vec<String>| pv(p@));
            &&& forall|i: int| 0 <= i < fv.len() ==> file_name(#[trigger] fv[i]) is Some
            &&& forall|i: int| 0 <= i < fv.len() ==> spec_file_url(#[trigger] fv[i]) is Some
        }),
        r matches Some((names, urls)) ==> {
            &&& texts(names@) == names_of(files@.map_values(|p: Vec<String>| pv(p@)))
            &&& texts(urls@) == urls_of(files@.map_values(|p: Vec<String>| pv(p@)))
        },
{
    let ghost fv = files@.map_values(|p: Vec<String>| pv(p@));
    let ghost names_v = names_of(fv);
    let ghost urls_v = urls_of(fv);
    let mut filenames: Vec<String> = Vec::new();
    let mut uris: Vec<Uri> = Vec::new();
    let mut i: usize = 0;
    while i < files.len()
        invariant
            i <= files@.len(),
            fv == files@.map_values(|p: Vec<String>| pv(p@)),
            names_v == names_of(fv),
            urls_v == urls_of(fv),
            forall|k: int| 0 <= k < i ==> file_name(#[trigger] fv[k]) is Some,
            forall|k: int| 0 <= k < i ==> spec_file_url(#[trigger] fv[k]) is Some,
            texts(filenames@) == names_v.take(i as int),
            texts(uris@) == urls_v.take(i as int),
        decreases files@.len() - i,
    {
        proof {
            assert(fv[i as int] == pv(files@[i as int]@));
        }
        let name = match path_file_name(&files[i]) {
            Some(n) => n,
            None => { return None; },
        };
        let url = match file_url(&files[i]) {
            Some(u) => u,
            None => { return None; },
        };
        let ghost f0 = filenames@;
        let ghost u0 = uris@;
        let ghost nv = name@;
        let ghost uv = url@;
        filenames.push(name);
        uris.push(url);
        proof {
            assert(names_v[i as int] == file_name(fv[i as int])->Some_0);
            assert(urls_v[i as int] == spec_file_url(fv[i as int])->Some_0);
            assert(texts(f0).len() == f0.len());
            assert(texts(u0).len() == u0.len());
            assert forall|k: int| 0 <= k < i + 1 implies #[trigger] texts(filenames@)[k] == names_v.take(i + 1)[k] by {
                assert(texts(filenames@)[k] == filenames@[k]@);
                if k < i {
                    assert(filenames@[k] == f0[k]);
                    assert(texts(f0)[k] == f0[k]@);
                }
            }
            assert forall|k: int| 0 <= k < i + 1 implies #[trigger] texts(uris@)[k] == urls_v.take(i + 1)[k] by {
                assert(texts(uris@)[k] == uris@[k]@);
                if k < i {
                    assert(uris@[k] == u0[k]);
                    assert(texts(u0)[k] == u0[k]@);
                }
            }
            assert(texts(filenames@) =~= names_v.take(i + 1));
            assert(texts(uris@) =~= urls_v.take(i + 1));
        }
        i = i + 1;
    }
    proof {
        assert(texts(filenames@) =~= names_v);
        assert(texts(uris@) =~= urls_v);
    }
    Some((filenames, uris))
}

/// Whether the paths can be resolved again (`conflict_step_ok`).
fn conflict_step_check(files: &Vec<Vec<String>>) -> (r: bool)
    ensures
        r == conflict_step_ok(files@.map_values(|p: Vec<String>| pv(p@))),
{
    let ghost fv = files@.map_values(|p: Vec<String>| pv(p@));
    let filenames = match names_and_urls(files) {
        Some((names, _)) => names,
        None => { return false; },
    };
    let ghost names_v = names_of(fv);
    let n = filenames.len();
    proof {
        assert(texts(filenames@).len() == filenames@.len());
    }
    let mut kept_names: Vec<String> = Vec::new();
    let mut kept_files: Vec<Vec<String>> = Vec::new();
    let mut ii: usize = 0;
    while ii < n
        invariant
            n == filenames@.len(),
            n == files@.len(),
            ii <= n,
            fv == files@.map_values(|p: Vec<String>| pv(p@)),
            names_v == names_of(fv),
            texts(filenames@) == names_v,
            texts(kept_names@) == kept(names_v, names_v, ii as int),
            kept_files@.map_values(|p: Vec<String>| pv(p@)) == kept(fv, names_v, ii as int),
        decreases n - ii,
    {
        proof {
            assert(names_v[ii as int] == filenames@[ii as int]@);
            lemma_count_at_least_one(names_v, ii as int, n as int);
        }
        let num = count_text(&filenames, filenames[ii].as_str());
        let mark = (num - 1) as u8;
        if mark != 0 {
            kept_names.push(filenames[ii].clone());
            kept_files.push(copy_path(&files[ii]));
            proof {
                assert(texts(kept_names@) =~= kept(names_v, names_v, ii as int).push(names_v[ii as int]));
                assert(kept_files@.map_values(|p: Vec<String>| pv(p@)) =~= kept(fv, names_v, ii as int).push(fv[ii as int]));
            }
        }
        ii = ii + 1;
    }
    proof {
        lemma_kept_len(names_v, fv, names_v, n as int);
        assert(texts(kept_names@).len() == kept_names@.len());
        assert(kept_files@.map_values(|p: Vec<String>| pv(p@)).len() == kept_files@.len());
    }
    all_resolvable(&kept_names, &kept_files)
}

impl FileIndex {
    /// Records one move where it can be carried out, as `apply_move` does,
    /// and says whether it could.
    fn try_move(&mut self, unresolved: &mut Vec<Vec<String>>, old_uri: &str, new_uri: &str) -> (ok: bool)
        requires
            old(self).wf(),
        ensures
            final(self).wf(),
            ({
                let r = move_step(old(self).view_all(), old(unresolved)@.map_values(|q: Vec<String>| pv(q@)), old_uri@, new_uri@);
                &&& ok == r.2
                &&& ok ==> final(self).view_all() == r.0
                &&& ok ==> final(unresolved)@.map_values(|q: Vec<String>| pv(q@)) == r.1
            }),
    {
        reveal(move_step);
        let old_path = convert_uri_to_path(old_uri);
        let new_path = convert_uri_to_path(new_uri);
        if !self.filename_step_check(&old_path, &new_path) {
            return false;
        }
        forget_path(unresolved, &old_path);
        let deferred = self.update_lookup_by_filename(&old_path, &new_path);
        append_paths(unresolved, deferred);
        if !self.dir_step_check(&old_path, &new_path) {
            return false;
        }
        self.update_lookup_by_directory(&old_path, &new_path);
        true
    }

    /// Whether `update` can record the moves: each move is carried out on a
    /// copy of the index, and the names are resolved again on the copy.
    pub fn update_is_defined(&self, renamed: &RenameFileOperations) -> (r: bool)
        requires
            self.wf(),
        ensures
            r == update_ok(self.view_all(), texts(renamed.old@), texts(renamed.new@)),
    {
        let ghost v0 = self.view_all();
        let ghost olds = texts(renamed.old@);
        let ghost news = texts(renamed.new@);
        let n = if renamed.old.len() < renamed.new.len() { renamed.old.len() } else { renamed.new.len() };
        let mut copy = self.copy_index();
        let mut unresolved: Vec<Vec<String>> = Vec::new();
        let mut i: usize = 0;
        proof {
            assert(unresolved@.map_values(|q: Vec<String>| pv(q@)) =~= Seq::<PathView>::empty());
        }
        while i < n
            invariant
                n == move_count(olds, news),
                olds == texts(renamed.old@),
                news == texts(renamed.new@),
                i <= n,
                v0 == self.view_all(),
                copy.wf(),
                update_fold(v0, olds, news, i as int).2,
                copy.view_all() == update_fold(v0, olds, news, i as int).0,
                unresolved@.map_values(|q: Vec<String>| pv(q@)) == update_fold(v0, olds, news, i as int).1,
            decreases n - i,
        {
            proof {
                assert(olds[i as int] == renamed.old@[i as int]@);
                assert(news[i as int] == renamed.new@[i as int]@);
            }
            let ghost before = update_fold(v0, olds, news, i as int);
            if !copy.try_move(&mut unresolved, renamed.old[i].as_str(), renamed.new[i].as_str()) {
                proof {
                    assert(!move_step(before.0, before.1, olds[i as int], news[i as int]).2);
                    assert(!update_fold(v0, olds, news, i + 1).2);
                    if update_fold(v0, olds, news, n as int).2 {
                        lemma_update_fold_ok(v0, olds, news, i + 1, n as int);
                    }
                    assert(!update_ok(v0, olds, news));
                }
                return false;
            }
            i = i + 1;
        }
        if unresolved.len() == 0 {
            return true;
        }
        match copy.with_tail_paths(unresolved) {
            Some(full) => conflict_step_check(&full),
            None => false,
        }
    }

    /// Records the moves where `update` can, and says whether it did; where
    /// it cannot, the index stays as it is.
    pub fn try_update(&mut self, renamed: &RenameFileOperations) -> (done: bool)
        requires
            old(self).wf(),
        ensures
            final(self).wf(),
            done == update_ok(old(self).view_all(), texts(renamed.old@), texts(renamed.new@)),
            done ==> final(self).view_all() == updated(old(self).view_all(), texts(renamed.old@), texts(renamed.new@)),
            !done ==> *final(self) == *old(self),
    {
        if self.update_is_defined(renamed) {
            self.update(renamed);
            true
        } else {
            false
        }
    }
}

/// Scripts moved from `old[i]` to `new[i]`.
#[derive(Clone, Debug, PartialEq)]
pub struct RenameFileOperations {
    pub old: Vec<Uri>,
    pub new: Vec<Uri>,
}

impl RenameFileOperations {
    /// The moves that the client reported, as the old and the new URIs.
    pub fn from_renames(renamed: Vec<FileRename>) -> (ops: RenameFileOperations)
        ensures
            ops.old@.len() == renamed@.len(),
            ops.new@.len() == renamed@.len(),
            forall|i: int| 0 <= i < renamed@.len() ==> #[trigger] ops.old@[i] == renamed@[i].old_uri && ops.new@[i]
                == renamed@[i].new_uri,
    {
        let mut old: Vec<Uri> = Vec::new();
        let mut new: Vec<Uri> = Vec::new();
        let mut k: usize = 0;
        while k < renamed.len()
            invariant
                k <= renamed@.len(),
                old@.len() == k,
                new@.len() == k,
                forall|i: int| 0 <= i < k ==> #[trigger] old@[i] == renamed@[i].old_uri && new@[i] == renamed@[i].new_uri,
            decreases renamed@.len() - k,
        {
            let ghost o0 = old@;
            let ghost n0 = new@;
            old.push(renamed[k].old_uri.clone());
            new.push(renamed[k].new_uri.clone());
            proof {
                assert forall|i: int| 0 <= i < k + 1 implies #[trigger] old@[i] == renamed@[i].old_uri && new@[i] == renamed@[i].new_uri by {
                    if i < k {
                        assert(old@[i] == o0[i]);
                        assert(new@[i] == n0[i]);
                    }
                }
            }
            k = k + 1;
        }
        RenameFileOperations { old, new }
    }
}

/// The moves to carry out, with the scripts and directories that are not
/// known.
#[derive(Clone, Debug, PartialEq)]
pub struct ResolvedRenameFileOperations {
    pub renamed: RenameFileOperations,
    pub missing_files: Vec<Uri>,
    pub missing_dirs: Vec<Uri>,
}

/// The index, the paths left to resolve again, and whether every step could
/// be carried out, after the first `n` moves.
pub open spec fn update_fold(v: IndexView, olds: Seq<Seq<char>>, news: Seq<Seq<char>>, n: int) -> (IndexView, Seq<PathView>, bool)
    decreases n,
{
    if n <= 0 {
        (v, Seq::empty(), true)
    } else {
        let (v0, un0, ok0) = update_fold(v, olds, news, n - 1);
        let (v2, un2, ok) = move_step(v0, un0, olds[n - 1], news[n - 1]);
        (v2, un2, ok0 && ok)
    }
}

/// One move: the index after it, the paths left to resolve again, and
/// whether it could be carried out.
#[verifier::opaque]
pub open spec fn move_step(v0: IndexView, un0: Seq<PathView>, old_uri: Seq<char>, new_uri: Seq<char>) -> (IndexView, Seq<PathView>, bool) {
    let op = uri_path(old_uri);
    let np = uri_path(new_uri);
    let idx = first_pos(un0, op);
    let un1 = if idx >= 0 { swap_removed(un0, idx) } else { un0 };
    let (v1, deferred) = filename_step(v0, op, np);
    let un2 = match deferred {
        Some(d) => un1 + d,
        None => un1,
    };
    let ok = filename_step_ok(v0, op, np) && dir_step_ok(v1.1, op, np);
    ((v1.0, dir_step(v1.1, op, np), v1.2), un2, ok)
}

/// The number of moves: as many as both lists hold.
pub open spec fn move_count(olds: Seq<Seq<char>>, news: Seq<Seq<char>>) -> int {
    if olds.len() < news.len() { olds.len() as int } else { news.len() as int }
}

/// The paths to resolve again at the end: those left over, with the paths of
/// the scripts with shared names.
pub open spec fn final_unresolved(v1: IndexView, un: Seq<PathView>) -> Seq<PathView> {
    un + match v1.2 {
        Some((_, uris)) => uris.map_values(|u: Seq<char>| url_file_path_text(u)->Some_0),
        None => Seq::empty(),
    }
}

/// The index after the moves.
pub open spec fn updated(v: IndexView, olds: Seq<Seq<char>>, news: Seq<Seq<char>>) -> IndexView {
    let (v1, un, _) = update_fold(v, olds, news, move_count(olds, news));
    if un.len() == 0 {
        v1
    } else {
        conflict_step(v1, final_unresolved(v1, un))
    }
}

/// The moves can be carried out: each step can, the scripts with shared
/// names have paths, and the names can be resolved again at the end.
pub open spec fn update_ok(v: IndexView, olds: Seq<Seq<char>>, news: Seq<Seq<char>>) -> bool {
    let (v1, un, ok) = update_fold(v, olds, news, move_count(olds, news));
    &&& ok
    &&& un.len() > 0 ==> {
        &&& v1.2 matches Some((_, uris)) ==> forall|i: int| 0 <= i < uris.len() ==> url_file_path_text(#[trigger] uris[i]) is Some
        &&& conflict_step_ok(final_unresolved(v1, un))
    }
}

proof fn lemma_update_fold_ok(v: IndexView, olds: Seq<Seq<char>>, news: Seq<Seq<char>>, i: int, n: int)
    requires
        0 <= i <= n,
        update_fold(v, olds, news, n).2,
    ensures
        update_fold(v, olds, news, i).2,
    decreases n - i,
{
    if i < n {
        lemma_update_fold_ok(v, olds, news, i + 1, n);
    }
}

/// Finds the first path with the components of `p`.
fn find_path(v: &Vec<Vec<String>>, p: &Vec<String>) -> (r: Option<usize>)
    ensures
        match r {
            Some(i) => i < v@.len() && first_pos(v@.map_values(|q: Vec<String>| pv(q@)), pv(p@)) == i,
            None => first_pos(v@.map_values(|q: Vec<String>| pv(q@)), pv(p@)) == -1,
        },
{
    let ghost s = v@.map_values(|q: Vec<String>| pv(q@));
    let mut j: usize = 0;
    while j < v.len()
        invariant
            j <= v@.len(),
            s == v@.map_values(|q: Vec<String>| pv(q@)),
            forall|k: int| 0 <= k < j ==> #[trigger] s[k] != pv(p@),
        decreases v@.len() - j,
    {
        if path_equal(&v[j], p) {
            proof {
                lemma_first_pos(s, pv(p@), j as int);
            }
            return Some(j);
        }
        j = j + 1;
    }
    None
}

/// Drops the first path with the components of `p`, by `swap_remove`.
fn forget_path(v: &mut Vec<Vec<String>>, p: &Vec<String>)
    ensures
        ({
            let s = old(v)@.map_values(|q: Vec<String>| pv(q@));
            let idx = first_pos(s, pv(p@));
            final(v)@.map_values(|q: Vec<String>| pv(q@)) == if idx >= 0 { swap_removed(s, idx) } else { s }
        }),
{
    let ghost s = v@.map_values(|q: Vec<String>| pv(q@));
    if let Some(i) = find_path(v, p) {
        v.swap_remove(i);
        proof {
            assert(v@.map_values(|q: Vec<String>| pv(q@)) =~= swap_removed(s, i as int));
        }
    }
}

/// Appends the paths of `more`, where there are any.
fn append_paths(v: &mut Vec<Vec<String>>, more: Option<Vec<Vec<String>>>)
    ensures
        final(v)@.map_values(|q: Vec<String>| pv(q@)) == match more {
            Some(m) => old(v)@.map_values(|q: Vec<String>| pv(q@)) + m@.map_values(|q: Vec<String>| pv(q@)),
            None => old(v)@.map_values(|q: Vec<String>| pv(q@)),
        },
{
    if let Some(mut m) = more {
        let ghost s = v@.map_values(|q: Vec<String>| pv(q@));
        let ghost t = m@.map_values(|q: Vec<String>| pv(q@));
        v.append(&mut m);
        proof {
            assert(v@.map_values(|q: Vec<String>| pv(q@)) =~= s + t);
        }
    }
}

impl FileIndex {
    /// Records one move, and keeps track of the paths to resolve again.
    fn apply_move(&mut self, unresolved: &mut Vec<Vec<String>>, old_uri: &str, new_uri: &str)
        requires
            old(self).wf(),
            move_step(old(self).view_all(), old(unresolved)@.map_values(|q: Vec<String>| pv(q@)), old_uri@, new_uri@).2,
        ensures
            final(self).wf(),
            ({
                let r = move_step(old(self).view_all(), old(unresolved)@.map_values(|q: Vec<String>| pv(q@)), old_uri@, new_uri@);
                &&& final(self).view_all() == r.0
                &&& final(unresolved)@.map_values(|q: Vec<String>| pv(q@)) == r.1
            }),
    {
        reveal(move_step);
        let old_path = convert_uri_to_path(old_uri);
        let new_path = convert_uri_to_path(new_uri);
        forget_path(unresolved, &old_path);
        let deferred = self.update_lookup_by_filename(&old_path, &new_path);
        append_paths(unresolved, deferred);
        self.update_lookup_by_directory(&old_path, &new_path);
    }

    /// The paths to resolve again followed by the paths of the scripts with
    /// shared names, where each of their URIs names a file path.
    fn with_tail_paths(&self, unresolved: Vec<Vec<String>>) -> (r: Option<Vec<Vec<String>>>)
        ensures
            r is Some <==> (self.view_all().2 matches Some((_, uris)) ==> forall|i: int|
                0 <= i < uris.len() ==> url_file_path_text(#[trigger] uris[i]) is Some),
            r matches Some(full) ==> full@.map_values(|q: Vec<String>| pv(q@)) == final_unresolved(
                self.view_all(),
                unresolved@.map_values(|q: Vec<String>| pv(q@)),
            ),
    {
        let ghost v1 = self.view_all();
        let ghost un = unresolved@.map_values(|q: Vec<String>| pv(q@));
        let mut unresolved = unresolved;
        if let Some((_, uris)) = &self.conflict_resolutions {
            let ghost us = texts(uris@);
            let mut k: usize = 0;
            while k < uris.len()
                invariant
                    k <= uris@.len(),
                    us == texts(uris@),
                    v1 == self.view_all(),
                    v1.2 == Some((v1.2->Some_0.0, us)),
                    forall|t: int| 0 <= t < k ==> url_file_path_text(#[trigger] us[t]) is Some,
                    unresolved@.map_values(|q: Vec<String>| pv(q@)) == un + us.take(k as int).map_values(
                        |u: Seq<char>| url_file_path_text(u)->Some_0,
                    ),
                decreases uris@.len() - k,
            {
                proof {
                    assert(us[k as int] == uris@[k as int]@);
                }
                let path = match url_file_path(uris[k].as_str()) {
                    Some(p) => p,
                    None => {
                        proof {
                            assert(url_file_path_text(us[k as int]) is None);
                            assert(v1 == self.view_all());
                            assert(!(forall|t: int| 0 <= t < us.len() ==> url_file_path_text(#[trigger] us[t]) is Some));
                        }
                        return None;
                    },
                };
                let ghost u0 = unresolved@.map_values(|q: Vec<String>| pv(q@));
                unresolved.push(path);
                proof {
                    assert(us.take(k + 1).map_values(|u: Seq<char>| url_file_path_text(u)->Some_0) =~= us.take(k as int).map_values(
                        |u: Seq<char>| url_file_path_text(u)->Some_0,
                    ).push(url_file_path_text(us[k as int])->Some_0));
                    assert(unresolved@.map_values(|q: Vec<String>| pv(q@)) =~= u0.push(url_file_path_text(us[k as int])->Some_0));
                }
                k = k + 1;
            }
            proof {
                assert(us.take(us.len() as int) =~= us);
            }
        }
        proof {
            assert(unresolved@.map_values(|q: Vec<String>| pv(q@)) =~= final_unresolved(v1, un));
        }
        Some(unresolved)
    }

    /// Resolves the names again where moves left paths to resolve: those,
    /// and the paths of the scripts with shared names.
    fn finish_update(&mut self, unresolved: Vec<Vec<String>>)
        requires
            old(self).wf(),
            unresolved@.len() > 0 ==> {
                let v1 = old(self).view_all();
                &&& v1.2 matches Some((_, uris)) ==> forall|i: int| 0 <= i < uris.len() ==> url_file_path_text(#[trigger] uris[i]) is Some
                &&& conflict_step_ok(final_unresolved(v1, unresolved@.map_values(|q: Vec<String>| pv(q@))))
            },
        ensures
            final(self).wf(),
            final(self).view_all() == if unresolved@.len() == 0 {
                old(self).view_all()
            } else {
                conflict_step(old(self).view_all(), final_unresolved(old(self).view_all(), unresolved@.map_values(|q: Vec<String>| pv(q@))))
            },
    {
        if unresolved.len() == 0 {
            return;
        }
        if let Some(full) = self.with_tail_paths(unresolved) {
            self.update_conflict_resolutions(full);
        }
    }

    /// Records that scripts moved: in the name table, among the tails, and in
    /// the directory table; names that moves make shared or unique are
    /// resolved again at the end.
    pub fn update(&mut self, renamed: &RenameFileOperations)
        requires
            old(self).wf(),
            update_ok(old(self).view_all(), texts(renamed.old@), texts(renamed.new@)),
        ensures
            final(self).wf(),
            final(self).view_all() == updated(old(self).view_all(), texts(renamed.old@), texts(renamed.new@)),
    {
        let ghost v0 = self.view_all();
        let ghost olds = texts(renamed.old@);
        let ghost news = texts(renamed.new@);
        let n = if renamed.old.len() < renamed.new.len() { renamed.old.len() } else { renamed.new.len() };
        let mut unresolved: Vec<Vec<String>> = Vec::new();
        let mut i: usize = 0;
        proof {
            assert(unresolved@.map_values(|q: Vec<String>| pv(q@)) =~= Seq::<PathView>::empty());
        }
        while i < n
            invariant
                n == move_count(olds, news),
                olds == texts(renamed.old@),
                news == texts(renamed.new@),
                i <= n,
                self.wf(),
                update_fold(v0, olds, news, n as int).2,
                self.view_all() == update_fold(v0, olds, news, i as int).0,
                unresolved@.map_values(|q: Vec<String>| pv(q@)) == update_fold(v0, olds, news, i as int).1,
            decreases n - i,
        {
            proof {
                lemma_update_fold_ok(v0, olds, news, i + 1, n as int);
                assert(olds[i as int] == renamed.old@[i as int]@);
                assert(news[i as int] == renamed.new@[i as int]@);
            }
            self.apply_move(&mut unresolved, renamed.old[i].as_str(), renamed.new[i].as_str());
            i = i + 1;
        }
        self.finish_update(unresolved);
    }
}

proof fn lemma_pair_get_remove_other<K, V>(s: Seq<(K, V)>, k: K, other: K)
    requires
        pairs_distinct(s),
        k != other,
    ensures
        pair_get(pair_remove(s, k), other) == pair_get(s, other),
{
    let p = pair_pos(s, k);
    if p >= 0 {
        let s2 = s.remove(p);
        assert(s[p].0 == k);
        if exists|i: int| 0 <= i < s.len() && #[trigger] s[i].0 == other {
            let i = choose|i: int| 0 <= i < s.len() && #[trigger] s[i].0 == other;
            lemma_pair_pos_at(s, i);
            let i2 = if i < p { i } else { i - 1 };
            assert(s2[i2] == s[i]);
            assert forall|a: int, b: int| 0 <= a < s2.len() && 0 <= b < s2.len() && a != b implies #[trigger] s2[a].0 != #[trigger] s2[b].0 by {
                let a0 = if a < p { a } else { a + 1 };
                let b0 = if b < p { b } else { b + 1 };
                assert(s2[a] == s[a0]);
                assert(s2[b] == s[b0]);
            }
            lemma_pair_pos_at(s2, i2);
        } else {
            assert forall|i: int| 0 <= i < s2.len() implies #[trigger] s2[i].0 != other by {
                let i0 = if i < p { i } else { i + 1 };
                assert(s2[i] == s[i0]);
            }
        }
    }
}

/// Whether the names of a directory allow a move: within the directory, the
/// new or the old name is listed; across directories, the old name is.
fn dir_names_check(files: &Vec<String>, on: &str, nn: &str, same_dir: bool) -> (r: bool)
    ensures
        r == if same_dir {
            texts(files@).contains(nn@) || texts(files@).contains(on@)
        } else {
            texts(files@).contains(on@)
        },
{
    let fo = find_text(files, on);
    let fnn = find_text(files, nn);
    proof {
        if let Some(k) = fo {
            assert(texts(files@)[k as int] == on@);
        }
        if let Some(k) = fnn {
            assert(texts(files@)[k as int] == nn@);
        }
    }
    if same_dir {
        fnn.is_some() || fo.is_some()
    } else {
        fo.is_some()
    }
}

impl FileIndex {
    /// Whether the move can be recorded in the name table.
    fn filename_step_check(&self, old_path: &Vec<String>, new_path: &Vec<String>) -> (r: bool)
        requires
            self.wf(),
        ensures
            r == filename_step_ok(self.view_all(), pv(old_path@), pv(new_path@)),
    {
        let ghost v = self.view_all();
        let on = match path_file_name(old_path) {
            Some(n) => n,
            None => { return false; },
        };
        let nn = match path_file_name(new_path) {
            Some(n) => n,
            None => { return false; },
        };
        let in_tails = match &self.conflict_resolutions {
            Some((paths, _)) => find_tail(paths, old_path).is_some(),
            None => false,
        };
        proof {
            assert(in_tails == drop_tail(v.2, pv(old_path@)).1);
        }
        if str_equal(on.as_str(), nn.as_str()) {
            match find_name(&self.by_filename, on.as_str()) {
                Some(i) => {
                    proof {
                        assert(v.0[i as int].0 == on@);
                        lemma_pair_pos_at(v.0, i as int);
                    }
                    file_url(new_path).is_some()
                },
                None => {
                    proof {
                        assert forall|t: int| 0 <= t < v.0.len() implies #[trigger] v.0[t].0 != on@ by {
                            assert(v.0[t].0 == self.by_filename@[t].0@);
                        }
                    }
                    in_tails
                },
            }
        } else {
            match find_name(&self.by_filename, nn.as_str()) {
                Some(i) => {
                    proof {
                        assert(v.0[i as int].0 == nn@);
                        lemma_pair_pos_at(v.0, i as int);
                        lemma_pair_get_remove_other(v.0, nn@, on@);
                    }
                    let dup_ok = url_file_path(self.by_filename[i].1.as_str()).is_some();
                    let old_known = match find_name(&self.by_filename, on.as_str()) {
                        Some(j) => {
                            proof {
                                assert(v.0[j as int].0 == on@);
                                lemma_pair_pos_at(v.0, j as int);
                            }
                            true
                        },
                        None => {
                            proof {
                                assert forall|t: int| 0 <= t < v.0.len() implies #[trigger] v.0[t].0 != on@ by {
                                    assert(v.0[t].0 == self.by_filename@[t].0@);
                                }
                            }
                            false
                        },
                    };
                    dup_ok && (old_known || in_tails)
                },
                None => {
                    proof {
                        assert forall|t: int| 0 <= t < v.0.len() implies #[trigger] v.0[t].0 != nn@ by {
                            assert(v.0[t].0 == self.by_filename@[t].0@);
                        }
                    }
                    true
                },
            }
        }
    }

    /// Whether the move can be recorded in the directory table.
    #[verifier::spinoff_prover]
    fn dir_step_check(&self, old_file: &Vec<String>, new_file: &Vec<String>) -> (r: bool)
        requires
            self.wf(),
        ensures
            r == dir_step_ok(self.dirs_view(), pv(old_file@), pv(new_file@)),
    {
        let ghost d = self.dirs_view();
        let od = match path_parent(old_file) {
            Some(p) => p,
            None => { return false; },
        };
        let nd = match path_parent(new_file) {
            Some(p) => p,
            None => { return false; },
        };
        let on = match path_file_name(old_file) {
            Some(n) => n,
            None => { return false; },
        };
        let nn = match path_file_name(new_file) {
            Some(n) => n,
            None => { return false; },
        };
        match find_dir(&self.by_directory, &od) {
            Some(i) => {
                proof {
                    assert(d[i as int].0 == pv(od@));
                    lemma_pair_pos_at(d, i as int);
                    assert(d[i as int].1 == texts(self.by_directory@[i as int].1@));
                }
                let same = path_equal(&od, &nd);
                dir_names_check(&self.by_directory[i].1, on.as_str(), nn.as_str(), same)
            },
            None => {
                proof {
                    assert forall|t: int| 0 <= t < d.len() implies #[trigger] d[t].0 != pv(od@) by {
                        assert(d[t].0 == pv(self.by_directory@[t].0@));
                    }
                }
                path_equal(&od, &nd)
            },
        }
    }
}

/// The index once the script `file` is no longer in it: its name leaves the
/// name table, or else its tail leaves the tails; its name leaves the list of
/// its directory, and a directory left without names leaves the table.
pub open spec fn removed(v: IndexView, file: PathView) -> IndexView {
    let name = file_name(file)->Some_0;
    let dir = parent(file)->Some_0;
    let (u, r) = if pair_get(v.0, name) is Some {
        (pair_remove(v.0, name), v.2)
    } else {
        (v.0, drop_tail(v.2, file).0)
    };
    let d = match pair_get(v.1, dir) {
        Some(files) => {
            let p = first_pos(files, name);
            if p >= 0 {
                let f2 = swap_removed(files, p);
                if f2.len() == 0 {
                    pair_remove(v.1, dir)
                } else {
                    pair_insert(v.1, dir, f2)
                }
            } else {
                v.1
            }
        },
        None => v.1,
    };
    (u, d, r)
}

impl FileIndex {
    /// Takes the script `file` out of the index.
    #[allow(dead_code)]
    #[verifier::spinoff_prover]
    fn remove(&mut self, file: &Vec<String>)
        requires
            old(self).wf(),
            parent(pv(file@)) is Some,
            file_name(pv(file@)) is Some,
        ensures
            final(self).wf(),
            final(self).view_all() == removed(old(self).view_all(), pv(file@)),
    {
        let ghost v = self.view_all();
        let dir = match path_parent(file) {
            Some(p) => p,
            None => { return; },
        };
        let name = match path_file_name(file) {
            Some(n) => n,
            None => { return; },
        };
        if remove_name(&mut self.by_filename, name.as_str()).is_none() {
            drop_tail_exec(&mut self.conflict_resolutions, file);
        }
        let ghost d = self.dirs_view();
        assert(d == v.1);
        match find_dir(&self.by_directory, &dir) {
            Some(i) => {
                proof {
                    assert(d[i as int].0 == pv(dir@));
                    lemma_pair_pos_at(d, i as int);
                    assert(d[i as int].1 == texts(self.by_directory@[i as int].1@));
                }
                if let Some(idx) = find_text(&self.by_directory[i].1, name.as_str()) {
                    let ghost f0 = d[i as int].1;
                    let ghost dirs0 = self.by_directory@;
                    let ghost fv0 = self.by_directory@[i as int].1@;
                    self.by_directory[i].1.swap_remove(idx);
                    let ghost d1 = self.dirs_view();
                    proof {
                        assert(self.by_directory@[i as int].1@ == swap_removed(fv0, idx as int));
                        assert(texts(self.by_directory@[i as int].1@) =~= swap_removed(texts(fv0), idx as int));
                        assert(forall|a: int| 0 <= a < dirs0.len() && a != i ==> self.by_directory@[a] == dirs0[a]);
                        assert(d1 =~= d.update(i as int, (d[i as int].0, swap_removed(f0, idx as int))));
                        assert forall|a: int, b: int| 0 <= a < d1.len() && 0 <= b < d1.len() && a != b implies #[trigger] d1[a].0 != #[trigger] d1[b].0 by {
                            assert(d1[a].0 == d[a].0);
                            assert(d1[b].0 == d[b].0);
                        }
                    }
                    if self.by_directory[i].1.len() == 0 {
                        let ghost dirs1 = self.by_directory@;
                        self.by_directory.remove(i);
                        proof {
                            let d2 = self.dirs_view();
                            assert(d2 =~= d.remove(i as int));
                            assert forall|a: int, b: int| 0 <= a < d2.len() && 0 <= b < d2.len() && a != b implies #[trigger] d2[a].0 != #[trigger] d2[b].0 by {
                                let a0 = if a < i { a } else { a + 1 };
                                let b0 = if b < i { b } else { b + 1 };
                                assert(d2[a] == d[a0]);
                                assert(d2[b] == d[b0]);
                            }
                        }
                    }
                }
            },
            None => {
                proof {
                    assert forall|t: int| 0 <= t < d.len() implies #[trigger] d[t].0 != pv(dir@) by {
                        assert(d[t].0 == pv(self.by_directory@[t].0@));
                    }
                }
            },
        }
    }
}

/// The file suffixes of the scripts.
pub const SUFFIXES: [&'static str; 2] = ["cmm", "cmmt"];

/// The position of the last dot among the first `i` characters, or -1.
pub open spec fn last_dot(n: Seq<char>, i: int) -> int
    decreases i,
{
    if i <= 0 {
        -1
    } else if n[i - 1] == '.' {
        i - 1
    } else {
        last_dot(n, i - 1)
    }
}

/// The extension of the file name (`Path::extension`): what follows its last
/// dot, where something precedes that dot.
pub open spec fn extension(p: PathView) -> Option<Seq<char>> {
    match file_name(p) {
        Some(n) => {
            let d = last_dot(n, n.len() as int);
            if d > 0 {
                Some(n.skip(d + 1))
            } else {
                None
            }
        },
        None => None,
    }
}

/// The path names a script: its extension is one of `SUFFIXES`.
pub open spec fn is_script(p: PathView) -> bool {
    extension(p) matches Some(e) && (e == seq!['c', 'm', 'm'] || e == seq!['c', 'm', 'm', 't'])
}

proof fn lemma_last_dot_skip(n: Seq<char>, i: int, j: int)
    requires
        0 <= i <= j <= n.len(),
        forall|k: int| i <= k < j ==> n[k] != '.',
    ensures
        last_dot(n, j) == last_dot(n, i),
    decreases j - i,
{
    if j > i {
        lemma_last_dot_skip(n, i, j - 1);
    }
}

proof fn lemma_last_dot_bound(n: Seq<char>, i: int)
    requires
        0 <= i <= n.len(),
    ensures
        -1 <= last_dot(n, i) < i,
        last_dot(n, i) >= 0 ==> n[last_dot(n, i)] == '.',
    decreases i,
{
    if i > 0 {
        lemma_last_dot_bound(n, i - 1);
    }
}

/// Whether the path names a script, by the extension of its file name.
pub fn is_script_path(p: &Vec<String>) -> (r: bool)
    ensures
        r == is_script(pv(p@)),
{
    let name = match path_file_name(p) {
        Some(n) => n,
        None => { return false; },
    };
    let c = crate::text::str_chars(name.as_str());
    let len = c.len();
    let mut i: usize = len;
    while i > 0 && c[i - 1] != '.'
        invariant
            i <= len,
            len == c@.len(),
            last_dot(c@, len as int) == last_dot(c@, i as int),
        decreases i,
    {
        proof {
            lemma_last_dot_skip(c@, i - 1, i as int);
        }
        i = i - 1;
    }
    proof {
        lemma_last_dot_bound(c@, len as int);
    }
    if i <= 1 {
        return false;
    }
    let d = i - 1;
    let ghost e = c@.skip(d + 1);
    proof {
        assert(last_dot(c@, len as int) == d);
    }
    let m = len - (d + 1);
    if m == 3 {
        let ok = c[d + 1] == 'c' && c[d + 2] == 'm' && c[d + 3] == 'm';
        proof {
            if ok {
                assert(e =~= seq!['c', 'm', 'm']);
            } else {
                assert(e != seq!['c', 'm', 'm']);
            }
            assert(e.len() != 4);
        }
        ok
    } else if m == 4 {
        let ok = c[d + 1] == 'c' && c[d + 2] == 'm' && c[d + 3] == 'm' && c[d + 4] == 't';
        proof {
            if ok {
                assert(e =~= seq!['c', 'm', 'm', 't']);
            } else {
                assert(e != seq!['c', 'm', 'm', 't']);
            }
            assert(e.len() != 3);
        }
        ok
    } else {
        proof {
            assert(e.len() == m);
        }
        false
    }
}

/// Moves to carry out, scripts not known, and directories not known.
pub type Resolution = (Seq<Seq<char>>, Seq<Seq<char>>, Seq<Seq<char>>, Seq<Seq<char>>);

/// The four lists one after the other.
pub open spec fn joined(a: Resolution, b: Resolution) -> Resolution {
    (a.0 + b.0, a.1 + b.1, a.2 + b.2, a.3 + b.3)
}

/// Each name of `files`, joined to `dir`, has a file URL.
pub open spec fn joined_urls_defined(dir: PathView, files: Seq<Seq<char>>) -> bool {
    forall|k: int| 0 <= k < files.len() ==> spec_file_url(#[trigger] dir.push(files[k])) is Some
}

/// The file URLs of the names of `files` joined to `dir`.
pub open spec fn joined_urls(dir: PathView, files: Seq<Seq<char>>) -> Seq<Seq<char>> {
    files.map_values(|f: Seq<char>| spec_file_url(dir.push(f))->Some_0)
}

/// What one move reported by the client comes to: a script the index knows
/// moves; a script it does not know is reported missing; a directory that
/// it lists moves with each of its scripts; another directory is reported
/// missing. None where a URI there cannot be had.
pub open spec fn rename_step(v: IndexView, old: Seq<char>, new: Seq<char>) -> Option<Resolution> {
    let path = uri_path(old);
    if is_script(path) {
        if !lookup_defined(v, path) {
            None
        } else if knows_in(v, path) {
            Some((seq![old], seq![new], Seq::empty(), Seq::empty()))
        } else {
            Some((Seq::empty(), Seq::empty(), seq![old], Seq::empty()))
        }
    } else {
        match pair_get(v.1, path) {
            Some(files) => {
                let np = uri_path(new);
                if joined_urls_defined(path, files) && joined_urls_defined(np, files) {
                    Some((joined_urls(path, files), joined_urls(np, files), Seq::empty(), Seq::empty()))
                } else {
                    None
                }
            },
            None => Some((Seq::empty(), Seq::empty(), Seq::empty(), seq![old])),
        }
    }
}

/// The first `n` moves, resolved one after the other.
pub open spec fn resolve_fold(v: IndexView, olds: Seq<Seq<char>>, news: Seq<Seq<char>>, n: int) -> Option<Resolution>
    decreases n,
{
    if n <= 0 {
        Some((Seq::empty(), Seq::empty(), Seq::empty(), Seq::empty()))
    } else {
        match (resolve_fold(v, olds, news, n - 1), rename_step(v, olds[n - 1], news[n - 1])) {
            (Some(a), Some(b)) => Some(joined(a, b)),
            _ => None,
        }
    }
}

/// All moves reported by the client, resolved.
pub open spec fn resolution(v: IndexView, olds: Seq<Seq<char>>, news: Seq<Seq<char>>) -> Option<Resolution> {
    resolve_fold(v, olds, news, olds.len() as int)
}

/// The moves can be resolved, and the index can record those it resolves
/// to.
pub open spec fn rename_defined(v: IndexView, olds: Seq<Seq<char>>, news: Seq<Seq<char>>) -> bool {
    resolution(v, olds, news) matches Some(r) && update_ok(v, r.0, r.1)
}

proof fn lemma_resolve_fold_some(v: IndexView, olds: Seq<Seq<char>>, news: Seq<Seq<char>>, i: int, n: int)
    requires
        0 <= i <= n,
        resolve_fold(v, olds, news, n) is Some,
    ensures
        resolve_fold(v, olds, news, i) is Some,
    decreases n - i,
{
    if i < n {
        lemma_resolve_fold_some(v, olds, news, i + 1, n);
    }
}

impl ResolvedRenameFileOperations {
    /// The four lists as texts.
    pub open spec fn parts(&self) -> Resolution {
        (texts(self.renamed.old@), texts(self.renamed.new@), texts(self.missing_files@), texts(self.missing_dirs@))
    }
}

/// Appends a text.
fn push_uri(v: &mut Vec<Uri>, u: Uri)
    ensures
        texts(final(v)@) == texts(old(v)@).push(u@),
{
    let ghost v0 = v@;
    v.push(u);
    proof {
        assert(texts(v@) =~= texts(v0).push(u@));
    }
}

/// Resolves one move reported by the client into `acc`; false where a URI
/// cannot be had.
fn resolve_one(idx: &FileIndex, old_uri: &Uri, new_uri: &Uri, acc: &mut ResolvedRenameFileOperations) -> (ok: bool)
    requires
        idx.wf(),
    ensures
        ok == rename_step(idx.view_all(), old_uri@, new_uri@) is Some,
        ok ==> final(acc).parts() == joined(old(acc).parts(), rename_step(idx.view_all(), old_uri@, new_uri@)->Some_0),
{
    let ghost v = idx.view_all();
    let ghost a0 = acc.parts();
    let path = convert_uri_to_path(old_uri.as_str());
    if is_script_path(&path) {
        if !idx.lookup_defined_check(&path) {
            return false;
        }
        if idx.contains(&path) {
            push_uri(&mut acc.renamed.old, old_uri.clone());
            push_uri(&mut acc.renamed.new, new_uri.clone());
            proof {
                assert(acc.parts().2 =~= a0.2 + Seq::<Seq<char>>::empty());
                assert(acc.parts().3 =~= a0.3 + Seq::<Seq<char>>::empty());
                assert(acc.parts().0 =~= a0.0 + seq![old_uri@]);
                assert(acc.parts().1 =~= a0.1 + seq![new_uri@]);
            }
        } else {
            push_uri(&mut acc.missing_files, old_uri.clone());
            proof {
                assert(acc.parts().0 =~= a0.0 + Seq::<Seq<char>>::empty());
                assert(acc.parts().1 =~= a0.1 + Seq::<Seq<char>>::empty());
                assert(acc.parts().3 =~= a0.3 + Seq::<Seq<char>>::empty());
                assert(acc.parts().2 =~= a0.2 + seq![old_uri@]);
            }
        }
        return true;
    }
    match find_dir(&idx.by_directory, &path) {
        Some(i) => {
            let ghost d = idx.dirs_view();
            proof {
                assert(d[i as int].0 == pv(path@));
                lemma_pair_pos_at(d, i as int);
            }
            let files = &idx.by_directory[i].1;
            let ghost fs = texts(files@);
            proof {
                assert(d[i as int].1 == fs);
            }
            let new_path = convert_uri_to_path(new_uri.as_str());
            let ghost dp = pv(path@);
            let ghost np = pv(new_path@);
            let mut k: usize = 0;
            while k < files.len()
                invariant
                    k <= files@.len(),
                    fs == texts(files@),
                    dp == pv(path@),
                    np == pv(new_path@),
                    dp == uri_path(old_uri@),
                    np == uri_path(new_uri@),
                    !is_script(dp),
                    pair_get(idx.view_all().1, dp) == Some(fs),
                    forall|t: int| 0 <= t < k ==> spec_file_url(#[trigger] dp.push(fs[t])) is Some,
                    forall|t: int| 0 <= t < k ==> spec_file_url(#[trigger] np.push(fs[t])) is Some,
                    acc.parts().0 == a0.0 + joined_urls(dp, fs).take(k as int),
                    acc.parts().1 == a0.1 + joined_urls(np, fs).take(k as int),
                    acc.parts().2 == a0.2,
                    acc.parts().3 == a0.3,
                decreases files@.len() - k,
            {
                proof {
                    assert(fs[k as int] == files@[k as int]@);
                }
                let mut from = copy_path(&path);
                from.push(files[k].clone());
                proof {
                    assert(pv(from@) =~= dp.push(fs[k as int]));
                }
                let from_url = match file_url(&from) {
                    Some(u) => u,
                    None => {
                        proof {
                            assert(spec_file_url(dp.push(fs[k as int])) is None);
                        }
                        return false;
                    },
                };
                let mut to = copy_path(&new_path);
                to.push(files[k].clone());
                proof {
                    assert(pv(to@) =~= np.push(fs[k as int]));
                }
                let to_url = match file_url(&to) {
                    Some(u) => u,
                    None => {
                        proof {
                            assert(spec_file_url(np.push(fs[k as int])) is None);
                        }
                        return false;
                    },
                };
                push_uri(&mut acc.renamed.old, from_url);
                push_uri(&mut acc.renamed.new, to_url);
                proof {
                    assert(joined_urls(dp, fs).take(k + 1) =~= joined_urls(dp, fs).take(k as int).push(
                        spec_file_url(dp.push(fs[k as int]))->Some_0,
                    ));
                    assert(joined_urls(np, fs).take(k + 1) =~= joined_urls(np, fs).take(k as int).push(
                        spec_file_url(np.push(fs[k as int]))->Some_0,
                    ));
                    assert(acc.parts().0 =~= a0.0 + joined_urls(dp, fs).take(k + 1));
                    assert(acc.parts().1 =~= a0.1 + joined_urls(np, fs).take(k + 1));
                }
                k = k + 1;
            }
            proof {
                assert(joined_urls(dp, fs).take(fs.len() as int) =~= joined_urls(dp, fs));
                assert(joined_urls(np, fs).take(fs.len() as int) =~= joined_urls(np, fs));
                assert(acc.parts().2 =~= a0.2 + Seq::<Seq<char>>::empty());
                assert(acc.parts().3 =~= a0.3 + Seq::<Seq<char>>::empty());
            }
            true
        },
        None => {
            proof {
                let d = idx.dirs_view();
                assert forall|t: int| 0 <= t < d.len() implies #[trigger] d[t].0 != pv(path@) by {
                    assert(d[t].0 == pv(idx.by_directory@[t].0@));
                }
            }
            push_uri(&mut acc.missing_dirs, old_uri.clone());
            proof {
                assert(acc.parts().0 =~= a0.0 + Seq::<Seq<char>>::empty());
                assert(acc.parts().1 =~= a0.1 + Seq::<Seq<char>>::empty());
                assert(acc.parts().2 =~= a0.2 + Seq::<Seq<char>>::empty());
                assert(acc.parts().3 =~= a0.3 + seq![old_uri@]);
            }
            true
        },
    }
}

/// Resolves the moves reported by the client against the index: the moves of
/// scripts and of the scripts of directories, and the scripts and
/// directories that the index does not know. None where a URI there cannot be
/// had.
fn resolve_rename_operations(renamed: &RenameFileOperations, file_idx: &FileIndex) -> (r: Option<ResolvedRenameFileOperations>)
    requires
        file_idx.wf(),
        renamed.old@.len() == renamed.new@.len(),
    ensures
        r is Some <==> resolution(file_idx.view_all(), texts(renamed.old@), texts(renamed.new@)) is Some,
        r matches Some(c) ==> c.parts() == resolution(file_idx.view_all(), texts(renamed.old@), texts(renamed.new@))->Some_0,
{
    let ghost v = file_idx.view_all();
    let ghost olds = texts(renamed.old@);
    let ghost news = texts(renamed.new@);
    let mut changes = ResolvedRenameFileOperations {
        renamed: RenameFileOperations { old: Vec::new(), new: Vec::new() },
        missing_files: Vec::new(),
        missing_dirs: Vec::new(),
    };
    proof {
        assert(changes.parts() =~~= resolve_fold(v, olds, news, 0)->Some_0);
    }
    let mut i: usize = 0;
    while i < renamed.old.len()
        invariant
            i <= renamed.old@.len(),
            renamed.old@.len() == renamed.new@.len(),
            olds == texts(renamed.old@),
            news == texts(renamed.new@),
            v == file_idx.view_all(),
            file_idx.wf(),
            resolve_fold(v, olds, news, i as int) is Some,
            changes.parts() == resolve_fold(v, olds, news, i as int)->Some_0,
        decreases renamed.old@.len() - i,
    {
        proof {
            assert(olds[i as int] == renamed.old@[i as int]@);
            assert(news[i as int] == renamed.new@[i as int]@);
        }
        if !resolve_one(file_idx, &renamed.old[i], &renamed.new[i], &mut changes) {
            proof {
                assert(resolve_fold(v, olds, news, i + 1) is None);
                if resolve_fold(v, olds, news, olds.len() as int) is Some {
                    lemma_resolve_fold_some(v, olds, news, i + 1, olds.len() as int);
                }
            }
            return None;
        }
        i = i + 1;
    }
    Some(changes)
}

/// Records that scripts and directories moved: the moves are resolved
/// against the index, which then records those of known scripts. What the
/// moves were resolved to is returned.
pub fn rename_files(renamed: RenameFileOperations, file_idx: &mut FileIndex) -> (r: ResolvedRenameFileOperations)
    requires
        old(file_idx).wf(),
        renamed.old@.len() == renamed.new@.len(),
        rename_defined(old(file_idx).view_all(), texts(renamed.old@), texts(renamed.new@)),
    ensures
        final(file_idx).wf(),
        r.parts() == resolution(old(file_idx).view_all(), texts(renamed.old@), texts(renamed.new@))->Some_0,
        final(file_idx).view_all() == updated(old(file_idx).view_all(), r.parts().0, r.parts().1),
{
    let ghost v = file_idx.view_all();
    if renamed.old.len() == 0 {
        let r = ResolvedRenameFileOperations {
            renamed: RenameFileOperations { old: Vec::new(), new: Vec::new() },
            missing_dirs: Vec::new(),
            missing_files: Vec::new(),
        };
        proof {
            assert(r.parts() =~~= resolution(v, texts(renamed.old@), texts(renamed.new@))->Some_0);
            assert(updated(v, r.parts().0, r.parts().1) == v);
        }
        return r;
    }
    let changes = match resolve_rename_operations(&renamed, file_idx) {
        Some(c) => c,
        None => {
            // Not reached: the moves resolve, as `rename_defined` says.
            return ResolvedRenameFileOperations {
                renamed: RenameFileOperations { old: Vec::new(), new: Vec::new() },
                missing_dirs: Vec::new(),
                missing_files: Vec::new(),
            };
        },
    };
    file_idx.update(&changes.renamed);
    changes
}

/// Whether `rename_files` can resolve the moves and record them.
pub fn rename_is_defined(renamed: &RenameFileOperations, file_idx: &FileIndex) -> (r: bool)
    requires
        file_idx.wf(),
        renamed.old@.len() == renamed.new@.len(),
    ensures
        r == rename_defined(file_idx.view_all(), texts(renamed.old@), texts(renamed.new@)),
{
    match resolve_rename_operations(renamed, file_idx) {
        Some(c) => file_idx.update_is_defined(&c.renamed),
        None => false,
    }
}

/// Records the moves where `rename_files` can, and gives what they were
/// resolved to; where it cannot, the index stays as it is.
pub fn try_rename_files(renamed: RenameFileOperations, file_idx: &mut FileIndex) -> (r: Option<ResolvedRenameFileOperations>)
    requires
        old(file_idx).wf(),
        renamed.old@.len() == renamed.new@.len(),
    ensures
        final(file_idx).wf(),
        r is Some <==> rename_defined(old(file_idx).view_all(), texts(renamed.old@), texts(renamed.new@)),
        r matches Some(c) ==> {
            &&& c.parts() == resolution(old(file_idx).view_all(), texts(renamed.old@), texts(renamed.new@))->Some_0
            &&& final(file_idx).view_all() == updated(old(file_idx).view_all(), c.parts().0, c.parts().1)
        },
        r is None ==> *final(file_idx) == *old(file_idx),
{
    if rename_is_defined(&renamed, file_idx) {
        Some(rename_files(renamed, file_idx))
    } else {
        None
    }
}

} // verus!
