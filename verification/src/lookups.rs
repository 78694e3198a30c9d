//! Small collections that multi-step lookups keep between their steps: values
//! grouped by the document they belong to, and pending calls between scripts.
use vstd::prelude::*;

use crate::protocol::{Location, Range, Uri};
use crate::references::{contains_uri, uri_views};

verus! {

/// The position of the first key with the characters `k`, or -1.
pub open spec fn key_pos(keys: Seq<String>, k: Seq<char>) -> int {
    if exists|i: int| 0 <= i < keys.len() && #[trigger] keys[i]@ == k {
        choose|i: int| 0 <= i < keys.len() && #[trigger] keys[i]@ == k
    } else {
        -1
    }
}

/// No two keys have the same characters.
pub open spec fn keys_distinct(keys: Seq<String>) -> bool {
    forall|i: int, j: int| 0 <= i < keys.len() && 0 <= j < keys.len() && i != j ==> keys[i]@ != keys[j]@
}

/// Values grouped by document, documents in the order in which they were
/// first added.
#[derive(Clone, Debug, PartialEq)]
pub struct UriMap<T> {
    pub keys: Vec<Uri>,
    pub values: Vec<Vec<T>>,
}

pub type FileLocationMap = UriMap<Range>;

/// The first group whose key has the characters `k`, or -1.
pub open spec fn group_pos<K, T>(g: Seq<(K, Seq<T>)>, k: K) -> int {
    if exists|i: int| 0 <= i < g.len() && #[trigger] g[i].0 == k {
        choose|i: int| 0 <= i < g.len() && #[trigger] g[i].0 == k
    } else {
        -1
    }
}

/// The groups with `v` added to the group of `k`, or a new group for `k` at
/// the end.
pub open spec fn add_value<K, T>(g: Seq<(K, Seq<T>)>, k: K, v: T) -> Seq<(K, Seq<T>)> {
    let p = group_pos(g, k);
    if p >= 0 {
        g.update(p, (k, g[p].1.push(v)))
    } else {
        g.push((k, seq![v]))
    }
}

/// The groups with the values `vs` added to the group of `k`, one by one.
pub open spec fn add_values<K, T>(g: Seq<(K, Seq<T>)>, k: K, vs: Seq<T>) -> Seq<(K, Seq<T>)>
    decreases vs.len(),
{
    if vs.len() == 0 {
        g
    } else {
        add_value(add_values(g, k, vs.drop_last()), k, vs.last())
    }
}

impl<T> UriMap<T> {
    /// The document groups: each key with its values, in order.
    pub open spec fn groups(&self) -> Seq<(Seq<char>, Seq<T>)> {
        Seq::new(self.keys@.len(), |i: int| (self.keys@[i]@, self.values@[i]@))
    }

    pub open spec fn wf(&self) -> bool {
        &&& self.keys@.len() == self.values@.len()
        &&& keys_distinct(self.keys@)
    }

    /// The values stored for the document `k`.
    pub open spec fn values_of(&self, k: Seq<char>) -> Seq<T> {
        let p = key_pos(self.keys@, k);
        if p >= 0 {
            self.values@[p]@
        } else {
            Seq::empty()
        }
    }

    pub fn new() -> (m: Self)
        ensures
            m.wf(),
            m.keys@.len() == 0,
    {
        UriMap { keys: Vec::new(), values: Vec::new() }
    }

    /// The number of documents with values.
    pub fn num_files(&self) -> (n: usize)
        ensures
            n == self.keys@.len(),
    {
        self.keys.len()
    }

    pub fn is_empty(&self) -> (r: bool)
        ensures
            r == (self.keys@.len() == 0),
    {
        self.keys.len() == 0
    }

    /// Removes all documents.
    pub fn clear(&mut self)
        ensures
            final(self).wf(),
            final(self).keys@.len() == 0,
    {
        self.keys = Vec::new();
        self.values = Vec::new();
    }

    /// Finds the position of the document `uri`.
    pub fn position(&self, uri: &str) -> (p: Option<usize>)
        requires
            self.wf(),
        ensures
            match p {
                Some(i) => i < self.keys@.len() && self.keys@[i as int]@ == uri@ && key_pos(self.keys@, uri@) == i,
                None => key_pos(self.keys@, uri@) == -1,
            },
    {
        let mut i: usize = 0;
        while i < self.keys.len()
            invariant
                self.wf(),
                i <= self.keys@.len(),
                forall|k: int| 0 <= k < i ==> #[trigger] self.keys@[k]@ != uri@,
            decreases self.keys@.len() - i,
        {
            if crate::textdoc::str_equal(self.keys[i].as_str(), uri) {
                assert(self.keys@[i as int]@ == uri@);
                return Some(i);
            }
            i = i + 1;
        }
        None
    }

    /// Adds `v` to the values of the document `uri`, after those it has.
    pub fn insert(&mut self, uri: &Uri, v: T)
        requires
            old(self).wf(),
        ensures
            final(self).wf(),
            final(self).groups() == add_value(old(self).groups(), uri@, v),
    {
        match self.position(uri.as_str()) {
            Some(i) => {
                self.values[i].push(v);
            },
            None => {
                self.keys.push(uri.clone());
                let mut vals: Vec<T> = Vec::new();
                vals.push(v);
                self.values.push(vals);
                proof {
                    assert forall|i: int, j: int|
                        0 <= i < self.keys@.len() && 0 <= j < self.keys@.len() && i != j
                        implies self.keys@[i]@ != self.keys@[j]@ by {
                        if i == self.keys@.len() - 1 {
                            assert(old(self).keys@[j] == self.keys@[j]);
                        } else if j == self.keys@.len() - 1 {
                            assert(old(self).keys@[i] == self.keys@[i]);
                        } else {
                            assert(old(self).keys@[i] == self.keys@[i]);
                            assert(old(self).keys@[j] == self.keys@[j]);
                        }
                    }
                }
            },
        }
        proof {
            old(self).lemma_group_pos(uri@);
            assert(self.groups() =~= add_value(old(self).groups(), uri@, v));
        }
    }

    /// Adds the values `vs` to the document `uri`, in order.
    pub fn insert_all(&mut self, uri: &Uri, vs: Vec<T>)
        requires
            old(self).wf(),
        ensures
            final(self).wf(),
            final(self).groups() == add_values(old(self).groups(), uri@, vs@),
    {
        let ghost g0 = self.groups();
        let ghost all = vs@;
        for v in it: vs.into_iter()
            invariant
                self.wf(),
                it.seq() == all,
                self.groups() == add_values(g0, uri@, all.take(it.index())),
        {
            let ghost k = it.index();
            self.insert(uri, v);
            proof {
                assert(all.take(k + 1).drop_last() =~= all.take(k));
            }
        }
        proof {
            assert(all.take(all.len() as int) =~= all);
        }
    }

    /// With distinct keys, the first group of `k` is the first key of `k`.
    pub proof fn lemma_group_pos(&self, k: Seq<char>)
        requires
            self.wf(),
        ensures
            group_pos(self.groups(), k) == key_pos(self.keys@, k),
    {
        let g = self.groups();
        if exists|i: int| 0 <= i < self.keys@.len() && #[trigger] self.keys@[i]@ == k {
            let i = choose|i: int| 0 <= i < self.keys@.len() && #[trigger] self.keys@[i]@ == k;
            assert(g[i].0 == k);
            let a = group_pos(g, k);
            let b = key_pos(self.keys@, k);
            assert(g[a].0 == k);
            assert(self.keys@[b]@ == k);
            assert(self.keys@[a]@ == g[a].0);
        } else {
            assert forall|i: int| 0 <= i < g.len() implies #[trigger] g[i].0 != k by {
                assert(g[i].0 == self.keys@[i]@);
            }
        }
    }
}

impl UriMap<Range> {
    /// All stored ranges as locations, document by document.
    pub fn to_locations(&self) -> (locs: Vec<Location>)
        requires
            self.wf(),
        ensures
            locs@ == group_locations(self.keys@, self.values@, self.keys@.len() as int),
    {
        let mut locs: Vec<Location> = Vec::new();
        let mut i: usize = 0;
        while i < self.keys.len()
            invariant
                self.wf(),
                i <= self.keys@.len(),
                locs@ == group_locations(self.keys@, self.values@, i as int),
            decreases self.keys@.len() - i,
        {
            let spans = &self.values[i];
            let mut j: usize = 0;
            while j < spans.len()
                invariant
                    self.wf(),
                    i < self.keys@.len(),
                    *spans == self.values@[i as int],
                    j <= spans@.len(),
                    locs@ == group_locations(self.keys@, self.values@, i as int) + spans@.take(j as int).map_values(
                        |r: Range| Location { uri: self.keys@[i as int], range: r },
                    ),
                decreases spans@.len() - j,
            {
                locs.push(Location { uri: self.keys[i].clone(), range: spans[j] });
                proof {
                    assert(spans@.take(j + 1).map_values(|r: Range| Location { uri: self.keys@[i as int], range: r })
                        =~= spans@.take(j as int).map_values(|r: Range| Location { uri: self.keys@[i as int], range: r }).push(
                        Location { uri: self.keys@[i as int], range: spans@[j as int] },
                    ));
                }
                j = j + 1;
            }
            proof {
                assert(spans@.take(j as int) =~= spans@);
            }
            i = i + 1;
        }
        locs
    }
}

/// The ranges of the first `n` groups as locations.
pub open spec fn group_locations(keys: Seq<String>, values: Seq<Vec<Range>>, n: int) -> Seq<Location>
    decreases n,
{
    if n <= 0 {
        Seq::empty()
    } else {
        group_locations(keys, values, n - 1) + values[n - 1]@.map_values(
            |r: Range| Location { uri: keys[n - 1], range: r },
        )
    }
}

/// Scripts still to look at, each with the script it calls and in which the
/// lookup started out.
#[derive(Clone, Debug, PartialEq)]
pub struct ExtMacroDefLookups {
    pub files: Vec<Uri>,
    pub callees: Vec<Uri>,
}

impl ExtMacroDefLookups {
    pub fn new() -> (l: Self)
        ensures
            l.files@.len() == 0,
            l.callees@.len() == 0,
    {
        ExtMacroDefLookups { files: Vec::new(), callees: Vec::new() }
    }

    /// Adds the script `file`, which calls `callee`.
    pub fn add(&mut self, file: Uri, callee: Uri)
        ensures
            final(self).files@ == old(self).files@.push(file),
            final(self).callees@ == old(self).callees@.push(callee),
    {
        self.files.push(file);
        self.callees.push(callee);
    }

    /// The number of scripts to look at.
    pub fn num_files(&self) -> (n: usize)
        ensures
            n == self.files@.len(),
    {
        self.files.len()
    }

    pub fn is_empty(&self) -> (r: bool)
        ensures
            r == (self.files@.len() == 0),
    {
        self.files.len() == 0
    }

    pub fn clear(&mut self)
        ensures
            final(self).files@.len() == 0,
            final(self).callees@.len() == 0,
    {
        self.files = Vec::new();
        self.callees = Vec::new();
    }
}

/// For each script, the scripts it calls that have been looked at already.
#[derive(Clone, Debug, PartialEq)]
pub struct FileCallMap {
    pub calls: UriMap<Uri>,
}

impl FileCallMap {
    pub open spec fn wf(&self) -> bool {
        self.calls.wf()
    }

    pub fn new() -> (m: Self)
        ensures
            m.wf(),
            m.calls.keys@.len() == 0,
    {
        FileCallMap { calls: UriMap::new() }
    }

    /// Records that `script` has been looked at for its call of `callee`.
    pub fn insert(&mut self, script: Uri, callee: Uri)
        requires
            old(self).wf(),
        ensures
            final(self).wf(),
            final(self).calls.groups() == add_value(old(self).calls.groups(), script@, callee),
    {
        self.calls.insert(&script, callee);
    }

    /// The scripts called from `script` that have been looked at.
    pub fn get(&self, script: &str) -> (r: Option<&Vec<Uri>>)
        requires
            self.wf(),
        ensures
            match r {
                Some(v) => key_pos(self.calls.keys@, script@) >= 0 && *v == self.calls.values@[key_pos(self.calls.keys@, script@)],
                None => key_pos(self.calls.keys@, script@) == -1,
            },
    {
        match self.calls.position(script) {
            Some(i) => Some(&self.calls.values[i]),
            None => None,
        }
    }
}

/// The values of the group with key `k`, or none.
pub open spec fn group_values<K, T>(g: Seq<(K, Seq<T>)>, k: K) -> Seq<T> {
    let p = group_pos(g, k);
    if p >= 0 {
        g[p].1
    } else {
        Seq::empty()
    }
}

/// No two groups have the same key.
pub open spec fn groups_distinct<K, T>(g: Seq<(K, Seq<T>)>) -> bool {
    forall|i: int, j: int| 0 <= i < g.len() && 0 <= j < g.len() && i != j ==> #[trigger] g[i].0 != #[trigger] g[j].0
}

/// The group of a key that occurs at `i` is the one at `i`.
pub proof fn lemma_group_pos_at<K, T>(g: Seq<(K, Seq<T>)>, i: int)
    requires
        groups_distinct(g),
        0 <= i < g.len(),
    ensures
        group_pos(g, g[i].0) == i,
{
    let p = group_pos(g, g[i].0);
    assert(g[i].0 == g[i].0);
    if p != i {
        assert(g[p].0 == g[i].0);
    }
}

/// Adding a value to a document appends it to that document's values and
/// leaves the values of every other document as they were.
pub proof fn law_add_value<K, T>(g: Seq<(K, Seq<T>)>, k: K, v: T, other: K)
    requires
        groups_distinct(g),
        other != k,
    ensures
        groups_distinct(add_value(g, k, v)),
        group_values(add_value(g, k, v), k) == group_values(g, k).push(v),
        group_values(add_value(g, k, v), other) == group_values(g, other),
{
    let g2 = add_value(g, k, v);
    let p = group_pos(g, k);
    if p >= 0 {
        assert(g[p].0 == k);
        assert forall|i: int, j: int| 0 <= i < g2.len() && 0 <= j < g2.len() && i != j implies #[trigger] g2[i].0 != #[trigger] g2[j].0 by {
            assert(g2[i].0 == g[i].0);
            assert(g2[j].0 == g[j].0);
        }
        assert(g2[p].0 == k);
        lemma_group_pos_at(g2, p);
        if exists|i: int| 0 <= i < g.len() && #[trigger] g[i].0 == other {
            let i = choose|i: int| 0 <= i < g.len() && #[trigger] g[i].0 == other;
            lemma_group_pos_at(g, i);
            assert(g2[i].0 == other);
            lemma_group_pos_at(g2, i);
        } else {
            assert forall|i: int| 0 <= i < g2.len() implies #[trigger] g2[i].0 != other by {
                assert(g2[i].0 == g[i].0);
            }
        }
    } else {
        assert forall|i: int| 0 <= i < g.len() implies #[trigger] g[i].0 != k by {}
        assert forall|i: int, j: int| 0 <= i < g2.len() && 0 <= j < g2.len() && i != j implies #[trigger] g2[i].0 != #[trigger] g2[j].0 by {
            if i < g.len() {
                assert(g2[i] == g[i]);
            }
            if j < g.len() {
                assert(g2[j] == g[j]);
            }
        }
        lemma_group_pos_at(g2, g.len() as int);
        assert(g2[g.len() as int].0 == k);
        if exists|i: int| 0 <= i < g.len() && #[trigger] g[i].0 == other {
            let i = choose|i: int| 0 <= i < g.len() && #[trigger] g[i].0 == other;
            lemma_group_pos_at(g, i);
            assert(g2[i] == g[i]);
            lemma_group_pos_at(g2, i);
        } else {
            assert forall|i: int| 0 <= i < g2.len() implies #[trigger] g2[i].0 != other by {
                if i < g.len() {
                    assert(g2[i] == g[i]);
                }
            }
        }
    }
}

/// The script has been looked at for its call of `callee`.
pub open spec fn seen_call(g: Seq<(Seq<char>, Seq<Uri>)>, script: Seq<char>, callee: Seq<char>) -> bool {
    uri_views(group_values(g, script)).contains(callee)
}

/// The number of lookups: as many as both lists hold.
pub open spec fn lookup_count(l: ExtMacroDefLookups) -> int {
    if l.files@.len() < l.callees@.len() {
        l.files@.len() as int
    } else {
        l.callees@.len() as int
    }
}

/// Of the first `n` lookups (script and the script it calls), those whose
/// call has not been looked at yet, each once; and the calls looked at
/// after them.
pub open spec fn fresh_lookups(
    g: Seq<(Seq<char>, Seq<Uri>)>,
    files: Seq<Uri>,
    callees: Seq<Uri>,
    n: int,
) -> (Seq<(Uri, Uri)>, Seq<(Seq<char>, Seq<Uri>)>)
    decreases n,
{
    if n <= 0 {
        (Seq::empty(), g)
    } else {
        let (picked, h) = fresh_lookups(g, files, callees, n - 1);
        if seen_call(h, files[n - 1]@, callees[n - 1]@) {
            (picked, h)
        } else {
            (picked.push((files[n - 1], callees[n - 1])), add_value(h, files[n - 1]@, callees[n - 1]))
        }
    }
}

impl ExtMacroDefLookups {
    /// Takes the lookups whose call has not been looked at yet, each once,
    /// and records each in `visited`; none are left to do.
    pub fn take_fresh(&mut self, visited: &mut FileCallMap) -> (picked: Vec<(Uri, Uri)>)
        requires
            old(visited).wf(),
        ensures
            final(visited).wf(),
            ({
                let r = fresh_lookups(old(visited).calls.groups(), old(self).files@, old(self).callees@, lookup_count(*old(self)));
                &&& picked@ == r.0
                &&& final(visited).calls.groups() == r.1
            }),
            final(self).files@.len() == 0,
            final(self).callees@.len() == 0,
    {
        let ghost g0 = visited.calls.groups();
        let n = if self.files.len() < self.callees.len() { self.files.len() } else { self.callees.len() };
        let mut picked: Vec<(Uri, Uri)> = Vec::new();
        let mut i: usize = 0;
        while i < n
            invariant
                n == lookup_count(*self),
                i <= n,
                n <= self.files@.len(),
                n <= self.callees@.len(),
                visited.wf(),
                ({
                    let r = fresh_lookups(g0, self.files@, self.callees@, i as int);
                    &&& picked@ == r.0
                    &&& visited.calls.groups() == r.1
                }),
            decreases n - i,
        {
            let script = &self.files[i];
            let callee = &self.callees[i];
            proof {
                visited.calls.lemma_group_pos(script@);
            }
            let seen = match visited.get(script.as_str()) {
                Some(v) => contains_uri(v, callee.as_str()),
                None => false,
            };
            if !seen {
                picked.push((script.clone(), callee.clone()));
                visited.insert(script.clone(), callee.clone());
            }
            i = i + 1;
        }
        self.clear();
        picked
    }
}

/// Recording a call keeps every call recorded before and records the new one.
proof fn lemma_seen_after_add(h: Seq<(Seq<char>, Seq<Uri>)>, f: Seq<char>, c: Uri)
    requires
        groups_distinct(h),
    ensures
        groups_distinct(add_value(h, f, c)),
        seen_call(add_value(h, f, c), f, c@),
        forall|s: Seq<char>, x: Seq<char>| seen_call(h, s, x) ==> #[trigger] seen_call(add_value(h, f, c), s, x),
{
    let h2 = add_value(h, f, c);
    let other = f.push('.');
    assert(other.len() != f.len());
    law_add_value(h, f, c, other);
    let gv = group_values(h, f);
    assert(uri_views(gv.push(c)) =~= uri_views(gv).push(c@));
    assert(uri_views(group_values(h2, f))[gv.len() as int] == c@);
    assert forall|s: Seq<char>, x: Seq<char>| seen_call(h, s, x) implies #[trigger] seen_call(h2, s, x) by {
        if s == f {
            let k = choose|k: int| 0 <= k < uri_views(gv).len() && uri_views(gv)[k] == x;
            assert(uri_views(group_values(h2, f))[k] == x);
        } else {
            law_add_value(h, f, c, s);
        }
    }
}

/// Each lookup is done at most once: every call of the first `n` lookups is
/// recorded as looked at afterwards, a lookup is taken only where its call
/// had not been looked at before, and no lookup is taken twice.
pub proof fn law_lookups_only_once(g: Seq<(Seq<char>, Seq<Uri>)>, files: Seq<Uri>, callees: Seq<Uri>, n: int)
    requires
        groups_distinct(g),
        0 <= n <= files.len(),
        n <= callees.len(),
    ensures
        ({
            let (picked, h) = fresh_lookups(g, files, callees, n);
            &&& groups_distinct(h)
            &&& forall|i: int| 0 <= i < n ==> seen_call(h, #[trigger] files[i]@, callees[i]@)
            &&& forall|k: int| 0 <= k < picked.len() ==> !seen_call(g, (#[trigger] picked[k]).0@, picked[k].1@)
            &&& forall|a: int, b: int| 0 <= a < b < picked.len() ==> (#[trigger] picked[a].0@, picked[a].1@) != (
                #[trigger] picked[b].0@,
                picked[b].1@,
            )
        }),
{
    lemma_lookups_monotone(g, files, callees, n);
}

/// The induction behind `law_lookups_only_once`, with what it needs along
/// the way: calls recorded before stay recorded, and each lookup taken is
/// recorded.
proof fn lemma_lookups_monotone(g: Seq<(Seq<char>, Seq<Uri>)>, files: Seq<Uri>, callees: Seq<Uri>, n: int)
    requires
        groups_distinct(g),
        0 <= n <= files.len(),
        n <= callees.len(),
    ensures
        ({
            let (picked, h) = fresh_lookups(g, files, callees, n);
            &&& groups_distinct(h)
            &&& forall|s: Seq<char>, x: Seq<char>| seen_call(g, s, x) ==> #[trigger] seen_call(h, s, x)
            &&& forall|k: int| 0 <= k < picked.len() ==> seen_call(h, (#[trigger] picked[k]).0@, picked[k].1@)
            &&& forall|i: int| 0 <= i < n ==> seen_call(h, #[trigger] files[i]@, callees[i]@)
            &&& forall|k: int| 0 <= k < picked.len() ==> !seen_call(g, (#[trigger] picked[k]).0@, picked[k].1@)
            &&& forall|a: int, b: int| 0 <= a < b < picked.len() ==> (#[trigger] picked[a].0@, picked[a].1@) != (
                #[trigger] picked[b].0@,
                picked[b].1@,
            )
        }),
    decreases n,
{
    if n > 0 {
        lemma_lookups_monotone(g, files, callees, n - 1);
        let (p, h) = fresh_lookups(g, files, callees, n - 1);
        let f = files[n - 1];
        let c = callees[n - 1];
        if !seen_call(h, f@, c@) {
            lemma_seen_after_add(h, f@, c);
            let h2 = add_value(h, f@, c);
            let p2 = p.push((f, c));
            assert forall|k: int| 0 <= k < p2.len() implies seen_call(h2, (#[trigger] p2[k]).0@, p2[k].1@) by {
                if k < p.len() {
                    assert(p2[k] == p[k]);
                    assert(seen_call(h, p[k].0@, p[k].1@));
                }
            }
            assert forall|i: int| 0 <= i < n implies seen_call(h2, #[trigger] files[i]@, callees[i]@) by {
                if i < n - 1 {
                    assert(seen_call(h, files[i]@, callees[i]@));
                }
            }
            assert forall|k: int| 0 <= k < p2.len() implies !seen_call(g, (#[trigger] p2[k]).0@, p2[k].1@) by {
                if k < p.len() {
                    assert(p2[k] == p[k]);
                } else {
                    if seen_call(g, f@, c@) {
                        assert(seen_call(h, f@, c@));
                    }
                }
            }
            assert forall|a: int, b: int| 0 <= a < b < p2.len() implies (#[trigger] p2[a].0@, p2[a].1@) != (
                #[trigger] p2[b].0@,
                p2[b].1@,
            ) by {
                assert(p2[a] == p[a]);
                if b < p.len() {
                    assert(p2[b] == p[b]);
                } else {
                    assert(seen_call(h, p[a].0@, p[a].1@));
                }
            }
        }
    }
}

} // verus!
