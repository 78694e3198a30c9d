//! The store of the server's text documents and their syntax trees.
//!
//! Documents that the client has opened and documents that the server has
//! only read from disk live in separate slot arrays; slots that fall free are
//! reused. A registry finds the slot of each document by its URI.
use vstd::prelude::*;

use tree_sitter::{Parser, Tree};

use crate::protocol::{TextDocumentContentChangeEvent, TextDocumentItem};
use crate::text::{byte_len, byte_pos, utf16_len};
use crate::textdoc::{
    edit_start, edited_text, language_id, str_equal, update_ok, updated_table, TextDoc,
};

verus! {

/// A syntax tree of a script, built by tree-sitter.
#[verifier::external_type_specification]
#[verifier::external_body]
pub struct ExTree(Tree);

/// Parses a script with the TRACE32 grammar (tree-sitter's `Parser::parse`
/// with `tree_sitter_t32::LANGUAGE`), reusing `incremental` where given.
/// Nothing is claimed of the tree: it is opaque here.
#[verifier::external_body]
pub fn parse(text: &[u8], incremental: Option<&Tree>) -> Tree {
    let mut parser = Parser::new();
    parser.set_language(&tree_sitter_t32::LANGUAGE.into()).expect("Cannot load t32 grammar.");
    parser.parse(text, incremental).expect("TRACE32 script parser must not fail.")
}

/// Records an edit in a syntax tree (tree-sitter's `Tree::edit`), so that the
/// next parse can reuse the unchanged parts. Nothing is claimed of the tree.
#[verifier::external_body]
fn edit_tree(tree: &mut Tree, edit: &crate::textdoc::InputEdit) {
    tree.edit(
        &tree_sitter::InputEdit {
            start_byte: edit.start_byte,
            old_end_byte: edit.old_end_byte,
            new_end_byte: edit.new_end_byte,
            start_position: tree_sitter::Point::new(edit.start_position.row, edit.start_position.column),
            old_end_position: tree_sitter::Point::new(edit.old_end_position.row, edit.old_end_position.column),
            new_end_position: tree_sitter::Point::new(edit.new_end_position.row, edit.new_end_position.column),
        },
    );
}

/// Whether the client has the document open.
#[derive(Clone, Copy, Debug, PartialEq, Eq, Structural)]
pub enum TextDocStatus {
    Closed,
    Open,
}

/// Where a document is kept: its status and its slot.
#[derive(Clone, Copy, Debug, PartialEq, Eq, Structural)]
pub struct DocIndex(pub TextDocStatus, pub usize);

/// The slots that are free for reuse.
#[derive(Debug)]
pub struct FreeLists {
    pub open: Vec<usize>,
    pub closed: Vec<usize>,
}

#[derive(Debug)]
pub struct DocStore {
    pub open: Vec<Option<TextDoc>>,
    pub closed: Vec<Option<TextDoc>>,
}

#[derive(Debug)]
pub struct TreeStore {
    pub open: Vec<Option<Tree>>,
    pub closed: Vec<Option<Tree>>,
}

/// The text documents of the server, each with its syntax tree.
#[derive(Debug)]
pub struct TextDocs {
    pub docs: DocStore,
    pub trees: TreeStore,
    pub registry: Vec<(String, DocIndex)>,
    pub free_list: FreeLists,
}

/// The first registry entry for the URI `k`, or -1.
pub open spec fn reg_pos(reg: Seq<(String, DocIndex)>, k: Seq<char>) -> int {
    if exists|i: int| 0 <= i < reg.len() && #[trigger] reg[i].0@ == k {
        choose|i: int| 0 <= i < reg.len() && #[trigger] reg[i].0@ == k
    } else {
        -1
    }
}

impl TextDocs {
    pub open spec fn doc_slots(&self, st: TextDocStatus) -> Seq<Option<TextDoc>> {
        if st == TextDocStatus::Open {
            self.docs.open@
        } else {
            self.docs.closed@
        }
    }

    pub open spec fn tree_slots(&self, st: TextDocStatus) -> Seq<Option<Tree>> {
        if st == TextDocStatus::Open {
            self.trees.open@
        } else {
            self.trees.closed@
        }
    }

    pub open spec fn free(&self, st: TextDocStatus) -> Seq<usize> {
        if st == TextDocStatus::Open {
            self.free_list.open@
        } else {
            self.free_list.closed@
        }
    }

    /// The slot is in use: it holds a document and a tree.
    pub open spec fn slot_used(&self, ix: DocIndex) -> bool {
        &&& ix.1 < self.doc_slots(ix.0).len()
        &&& self.doc_slots(ix.0)[ix.1 as int] is Some
        &&& self.tree_slots(ix.0)[ix.1 as int] is Some
    }

    /// The store is consistent: each registered document has a slot of its
    /// own that holds it, and each free slot is empty and listed once.
    pub open spec fn wf(&self) -> bool {
        &&& self.docs.open@.len() == self.trees.open@.len()
        &&& self.docs.closed@.len() == self.trees.closed@.len()
        &&& forall|i: int, j: int|
            #![trigger self.registry@[i], self.registry@[j]]
            0 <= i < self.registry@.len() && 0 <= j < self.registry@.len() && i != j
                ==> self.registry@[i].0@ != self.registry@[j].0@ && self.registry@[i].1 != self.registry@[j].1
        &&& forall|i: int| 0 <= i < self.registry@.len() ==> self.slot_used(#[trigger] self.registry@[i].1)
        &&& forall|st: TextDocStatus, p: int| 0 <= p < self.free(st).len() ==> {
            let s = #[trigger] self.free(st)[p];
            &&& s < self.doc_slots(st).len()
            &&& self.doc_slots(st)[s as int] is None
            &&& self.tree_slots(st)[s as int] is None
        }
        &&& forall|st: TextDocStatus, p: int, q: int|
            0 <= p < self.free(st).len() && 0 <= q < self.free(st).len() && p != q
                ==> #[trigger] self.free(st)[p] != #[trigger] self.free(st)[q]
    }

    /// The document with the URI `k`: its status, the document and its tree.
    pub open spec fn entry(&self, k: Seq<char>) -> Option<(TextDocStatus, TextDoc, Tree)> {
        let p = reg_pos(self.registry@, k);
        if p < 0 {
            None
        } else {
            let ix = self.registry@[p].1;
            Some((ix.0, self.doc_slots(ix.0)[ix.1 as int]->Some_0, self.tree_slots(ix.0)[ix.1 as int]->Some_0))
        }
    }

    /// With distinct keys, the entry of a registered key is the one at its
    /// position.
    pub proof fn lemma_reg_pos(&self, i: int)
        requires
            self.wf(),
            0 <= i < self.registry@.len(),
        ensures
            reg_pos(self.registry@, self.registry@[i].0@) == i,
    {
        let k = self.registry@[i].0@;
        let p = reg_pos(self.registry@, k);
        assert(self.registry@[i].0@ == k);
        if p != i {
            assert(self.registry@[p].0@ == k);
        }
    }

    /// An unregistered key has no entry.
    pub proof fn lemma_unregistered(&self, k: Seq<char>)
        requires
            forall|i: int| 0 <= i < self.registry@.len() ==> #[trigger] self.registry@[i].0@ != k,
        ensures
            reg_pos(self.registry@, k) == -1,
    {
    }

    pub fn build() -> (d: Self)
        ensures
            d.wf(),
            forall|k: Seq<char>| d.entry(k) is None,
            d.registry@.len() == 0,
            d.docs.open@.len() == 0,
            d.docs.closed@.len() == 0,
            d.trees.open@.len() == 0,
            d.trees.closed@.len() == 0,
            d.free_list.open@.len() == 0,
            d.free_list.closed@.len() == 0,
    {
        TextDocs {
            docs: DocStore { open: Vec::new(), closed: Vec::new() },
            trees: TreeStore { open: Vec::new(), closed: Vec::new() },
            registry: Vec::new(),
            free_list: FreeLists { open: Vec::new(), closed: Vec::new() },
        }
    }

    /// Finds the registry entry of `uri`.
    fn find(&self, uri: &str) -> (r: Option<usize>)
        requires
            self.wf(),
        ensures
            match r {
                Some(i) => i < self.registry@.len() && self.registry@[i as int].0@ == uri@ && reg_pos(self.registry@, uri@) == i,
                None => reg_pos(self.registry@, uri@) == -1,
            },
    {
        let mut i: usize = 0;
        while i < self.registry.len()
            invariant
                self.wf(),
                i <= self.registry@.len(),
                forall|k: int| 0 <= k < i ==> #[trigger] self.registry@[k].0@ != uri@,
            decreases self.registry@.len() - i,
        {
            if str_equal(self.registry[i].0.as_str(), uri) {
                proof {
                    self.lemma_reg_pos(i as int);
                }
                return Some(i);
            }
            i = i + 1;
        }
        None
    }

    /// The document with the URI `uri`.
    pub fn get_doc(&self, uri: &str) -> (r: Option<&TextDoc>)
        requires
            self.wf(),
        ensures
            match self.entry(uri@) {
                Some((_, doc, _)) => r == Some(&doc),
                None => r is None,
            },
    {
        match self.find(uri) {
            Some(i) => {
                let ix = self.registry[i].1;
                if ix.0 == TextDocStatus::Open {
                    self.docs.open[ix.1].as_ref()
                } else {
                    self.docs.closed[ix.1].as_ref()
                }
            },
            None => None,
        }
    }

    /// The syntax tree of the document with the URI `uri`.
    pub fn get_tree(&self, uri: &str) -> (r: Option<&Tree>)
        requires
            self.wf(),
        ensures
            match self.entry(uri@) {
                Some((_, _, tree)) => r == Some(&tree),
                None => r is None,
            },
    {
        match self.find(uri) {
            Some(i) => {
                let ix = self.registry[i].1;
                if ix.0 == TextDocStatus::Open {
                    self.trees.open[ix.1].as_ref()
                } else {
                    self.trees.closed[ix.1].as_ref()
                }
            },
            None => None,
        }
    }

    /// The document and its tree; the pair is given only where one of the
    /// two is missing from its slot, which never happens in a consistent
    /// store, so the result is always `None`.
    pub fn get_doc_and_tree(&self, uri: &str) -> (r: Option<(&TextDoc, &Tree)>)
        requires
            self.wf(),
        ensures
            r is None,
    {
        match self.find(uri) {
            Some(i) => {
                let ix = self.registry[i].1;
                if ix.0 == TextDocStatus::Open {
                    if self.docs.open[ix.1].is_none() || self.trees.open[ix.1].is_none() {
                        match (self.docs.open[ix.1].as_ref(), self.trees.open[ix.1].as_ref()) {
                            (Some(d), Some(t)) => Some((d, t)),
                            _ => None,
                        }
                    } else {
                        None
                    }
                } else if self.docs.closed[ix.1].is_none() || self.trees.closed[ix.1].is_none() {
                    match (self.docs.closed[ix.1].as_ref(), self.trees.closed[ix.1].as_ref()) {
                        (Some(d), Some(t)) => Some((d, t)),
                        _ => None,
                    }
                } else {
                    None
                }
            },
            None => None,
        }
    }

    /// Whether the client has the document open.
    pub fn is_open(&self, uri: &str) -> (r: bool)
        requires
            self.wf(),
        ensures
            r == (self.entry(uri@) matches Some((st, _, _)) && st == TextDocStatus::Open),
    {
        match self.find(uri) {
            Some(i) => self.registry[i].1.0 == TextDocStatus::Open,
            None => false,
        }
    }
}

impl TextDocs {
    /// The entry of the registry at `i` is what `entry` gives for its key.
    pub proof fn lemma_entry_at(&self, i: int)
        requires
            self.wf(),
            0 <= i < self.registry@.len(),
        ensures
            self.entry(self.registry@[i].0@) == Some(
                (
                    self.registry@[i].1.0,
                    self.doc_slots(self.registry@[i].1.0)[self.registry@[i].1.1 as int]->Some_0,
                    self.tree_slots(self.registry@[i].1.0)[self.registry@[i].1.1 as int]->Some_0,
                ),
            ),
    {
        self.lemma_reg_pos(i);
    }

    /// Sets one slot of the store `st`.
    fn put(&mut self, st: TextDocStatus, s: usize, d: Option<TextDoc>, t: Option<Tree>)
        requires
            s < old(self).doc_slots(st).len(),
            s < old(self).tree_slots(st).len(),
        ensures
            final(self).doc_slots(st) == old(self).doc_slots(st).update(s as int, d),
            final(self).tree_slots(st) == old(self).tree_slots(st).update(s as int, t),
            forall|x: TextDocStatus| x != st ==> final(self).doc_slots(x) == old(self).doc_slots(x)
                && final(self).tree_slots(x) == old(self).tree_slots(x),
            final(self).registry == old(self).registry,
            final(self).free_list == old(self).free_list,
    {
        match st {
            TextDocStatus::Open => {
                self.docs.open.set(s, d);
                self.trees.open.set(s, t);
            },
            TextDocStatus::Closed => {
                self.docs.closed.set(s, d);
                self.trees.closed.set(s, t);
            },
        }
    }

    /// Stores a document and its tree in a free slot of `st`, or in a new
    /// slot where none is free.
    fn occupy(&mut self, st: TextDocStatus, d: TextDoc, t: Tree) -> (s: usize)
        requires
            forall|q: int| 0 <= q < old(self).free(st).len() ==> #[trigger] old(self).free(st)[q]
                < old(self).doc_slots(st).len() && old(self).free(st)[q] < old(self).tree_slots(st).len(),
        ensures
            old(self).free(st).len() == 0 ==> {
                &&& s == old(self).doc_slots(st).len()
                &&& final(self).doc_slots(st) == old(self).doc_slots(st).push(Some(d))
                &&& final(self).tree_slots(st) == old(self).tree_slots(st).push(Some(t))
                &&& final(self).free(st) == old(self).free(st)
            },
            old(self).free(st).len() > 0 ==> {
                &&& s == old(self).free(st).last()
                &&& final(self).doc_slots(st) == old(self).doc_slots(st).update(s as int, Some(d))
                &&& final(self).tree_slots(st) == old(self).tree_slots(st).update(s as int, Some(t))
                &&& final(self).free(st) == old(self).free(st).drop_last()
            },
            forall|x: TextDocStatus| x != st ==> final(self).doc_slots(x) == old(self).doc_slots(x)
                && final(self).tree_slots(x) == old(self).tree_slots(x) && final(self).free(x) == old(self).free(x),
            final(self).registry == old(self).registry,
    {
        match st {
            TextDocStatus::Open => {
                if self.free_list.open.len() == 0 {
                    let len = self.docs.open.len();
                    self.docs.open.push(Some(d));
                    self.trees.open.push(Some(t));
                    len
                } else {
                    let slot = self.free_list.open.pop().unwrap();
                    proof {
                        assert(self.free(st) == old(self).free(st).drop_last());
                        assert(old(self).free(st)[old(self).free(st).len() - 1] == slot);
                    }
                    self.docs.open.set(slot, Some(d));
                    self.trees.open.set(slot, Some(t));
                    slot
                }
            },
            TextDocStatus::Closed => {
                if self.free_list.closed.len() == 0 {
                    let len = self.docs.closed.len();
                    self.docs.closed.push(Some(d));
                    self.trees.closed.push(Some(t));
                    len
                } else {
                    let slot = self.free_list.closed.pop().unwrap();
                    proof {
                        assert(self.free(st) == old(self).free(st).drop_last());
                        assert(old(self).free(st)[old(self).free(st).len() - 1] == slot);
                    }
                    self.docs.closed.set(slot, Some(d));
                    self.trees.closed.set(slot, Some(t));
                    slot
                }
            },
        }
    }

    /// Gives the slot of `st` back to its free list.
    fn release(&mut self, st: TextDocStatus, s: usize)
        ensures
            final(self).free(st) == old(self).free(st).push(s),
            forall|x: TextDocStatus| x != st ==> final(self).free(x) == old(self).free(x),
            forall|x: TextDocStatus| final(self).doc_slots(x) == old(self).doc_slots(x)
                && final(self).tree_slots(x) == old(self).tree_slots(x),
            final(self).registry == old(self).registry,
    {
        match st {
            TextDocStatus::Open => self.free_list.open.push(s),
            TextDocStatus::Closed => self.free_list.closed.push(s),
        }
    }
}

/// The store holds `doc` with its tree under the document's URI, with the
/// given status; every other document is as it was.
pub open spec fn stored(
    before: TextDocs,
    after: TextDocs,
    uri: Seq<char>,
    entry: (TextDocStatus, TextDoc, Tree),
) -> bool {
    &&& after.wf()
    &&& after.entry(uri) == Some(entry)
    &&& forall|k: Seq<char>| k != uri ==> #[trigger] after.entry(k) == before.entry(k)
}

impl TextDocs {
    /// After a change to slots that none of the other registered documents
    /// use, and with their registry entries kept, their entries are as they
    /// were, and the store is consistent.
    proof fn lemma_others_kept(old_docs: TextDocs, new_docs: TextDocs, p: int, uri: Seq<char>)
        requires
            old_docs.wf(),
            0 <= p < new_docs.registry@.len(),
            new_docs.registry@[p].0@ == uri,
            new_docs.slot_used(new_docs.registry@[p].1),
            new_docs.docs.open@.len() == new_docs.trees.open@.len(),
            new_docs.docs.closed@.len() == new_docs.trees.closed@.len(),
            new_docs.registry@.len() == old_docs.registry@.len() || new_docs.registry@.len() == old_docs.registry@.len() + 1,
            new_docs.registry@.len() == old_docs.registry@.len() + 1 ==> p == old_docs.registry@.len()
                && forall|i: int| 0 <= i < old_docs.registry@.len() ==> #[trigger] old_docs.registry@[i].0@ != uri,
            new_docs.registry@.len() == old_docs.registry@.len() ==> old_docs.registry@[p].0@ == uri,
            forall|i: int| 0 <= i < old_docs.registry@.len() && i != p ==> #[trigger] new_docs.registry@[i] == old_docs.registry@[i],
            forall|i: int| 0 <= i < old_docs.registry@.len() && i != p ==> #[trigger] new_docs.registry@[p].1 != old_docs.registry@[i].1,
            forall|i: int| 0 <= i < old_docs.registry@.len() && i != p ==> {
                let ix = #[trigger] old_docs.registry@[i].1;
                &&& new_docs.doc_slots(ix.0).len() >= old_docs.doc_slots(ix.0).len()
                &&& new_docs.doc_slots(ix.0)[ix.1 as int] == old_docs.doc_slots(ix.0)[ix.1 as int]
                &&& new_docs.tree_slots(ix.0)[ix.1 as int] == old_docs.tree_slots(ix.0)[ix.1 as int]
            },
            forall|st: TextDocStatus, q: int| 0 <= q < new_docs.free(st).len() ==> {
                let s = #[trigger] new_docs.free(st)[q];
                &&& s < new_docs.doc_slots(st).len()
                &&& new_docs.doc_slots(st)[s as int] is None
                &&& new_docs.tree_slots(st)[s as int] is None
            },
            forall|st: TextDocStatus, a: int, b: int|
                0 <= a < new_docs.free(st).len() && 0 <= b < new_docs.free(st).len() && a != b
                    ==> #[trigger] new_docs.free(st)[a] != #[trigger] new_docs.free(st)[b],
        ensures
            new_docs.wf(),
            forall|k: Seq<char>| k != uri ==> #[trigger] new_docs.entry(k) == old_docs.entry(k),
    {
        let n = old_docs.registry@.len();
        let m = new_docs.registry@.len();
        assert forall|i: int| 0 <= i < m implies new_docs.slot_used(#[trigger] new_docs.registry@[i].1) by {
            if i != p {
                assert(old_docs.slot_used(old_docs.registry@[i].1));
            }
        }
        assert forall|i: int, j: int|
            #![trigger new_docs.registry@[i], new_docs.registry@[j]]
            0 <= i < m && 0 <= j < m && i != j
                implies new_docs.registry@[i].0@ != new_docs.registry@[j].0@
                && new_docs.registry@[i].1 != new_docs.registry@[j].1 by {
            if i != p && j != p {
                assert(new_docs.registry@[i] == old_docs.registry@[i]);
                assert(new_docs.registry@[j] == old_docs.registry@[j]);
            } else if i == p {
                assert(new_docs.registry@[j] == old_docs.registry@[j]);
                if m == n {
                    assert(old_docs.registry@[p].0@ == uri);
                }
            } else {
                assert(new_docs.registry@[i] == old_docs.registry@[i]);
                if m == n {
                    assert(old_docs.registry@[p].0@ == uri);
                }
            }
        }
        assert(new_docs.wf());
        assert forall|k: Seq<char>| k != uri implies #[trigger] new_docs.entry(k) == old_docs.entry(k) by {
            if exists|i: int| 0 <= i < n && #[trigger] old_docs.registry@[i].0@ == k {
                let i = choose|i: int| 0 <= i < n && #[trigger] old_docs.registry@[i].0@ == k;
                assert(i != p);
                old_docs.lemma_entry_at(i);
                new_docs.lemma_entry_at(i);
                assert(old_docs.slot_used(old_docs.registry@[i].1));
            } else {
                assert forall|i: int| 0 <= i < m implies #[trigger] new_docs.registry@[i].0@ != k by {
                    if i != p {
                        assert(new_docs.registry@[i] == old_docs.registry@[i]);
                    }
                }
            }
        }
    }

    /// Adds a document with its tree, or replaces the one with the same URI;
    /// a document whose status changes moves to the other slot array.
    pub fn add(&mut self, doc: TextDoc, tree: Tree, status: TextDocStatus)
        requires
            old(self).wf(),
        ensures
            stored(*old(self), *final(self), doc.uri@, (status, doc, tree)),
    {
        let uri = doc.uri.clone();
        match self.find(uri.as_str()) {
            Some(p) => {
                let ix = self.registry[p].1;
                if ix.0 == status {
                    self.replace_in_slot(p, ix, doc, tree);
                } else {
                    self.move_to_store(p, ix, uri, Some((doc, tree)), status);
                }
            },
            None => {
                self.add_new(uri, doc, tree, status);
            },
        }
    }

    /// Replaces a document in its slot.
    fn replace_in_slot(&mut self, p: usize, ix: DocIndex, doc: TextDoc, tree: Tree)
        requires
            old(self).wf(),
            p < old(self).registry@.len(),
            old(self).registry@[p as int].0@ == doc.uri@,
            old(self).registry@[p as int].1 == ix,
        ensures
            stored(*old(self), *final(self), doc.uri@, (ix.0, doc, tree)),
    {
        let status = ix.0;
        proof {
            old(self).lemma_reg_pos(p as int);
        }
        self.put(status, ix.1, Some(doc), Some(tree));
        proof {
            assert(self.slot_used(self.registry@[p as int].1));
            assert forall|i: int| 0 <= i < old(self).registry@.len() && i != p implies {
                let jx = #[trigger] old(self).registry@[i].1;
                &&& self.doc_slots(jx.0).len() >= old(self).doc_slots(jx.0).len()
                &&& self.doc_slots(jx.0)[jx.1 as int] == old(self).doc_slots(jx.0)[jx.1 as int]
                &&& self.tree_slots(jx.0)[jx.1 as int] == old(self).tree_slots(jx.0)[jx.1 as int]
            } by {
                assert(old(self).registry@[i].1 != old(self).registry@[p as int].1);
            }
            assert forall|st: TextDocStatus, q: int| 0 <= q < self.free(st).len() implies {
                let s = #[trigger] self.free(st)[q];
                &&& s < self.doc_slots(st).len()
                &&& self.doc_slots(st)[s as int] is None
                &&& self.tree_slots(st)[s as int] is None
            } by {
                assert(old(self).slot_used(old(self).registry@[p as int].1));
                assert(self.free(st)[q] == old(self).free(st)[q]);
            }
            assert forall|st: TextDocStatus, a: int, b: int|
                0 <= a < self.free(st).len() && 0 <= b < self.free(st).len() && a != b
                    implies #[trigger] self.free(st)[a] != #[trigger] self.free(st)[b] by {
                assert(self.free(st)[a] == old(self).free(st)[a]);
                assert(self.free(st)[b] == old(self).free(st)[b]);
            }
            assert(self.docs.open@.len() == self.doc_slots(TextDocStatus::Open).len());
            assert(self.trees.open@.len() == self.tree_slots(TextDocStatus::Open).len());
            assert(self.docs.closed@.len() == self.doc_slots(TextDocStatus::Closed).len());
            assert(self.trees.closed@.len() == self.tree_slots(TextDocStatus::Closed).len());
            Self::lemma_others_kept(*old(self), *self, p as int, doc.uri@);
            self.lemma_entry_at(p as int);
        }
    }

    /// Empties a slot, handing out what it held.
    fn take_out(&mut self, ix: DocIndex) -> (r: (Option<TextDoc>, Option<Tree>))
        requires
            ix.1 < old(self).doc_slots(ix.0).len(),
            ix.1 < old(self).tree_slots(ix.0).len(),
        ensures
            r.0 == old(self).doc_slots(ix.0)[ix.1 as int],
            r.1 == old(self).tree_slots(ix.0)[ix.1 as int],
            final(self).doc_slots(ix.0) == old(self).doc_slots(ix.0).update(ix.1 as int, None),
            final(self).tree_slots(ix.0) == old(self).tree_slots(ix.0).update(ix.1 as int, None),
            forall|x: TextDocStatus| x != ix.0 ==> final(self).doc_slots(x) == old(self).doc_slots(x)
                && final(self).tree_slots(x) == old(self).tree_slots(x),
            final(self).registry == old(self).registry,
            final(self).free_list == old(self).free_list,
    {
        let mut d: Option<TextDoc> = None;
        let mut t: Option<Tree> = None;
        match ix.0 {
            TextDocStatus::Open => {
                std::mem::swap(&mut d, &mut self.docs.open[ix.1]);
                std::mem::swap(&mut t, &mut self.trees.open[ix.1]);
            },
            TextDocStatus::Closed => {
                std::mem::swap(&mut d, &mut self.docs.closed[ix.1]);
                std::mem::swap(&mut t, &mut self.trees.closed[ix.1]);
            },
        }
        proof {
            assert(self.doc_slots(ix.0) =~= old(self).doc_slots(ix.0).update(ix.1 as int, None));
            assert(self.tree_slots(ix.0) =~= old(self).tree_slots(ix.0).update(ix.1 as int, None));
        }
        (d, t)
    }

    /// Moves the document registered at `p` to a slot of the other array,
    /// with `replacement` in place of what it held where one is given.
    fn move_to_store(
        &mut self,
        p: usize,
        ix: DocIndex,
        key: String,
        replacement: Option<(TextDoc, Tree)>,
        status: TextDocStatus,
    )
        requires
            old(self).wf(),
            p < old(self).registry@.len(),
            old(self).registry@[p as int].0@ == key@,
            old(self).registry@[p as int].1 == ix,
            ix.0 != status,
        ensures
            stored(
                *old(self),
                *final(self),
                key@,
                match replacement {
                    Some((d, t)) => (status, d, t),
                    None => (status, old(self).entry(key@)->Some_0.1, old(self).entry(key@)->Some_0.2),
                },
            ),
    {
        proof {
            old(self).lemma_reg_pos(p as int);
            assert(old(self).slot_used(ix));
        }
        let (held_doc, held_tree) = self.take_out(ix);
        let (doc, tree) = match replacement {
            Some((d, t)) => (d, t),
            None => match (held_doc, held_tree) {
                (Some(d), Some(t)) => (d, t),
                _ => { return; },
            },
        };
        let uri = key;
        self.release(ix.0, ix.1);
        proof {
            assert forall|q: int| 0 <= q < self.free(status).len() implies #[trigger] self.free(status)[q]
                < self.doc_slots(status).len() && self.free(status)[q] < self.tree_slots(status).len() by {
                assert(self.free(status)[q] == old(self).free(status)[q]);
            }
        }
        let s = self.occupy(status, doc, tree);
        self.registry.set(p, (uri, DocIndex(status, s)));
        proof {
            assert(old(self).slot_used(ix));
            assert(self.slot_used(self.registry@[p as int].1));
            assert forall|i: int| 0 <= i < old(self).registry@.len() && i != p implies
                #[trigger] self.registry@[p as int].1 != old(self).registry@[i].1 by {
                assert(old(self).slot_used(old(self).registry@[i].1));
                if old(self).free(status).len() > 0 {
                    assert(old(self).free(status)[old(self).free(status).len() - 1] == s);
                }
            }
            assert forall|i: int| 0 <= i < old(self).registry@.len() && i != p implies {
                let jx = #[trigger] old(self).registry@[i].1;
                &&& self.doc_slots(jx.0).len() >= old(self).doc_slots(jx.0).len()
                &&& self.doc_slots(jx.0)[jx.1 as int] == old(self).doc_slots(jx.0)[jx.1 as int]
                &&& self.tree_slots(jx.0)[jx.1 as int] == old(self).tree_slots(jx.0)[jx.1 as int]
            } by {
                assert(old(self).registry@[i].1 != ix);
                assert(old(self).slot_used(old(self).registry@[i].1));
                if old(self).free(status).len() > 0 {
                    assert(old(self).free(status)[old(self).free(status).len() - 1] == s);
                }
            }
            assert forall|st: TextDocStatus, q: int| 0 <= q < self.free(st).len() implies {
                let f = #[trigger] self.free(st)[q];
                &&& f < self.doc_slots(st).len()
                &&& self.doc_slots(st)[f as int] is None
                &&& self.tree_slots(st)[f as int] is None
            } by {
                if st == status {
                    assert(self.free(st)[q] == old(self).free(st)[q]);
                    if old(self).free(status).len() > 0 {
                        assert(old(self).free(st)[q] != old(self).free(st)[old(self).free(st).len() - 1]);
                    }
                } else if q < old(self).free(st).len() {
                    assert(self.free(st)[q] == old(self).free(st)[q]);
                    assert(old(self).free(st)[q] != ix.1);
                }
            }
            assert forall|st: TextDocStatus, a: int, b: int|
                0 <= a < self.free(st).len() && 0 <= b < self.free(st).len() && a != b
                    implies #[trigger] self.free(st)[a] != #[trigger] self.free(st)[b] by {
                if st != status {
                    let n = old(self).free(st).len() as int;
                    if a < n && b < n {
                        assert(self.free(st)[a] == old(self).free(st)[a]);
                        assert(self.free(st)[b] == old(self).free(st)[b]);
                    } else if a < n {
                        assert(self.free(st)[a] == old(self).free(st)[a]);
                    } else {
                        assert(self.free(st)[b] == old(self).free(st)[b]);
                    }
                } else {
                    assert(self.free(st)[a] == old(self).free(st)[a]);
                    assert(self.free(st)[b] == old(self).free(st)[b]);
                }
            }
            assert(self.docs.open@.len() == self.doc_slots(TextDocStatus::Open).len());
            assert(self.trees.open@.len() == self.tree_slots(TextDocStatus::Open).len());
            assert(self.docs.closed@.len() == self.doc_slots(TextDocStatus::Closed).len());
            assert(self.trees.closed@.len() == self.tree_slots(TextDocStatus::Closed).len());
            Self::lemma_others_kept(*old(self), *self, p as int, uri@);
            self.lemma_entry_at(p as int);
        }
    }

    /// Adds a document that the store does not hold yet.
    fn add_new(&mut self, uri: String, doc: TextDoc, tree: Tree, status: TextDocStatus)
        requires
            old(self).wf(),
            reg_pos(old(self).registry@, doc.uri@) == -1,
            uri@ == doc.uri@,
        ensures
            stored(*old(self), *final(self), doc.uri@, (status, doc, tree)),
    {
        proof {
            assert(old(self).doc_slots(TextDocStatus::Open).len() == old(self).tree_slots(TextDocStatus::Open).len());
            assert(old(self).doc_slots(TextDocStatus::Closed).len() == old(self).tree_slots(TextDocStatus::Closed).len());
        }
        let s = self.occupy(status, doc, tree);
        proof {
            assert(self.doc_slots(TextDocStatus::Open).len() == self.tree_slots(TextDocStatus::Open).len());
            assert(self.doc_slots(TextDocStatus::Closed).len() == self.tree_slots(TextDocStatus::Closed).len());
        }
        self.registry.push((uri, DocIndex(status, s)));
        proof {
            let p = old(self).registry@.len() as int;
            assert(self.registry@[p].0@ == doc.uri@);
            assert(self.slot_used(self.registry@[p].1));
            assert forall|i: int| 0 <= i < old(self).registry@.len() implies
                #[trigger] old(self).registry@[i].0@ != doc.uri@ by {
                if old(self).registry@[i].0@ == doc.uri@ {
                    old(self).lemma_reg_pos(i);
                }
            }
            assert forall|i: int| 0 <= i < old(self).registry@.len() && i != p implies
                #[trigger] self.registry@[p].1 != old(self).registry@[i].1 by {
                assert(old(self).slot_used(old(self).registry@[i].1));
                if old(self).free(status).len() > 0 {
                    assert(old(self).free(status)[old(self).free(status).len() - 1] == s);
                }
            }
            assert forall|i: int| 0 <= i < old(self).registry@.len() && i != p implies {
                let jx = #[trigger] old(self).registry@[i].1;
                &&& self.doc_slots(jx.0).len() >= old(self).doc_slots(jx.0).len()
                &&& self.doc_slots(jx.0)[jx.1 as int] == old(self).doc_slots(jx.0)[jx.1 as int]
                &&& self.tree_slots(jx.0)[jx.1 as int] == old(self).tree_slots(jx.0)[jx.1 as int]
            } by {
                assert(old(self).slot_used(old(self).registry@[i].1));
                if old(self).free(status).len() > 0 {
                    assert(old(self).free(status)[old(self).free(status).len() - 1] == s);
                }
            }
            assert forall|st: TextDocStatus, q: int| 0 <= q < self.free(st).len() implies {
                let f = #[trigger] self.free(st)[q];
                &&& f < self.doc_slots(st).len()
                &&& self.doc_slots(st)[f as int] is None
                &&& self.tree_slots(st)[f as int] is None
            } by {
                assert(self.free(st)[q] == old(self).free(st)[q]);
                if st == status && old(self).free(status).len() > 0 {
                    assert(old(self).free(st)[q] != old(self).free(st)[old(self).free(st).len() - 1]);
                }
            }
            assert forall|st: TextDocStatus, a: int, b: int|
                0 <= a < self.free(st).len() && 0 <= b < self.free(st).len() && a != b
                    implies #[trigger] self.free(st)[a] != #[trigger] self.free(st)[b] by {
                assert(self.free(st)[a] == old(self).free(st)[a]);
                assert(self.free(st)[b] == old(self).free(st)[b]);
            }
            assert(self.docs.open@.len() == self.doc_slots(TextDocStatus::Open).len());
            assert(self.trees.open@.len() == self.tree_slots(TextDocStatus::Open).len());
            assert(self.docs.closed@.len() == self.doc_slots(TextDocStatus::Closed).len());
            assert(self.trees.closed@.len() == self.tree_slots(TextDocStatus::Closed).len());
            Self::lemma_others_kept(*old(self), *self, p, doc.uri@);
            self.lemma_entry_at(p);
        }
    }
}

impl TextDocs {
    /// Replaces a registered document and its tree; its status stays.
    pub fn update(&mut self, doc: TextDoc, tree: Tree)
        requires
            old(self).wf(),
            old(self).entry(doc.uri@) is Some,
        ensures
            stored(*old(self), *final(self), doc.uri@, (old(self).entry(doc.uri@)->Some_0.0, doc, tree)),
    {
        match self.find(doc.uri.as_str()) {
            Some(p) => {
                let ix = self.registry[p].1;
                self.replace_in_slot(p, ix, doc, tree);
            },
            None => {},
        }
    }

    /// Marks an open document as closed; it stays in the store.
    pub fn close(&mut self, uri: &str)
        requires
            old(self).wf(),
            old(self).entry(uri@) matches Some((st, _, _)) && st == TextDocStatus::Open,
        ensures
            stored(
                *old(self),
                *final(self),
                uri@,
                (TextDocStatus::Closed, old(self).entry(uri@)->Some_0.1, old(self).entry(uri@)->Some_0.2),
            ),
    {
        match self.find(uri) {
            Some(p) => {
                let ix = self.registry[p].1;
                let key = String::from_str(uri);
                self.move_to_store(p, ix, key, None, TextDocStatus::Closed);
            },
            None => {},
        }
    }
}

/// Reads a document that the client has opened: its line table and its
/// syntax tree.
pub fn import_doc(item: TextDocumentItem) -> (r: (TextDoc, Tree))
    requires
        byte_len(item.text@) <= usize::MAX,
        utf16_len(item.text@) < u32::MAX,
    ensures
        r.0.uri == item.uri,
        r.0.version == item.version,
        r.0.text == item.text,
        r.0.lang_id@ == language_id(),
        r.0.wf(),
{
    let doc = TextDoc::from(item);
    let tree = parse(doc.text.as_str().as_bytes(), None);
    (doc, tree)
}

/// A document's text with its line table.
pub open spec fn doc_state(doc: TextDoc) -> (Seq<usize>, Seq<Option<u32>>, Seq<char>) {
    (doc.lines.byte_offsets@, doc.lines.max_utf16_char_offset@, doc.text@)
}

/// The text and line table after one change.
pub open spec fn change_applied(
    st: (Seq<usize>, Seq<Option<u32>>, Seq<char>),
    change: TextDocumentContentChangeEvent,
) -> (Seq<usize>, Seq<Option<u32>>, Seq<char>) {
    let (offs, maxs, s) = st;
    let cs = edit_start(offs, maxs, s, change.range);
    let t = edited_text(offs, maxs, s, change.range, change.text@);
    let table = updated_table(offs, maxs, t, byte_pos(s, cs) as int, (byte_pos(s, cs) + byte_len(change.text@)) as int);
    (table.0, table.1, t)
}

/// The text and line table after the first `n` changes.
pub open spec fn changes_applied(
    st: (Seq<usize>, Seq<Option<u32>>, Seq<char>),
    changes: Seq<TextDocumentContentChangeEvent>,
    n: int,
) -> (Seq<usize>, Seq<Option<u32>>, Seq<char>)
    decreases n,
{
    if n <= 0 {
        st
    } else {
        change_applied(changes_applied(st, changes, n - 1), changes[n - 1])
    }
}

/// Each change can be applied to the text that the changes before it left.
pub open spec fn changes_ok(
    st: (Seq<usize>, Seq<Option<u32>>, Seq<char>),
    changes: Seq<TextDocumentContentChangeEvent>,
) -> bool {
    forall|n: int| 0 <= n < changes.len() ==> {
        let cur = #[trigger] changes_applied(st, changes, n);
        update_ok(cur.0, cur.1, cur.2, changes[n].range, changes[n].text@)
    }
}

/// Applies the client's changes to a document in order, and records each of
/// them in the syntax tree.
pub fn update_doc(doc: TextDoc, tree: Tree, changes: Vec<TextDocumentContentChangeEvent>) -> (r: (TextDoc, Tree))
    requires
        doc.wf(),
        changes_ok(doc_state(doc), changes@),
    ensures
        doc_state(r.0) == changes_applied(doc_state(doc), changes@, changes@.len() as int),
        r.0.wf(),
        r.0.uri == doc.uri,
        r.0.lang_id == doc.lang_id,
        r.0.version == doc.version,
{
    let mut doc = doc;
    let mut tree = tree;
    let ghost st0 = doc_state(doc);
    let ghost all = changes@;
    let ghost uri = doc.uri;
    let ghost lang_id = doc.lang_id;
    let ghost version = doc.version;
    for change in it: changes.into_iter()
        invariant
            it.seq() == all,
            changes_ok(st0, all),
            doc.wf(),
            doc_state(doc) == changes_applied(st0, all, it.index() as int),
            doc.uri == uri,
            doc.lang_id == lang_id,
            doc.version == version,
    {
        let ghost k = it.index() as int;
        proof {
            assert(all[k] == change);
            let cur = changes_applied(st0, all, k);
            assert(update_ok(cur.0, cur.1, cur.2, all[k].range, all[k].text@));
        }
        let edit = doc.update(change.range, change.text.as_str());
        edit_tree(&mut tree, &edit);
        let _ = parse(doc.text.as_str().as_bytes(), Some(&tree));
    }
    (doc, tree)
}

/// After a document has been added, reading it back gives what was added,
/// with its status; every other document reads as before.
pub proof fn law_read_after_add(before: TextDocs, after: TextDocs, doc: TextDoc, tree: Tree, status: TextDocStatus, other: Seq<char>)
    requires
        stored(before, after, doc.uri@, (status, doc, tree)),
        other != doc.uri@,
    ensures
        after.entry(doc.uri@) matches Some((st, d, t)) && st == status && d == doc && t == tree,
        after.entry(other) == before.entry(other),
{
}

/// Closing an open document keeps it and its tree in the store; only its
/// status changes. Opening it again replaces it.
pub proof fn law_close_keeps_document(
    before: TextDocs,
    closed: TextDocs,
    reopened: TextDocs,
    uri: Seq<char>,
    doc: TextDoc,
    tree: Tree,
)
    requires
        before.entry(uri) matches Some((st, _, _)) && st == TextDocStatus::Open,
        stored(before, closed, uri, (TextDocStatus::Closed, before.entry(uri)->Some_0.1, before.entry(uri)->Some_0.2)),
        doc.uri@ == uri,
        stored(closed, reopened, uri, (TextDocStatus::Open, doc, tree)),
    ensures
        closed.entry(uri) matches Some((st, d, t)) && st == TextDocStatus::Closed && d == before.entry(uri)->Some_0.1
            && t == before.entry(uri)->Some_0.2,
        reopened.entry(uri) == Some((TextDocStatus::Open, doc, tree)),
        forall|k: Seq<char>| k != uri ==> #[trigger] reopened.entry(k) == before.entry(k),
{
    assert forall|k: Seq<char>| k != uri implies #[trigger] reopened.entry(k) == before.entry(k) by {
        assert(closed.entry(k) == before.entry(k));
    }
}

} // verus!
