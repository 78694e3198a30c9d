//! Finding the references of a macro across scripts.
//!
//! A macro lookup runs in steps: first the macro's definitions are collected,
//! in the script where the lookup started and, where the macro may come from
//! a calling script, in its callers; then the references that belong to these
//! definitions are collected, in the scripts with a definition and in all the
//! scripts that these call.
use std::cmp::Ordering;

use vstd::prelude::*;

use crate::definitions::{copy_origin, fresh_of, MacroReferenceOrigin};
use crate::lookups::{add_value, add_values, group_locations, ExtMacroDefLookups, FileCallMap, FileLocationMap, UriMap};
use crate::lsp::{copy_id, is_log_message, received_note, received_text, Message};
use crate::protocol::{Location, NumberOrString, Range, Uri};
use crate::tasks::{
    find_ongoing_task_by_id, first_task_with_id, progress_advanced, progress_can_advance, progress_count,
    progress_finished, progress_ready, FindMacroReferencesPhase, OngoingTask, Task, TaskDone, TaskProgress,
};

verus! {

/// A span of bytes in a document; `end` is exclusive.
#[derive(Clone, Copy, Debug, PartialEq, Eq, Structural)]
pub struct BRange {
    pub start: usize,
    pub end: usize,
}

impl BRange {
    pub fn new(start: usize, end: usize) -> (r: Self)
        ensures
            r.start == start,
            r.end == end,
    {
        BRange { start, end }
    }
}

impl From<std::ops::Range<usize>> for BRange {
    fn from(r: std::ops::Range<usize>) -> (b: Self) {
        BRange { start: r.start, end: r.end }
    }
}

impl vstd::std_specs::convert::FromSpecImpl<std::ops::Range<usize>> for BRange {
    open spec fn obeys_from_spec() -> bool {
        true
    }

    open spec fn from_spec(r: std::ops::Range<usize>) -> BRange {
        BRange { start: r.start, end: r.end }
    }
}

/// How far the definition of a macro reaches.
#[derive(Clone, Copy, Debug, PartialEq, Eq, Structural)]
pub enum MacroScope {
    Private,
    Local,
    Global,
}

/// A macro definition found in a script: the span of the macro's name.
#[derive(Clone, Copy, Debug, PartialEq, Eq, Structural)]
pub struct MacroDefinition {
    pub macro_span: BRange,
}

/// Where a macro is defined, with the reach of the definition.
#[derive(Clone, Copy, Debug, PartialEq, Eq, Structural)]
pub enum MacroDefinitionLocation {
    Private(BRange),
    Local(BRange),
    Global(BRange),
}

/// The span of a definition location.
pub open spec fn location_span(l: MacroDefinitionLocation) -> BRange {
    match l {
        MacroDefinitionLocation::Private(s) => s,
        MacroDefinitionLocation::Local(s) => s,
        MacroDefinitionLocation::Global(s) => s,
    }
}

/// The reach of a definition location.
pub open spec fn location_scope(l: MacroDefinitionLocation) -> MacroScope {
    match l {
        MacroDefinitionLocation::Private(_) => MacroScope::Private,
        MacroDefinitionLocation::Local(_) => MacroScope::Local,
        MacroDefinitionLocation::Global(_) => MacroScope::Global,
    }
}

/// The definition location with the given reach and span.
pub open spec fn location_of(scope: MacroScope, span: BRange) -> MacroDefinitionLocation {
    match scope {
        MacroScope::Private => MacroDefinitionLocation::Private(span),
        MacroScope::Local => MacroDefinitionLocation::Local(span),
        MacroScope::Global => MacroDefinitionLocation::Global(span),
    }
}

/// The rank of a reach in the order of definition locations.
pub open spec fn scope_rank(s: MacroScope) -> int {
    match s {
        MacroScope::Private => 0,
        MacroScope::Local => 1,
        MacroScope::Global => 2,
    }
}

/// The order of definition locations as a sign: first by span (start, then
/// end), then by reach, private before local before global.
pub open spec fn location_order(a: MacroDefinitionLocation, b: MacroDefinitionLocation) -> int {
    let (sa, sb) = (location_span(a), location_span(b));
    if sa.start < sb.start {
        -1
    } else if sa.start > sb.start {
        1
    } else if sa.end < sb.end {
        -1
    } else if sa.end > sb.end {
        1
    } else if scope_rank(location_scope(a)) < scope_rank(location_scope(b)) {
        -1
    } else if scope_rank(location_scope(a)) > scope_rank(location_scope(b)) {
        1
    } else {
        0
    }
}

/// The sign of an ordering.
pub open spec fn ordering_sign(o: Ordering) -> int {
    match o {
        Ordering::Less => -1,
        Ordering::Equal => 0,
        Ordering::Greater => 1,
    }
}

impl MacroDefinitionLocation {
    /// Splits a location into its reach and its span.
    pub fn split(self) -> (r: (MacroScope, BRange))
        ensures
            r.0 == location_scope(self),
            r.1 == location_span(self),
            location_of(r.0, r.1) == self,
    {
        match self {
            Self::Private(span) => (MacroScope::Private, span),
            Self::Local(span) => (MacroScope::Local, span),
            Self::Global(span) => (MacroScope::Global, span),
        }
    }

    /// The location of a macro definition with the given reach.
    pub fn from_macro_def(scope: MacroScope, definition: MacroDefinition) -> (r: Self)
        ensures
            r == location_of(scope, definition.macro_span),
    {
        match scope {
            MacroScope::Private => Self::Private(definition.macro_span),
            MacroScope::Local => Self::Local(definition.macro_span),
            MacroScope::Global => Self::Global(definition.macro_span),
        }
    }

    /// The location of a definition at `span`; without a reach, the
    /// definition is taken to be local.
    pub fn from_span(scope: Option<&MacroScope>, span: BRange) -> (r: Self)
        ensures
            r == location_of(
                match scope {
                    Some(s) => *s,
                    None => MacroScope::Local,
                },
                span,
            ),
    {
        match scope {
            Some(MacroScope::Private) => Self::Private(span),
            Some(MacroScope::Local) | None => Self::Local(span),
            Some(MacroScope::Global) => Self::Global(span),
        }
    }

    /// Orders two definition locations: by span, then by reach.
    pub fn cmp(&self, other: &Self) -> (o: Ordering)
        ensures
            ordering_sign(o) == location_order(*self, *other),
    {
        let a = match self {
            MacroDefinitionLocation::Private(span)
            | MacroDefinitionLocation::Local(span)
            | MacroDefinitionLocation::Global(span) => *span,
        };
        let b = match other {
            MacroDefinitionLocation::Private(span)
            | MacroDefinitionLocation::Local(span)
            | MacroDefinitionLocation::Global(span) => *span,
        };
        if a.start < b.start {
            return Ordering::Less;
        } else if a.start > b.start {
            return Ordering::Greater;
        } else if a.end < b.end {
            return Ordering::Less;
        } else if a.end > b.end {
            return Ordering::Greater;
        }
        match self {
            MacroDefinitionLocation::Private(_) => match other {
                MacroDefinitionLocation::Private(_) => Ordering::Equal,
                MacroDefinitionLocation::Local(_) | MacroDefinitionLocation::Global(_) => {
                    Ordering::Less
                },
            },
            MacroDefinitionLocation::Local(_) => match other {
                MacroDefinitionLocation::Private(_) => Ordering::Greater,
                MacroDefinitionLocation::Local(_) => Ordering::Equal,
                MacroDefinitionLocation::Global(_) => Ordering::Less,
            },
            MacroDefinitionLocation::Global(_) => match other {
                MacroDefinitionLocation::Private(_) | MacroDefinitionLocation::Local(_) => {
                    Ordering::Greater
                },
                MacroDefinitionLocation::Global(_) => Ordering::Equal,
            },
        }
    }
}

/// A span in a document.
#[derive(Clone, Debug, PartialEq)]
pub struct FileLocation {
    pub uri: Uri,
    pub range: BRange,
}

/// What one script contributes to a macro reference lookup: the references
/// in it, and the scripts it calls.
#[derive(Debug, PartialEq)]
pub struct FindMacroReferencesResult {
    pub uri: Uri,
    pub references: Vec<Range>,
    pub subscripts: Vec<Uri>,
}

impl FindMacroReferencesResult {
    pub fn build(uri: Uri, locations: Vec<Range>, subscripts: Vec<Uri>) -> (r: Self)
        ensures
            r.uri == uri,
            r.references == locations,
            r.subscripts == subscripts,
    {
        FindMacroReferencesResult { uri, references: locations, subscripts }
    }
}

/// The macro definitions found in one script: final where the macro cannot
/// come from a caller, partial with the script's callers otherwise.
#[derive(Debug, PartialEq)]
pub enum FindDefintionsForMacroRefResult {
    Final(Vec<MacroDefinitionLocation>, Uri),
    Partial(Vec<MacroDefinitionLocation>, Uri, Vec<Uri>),
}

/// The characters of each document name.
pub open spec fn uri_views(s: Seq<Uri>) -> Seq<Seq<char>> {
    s.map_values(|u: Uri| u@)
}

/// `s` followed by the names of `new` that it does not hold yet, each once.
pub open spec fn merge_new(s: Seq<Seq<char>>, new: Seq<Seq<char>>) -> Seq<Seq<char>>
    decreases new.len(),
{
    if new.len() == 0 {
        s
    } else {
        let m = merge_new(s, new.drop_last());
        if m.contains(new.last()) {
            m
        } else {
            m.push(new.last())
        }
    }
}

/// Whether `v` holds a document named `u`.
pub fn contains_uri(v: &Vec<Uri>, u: &str) -> (r: bool)
    ensures
        r == uri_views(v@).contains(u@),
{
    let mut i: usize = 0;
    while i < v.len()
        invariant
            i <= v@.len(),
            forall|k: int| 0 <= k < i ==> #[trigger] v@[k]@ != u@,
        decreases v@.len() - i,
    {
        if crate::textdoc::str_equal(v[i].as_str(), u) {
            assert(uri_views(v@)[i as int] == u@);
            return true;
        }
        i = i + 1;
    }
    assert forall|k: int| 0 <= k < uri_views(v@).len() implies uri_views(v@)[k] != u@ by {
        assert(uri_views(v@)[k] == v@[k]@);
    }
    false
}

/// Adds the documents of `src` that `dst` does not hold yet, in order.
pub fn merge_uris(dst: &mut Vec<Uri>, src: Vec<Uri>)
    ensures
        uri_views(final(dst)@) == merge_new(uri_views(old(dst)@), uri_views(src@)),
{
    let ghost all = src@;
    for file in it: src.into_iter()
        invariant
            it.seq() == all,
            uri_views(dst@) == merge_new(uri_views(old(dst)@), uri_views(all.take(it.index()))),
    {
        let ghost k = it.index();
        proof {
            assert(uri_views(all.take(k + 1)).drop_last() =~= uri_views(all.take(k)));
            assert(uri_views(all.take(k + 1)).last() == file@);
        }
        if !contains_uri(dst, file.as_str()) {
            dst.push(file);
            proof {
                assert(uri_views(dst@) =~= uri_views(dst@.drop_last()).push(dst@.last()@));
            }
        }
    }
    proof {
        assert(all.take(all.len() as int) =~= all);
    }
}

/// The progress after one piece of work, ended where it was the last.
pub open spec fn settled(p: TaskProgress, nothing_left: bool) -> TaskProgress {
    let q = progress_advanced(p);
    if progress_ready(q) && nothing_left {
        TaskProgress { total: 0, ..q }
    } else {
        q
    }
}

/// Advances the progress and ends it where nothing is left to do.
fn settle(progress: &mut TaskProgress, nothing_left: bool)
    requires
        progress_can_advance(*old(progress)),
    ensures
        *final(progress) == settled(*old(progress), nothing_left),
{
    progress.advance();
    if progress.ready() && nothing_left {
        progress.abort();
    }
}

/// The first task with `id` is a macro reference lookup in the given step,
/// whose progress can advance and whose maps are well formed.
pub open spec fn lookup_in_step(ongoing: Seq<Option<OngoingTask>>, id: NumberOrString, step: int) -> bool {
    let i = first_task_with_id(ongoing, id);
    &&& i >= 0
    &&& match ongoing[i] {
        Some(OngoingTask::FindMacroReferences { progress, phase, .. }) => {
            &&& progress_can_advance(progress)
            &&& match phase {
                FindMacroReferencesPhase::ExternalDefinitions { results, .. } => step == 0 && results.wf(),
                FindMacroReferencesPhase::ReferencesFromDefinitions { results, .. } => step == 1 && results.wf(),
                FindMacroReferencesPhase::ReferencesInSubscripts { results, .. } => step == 2 && results.wf(),
            }
        },
        _ => false,
    }
}

/// Only slot `i` changed, to `slot`.
pub open spec fn only_slot_changed(
    before: Seq<Option<OngoingTask>>,
    after: Seq<Option<OngoingTask>>,
    i: int,
    pred: spec_fn(Option<OngoingTask>, Option<OngoingTask>) -> bool,
) -> bool {
    &&& after.len() == before.len()
    &&& forall|j: int| 0 <= j < before.len() && j != i ==> after[j] == before[j]
    &&& pred(before[i], after[i])
}

/// The references of `sync` have been recorded, its subscripts queued, and
/// the progress advanced.
pub open spec fn def_refs_recorded(
    before: Option<OngoingTask>,
    after: Option<OngoingTask>,
    sync: FindMacroReferencesResult,
) -> bool {
    match (before, after) {
        (
            Some(OngoingTask::FindMacroReferences {
                id,
                onset,
                progress,
                origin,
                phase: FindMacroReferencesPhase::ReferencesFromDefinitions { subscripts, results, undone },
            }),
            Some(OngoingTask::FindMacroReferences {
                id: i2,
                onset: o2,
                progress: p2,
                origin: g2,
                phase: FindMacroReferencesPhase::ReferencesFromDefinitions {
                    subscripts: s2,
                    results: r2,
                    undone: u2,
                },
            }),
        ) => {
            &&& i2 == id
            &&& o2 == onset
            &&& g2 == origin
            &&& u2 == undone
            &&& r2.wf()
            &&& r2.groups() == add_values(results.groups(), sync.uri@, sync.references@)
            &&& uri_views(s2@) == merge_new(uri_views(subscripts@), uri_views(sync.subscripts@))
            &&& p2 == settled(progress, undone.keys@.len() == 0)
        },
        _ => false,
    }
}

/// Takes the task out of a slot, leaving it empty.
fn take_task(ongoing: &mut Vec<Option<OngoingTask>>, i: usize) -> (t: Option<OngoingTask>)
    requires
        i < old(ongoing)@.len(),
    ensures
        t == old(ongoing)@[i as int],
        final(ongoing)@ == old(ongoing)@.update(i as int, None),
{
    let mut t: Option<OngoingTask> = None;
    std::mem::swap(&mut t, &mut ongoing[i]);
    t
}

/// Records what one script with a macro definition contributes: its
/// references, and the scripts it calls, which are searched next.
pub fn recv_find_macro_def_references_sync(
    id: &NumberOrString,
    sync: FindMacroReferencesResult,
    ongoing: &mut Vec<Option<OngoingTask>>,
)
    requires
        lookup_in_step(old(ongoing)@, *id, 1),
    ensures
        only_slot_changed(
            old(ongoing)@,
            final(ongoing)@,
            first_task_with_id(old(ongoing)@, *id),
            |a: Option<OngoingTask>, b: Option<OngoingTask>| def_refs_recorded(a, b, sync),
        ),
{
    let ghost s0 = sync;
    let idx = match find_ongoing_task_by_id(id, ongoing) {
        Some(i) => i,
        None => { return; },
    };
    let t = take_task(ongoing, idx);
    if let Some(OngoingTask::FindMacroReferences {
        id: tid,
        onset,
        mut progress,
        origin,
        phase: FindMacroReferencesPhase::ReferencesFromDefinitions { mut subscripts, mut results, undone },
    }) = t {
        let FindMacroReferencesResult { uri, references, subscripts: new_subscripts } = sync;
        results.insert_all(&uri, references);
        merge_uris(&mut subscripts, new_subscripts);
        settle(&mut progress, undone.is_empty());
        ongoing.set(
            idx,
            Some(
                OngoingTask::FindMacroReferences {
                    id: tid,
                    onset,
                    progress,
                    origin,
                    phase: FindMacroReferencesPhase::ReferencesFromDefinitions { subscripts, results, undone },
                },
            ),
        );
    }
}

/// The references of `sync` have been recorded, the scripts it calls queued
/// where they are new, and the progress advanced.
pub open spec fn subscript_refs_recorded(
    before: Option<OngoingTask>,
    after: Option<OngoingTask>,
    sync: FindMacroReferencesResult,
) -> bool {
    match (before, after) {
        (
            Some(OngoingTask::FindMacroReferences {
                id,
                onset,
                progress,
                origin,
                phase: FindMacroReferencesPhase::ReferencesInSubscripts { visited, results, undone },
            }),
            Some(OngoingTask::FindMacroReferences {
                id: i2,
                onset: o2,
                progress: p2,
                origin: g2,
                phase: FindMacroReferencesPhase::ReferencesInSubscripts { visited: v2, results: r2, undone: u2 },
            }),
        ) => {
            &&& i2 == id
            &&& o2 == onset
            &&& g2 == origin
            &&& v2 == visited
            &&& r2.wf()
            &&& r2.groups() == add_values(results.groups(), sync.uri@, sync.references@)
            &&& uri_views(u2@) == merge_new(uri_views(undone@), uri_views(sync.subscripts@))
            &&& p2 == settled(progress, u2@.len() == 0)
        },
        _ => false,
    }
}

/// Records what one called script contributes: its references, and the
/// scripts it calls in turn, which are searched next unless queued already.
pub fn recv_find_subscript_macro_references_sync(
    id: &NumberOrString,
    sync: FindMacroReferencesResult,
    ongoing: &mut Vec<Option<OngoingTask>>,
)
    requires
        lookup_in_step(old(ongoing)@, *id, 2),
    ensures
        only_slot_changed(
            old(ongoing)@,
            final(ongoing)@,
            first_task_with_id(old(ongoing)@, *id),
            |a: Option<OngoingTask>, b: Option<OngoingTask>| subscript_refs_recorded(a, b, sync),
        ),
{
    let idx = match find_ongoing_task_by_id(id, ongoing) {
        Some(i) => i,
        None => { return; },
    };
    let t = take_task(ongoing, idx);
    if let Some(OngoingTask::FindMacroReferences {
        id: tid,
        onset,
        mut progress,
        origin,
        phase: FindMacroReferencesPhase::ReferencesInSubscripts { visited, mut results, mut undone },
    }) = t {
        let FindMacroReferencesResult { uri, references, subscripts } = sync;
        results.insert_all(&uri, references);
        merge_uris(&mut undone, subscripts);
        settle(&mut progress, undone.len() == 0);
        ongoing.set(
            idx,
            Some(
                OngoingTask::FindMacroReferences {
                    id: tid,
                    onset,
                    progress,
                    origin,
                    phase: FindMacroReferencesPhase::ReferencesInSubscripts { visited, results, undone },
                },
            ),
        );
    }
}

/// The document, definitions and callers that a definition lookup reports.
pub open spec fn sync_parts(sync: FindDefintionsForMacroRefResult) -> (Uri, Seq<MacroDefinitionLocation>, Seq<Uri>) {
    match sync {
        FindDefintionsForMacroRefResult::Final(defs, uri) => (uri, defs@, Seq::empty()),
        FindDefintionsForMacroRefResult::Partial(defs, uri, callers) => (uri, defs@, callers@),
    }
}

/// The definitions of `sync` have been recorded, its callers queued with the
/// script they call, and the progress advanced.
pub open spec fn external_defs_recorded(
    before: Option<OngoingTask>,
    after: Option<OngoingTask>,
    sync: FindDefintionsForMacroRefResult,
) -> bool {
    let (uri, defs, callers) = sync_parts(sync);
    match (before, after) {
        (
            Some(OngoingTask::FindMacroReferences {
                id,
                onset,
                progress,
                origin,
                phase: FindMacroReferencesPhase::ExternalDefinitions { visited, results, undone },
            }),
            Some(OngoingTask::FindMacroReferences {
                id: i2,
                onset: o2,
                progress: p2,
                origin: g2,
                phase: FindMacroReferencesPhase::ExternalDefinitions { visited: v2, results: r2, undone: u2 },
            }),
        ) => {
            &&& i2 == id
            &&& o2 == onset
            &&& g2 == origin
            &&& v2 == visited
            &&& r2.wf()
            &&& r2.groups() == add_values(results.groups(), uri@, defs)
            &&& u2.files@ == undone.files@ + callers
            &&& u2.callees@ == undone.callees@ + Seq::new(callers.len(), |i: int| uri)
            &&& p2 == settled(progress, u2.files@.len() == 0)
        },
        _ => false,
    }
}

/// Records the macro definitions found in one calling script, and queues its
/// own callers where the macro may be defined further up.
pub fn recv_find_external_definitions_for_macro_reference_sync(
    id: &NumberOrString,
    sync: FindDefintionsForMacroRefResult,
    ongoing: &mut Vec<Option<OngoingTask>>,
)
    requires
        lookup_in_step(old(ongoing)@, *id, 0),
    ensures
        only_slot_changed(
            old(ongoing)@,
            final(ongoing)@,
            first_task_with_id(old(ongoing)@, *id),
            |a: Option<OngoingTask>, b: Option<OngoingTask>| external_defs_recorded(a, b, sync),
        ),
{
    let ghost parts = sync_parts(sync);
    let idx = match find_ongoing_task_by_id(id, ongoing) {
        Some(i) => i,
        None => { return; },
    };
    let t = take_task(ongoing, idx);
    if let Some(OngoingTask::FindMacroReferences {
        id: tid,
        onset,
        mut progress,
        origin,
        phase: FindMacroReferencesPhase::ExternalDefinitions { visited, mut results, mut undone },
    }) = t {
        let (uri, definitions, callers): (Uri, Vec<MacroDefinitionLocation>, Vec<Uri>) = match sync {
            FindDefintionsForMacroRefResult::Final(definitions, uri) => (uri, definitions, Vec::new()),
            FindDefintionsForMacroRefResult::Partial(definitions, uri, callers) => (uri, definitions, callers),
        };
        results.insert_all(&uri, definitions);
        let ghost files0 = undone.files@;
        let ghost callees0 = undone.callees@;
        let ghost all = callers@;
        for script in it: callers.into_iter()
            invariant
                it.seq() == all,
                undone.files@ == files0 + all.take(it.index()),
                undone.callees@ == callees0 + Seq::new(it.index() as nat, |i: int| uri),
        {
            let ghost k = it.index();
            undone.add(script, uri.clone());
            proof {
                assert(all.take(k + 1) =~= all.take(k).push(all[k]));
                assert(Seq::new((k + 1) as nat, |i: int| uri) =~= Seq::new(k as nat, |i: int| uri).push(uri));
            }
        }
        proof {
            assert(all.take(all.len() as int) =~= all);
        }
        settle(&mut progress, undone.is_empty());
        ongoing.set(
            idx,
            Some(
                OngoingTask::FindMacroReferences {
                    id: tid,
                    onset,
                    progress,
                    origin,
                    phase: FindMacroReferencesPhase::ExternalDefinitions { visited, results, undone },
                },
            ),
        );
    }
}

/// The reach a definition is taken to have: local where none is stated.
pub open spec fn scope_or_local(scope: Option<MacroScope>) -> MacroScope {
    match scope {
        Some(s) => s,
        None => MacroScope::Local,
    }
}

/// The definitions grouped by document, as locations with their reach.
pub open spec fn definition_groups(defs: Seq<(FileLocation, Option<MacroScope>)>) -> Seq<(Seq<char>, Seq<MacroDefinitionLocation>)>
    decreases defs.len(),
{
    if defs.len() == 0 {
        Seq::empty()
    } else {
        let (loc, scope) = defs.last();
        add_value(definition_groups(defs.drop_last()), loc.uri@, location_of(scope_or_local(scope), loc.range))
    }
}

/// Groups definitions by document.
fn group_definitions(definitions: Vec<(FileLocation, Option<MacroScope>)>) -> (m: UriMap<MacroDefinitionLocation>)
    ensures
        m.wf(),
        m.groups() == definition_groups(definitions@),
{
    let mut defs: UriMap<MacroDefinitionLocation> = UriMap::new();
    let ghost all = definitions@;
    proof {
        assert(defs.groups() =~= Seq::empty());
    }
    for def in it: definitions.into_iter()
        invariant
            it.seq() == all,
            defs.wf(),
            defs.groups() == definition_groups(all.take(it.index())),
    {
        let ghost k = it.index();
        let (FileLocation { uri, range }, scope) = def;
        defs.insert(&uri, MacroDefinitionLocation::from_span(scope.as_ref(), range));
        proof {
            assert(all.take(k + 1).drop_last() =~= all.take(k));
        }
    }
    proof {
        assert(all.take(all.len() as int) =~= all);
    }
    defs
}

/// The first task with `id` is a reference request.
pub open spec fn is_reference_request(ongoing: Seq<Option<OngoingTask>>, id: NumberOrString) -> bool {
    let i = first_task_with_id(ongoing, id);
    i >= 0 && ongoing[i] matches Some(OngoingTask::FindReferences(..))
}

/// The reference request has become a macro reference lookup that first
/// collects definitions in the calling scripts.
pub open spec fn ext_lookup_prepared(
    before: Option<OngoingTask>,
    after: Option<OngoingTask>,
    id: NumberOrString,
    origin: MacroReferenceOrigin,
    defs: Seq<(FileLocation, Option<MacroScope>)>,
    callers: Seq<Uri>,
) -> bool {
    match (before, after) {
        (
            Some(OngoingTask::FindReferences(_, onset)),
            Some(OngoingTask::FindMacroReferences {
                id: i2,
                onset: o2,
                progress,
                origin: g2,
                phase: FindMacroReferencesPhase::ExternalDefinitions { visited, results, undone },
            }),
        ) => {
            &&& i2 == id
            &&& o2 == onset
            &&& g2 == origin
            &&& progress == TaskProgress::new_spec(callers.len() as u32)
            &&& visited.wf() && visited.calls.keys@.len() == 0
            &&& results.wf() && results.groups() == definition_groups(defs)
            &&& undone.files@ == callers
            &&& undone.callees@ == Seq::new(callers.len(), |i: int| origin.uri)
        },
        _ => false,
    }
}

/// Turns a reference request for a macro whose definitions may lie in a
/// calling script into a lookup that searches the callers first.
pub fn prepare_find_external_macro_definitions_req(
    id: NumberOrString,
    origin: MacroReferenceOrigin,
    definitions: Vec<(FileLocation, Option<MacroScope>)>,
    callers: Vec<Uri>,
    ongoing: &mut Vec<Option<OngoingTask>>,
)
    requires
        is_reference_request(old(ongoing)@, id),
    ensures
        only_slot_changed(
            old(ongoing)@,
            final(ongoing)@,
            first_task_with_id(old(ongoing)@, id),
            |a: Option<OngoingTask>, b: Option<OngoingTask>| ext_lookup_prepared(a, b, id, origin, definitions@, callers@),
        ),
{
    let mut lookups = ExtMacroDefLookups::new();
    let ghost all = callers@;
    for file in it: callers.into_iter()
        invariant
            it.seq() == all,
            lookups.files@ == all.take(it.index()),
            lookups.callees@ == Seq::new(it.index() as nat, |i: int| origin.uri),
    {
        let ghost k = it.index();
        lookups.add(file, origin.uri.clone());
        proof {
            assert(all.take(k + 1) =~= all.take(k).push(all[k]));
            assert(Seq::new((k + 1) as nat, |i: int| origin.uri) =~= Seq::new(k as nat, |i: int| origin.uri).push(origin.uri));
        }
    }
    proof {
        assert(all.take(all.len() as int) =~= all);
        assert(lookups.files@ =~= all);
    }
    let defs = group_definitions(definitions);
    let idx = match find_ongoing_task_by_id(&id, ongoing) {
        Some(i) => i,
        None => { return; },
    };
    let t = take_task(ongoing, idx);
    if let Some(OngoingTask::FindReferences(_, onset)) = t {
        let total = lookups.num_files() as u32;
        ongoing.set(
            idx,
            Some(
                OngoingTask::FindMacroReferences {
                    id,
                    onset,
                    progress: TaskProgress::new(total),
                    origin,
                    phase: FindMacroReferencesPhase::ExternalDefinitions {
                        visited: FileCallMap::new(),
                        results: defs,
                        undone: lookups,
                    },
                },
            ),
        );
    }
}

/// The scripts to search for references of a macro: where a definition is
/// global, every script that refers to a macro of that name, each once.
pub open spec fn macro_ref_scripts(defs: Seq<(FileLocation, Option<MacroScope>)>, scripts: Seq<Seq<char>>) -> Seq<Seq<char>>
    decreases defs.len(),
{
    if defs.len() == 0 {
        Seq::empty()
    } else {
        let prev = macro_ref_scripts(defs.drop_last(), scripts);
        if defs.last().1 == Some(MacroScope::Global) {
            merge_new(prev, scripts)
        } else {
            prev
        }
    }
}

/// The reference request has become a macro reference lookup that collects
/// references in the scripts with a definition.
pub open spec fn refs_lookup_prepared(
    before: Option<OngoingTask>,
    after: Option<OngoingTask>,
    id: NumberOrString,
    origin: MacroReferenceOrigin,
    defs: Seq<(FileLocation, Option<MacroScope>)>,
    scripts_with_macro: Seq<Uri>,
) -> bool {
    match (before, after) {
        (
            Some(OngoingTask::FindReferences(_, onset)),
            Some(OngoingTask::FindMacroReferences {
                id: i2,
                onset: o2,
                progress,
                origin: g2,
                phase: FindMacroReferencesPhase::ReferencesFromDefinitions { subscripts, results, undone },
            }),
        ) => {
            &&& i2 == id
            &&& o2 == onset
            &&& g2 == origin
            &&& progress == TaskProgress::new_spec(undone.keys@.len() as u32)
            &&& results.wf() && results.keys@.len() == 0
            &&& undone.wf() && undone.groups() == definition_groups(defs)
            &&& uri_views(subscripts@) == macro_ref_scripts(defs, uri_views(scripts_with_macro))
        },
        _ => false,
    }
}

/// Turns a reference request for a macro whose definitions are all known
/// into a lookup of the references; `scripts_with_macro` are the scripts that
/// refer to a macro of the origin's name, searched where a definition is
/// global.
pub fn prepare_find_macro_references_req(
    scripts_with_macro: &Vec<Uri>,
    id: NumberOrString,
    origin: MacroReferenceOrigin,
    definitions: Vec<(FileLocation, Option<MacroScope>)>,
    ongoing: &mut Vec<Option<OngoingTask>>,
)
    requires
        is_reference_request(old(ongoing)@, id),
    ensures
        only_slot_changed(
            old(ongoing)@,
            final(ongoing)@,
            first_task_with_id(old(ongoing)@, id),
            |a: Option<OngoingTask>, b: Option<OngoingTask>|
                refs_lookup_prepared(a, b, id, origin, definitions@, scripts_with_macro@),
        ),
{
    let mut scripts: Vec<Uri> = Vec::new();
    let mut i: usize = 0;
    while i < definitions.len()
        invariant
            i <= definitions@.len(),
            uri_views(scripts@) == macro_ref_scripts(definitions@.take(i as int), uri_views(scripts_with_macro@)),
        decreases definitions@.len() - i,
    {
        proof {
            assert(definitions@.take(i + 1).drop_last() =~= definitions@.take(i as int));
        }
        if let Some(MacroScope::Global) = definitions[i].1 {
            merge_uris(&mut scripts, scripts_with_macro.clone());
        }
        i = i + 1;
    }
    proof {
        assert(definitions@.take(definitions@.len() as int) =~= definitions@);
    }
    let defs = group_definitions(definitions);
    let idx = match find_ongoing_task_by_id(&id, ongoing) {
        Some(i) => i,
        None => { return; },
    };
    let t = take_task(ongoing, idx);
    if let Some(OngoingTask::FindReferences(_, onset)) = t {
        let total = defs.num_files() as u32;
        ongoing.set(
            idx,
            Some(
                OngoingTask::FindMacroReferences {
                    id,
                    onset,
                    progress: TaskProgress::new(total),
                    origin,
                    phase: FindMacroReferencesPhase::ReferencesFromDefinitions {
                        subscripts: scripts,
                        results: UriMap::new(),
                        undone: defs,
                    },
                },
            ),
        );
    }
}

/// Notes that a find references request arrived.
pub fn log_find_ref_req(id: NumberOrString) -> (m: Message)
    ensures
        is_log_message(m, received_text("find references"@, id)),
{
    received_note("find references", &id)
}

/// A copy of the definition locations.
fn copy_locations(v: &Vec<MacroDefinitionLocation>) -> (r: Vec<MacroDefinitionLocation>)
    ensures
        r@ == v@,
{
    let mut r: Vec<MacroDefinitionLocation> = Vec::new();
    let mut i: usize = 0;
    while i < v.len()
        invariant
            i <= v@.len(),
            r@ == v@.take(i as int),
        decreases v@.len() - i,
    {
        r.push(v[i]);
        proof {
            assert(r@ =~= v@.take(i + 1));
        }
        i = i + 1;
    }
    proof {
        assert(r@ =~= v@);
    }
    r
}

/// `after` is `before` followed by a lookup of references from the
/// definitions of each script of `undone`, in order.
pub open spec fn def_lookups_dispatched(
    before: Seq<Task>,
    after: Seq<Task>,
    id: NumberOrString,
    name: String,
    undone: UriMap<MacroDefinitionLocation>,
) -> bool {
    &&& after.len() == before.len() + undone.keys@.len()
    &&& after.take(before.len() as int) == before
    &&& forall|j: int| 0 <= j < undone.keys@.len() ==> (#[trigger] after[before.len() + j] matches Task::FindMacroReferencesFromDefinitions {
        id: i, script: s, macro_name: m, definitions: d } && i == id && s == undone.keys@[j] && m == name
        && d@ == undone.values@[j]@)
}

/// Takes up the lookups of references from the definitions: one per script
/// with definitions; the progress counts them.
pub fn next_lookups_find_macro_def_references(task: &mut OngoingTask, outgoing: &mut Vec<Task>)
    requires
        *old(task) matches OngoingTask::FindMacroReferences {
            phase: FindMacroReferencesPhase::ReferencesFromDefinitions { undone, .. }, .. } && undone.wf(),
    ensures
        match *old(task) {
            OngoingTask::FindMacroReferences {
                id, onset, progress, origin, phase: FindMacroReferencesPhase::ReferencesFromDefinitions { subscripts, results, undone } } => {
                &&& *final(task) matches OngoingTask::FindMacroReferences {
                    id: i2, onset: o2, progress: p2, origin: g2,
                    phase: FindMacroReferencesPhase::ReferencesFromDefinitions { subscripts: s2, results: r2, undone: u2 } }
                &&& i2 == id && o2 == onset && g2 == origin && s2 == subscripts && r2 == results
                &&& u2.wf() && u2.keys@.len() == 0
                &&& p2 == (TaskProgress { total: undone.keys@.len() as u32, acknowledged: true, ..progress })
                &&& def_lookups_dispatched(old(outgoing)@, final(outgoing)@, id, origin.name, undone)
            },
            _ => false,
        },
{
    match task {
        OngoingTask::FindMacroReferences { id, progress, origin, phase: FindMacroReferencesPhase::ReferencesFromDefinitions { undone, .. }, .. } => {
            progress.total = progress_count(undone.num_files());
            let ghost before = outgoing@;
            let mut k: usize = 0;
            while k < undone.keys.len()
                invariant
                    undone.wf(),
                    k <= undone.keys@.len(),
                    outgoing@.len() == before.len() + k,
                    outgoing@.take(before.len() as int) == before,
                    forall|j: int| 0 <= j < k ==> (#[trigger] outgoing@[before.len() + j] matches Task::FindMacroReferencesFromDefinitions {
                        id: i, script: s, macro_name: m, definitions: d } && i == *id && s == undone.keys@[j] && m == origin.name
                        && d@ == undone.values@[j]@),
                decreases undone.keys@.len() - k,
            {
                let ghost o0 = outgoing@;
                outgoing.push(
                    Task::FindMacroReferencesFromDefinitions {
                        id: copy_id(id),
                        script: undone.keys[k].clone(),
                        macro_name: origin.name.clone(),
                        definitions: copy_locations(&undone.values[k]),
                    },
                );
                proof {
                    assert(outgoing@.take(before.len() as int) =~= o0.take(before.len() as int));
                    assert forall|j: int| 0 <= j < k + 1 implies (#[trigger] outgoing@[before.len() + j] matches Task::FindMacroReferencesFromDefinitions {
                        id: i, script: s, macro_name: m, definitions: d } && i == *id && s == undone.keys@[j] && m == origin.name
                        && d@ == undone.values@[j]@) by {
                        if j < k {
                            assert(outgoing@[before.len() + j] == o0[before.len() + j]);
                        }
                    }
                }
                k = k + 1;
            }
            undone.clear();
            progress.ack_ready();
        },
        _ => {},
    }
}

/// Moves the lookup of references from the definitions on: once it is
/// finished, the subscripts collected are looked at next; when the next
/// round is due, the scripts with definitions are queued.
pub fn progress_find_macro_def_references(task: &mut Option<OngoingTask>, outgoing: &mut Vec<Task>)
    requires
        *old(task) matches Some(OngoingTask::FindMacroReferences {
            phase: FindMacroReferencesPhase::ReferencesFromDefinitions { undone, .. }, .. }) && undone.wf(),
    ensures
        match *old(task) {
            Some(OngoingTask::FindMacroReferences {
                id, onset, progress, origin, phase: FindMacroReferencesPhase::ReferencesFromDefinitions { subscripts, results, undone } }) => {
                if progress_finished(progress) {
                    &&& *final(task) matches Some(OngoingTask::FindMacroReferences {
                        id: i2, onset: o2, progress: p2, origin: g2,
                        phase: FindMacroReferencesPhase::ReferencesInSubscripts { visited: v2, results: r2, undone: u2 } })
                    &&& i2 == id && o2 == onset && g2 == origin && r2 == results && u2 == subscripts
                    &&& v2@.len() == 0
                    &&& p2 == TaskProgress::new_spec(subscripts@.len() as u32)
                    &&& final(outgoing)@ == old(outgoing)@
                } else if progress_ready(progress) {
                    &&& *final(task) matches Some(OngoingTask::FindMacroReferences {
                        id: i2, onset: o2, progress: p2, origin: g2,
                        phase: FindMacroReferencesPhase::ReferencesFromDefinitions { subscripts: s2, results: r2, undone: u2 } })
                    &&& i2 == id && o2 == onset && g2 == origin && s2 == subscripts && r2 == results
                    &&& u2.wf() && u2.keys@.len() == 0
                    &&& p2 == (TaskProgress { total: undone.keys@.len() as u32, acknowledged: true, ..progress })
                    &&& def_lookups_dispatched(old(outgoing)@, final(outgoing)@, id, origin.name, undone)
                } else {
                    &&& *final(task) == *old(task)
                    &&& final(outgoing)@ == old(outgoing)@
                }
            },
            _ => false,
        },
{
    let (finished, ready) = match task {
        Some(OngoingTask::FindMacroReferences { progress, .. }) => (progress.finished(), progress.ready()),
        _ => (false, false),
    };
    if finished {
        let t = task.take();
        match t {
            Some(OngoingTask::FindMacroReferences {
                id, onset, origin, phase: FindMacroReferencesPhase::ReferencesFromDefinitions { subscripts, results, .. }, .. }) => {
                let total = progress_count(subscripts.len());
                *task = Some(
                    OngoingTask::FindMacroReferences {
                        id,
                        onset,
                        progress: TaskProgress::new(total),
                        origin,
                        phase: FindMacroReferencesPhase::ReferencesInSubscripts { visited: Vec::new(), results, undone: subscripts },
                    },
                );
            },
            _ => {},
        }
    } else if ready {
        match task {
            Some(t) => next_lookups_find_macro_def_references(t, outgoing),
            None => {},
        }
    }
}

/// Of the first `n` scripts of `undone`, those not in `visited`, in order.
pub open spec fn unvisited(undone: Seq<Uri>, visited: Seq<Uri>, n: int) -> Seq<Uri>
    decreases n,
{
    if n <= 0 {
        Seq::empty()
    } else {
        let kept = unvisited(undone, visited, n - 1);
        if uri_views(visited).contains(undone[n - 1]@) {
            kept
        } else {
            kept.push(undone[n - 1])
        }
    }
}

/// The lookups of references in each of the subscripts.
pub open spec fn subscript_lookup_tasks(id: NumberOrString, name: String, scripts: Seq<Uri>) -> Seq<Task> {
    scripts.map_values(|s: Uri| Task::FindMacroReferencesInSubscripts { id, script: s, macro_name: name })
}

proof fn lemma_unvisited_len(undone: Seq<Uri>, visited: Seq<Uri>, n: int)
    ensures
        unvisited(undone, visited, n).len() <= if n < 0 { 0 } else { n },
    decreases n,
{
    if n > 0 {
        lemma_unvisited_len(undone, visited, n - 1);
    }
}

/// Takes up the lookups in the subscripts: one per subscript not looked at
/// yet, which is then recorded as looked at; the progress counts them.
pub fn next_lookups_find_subscript_macro_refs(task: &mut OngoingTask, outgoing: &mut Vec<Task>)
    requires
        *old(task) matches OngoingTask::FindMacroReferences {
            phase: FindMacroReferencesPhase::ReferencesInSubscripts { visited, undone, .. }, .. }
            && unvisited(undone@, visited@, undone@.len() as int).len() <= u32::MAX,
    ensures
        match *old(task) {
            OngoingTask::FindMacroReferences {
                id, onset, progress, origin, phase: FindMacroReferencesPhase::ReferencesInSubscripts { visited, results, undone } } => {
                let kept = unvisited(undone@, visited@, undone@.len() as int);
                &&& *final(task) matches OngoingTask::FindMacroReferences {
                    id: i2, onset: o2, progress: p2, origin: g2,
                    phase: FindMacroReferencesPhase::ReferencesInSubscripts { visited: v2, results: r2, undone: u2 } }
                &&& i2 == id && o2 == onset && g2 == origin && r2 == results
                &&& v2@ == visited@ + kept
                &&& u2@.len() == 0
                &&& p2 == (TaskProgress { total: kept.len() as u32, acknowledged: true, ..progress })
                &&& final(outgoing)@ == old(outgoing)@ + subscript_lookup_tasks(id, origin.name, kept)
            },
            _ => false,
        },
{
    match task {
        OngoingTask::FindMacroReferences { id, progress, origin, phase: FindMacroReferencesPhase::ReferencesInSubscripts { visited, undone, .. }, .. } => {
            let ghost u0 = undone@;
            let ghost v0 = visited@;
            let mut kept: Vec<Uri> = Vec::new();
            let mut tasks: Vec<Task> = Vec::new();
            let mut k: usize = 0;
            while k < undone.len()
                invariant
                    k <= undone@.len(),
                    undone@ == u0,
                    visited@ == v0,
                    kept@ == unvisited(u0, v0, k as int),
                    tasks@ == subscript_lookup_tasks(*id, origin.name, kept@),
                decreases undone@.len() - k,
            {
                if !contains_uri(visited, undone[k].as_str()) {
                    let ghost k0 = kept@;
                    kept.push(undone[k].clone());
                    tasks.push(
                        Task::FindMacroReferencesInSubscripts {
                            id: copy_id(id),
                            script: undone[k].clone(),
                            macro_name: origin.name.clone(),
                        },
                    );
                    proof {
                        assert(tasks@ =~= subscript_lookup_tasks(*id, origin.name, kept@));
                    }
                }
                k = k + 1;
            }
            proof {
                lemma_unvisited_len(u0, v0, u0.len() as int);
            }
            let total = kept.len() as u32;
            let mut t = tasks;
            outgoing.append(&mut t);
            visited.append(&mut kept);
            *undone = Vec::new();
            progress.total = total;
            progress.ack_ready();
        },
        _ => {},
    }
}

/// Moves the lookup in the subscripts on: once it is finished, the
/// references found are the outcome, and the task keeps no results; when the
/// next round is due, the subscripts not looked at yet are queued.
pub fn progress_find_subscript_macro_refs(
    task: &mut Option<OngoingTask>,
    outgoing: &mut Vec<Task>,
    done: &mut Vec<Option<TaskDone>>,
)
    requires
        *old(task) matches Some(OngoingTask::FindMacroReferences {
            phase: FindMacroReferencesPhase::ReferencesInSubscripts { visited, results, undone }, .. })
            && results.wf() && unvisited(undone@, visited@, undone@.len() as int).len() <= u32::MAX,
    ensures
        match *old(task) {
            Some(OngoingTask::FindMacroReferences {
                id, onset, progress, origin, phase: FindMacroReferencesPhase::ReferencesInSubscripts { visited, results, undone } }) => {
                if progress_finished(progress) {
                    &&& *final(task) matches Some(OngoingTask::FindMacroReferences {
                        id: i2, onset: o2, progress: p2, origin: g2,
                        phase: FindMacroReferencesPhase::ReferencesInSubscripts { visited: v2, results: r2, undone: u2 } })
                    &&& i2 == id && o2 == onset && p2 == progress && g2 == origin && v2 == visited && u2 == undone
                    &&& r2.wf() && r2.keys@.len() == 0
                    &&& final(outgoing)@ == old(outgoing)@
                    &&& final(done)@.len() == old(done)@.len() + 1
                    &&& final(done)@.drop_last() == old(done)@
                    &&& final(done)@.last() matches Some(TaskDone::FindMacroReferences(i, Some(locs)))
                    &&& i == id && locs@ == group_locations(results.keys@, results.values@, results.keys@.len() as int)
                } else if progress_ready(progress) {
                    let kept = unvisited(undone@, visited@, undone@.len() as int);
                    &&& *final(task) matches Some(OngoingTask::FindMacroReferences {
                        id: i2, onset: o2, progress: p2, origin: g2,
                        phase: FindMacroReferencesPhase::ReferencesInSubscripts { visited: v2, results: r2, undone: u2 } })
                    &&& i2 == id && o2 == onset && g2 == origin && r2 == results
                    &&& v2@ == visited@ + kept
                    &&& u2@.len() == 0
                    &&& p2 == (TaskProgress { total: kept.len() as u32, acknowledged: true, ..progress })
                    &&& final(outgoing)@ == old(outgoing)@ + subscript_lookup_tasks(id, origin.name, kept)
                    &&& final(done)@ == old(done)@
                } else {
                    &&& *final(task) == *old(task)
                    &&& final(outgoing)@ == old(outgoing)@
                    &&& final(done)@ == old(done)@
                }
            },
            _ => false,
        },
{
    let (finished, ready) = match task {
        Some(OngoingTask::FindMacroReferences { progress, .. }) => (progress.finished(), progress.ready()),
        _ => (false, false),
    };
    if finished {
        match task {
            Some(OngoingTask::FindMacroReferences { id, phase: FindMacroReferencesPhase::ReferencesInSubscripts { results, .. }, .. }) => {
                let locs = results.to_locations();
                *results = FileLocationMap::new();
                done.push(Some(TaskDone::FindMacroReferences(copy_id(id), Some(locs))));
                proof {
                    assert(done@.drop_last() =~= old(done)@);
                }
            },
            _ => {},
        }
    } else if ready {
        match task {
            Some(t) => next_lookups_find_subscript_macro_refs(t, outgoing),
            None => {},
        }
    }
}

/// The lookups for definitions of the macro: one per script and call.
pub open spec fn def_search_tasks(id: NumberOrString, origin: MacroReferenceOrigin, picked: Seq<(Uri, Uri)>) -> Seq<Task> {
    picked.map_values(|p: (Uri, Uri)| Task::FindExternalDefinitionsForMacroRef { id, script: p.0, origin, callee: p.1 })
}

/// Queues a lookup for definitions of the macro in each script whose call
/// has not been looked at yet, records those calls, and gives their number.
fn queue_find_external_macro_definitions_req(
    id: &NumberOrString,
    origin: &MacroReferenceOrigin,
    undone: &mut ExtMacroDefLookups,
    visited: &mut FileCallMap,
    outgoing: &mut Vec<Task>,
) -> (total: u32)
    requires
        old(visited).wf(),
        fresh_of(*old(undone), *old(visited)).0.len() <= u32::MAX,
    ensures
        final(visited).wf(),
        final(visited).calls.groups() == fresh_of(*old(undone), *old(visited)).1,
        final(outgoing)@ == old(outgoing)@ + def_search_tasks(*id, *origin, fresh_of(*old(undone), *old(visited)).0),
        total == fresh_of(*old(undone), *old(visited)).0.len(),
        final(undone).files@.len() == 0,
        final(undone).callees@.len() == 0,
{
    let picked = undone.take_fresh(visited);
    let mut tasks: Vec<Task> = Vec::new();
    let mut k: usize = 0;
    while k < picked.len()
        invariant
            k <= picked@.len(),
            tasks@ == def_search_tasks(*id, *origin, picked@.take(k as int)),
        decreases picked@.len() - k,
    {
        tasks.push(
            Task::FindExternalDefinitionsForMacroRef {
                id: copy_id(id),
                script: picked[k].0.clone(),
                origin: copy_origin(origin),
                callee: picked[k].1.clone(),
            },
        );
        proof {
            assert(picked@.take(k + 1) =~= picked@.take(k as int).push(picked@[k as int]));
            assert(tasks@ =~= def_search_tasks(*id, *origin, picked@.take(k + 1)));
        }
        k = k + 1;
    }
    proof {
        assert(picked@.take(picked@.len() as int) =~= picked@);
    }
    let total = picked.len() as u32;
    let mut t = tasks;
    outgoing.append(&mut t);
    total
}

/// Takes up the next round of the search for definitions: the scripts left
/// to look at are queued, and the progress counts them.
pub fn next_lookups_find_external_macro_defs(task: &mut OngoingTask, outgoing: &mut Vec<Task>)
    requires
        *old(task) matches OngoingTask::FindMacroReferences {
            phase: FindMacroReferencesPhase::ExternalDefinitions { visited, undone, .. }, .. }
            && visited.wf() && fresh_of(undone, visited).0.len() <= u32::MAX,
    ensures
        match *old(task) {
            OngoingTask::FindMacroReferences {
                id, onset, progress, origin, phase: FindMacroReferencesPhase::ExternalDefinitions { visited, results, undone } } => {
                if undone.files@.len() == 0 {
                    &&& *final(task) == *old(task)
                    &&& final(outgoing)@ == old(outgoing)@
                } else {
                    let r = fresh_of(undone, visited);
                    &&& *final(task) matches OngoingTask::FindMacroReferences {
                        id: i2, onset: o2, progress: p2, origin: g2,
                        phase: FindMacroReferencesPhase::ExternalDefinitions { visited: v2, results: r2, undone: u2 } }
                    &&& i2 == id && o2 == onset && g2 == origin && r2 == results
                    &&& p2 == (TaskProgress { total: r.0.len() as u32, acknowledged: true, ..progress })
                    &&& v2.wf() && v2.calls.groups() == r.1
                    &&& u2.files@.len() == 0 && u2.callees@.len() == 0
                    &&& final(outgoing)@ == old(outgoing)@ + def_search_tasks(id, origin, r.0)
                }
            },
            _ => false,
        },
{
    match task {
        OngoingTask::FindMacroReferences { id, progress, origin, phase: FindMacroReferencesPhase::ExternalDefinitions { visited, undone, .. }, .. } => {
            if undone.is_empty() {
                return;
            }
            let total = queue_find_external_macro_definitions_req(id, origin, undone, visited, outgoing);
            progress.total = total;
            progress.ack_ready();
        },
        _ => {},
    }
}

/// Moves the search for definitions on: once it is finished, the
/// references are looked up from the definitions found, or, where none was
/// found, the reference the lookup started from is the only one; when the
/// next round is due, the scripts left are queued.
pub fn progress_find_external_macro_definitions(
    task: &mut Option<OngoingTask>,
    outgoing: &mut Vec<Task>,
    done: &mut Vec<Option<TaskDone>>,
)
    requires
        *old(task) matches Some(OngoingTask::FindMacroReferences {
            phase: FindMacroReferencesPhase::ExternalDefinitions { visited, undone, .. }, .. })
            && visited.wf() && fresh_of(undone, visited).0.len() <= u32::MAX,
    ensures
        match *old(task) {
            Some(OngoingTask::FindMacroReferences {
                id, onset, progress, origin, phase: FindMacroReferencesPhase::ExternalDefinitions { visited, results, undone } }) => {
                if progress_finished(progress) {
                    &&& final(outgoing)@ == old(outgoing)@
                    &&& if results.keys@.len() == 0 {
                        &&& *final(task) is None
                        &&& final(done)@.len() == old(done)@.len() + 1
                        &&& final(done)@.drop_last() == old(done)@
                        &&& final(done)@.last() matches Some(TaskDone::FindMacroReferences(i, Some(locs)))
                        &&& i == id && locs@ == seq![Location { uri: origin.uri, range: origin.span }]
                    } else {
                        &&& *final(task) matches Some(OngoingTask::FindMacroReferences {
                            id: i2, onset: o2, progress: p2, origin: g2,
                            phase: FindMacroReferencesPhase::ReferencesFromDefinitions { subscripts: s2, results: r2, undone: u2 } })
                        &&& i2 == id && o2 == onset && g2 == origin && u2 == results
                        &&& s2@.len() == 0 && r2.wf() && r2.keys@.len() == 0
                        &&& p2 == TaskProgress::new_spec(results.keys@.len() as u32)
                        &&& final(done)@ == old(done)@
                    }
                } else if progress_ready(progress) {
                    &&& final(done)@ == old(done)@
                    &&& if undone.files@.len() == 0 {
                        &&& *final(task) == *old(task)
                        &&& final(outgoing)@ == old(outgoing)@
                    } else {
                        let r = fresh_of(undone, visited);
                        &&& *final(task) matches Some(OngoingTask::FindMacroReferences {
                            id: i2, onset: o2, progress: p2, origin: g2,
                            phase: FindMacroReferencesPhase::ExternalDefinitions { visited: v2, results: r2, undone: u2 } })
                        &&& i2 == id && o2 == onset && g2 == origin && r2 == results
                        &&& p2 == (TaskProgress { total: r.0.len() as u32, acknowledged: true, ..progress })
                        &&& v2.wf() && v2.calls.groups() == r.1
                        &&& u2.files@.len() == 0 && u2.callees@.len() == 0
                        &&& final(outgoing)@ == old(outgoing)@ + def_search_tasks(id, origin, r.0)
                    }
                } else {
                    &&& *final(task) == *old(task)
                    &&& final(outgoing)@ == old(outgoing)@
                    &&& final(done)@ == old(done)@
                }
            },
            _ => false,
        },
{
    let (finished, ready) = match task {
        Some(OngoingTask::FindMacroReferences { progress, .. }) => (progress.finished(), progress.ready()),
        _ => (false, false),
    };
    if finished {
        let t = task.take();
        match t {
            Some(OngoingTask::FindMacroReferences {
                id, onset, origin, phase: FindMacroReferencesPhase::ExternalDefinitions { results, .. }, .. }) => {
                if results.is_empty() {
                    let locs = vec![Location { uri: origin.uri, range: origin.span }];
                    done.push(Some(TaskDone::FindMacroReferences(id, Some(locs))));
                    proof {
                        assert(done@.drop_last() =~= old(done)@);
                    }
                } else {
                    let total = progress_count(results.num_files());
                    *task = Some(
                        OngoingTask::FindMacroReferences {
                            id,
                            onset,
                            progress: TaskProgress::new(total),
                            origin,
                            phase: FindMacroReferencesPhase::ReferencesFromDefinitions {
                                subscripts: Vec::new(),
                                results: FileLocationMap::new(),
                                undone: results,
                            },
                        },
                    );
                }
            },
            _ => {},
        }
    } else if ready {
        match task {
            Some(t) => next_lookups_find_external_macro_defs(t, outgoing),
            None => {},
        }
    }
}

/// Subscripts are looked at once: after a round, every subscript that was
/// to be looked at is recorded as visited, and a subscript is taken up only
/// where it had not been visited before.
pub proof fn law_subscripts_only_once(undone: Seq<Uri>, visited: Seq<Uri>)
    ensures
        ({
            let kept = unvisited(undone, visited, undone.len() as int);
            &&& forall|i: int| 0 <= i < undone.len() ==> uri_views(visited + kept).contains(#[trigger] undone[i]@)
            &&& forall|k: int| 0 <= k < kept.len() ==> !uri_views(visited).contains((#[trigger] kept[k])@)
        }),
{
    lemma_unvisited(undone, visited, undone.len() as int);
}

proof fn lemma_unvisited(undone: Seq<Uri>, visited: Seq<Uri>, n: int)
    requires
        0 <= n <= undone.len(),
    ensures
        ({
            let kept = unvisited(undone, visited, n);
            &&& forall|i: int| 0 <= i < n ==> uri_views(visited + kept).contains(#[trigger] undone[i]@)
            &&& forall|k: int| 0 <= k < kept.len() ==> !uri_views(visited).contains((#[trigger] kept[k])@)
        }),
    decreases n,
{
    if n > 0 {
        lemma_unvisited(undone, visited, n - 1);
        let kept = unvisited(undone, visited, n - 1);
        let u = undone[n - 1];
        let all = uri_views(visited + kept);
        if !uri_views(visited).contains(u@) {
            let kept2 = kept.push(u);
            let all2 = uri_views(visited + kept2);
            assert(all2 =~= all.push(u@));
            assert forall|i: int| 0 <= i < n implies all2.contains(#[trigger] undone[i]@) by {
                if i < n - 1 {
                    let j = choose|j: int| 0 <= j < all.len() && all[j] == undone[i]@;
                    assert(all2[j] == undone[i]@);
                } else {
                    assert(all2[all.len() as int] == u@);
                }
            }
            assert forall|k: int| 0 <= k < kept2.len() implies !uri_views(visited).contains((#[trigger] kept2[k])@) by {
                if k < kept.len() {
                    assert(kept2[k] == kept[k]);
                }
            }
        } else {
            let j = choose|j: int| 0 <= j < uri_views(visited).len() && uri_views(visited)[j] == u@;
            assert(all[j] == uri_views(visited)[j]);
        }
    }
}

/// `a` comes before `b` by start, then by end.
pub open spec fn span_le(a: BRange, b: BRange) -> bool {
    a.start < b.start || (a.start == b.start && a.end <= b.end)
}

/// Spans in order of start, then end.
pub open spec fn spans_sorted(s: Seq<BRange>) -> bool {
    forall|i: int, j: int| 0 <= i < j < s.len() ==> span_le(#[trigger] s[i], #[trigger] s[j])
}

/// Sorts spans by start, then by end. Equal keys are equal spans, so the
/// result is fixed by being sorted and holding the same spans.
pub fn sort_spans(v: Vec<BRange>) -> (r: Vec<BRange>)
    ensures
        spans_sorted(r@),
        r@.to_multiset() == v@.to_multiset(),
{
    broadcast use vstd::seq_lib::to_multiset_insert;
    let mut r: Vec<BRange> = Vec::new();
    let mut i: usize = 0;
    proof {
        assert(v@.take(0) =~= Seq::<BRange>::empty());
        assert(r@ =~= Seq::<BRange>::empty());
    }
    while i < v.len()
        invariant
            i <= v@.len(),
            spans_sorted(r@),
            r@.to_multiset() == v@.take(i as int).to_multiset(),
        decreases v@.len() - i,
    {
        let x = v[i];
        let mut p: usize = 0;
        while p < r.len() && (r[p].start < x.start || (r[p].start == x.start && r[p].end <= x.end))
            invariant
                p <= r@.len(),
                forall|k: int| 0 <= k < p ==> span_le(#[trigger] r@[k], x),
            decreases r@.len() - p,
        {
            p = p + 1;
        }
        let ghost old_r = r@;
        r.insert(p, x);
        proof {
            assert(r@ == old_r.insert(p as int, x));
            assert(v@.take(i + 1) =~= v@.take(i as int).push(x));
            vstd::seq_lib::to_multiset_build(v@.take(i as int), x);
            vstd::seq_lib::to_multiset_insert(old_r, p as int, x);
            assert(r@.to_multiset() =~= old_r.to_multiset().insert(x));
            assert(v@.take(i + 1).to_multiset() =~= v@.take(i as int).to_multiset().insert(x));
            assert forall|a: int, b: int| 0 <= a < b < r@.len() implies span_le(#[trigger] r@[a], #[trigger] r@[b]) by {
                if p < old_r.len() {
                    assert(!span_le(old_r[p as int], x));
                }
                if b < p {
                    assert(r@[a] == old_r[a] && r@[b] == old_r[b]);
                } else if b == p {
                    assert(r@[a] == old_r[a]);
                } else if a < p {
                    assert(r@[a] == old_r[a] && r@[b] == old_r[b - 1]);
                    assert(span_le(old_r[a], x));
                    assert(span_le(old_r[p as int], old_r[b - 1]) || p == b - 1);
                } else if a == p {
                    assert(r@[b] == old_r[b - 1]);
                    assert(span_le(old_r[p as int], old_r[b - 1]) || p == b - 1);
                } else {
                    assert(r@[a] == old_r[a - 1] && r@[b] == old_r[b - 1]);
                }
            }
        }
        i = i + 1;
    }
    proof {
        assert(v@.take(v@.len() as int) =~= v@);
    }
    r
}

/// Whether `refs` holds `span`.
fn contains_span(refs: &Vec<BRange>, span: BRange) -> (r: bool)
    ensures
        r == refs@.contains(span),
{
    let mut i: usize = 0;
    while i < refs.len()
        invariant
            i <= refs@.len(),
            forall|k: int| 0 <= k < i ==> refs@[k] != span,
        decreases refs@.len() - i,
    {
        if refs[i].start == span.start && refs[i].end == span.end {
            assert(refs@[i as int] == span);
            return true;
        }
        i = i + 1;
    }
    false
}

/// What a lookup of a macro definition's references in one script gives,
/// made complete: the definition's own span is added where the lookup did
/// not find it, the called scripts are dropped for a private macro, whose
/// references cannot reach into them, and the references are sorted by
/// start, then end.
pub fn complete_macro_definition_references(
    refs: Vec<BRange>,
    callees: Vec<Uri>,
    scope: MacroScope,
    span: BRange,
) -> (r: (Vec<BRange>, Vec<Uri>))
    ensures
        spans_sorted(r.0@),
        r.0@.to_multiset() == (if refs@.contains(span) { refs@ } else { refs@.push(span) }).to_multiset(),
        r.1@ == (if scope == MacroScope::Private { Seq::<Uri>::empty() } else { callees@ }),
{
    let mut refs = refs;
    let mut callees = callees;
    if !contains_span(&refs, span) {
        refs.push(span);
    }
    if callees.len() > 0 && scope == MacroScope::Private {
        callees.clear();
    }
    proof {
        if scope == MacroScope::Private {
            assert(callees@ =~= Seq::<Uri>::empty());
        }
    }
    (sort_spans(refs), callees)
}


} // verus!
