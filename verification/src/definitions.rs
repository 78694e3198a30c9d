//! Finding the definition of a macro, where it may lie in a calling script.
use vstd::prelude::*;

use crate::lookups::{fresh_lookups, lookup_count, ExtMacroDefLookups, FileCallMap};
use crate::lsp::{copy_id, is_log_message, received_note, received_text, Message};
use crate::protocol::{LocationLink, NumberOrString, Range, Uri};
use crate::references::{settled, only_slot_changed};
use crate::tasks::{
    find_ongoing_task_by_id, first_task_with_id, progress_can_advance,
    progress_finished, progress_ready, OngoingTask, Task, TaskDone, TaskProgress,
};

verus! {

/// The outcome of a definition lookup in one script: final, or partial where
/// the macro may also be defined in a script that calls this one.
#[derive(Debug, PartialEq)]
pub enum GotoDefinitionResult {
    Final(Vec<LocationLink>),
    PartialMacro(Uri, String, Range, Vec<LocationLink>),
}

/// The macro reference from which a lookup started.
#[derive(Clone, Debug, PartialEq)]
pub struct MacroReferenceOrigin {
    pub name: String,
    pub span: Range,
    pub uri: Uri,
}

/// A copy of the origin.
pub fn copy_origin(o: &MacroReferenceOrigin) -> (c: MacroReferenceOrigin)
    ensures
        c == *o,
{
    MacroReferenceOrigin { name: o.name.clone(), span: o.span, uri: o.uri.clone() }
}

/// Two links have the same origin and target.
pub open spec fn same_link(a: LocationLink, b: LocationLink) -> bool {
    &&& a.origin_selection_range == b.origin_selection_range
    &&& a.target_uri@ == b.target_uri@
    &&& a.target_range == b.target_range
    &&& a.target_selection_range == b.target_selection_range
}

/// `links` holds a link with the same origin and target as `l`.
pub open spec fn has_link(links: Seq<LocationLink>, l: LocationLink) -> bool {
    exists|i: int| 0 <= i < links.len() && same_link(#[trigger] links[i], l)
}

/// The links of `new` that `old` does not hold, in order.
pub open spec fn new_links(old: Seq<LocationLink>, new: Seq<LocationLink>) -> Seq<LocationLink>
    decreases new.len(),
{
    if new.len() == 0 {
        Seq::empty()
    } else {
        let rest = new_links(old, new.drop_last());
        if has_link(old, new.last()) {
            rest
        } else {
            rest.push(new.last())
        }
    }
}

fn range_equal(a: &Range, b: &Range) -> (r: bool)
    ensures
        r == (*a == *b),
{
    a.start.line == b.start.line && a.start.character == b.start.character && a.end.line
        == b.end.line && a.end.character == b.end.character
}

fn link_equal(a: &LocationLink, b: &LocationLink) -> (r: bool)
    ensures
        r == same_link(*a, *b),
{
    let origin = match (&a.origin_selection_range, &b.origin_selection_range) {
        (Some(x), Some(y)) => range_equal(x, y),
        (None, None) => true,
        _ => false,
    };
    origin && a.target_uri == b.target_uri && range_equal(&a.target_range, &b.target_range)
        && range_equal(&a.target_selection_range, &b.target_selection_range)
}

fn contains_link(links: &Vec<LocationLink>, l: &LocationLink) -> (r: bool)
    ensures
        r == has_link(links@, *l),
{
    let mut i: usize = 0;
    while i < links.len()
        invariant
            i <= links@.len(),
            forall|k: int| 0 <= k < i ==> !same_link(#[trigger] links@[k], *l),
        decreases links@.len() - i,
    {
        if link_equal(&links[i], l) {
            return true;
        }
        i = i + 1;
    }
    false
}

/// Appends the links of `new` that `results` does not hold yet.
fn append_new_links(results: &mut Vec<LocationLink>, new: Vec<LocationLink>)
    ensures
        final(results)@ == old(results)@ + new_links(old(results)@, new@),
{
    let ghost r0 = results@;
    let mut kept: Vec<LocationLink> = Vec::new();
    let ghost all = new@;
    for l in it: new.into_iter()
        invariant
            it.seq() == all,
            *results == *old(results),
            r0 == old(results)@,
            kept@ == new_links(r0, all.take(it.index())),
    {
        let ghost k = it.index();
        let ghost lg = l;
        let keep = !contains_link(results, &l);
        if keep {
            kept.push(l);
        }
        proof {
            assert(all.take(k + 1).drop_last() =~= all.take(k));
            assert(all.take(k + 1).last() == lg);
            assert(new_links(r0, all.take(k + 1)) == if keep {
                new_links(r0, all.take(k)).push(lg)
            } else {
                new_links(r0, all.take(k))
            });
        }
    }
    proof {
        assert(all.take(all.len() as int) =~= all);
    }
    results.append(&mut kept);
}

/// What a definition lookup in one calling script has given has been
/// recorded: new links are kept, and for a partial result the script's
/// callers are queued with the script they call.
pub open spec fn ext_def_recorded(
    before: Option<OngoingTask>,
    after: Option<OngoingTask>,
    script: Uri,
    sync: Option<GotoDefinitionResult>,
    callers: Seq<Uri>,
) -> bool {
    let queued = sync matches Some(GotoDefinitionResult::PartialMacro(..)) && callers.len() > 0;
    let links = match sync {
        Some(GotoDefinitionResult::Final(l)) => l@,
        Some(GotoDefinitionResult::PartialMacro(_, _, _, l)) => l@,
        None => Seq::empty(),
    };
    match (before, after) {
        (
            Some(OngoingTask::GoToExternalMacroDef { id, onset, progress, origin, visited, undone, results }),
            Some(OngoingTask::GoToExternalMacroDef {
                id: i2,
                onset: o2,
                progress: p2,
                origin: g2,
                visited: v2,
                undone: u2,
                results: r2,
            }),
        ) => {
            &&& i2 == id
            &&& o2 == onset
            &&& g2 == origin
            &&& v2 == visited
            &&& r2@ == results@ + new_links(results@, links)
            &&& u2.files@ == undone.files@ + (if queued { callers } else { Seq::empty() })
            &&& u2.callees@ == undone.callees@ + (if queued {
                Seq::new(callers.len(), |i: int| script)
            } else {
                Seq::empty()
            })
            &&& p2 == settled(progress, u2.files@.len() == 0)
        },
        _ => false,
    }
}

/// The first task with `id` is an external definition lookup whose progress
/// can advance.
pub open spec fn ext_def_lookup(ongoing: Seq<Option<OngoingTask>>, id: NumberOrString) -> bool {
    let i = first_task_with_id(ongoing, id);
    &&& i >= 0
    &&& ongoing[i] matches Some(OngoingTask::GoToExternalMacroDef { progress, .. })
    &&& progress_can_advance(progress)
}

/// Records the outcome of a definition lookup in one calling script.
pub fn recv_goto_external_macro_def_sync(
    id: &NumberOrString,
    script: &Uri,
    sync: Option<GotoDefinitionResult>,
    callers: Vec<Uri>,
    ongoing: &mut Vec<Option<OngoingTask>>,
)
    requires
        ext_def_lookup(old(ongoing)@, *id),
    ensures
        only_slot_changed(
            old(ongoing)@,
            final(ongoing)@,
            first_task_with_id(old(ongoing)@, *id),
            |a: Option<OngoingTask>, b: Option<OngoingTask>| ext_def_recorded(a, b, *script, sync, callers@),
        ),
{
    let idx = match find_ongoing_task_by_id(id, ongoing) {
        Some(i) => i,
        None => { return; },
    };
    let mut t: Option<OngoingTask> = None;
    std::mem::swap(&mut t, &mut ongoing[idx]);
    if let Some(OngoingTask::GoToExternalMacroDef { id: tid, onset, mut progress, origin, visited, mut undone, mut results }) = t {
        let partial = match &sync {
            Some(GotoDefinitionResult::PartialMacro(..)) => true,
            _ => false,
        };
        if partial && callers.len() > 0 {
            let ghost files0 = undone.files@;
            let ghost callees0 = undone.callees@;
            let ghost all = callers@;
            for file in it: callers.into_iter()
                invariant
                    it.seq() == all,
                    undone.files@ == files0 + all.take(it.index()),
                    undone.callees@ == callees0 + Seq::new(it.index() as nat, |i: int| *script),
            {
                let ghost k = it.index();
                undone.add(file, script.clone());
                proof {
                    assert(all.take(k + 1) =~= all.take(k).push(all[k]));
                    assert(Seq::new((k + 1) as nat, |i: int| *script) =~= Seq::new(k as nat, |i: int| *script).push(*script));
                }
            }
            proof {
                assert(all.take(all.len() as int) =~= all);
            }
        } else {
            proof {
                assert(undone.files@ =~= undone.files@ + Seq::<Uri>::empty());
                assert(undone.callees@ =~= undone.callees@ + Seq::<Uri>::empty());
            }
        }
        match sync {
            Some(GotoDefinitionResult::Final(loc)) | Some(GotoDefinitionResult::PartialMacro(_, _, _, loc)) => {
                append_new_links(&mut results, loc);
            },
            None => {
                proof {
                    assert(new_links(results@, Seq::empty()) =~= Seq::empty());
                    assert(results@ =~= results@ + Seq::<LocationLink>::empty());
                }
            },
        }
        progress.advance();
        if progress.ready() && undone.is_empty() {
            progress.mark_completed();
        }
        ongoing.set(
            idx,
            Some(OngoingTask::GoToExternalMacroDef { id: tid, onset, progress, origin, visited, undone, results }),
        );
    }
}

/// The first task with `id` is a definition request.
pub open spec fn is_definition_request(ongoing: Seq<Option<OngoingTask>>, id: NumberOrString) -> bool {
    let i = first_task_with_id(ongoing, id);
    i >= 0 && ongoing[i] matches Some(OngoingTask::GoToDefinition(..))
}

/// The definition request has become a lookup in the calling scripts, each
/// queued with the script of the origin, the links found so far kept.
pub open spec fn ext_def_prepared(
    before: Option<OngoingTask>,
    after: Option<OngoingTask>,
    id: NumberOrString,
    origin: MacroReferenceOrigin,
    defs: Seq<LocationLink>,
    callers: Seq<Uri>,
) -> bool {
    match (before, after) {
        (
            Some(OngoingTask::GoToDefinition(_, onset)),
            Some(OngoingTask::GoToExternalMacroDef { id: i2, onset: o2, progress, origin: g2, visited, undone, results }),
        ) => {
            &&& i2 == id
            &&& o2 == onset
            &&& g2 == origin
            &&& progress == TaskProgress::new_spec(callers.len() as u32)
            &&& visited.calls.keys@.len() == 0
            &&& visited.wf()
            &&& results@ == defs
            &&& undone.files@ == callers
            &&& undone.callees@ == Seq::new(callers.len(), |i: int| origin.uri)
        },
        _ => false,
    }
}

/// Turns a definition request whose macro may be defined in a calling script
/// into a lookup in the callers.
pub fn prepare_goto_external_macro_def_req(
    id: NumberOrString,
    origin: MacroReferenceOrigin,
    defs: Vec<LocationLink>,
    callers: Vec<Uri>,
    ongoing: &mut Vec<Option<OngoingTask>>,
)
    requires
        is_definition_request(old(ongoing)@, id),
    ensures
        only_slot_changed(
            old(ongoing)@,
            final(ongoing)@,
            first_task_with_id(old(ongoing)@, id),
            |a: Option<OngoingTask>, b: Option<OngoingTask>| ext_def_prepared(a, b, id, origin, defs@, callers@),
        ),
{
    let num = callers.len();
    let mut scripts: Vec<Uri> = Vec::new();
    let mut callees: Vec<Uri> = Vec::new();
    let ghost all = callers@;
    for file in it: callers.into_iter()
        invariant
            it.seq() == all,
            scripts@ == all.take(it.index()),
            callees@ == Seq::new(it.index() as nat, |i: int| origin.uri),
    {
        let ghost k = it.index();
        scripts.push(file);
        callees.push(origin.uri.clone());
        proof {
            assert(all.take(k + 1) =~= all.take(k).push(all[k]));
            assert(Seq::new((k + 1) as nat, |i: int| origin.uri) =~= Seq::new(k as nat, |i: int| origin.uri).push(origin.uri));
        }
    }
    proof {
        assert(all.take(all.len() as int) =~= all);
    }
    let idx = match find_ongoing_task_by_id(&id, ongoing) {
        Some(i) => i,
        None => { return; },
    };
    let mut t: Option<OngoingTask> = None;
    std::mem::swap(&mut t, &mut ongoing[idx]);
    if let Some(OngoingTask::GoToDefinition(_, onset)) = t {
        ongoing.set(
            idx,
            Some(
                OngoingTask::GoToExternalMacroDef {
                    id,
                    onset,
                    progress: TaskProgress::new(num as u32),
                    origin,
                    visited: FileCallMap::new(),
                    results: defs,
                    undone: ExtMacroDefLookups { files: scripts, callees },
                },
            ),
        );
    }
}

/// Notes that a find definitions request arrived.
pub fn log_find_defs_req(id: NumberOrString) -> (m: Message)
    ensures
        is_log_message(m, received_text("find definitions"@, id)),
{
    received_note("find definitions", &id)
}

/// The lookups for the macro's definition: one per script and call.
pub open spec fn goto_lookup_tasks(id: NumberOrString, origin: MacroReferenceOrigin, picked: Seq<(Uri, Uri)>) -> Seq<Task> {
    picked.map_values(|p: (Uri, Uri)| Task::GoToExternalMacroDef { id, script: p.0, origin, backtrace: p.1 })
}

/// The lookups still to do, for the scripts and calls not looked at yet.
pub open spec fn fresh_of(undone: ExtMacroDefLookups, visited: FileCallMap) -> (Seq<(Uri, Uri)>, Seq<(Seq<char>, Seq<Uri>)>) {
    fresh_lookups(visited.calls.groups(), undone.files@, undone.callees@, lookup_count(undone))
}

/// Appends `tasks` to `out`, in order.
fn push_tasks(out: &mut Vec<Task>, tasks: Vec<Task>)
    ensures
        final(out)@ == old(out)@ + tasks@,
{
    let mut t = tasks;
    out.append(&mut t);
}

/// Queues a lookup of the macro's definition in each script whose call has
/// not been looked at yet, records those calls, and gives their number.
fn queue_goto_external_macro_definitions(
    id: &NumberOrString,
    origin: &MacroReferenceOrigin,
    undone: &mut ExtMacroDefLookups,
    visited: &mut FileCallMap,
    outgoing: &mut Vec<Task>,
) -> (total: u32)
    requires
        old(visited).wf(),
        fresh_of(*old(undone), *old(visited)).0.len() <= u32::MAX,
    ensures
        final(visited).wf(),
        final(visited).calls.groups() == fresh_of(*old(undone), *old(visited)).1,
        final(outgoing)@ == old(outgoing)@ + goto_lookup_tasks(*id, *origin, fresh_of(*old(undone), *old(visited)).0),
        total == fresh_of(*old(undone), *old(visited)).0.len(),
        final(undone).files@.len() == 0,
        final(undone).callees@.len() == 0,
{
    let picked = undone.take_fresh(visited);
    let mut tasks: Vec<Task> = Vec::new();
    let mut k: usize = 0;
    while k < picked.len()
        invariant
            k <= picked@.len(),
            tasks@ == goto_lookup_tasks(*id, *origin, picked@.take(k as int)),
        decreases picked@.len() - k,
    {
        tasks.push(
            Task::GoToExternalMacroDef {
                id: copy_id(id),
                script: picked[k].0.clone(),
                origin: copy_origin(origin),
                backtrace: picked[k].1.clone(),
            },
        );
        proof {
            assert(picked@.take(k + 1) =~= picked@.take(k as int).push(picked@[k as int]));
            assert(tasks@ =~= goto_lookup_tasks(*id, *origin, picked@.take(k + 1)));
        }
        k = k + 1;
    }
    proof {
        assert(picked@.take(picked@.len() as int) =~= picked@);
    }
    let total = picked.len() as u32;
    push_tasks(outgoing, tasks);
    total
}

/// Takes up the next round of the definition lookup: the scripts left to
/// look at are queued, and the progress counts them.
pub fn next_lookups_goto_external_macro_def(task: &mut OngoingTask, outgoing: &mut Vec<Task>)
    requires
        *old(task) matches OngoingTask::GoToExternalMacroDef { visited, undone, .. } && visited.wf()
            && fresh_of(undone, visited).0.len() <= u32::MAX,
    ensures
        match *old(task) {
            OngoingTask::GoToExternalMacroDef { id, onset, progress, origin, visited, undone, results } => {
                if undone.files@.len() == 0 {
                    &&& *final(task) == *old(task)
                    &&& final(outgoing)@ == old(outgoing)@
                } else {
                    let r = fresh_of(undone, visited);
                    &&& *final(task) matches OngoingTask::GoToExternalMacroDef {
                        id: i2, onset: o2, progress: p2, origin: g2, visited: v2, undone: u2, results: r2 }
                    &&& i2 == id && o2 == onset && g2 == origin && r2 == results
                    &&& p2 == (TaskProgress { total: r.0.len() as u32, acknowledged: true, ..progress })
                    &&& v2.wf() && v2.calls.groups() == r.1
                    &&& u2.files@.len() == 0 && u2.callees@.len() == 0
                    &&& final(outgoing)@ == old(outgoing)@ + goto_lookup_tasks(id, origin, r.0)
                }
            },
            _ => false,
        },
{
    match task {
        OngoingTask::GoToExternalMacroDef { id, progress, origin, undone, visited, .. } => {
            if undone.is_empty() {
                return;
            }
            let total = queue_goto_external_macro_definitions(id, origin, undone, visited, outgoing);
            progress.total = total;
            progress.ack_ready();
        },
        _ => {},
    }
}

/// Moves the definition lookup on: once it is finished, the links found,
/// followed by `globals` (the global definitions of the macro that the
/// caller found elsewhere), are the outcome; when the next round is due, the
/// scripts left are queued.
pub fn progress_goto_external_macro_def(
    globals: Vec<LocationLink>,
    task: &mut Option<OngoingTask>,
    outgoing: &mut Vec<Task>,
    done: &mut Vec<Option<TaskDone>>,
)
    requires
        *old(task) matches Some(OngoingTask::GoToExternalMacroDef { visited, undone, .. }) && visited.wf()
            && fresh_of(undone, visited).0.len() <= u32::MAX,
    ensures
        match *old(task) {
            Some(OngoingTask::GoToExternalMacroDef { id, onset, progress, origin, visited, undone, results }) => {
                if progress_finished(progress) {
                    &&& *final(task) matches Some(OngoingTask::GoToExternalMacroDef {
                        id: i2, onset: o2, progress: p2, origin: g2, visited: v2, undone: u2, results: r2 })
                    &&& i2 == id && o2 == onset && p2 == progress && g2 == origin && v2 == visited && u2 == undone
                    &&& r2@.len() == 0
                    &&& final(outgoing)@ == old(outgoing)@
                    &&& final(done)@.len() == old(done)@.len() + 1
                    &&& final(done)@.drop_last() == old(done)@
                    &&& final(done)@.last() matches Some(TaskDone::GoToExternalMacroDef(i, links))
                    &&& i == id && links@ == results@ + globals@
                } else if progress_ready(progress) {
                    &&& final(done)@ == old(done)@
                    &&& if undone.files@.len() == 0 {
                        &&& *final(task) == *old(task)
                        &&& final(outgoing)@ == old(outgoing)@
                    } else {
                        let r = fresh_of(undone, visited);
                        &&& *final(task) matches Some(OngoingTask::GoToExternalMacroDef {
                            id: i2, onset: o2, progress: p2, origin: g2, visited: v2, undone: u2, results: r2 })
                        &&& i2 == id && o2 == onset && g2 == origin && r2 == results
                        &&& p2 == (TaskProgress { total: r.0.len() as u32, acknowledged: true, ..progress })
                        &&& v2.wf() && v2.calls.groups() == r.1
                        &&& u2.files@.len() == 0 && u2.callees@.len() == 0
                        &&& final(outgoing)@ == old(outgoing)@ + goto_lookup_tasks(id, origin, r.0)
                    }
                } else {
                    &&& *final(task) == *old(task)
                    &&& final(outgoing)@ == old(outgoing)@
                    &&& final(done)@ == old(done)@
                }
            },
            _ => false,
        },
{
    let (finished, ready) = match task {
        Some(OngoingTask::GoToExternalMacroDef { progress, .. }) => (progress.finished(), progress.ready()),
        _ => (false, false),
    };
    if finished {
        match task {
            Some(OngoingTask::GoToExternalMacroDef { id, results, .. }) => {
                let mut globals = globals;
                results.append(&mut globals);
                let mut links: Vec<LocationLink> = Vec::new();
                links.append(results);
                done.push(Some(TaskDone::GoToExternalMacroDef(copy_id(id), links)));
                proof {
                    assert(done@.drop_last() =~= old(done)@);
                }
            },
            _ => {},
        }
    } else if ready {
        match task {
            Some(t) => next_lookups_goto_external_macro_def(t, outgoing),
            None => {},
        }
    }
}

/// No two links in `s` have the same origin and target.
pub open spec fn links_distinct(s: Seq<LocationLink>) -> bool {
    forall|i: int, j: int| 0 <= i < j < s.len() ==> !same_link(#[trigger] s[i], #[trigger] s[j])
}

/// Every link that `new_links` keeps comes from `new`, from before `new`'s
/// end.
proof fn lemma_new_links_from(old: Seq<LocationLink>, new: Seq<LocationLink>)
    ensures
        forall|m: int| 0 <= m < new_links(old, new).len() ==> exists|k: int| 0 <= k < new.len() && #[trigger] new_links(old, new)[m] == new[k],
    decreases new.len(),
{
    if new.len() > 0 {
        let n0 = new.drop_last();
        lemma_new_links_from(old, n0);
        let rest = new_links(old, n0);
        assert forall|m: int| 0 <= m < new_links(old, new).len() implies exists|k: int| 0 <= k < new.len() && #[trigger] new_links(old, new)[m] == new[k] by {
            if m < rest.len() {
                let k = choose|k: int| 0 <= k < n0.len() && rest[m] == n0[k];
                assert(new_links(old, new)[m] == rest[m]);
                assert(new[k] == n0[k]);
            } else {
                assert(new_links(old, new)[m] == new[new.len() - 1]);
            }
        }
    }
}

/// Results stay free of repeats: where the results so far and the links
/// that a lookup gives are each free of repeats, the results with the new
/// links added are too. (Where one lookup gives the same link twice, both
/// are kept.)
pub proof fn law_results_stay_distinct(old: Seq<LocationLink>, new: Seq<LocationLink>)
    requires
        links_distinct(old),
        links_distinct(new),
    ensures
        links_distinct(old + new_links(old, new)),
    decreases new.len(),
{
    if new.len() > 0 {
        let n0 = new.drop_last();
        let l = new.last();
        assert(links_distinct(n0)) by {
            assert forall|i: int, j: int| 0 <= i < j < n0.len() implies !same_link(#[trigger] n0[i], #[trigger] n0[j]) by {
                assert(n0[i] == new[i] && n0[j] == new[j]);
            }
        }
        law_results_stay_distinct(old, n0);
        let rest = new_links(old, n0);
        if !has_link(old, l) {
            lemma_new_links_from(old, n0);
            let all = old + rest;
            let all2 = old + rest.push(l);
            assert(all2 =~= all.push(l));
            assert forall|i: int, j: int| 0 <= i < j < all2.len() implies !same_link(#[trigger] all2[i], #[trigger] all2[j]) by {
                if j < all.len() {
                    assert(all2[i] == all[i] && all2[j] == all[j]);
                } else {
                    assert(all2[j] == l);
                    if i < old.len() {
                        assert(all2[i] == old[i]);
                        assert(!same_link(old[i], l));
                    } else {
                        let m = i - old.len();
                        assert(all2[i] == rest[m]);
                        let k = choose|k: int| 0 <= k < n0.len() && #[trigger] rest[m] == n0[k];
                        assert(n0[k] == new[k]);
                        assert(l == new[new.len() - 1]);
                        assert(!same_link(new[k], new[new.len() - 1]));
                    }
                }
            }
        }
    }
}


/// Links to different documents are different links.
pub proof fn law_links_to_other_documents_differ(a: LocationLink, b: LocationLink)
    requires
        a.target_uri@ != b.target_uri@,
    ensures
        !same_link(a, b),
{
}

/// Links to different places of a document, or from different origins, are
/// different links; links that agree in origin, document and places are the
/// same link.
pub proof fn law_links_compared_by_origin_and_target(a: LocationLink, b: LocationLink)
    ensures
        a.origin_selection_range != b.origin_selection_range ==> !same_link(a, b),
        a.target_range != b.target_range ==> !same_link(a, b),
        a.target_selection_range != b.target_selection_range ==> !same_link(a, b),
        (a.origin_selection_range == b.origin_selection_range && a.target_uri@ == b.target_uri@
            && a.target_range == b.target_range && a.target_selection_range == b.target_selection_range) ==> same_link(a, b),
{
}

/// A link that a lookup gives is kept where no link found so far has the
/// same target document: results are merged without dropping definitions in
/// other scripts.
pub proof fn law_links_to_new_documents_kept(old: Seq<LocationLink>, new: Seq<LocationLink>, k: int)
    requires
        0 <= k < new.len(),
        forall|j: int| 0 <= j < old.len() ==> (#[trigger] old[j]).target_uri@ != new[k].target_uri@,
    ensures
        new_links(old, new).contains(new[k]),
    decreases new.len(),
{
    let n0 = new.drop_last();
    if k < new.len() - 1 {
        assert(n0[k] == new[k]);
        law_links_to_new_documents_kept(old, n0, k);
        let rest = new_links(old, n0);
        let i = choose|i: int| 0 <= i < rest.len() && rest[i] == new[k];
        if !has_link(old, new.last()) {
            assert(rest.push(new.last())[i] == new[k]);
        }
    } else {
        assert(!has_link(old, new[k])) by {
            if has_link(old, new[k]) {
                let j = choose|j: int| 0 <= j < old.len() && same_link(#[trigger] old[j], new[k]);
                assert(old[j].target_uri@ != new[k].target_uri@);
            }
        }
        let rest = new_links(old, n0);
        assert(new_links(old, new) == rest.push(new[k]));
        assert(new_links(old, new)[rest.len() as int] == new[k]);
    }
}


} // verus!
