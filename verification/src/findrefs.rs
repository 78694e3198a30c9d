//! Answering a find references request once the lookup in the requesting
//! script is done: the answer is final, or the lookup goes on as a macro
//! reference lookup, or the references to a script or a command are
//! collected from the cross references of all scripts.
use vstd::prelude::*;

use crate::config::Config;
use crate::definitions::{
    ext_def_prepared, is_definition_request, prepare_goto_external_macro_def_req, GotoDefinitionResult,
    MacroReferenceOrigin,
};
use crate::lookups::{group_locations, FileLocationMap};
use crate::lsp::{copy_id, id_text, is_log_message, log_message, push_id, FindReferencesResponse, Message};
use crate::protocol::{Location, LocationLink, NumberOrString, TraceValue, Uri};
use crate::references::{
    ext_lookup_prepared, is_reference_request, only_slot_changed, prepare_find_external_macro_definitions_req,
    prepare_find_macro_references_req, refs_lookup_prepared, FileLocation, MacroDefinition, MacroScope,
};
use crate::startup::Tasks;
use crate::tasks::first_task_with_id;
use crate::text::push_text;
use crate::xrefs::{entry_of, ScriptRefs};

verus! {

/// What a lookup in the requesting script leaves to do.
#[derive(Debug, PartialEq)]
pub enum FindReferencesPartialResult {
    /// The request is for a command: all its uses are the answer.
    Command(String),
    /// The request is for a macro whose definitions are all known.
    MacroDefsComplete { origin: MacroReferenceOrigin, definitions: Vec<(FileLocation, Option<MacroScope>)> },
    /// The request is for a macro that may also be defined in a caller.
    MacroDefsIncomplete { origin: MacroReferenceOrigin, definitions: Vec<(FileLocation, Option<MacroScope>)> },
    /// The request is for the script that a call names.
    FileTarget { origin_uri: Uri, target: String },
}

/// The outcome of the lookup in the requesting script.
#[derive(Debug, PartialEq)]
pub enum FindReferencesResult {
    Final(Vec<Location>),
    Partial(FindReferencesPartialResult),
}

/// The definitions of a macro found in one script: final, partial where the
/// macro may also be defined in a caller, or undecided.
#[derive(Debug, PartialEq)]
pub enum MacroDefinitionResult {
    Final(Vec<MacroDefinition>),
    Partial(Vec<MacroDefinition>),
    Indeterminate,
}

/// The note that a reference request goes on as a macro reference lookup.
pub open spec fn converted_text(id: NumberOrString) -> Seq<char> {
    "INFO: Request with ID \""@ + id_text(id) + "\" converted to find macro references request."@
}

fn log_conv_find_macro_ref_req(id: &NumberOrString) -> (m: Message)
    ensures
        is_log_message(m, converted_text(*id)),
{
    let mut text = String::from_str("INFO: Request with ID \"");
    push_id(&mut text, id);
    push_text(&mut text, "\" converted to find macro references request.");
    log_message(text)
}

/// The places of a place map as locations, document by document; none
/// where there is no map.
pub open spec fn map_locations(m: Option<FileLocationMap>) -> Seq<Location> {
    match m {
        Some(m) => group_locations(m.keys@, m.values@, m.keys@.len() as int),
        None => Seq::empty(),
    }
}

/// The places that name one of `scripts` as a call target, script by script.
pub open spec fn target_locations(refs: ScriptRefs, scripts: Seq<Uri>) -> Seq<Location>
    decreases scripts.len(),
{
    if scripts.len() == 0 {
        Seq::empty()
    } else {
        target_locations(refs, scripts.drop_last()) + map_locations(entry_of(refs.file_targets@, scripts.last()@))
    }
}

/// The answer's locations: none where the list is empty.
pub open spec fn answer_of(locs: Seq<Location>) -> Option<Seq<Location>> {
    if locs.len() == 0 {
        None
    } else {
        Some(locs)
    }
}

/// The scripts that refer to a macro named `name`.
pub open spec fn macro_scripts_of(refs: ScriptRefs, name: Seq<char>) -> Seq<Uri> {
    match entry_of(refs.macro_scripts@, name) {
        Some(v) => v@,
        None => Seq::empty(),
    }
}

/// The response answers the request `id` with `locs`.
pub open spec fn answers(r: Option<FindReferencesResponse>, id: NumberOrString, locs: Option<Seq<Location>>) -> bool {
    r matches Some(resp) && resp.id == id && match (resp.result, locs) {
        (Some(v), Some(l)) => v@ == l,
        (None, None) => true,
        _ => false,
    }
}

/// Where the lookup goes on, the reference request must be the first task
/// with its identifier.
pub open spec fn goes_on(refs: ScriptRefs, references: Option<FindReferencesResult>) -> bool {
    match references {
        Some(FindReferencesResult::Partial(FindReferencesPartialResult::MacroDefsComplete { .. })) => true,
        Some(FindReferencesResult::Partial(FindReferencesPartialResult::MacroDefsIncomplete { origin, definitions })) => {
            entry_of(refs.callers@, origin.uri@) is Some || definitions.len() > 0
        },
        _ => false,
    }
}

/// The conversion note was sent where tracing is on.
pub open spec fn conv_traced(level: TraceValue, before: Seq<Option<Message>>, after: Seq<Option<Message>>, id: NumberOrString) -> bool {
    if level == TraceValue::Off {
        after == before
    } else {
        &&& after.len() == before.len() + 1
        &&& after.drop_last() == before
        &&& after.last() matches Some(m) && is_log_message(m, converted_text(id))
    }
}

/// All the places that name one of `scripts` as a call target.
fn collect_target_locations(refs: &ScriptRefs, scripts: Vec<Uri>) -> (locs: Vec<Location>)
    requires
        refs.wf(),
    ensures
        locs@ == target_locations(*refs, scripts@),
{
    let mut locs: Vec<Location> = Vec::new();
    let mut i: usize = 0;
    while i < scripts.len()
        invariant
            refs.wf(),
            i <= scripts@.len(),
            locs@ == target_locations(*refs, scripts@.take(i as int)),
        decreases scripts@.len() - i,
    {
        proof {
            assert(scripts@.take(i + 1).drop_last() =~= scripts@.take(i as int));
        }
        match refs.get_all_target_file_refs(scripts[i].as_str()) {
            Some(m) => {
                let mut more = m.to_locations();
                locs.append(&mut more);
            },
            None => {},
        }
        i = i + 1;
    }
    proof {
        assert(scripts@.take(scripts@.len() as int) =~= scripts@);
    }
    locs
}

/// The answer to a find references request once the lookup in the
/// requesting script is done.
///
/// A final result is the answer. For a macro with all definitions known, the
/// request goes on as a lookup of the references; for a macro that may also
/// be defined in a caller, as a lookup of the definitions in the callers
/// where the script has callers, else as a lookup of the references where
/// definitions were found, else the macro is defined implicitly and its one
/// reference is the answer. For a command, its uses are the answer; for a
/// call target, the places that call any of `targets`, the scripts that the
/// target resolves to from the requesting script (none where it does not
/// resolve). No answer is given while the lookup goes on.
pub fn process_find_references_result(
    cfg: &Config,
    refs: &ScriptRefs,
    targets: Option<Vec<Uri>>,
    id: &NumberOrString,
    references: Option<FindReferencesResult>,
    ts: &mut Tasks,
    outgoing: &mut Vec<Option<Message>>,
) -> (r: Option<FindReferencesResponse>)
    requires
        refs.wf(),
        goes_on(*refs, references) ==> is_reference_request(old(ts).ongoing@, *id),
    ensures
        final(ts).counters == old(ts).counters,
        final(ts).completed@ == old(ts).completed@,
        !goes_on(*refs, references) ==> final(ts).ongoing@ == old(ts).ongoing@ && final(outgoing)@ == old(outgoing)@,
        match references {
            None => answers(r, *id, None),
            Some(FindReferencesResult::Final(locs)) => answers(r, *id, Some(locs@)),
            Some(FindReferencesResult::Partial(FindReferencesPartialResult::Command(cmd))) => {
                answers(r, *id, answer_of(map_locations(entry_of(refs.commands@, cmd@))))
            },
            Some(FindReferencesResult::Partial(FindReferencesPartialResult::FileTarget { .. })) => {
                answers(r, *id, match targets {
                    Some(t) => answer_of(target_locations(*refs, t@)),
                    None => None,
                })
            },
            Some(FindReferencesResult::Partial(FindReferencesPartialResult::MacroDefsComplete { origin, definitions })) => {
                &&& r is None
                &&& conv_traced(cfg.trace_level, old(outgoing)@, final(outgoing)@, *id)
                &&& only_slot_changed(
                    old(ts).ongoing@,
                    final(ts).ongoing@,
                    first_task_with_id(old(ts).ongoing@, *id),
                    |a, b| refs_lookup_prepared(a, b, *id, origin, definitions@, macro_scripts_of(*refs, origin.name@)),
                )
            },
            Some(FindReferencesResult::Partial(FindReferencesPartialResult::MacroDefsIncomplete { origin, definitions })) => {
                match entry_of(refs.callers@, origin.uri@) {
                    Some(callers) => {
                        &&& r is None
                        &&& conv_traced(cfg.trace_level, old(outgoing)@, final(outgoing)@, *id)
                        &&& only_slot_changed(
                            old(ts).ongoing@,
                            final(ts).ongoing@,
                            first_task_with_id(old(ts).ongoing@, *id),
                            |a, b| ext_lookup_prepared(a, b, *id, origin, definitions@, callers@),
                        )
                    },
                    None => if definitions.len() > 0 {
                        &&& r is None
                        &&& conv_traced(cfg.trace_level, old(outgoing)@, final(outgoing)@, *id)
                        &&& only_slot_changed(
                            old(ts).ongoing@,
                            final(ts).ongoing@,
                            first_task_with_id(old(ts).ongoing@, *id),
                            |a, b| refs_lookup_prepared(a, b, *id, origin, definitions@, macro_scripts_of(*refs, origin.name@)),
                        )
                    } else {
                        answers(r, *id, Some(seq![Location { uri: origin.uri, range: origin.span }]))
                    },
                }
            },
        },
{
    let result: Option<Vec<Location>> = match references {
        Some(FindReferencesResult::Final(refs_found)) => Some(refs_found),
        Some(FindReferencesResult::Partial(partial)) => match partial {
            FindReferencesPartialResult::MacroDefsComplete { origin, definitions } => {
                if cfg.trace_level != TraceValue::Off {
                    outgoing.push(Some(log_conv_find_macro_ref_req(id)));
                    proof {
                        assert(outgoing@.drop_last() =~= old(outgoing)@);
                    }
                }
                let scripts = match refs.get_all_scripts_with_macro(origin.name.as_str()) {
                    Some(v) => v.clone(),
                    None => Vec::new(),
                };
                proof {
                    assert(scripts@ == macro_scripts_of(*refs, origin.name@));
                }
                prepare_find_macro_references_req(&scripts, copy_id(id), origin, definitions, &mut ts.ongoing);
                return None;
            },
            FindReferencesPartialResult::MacroDefsIncomplete { origin, definitions } => {
                if let Some(callers) = refs.get_callers(origin.uri.as_str()) {
                    if cfg.trace_level != TraceValue::Off {
                        outgoing.push(Some(log_conv_find_macro_ref_req(id)));
                        proof {
                            assert(outgoing@.drop_last() =~= old(outgoing)@);
                        }
                    }
                    let callers = callers.clone();
                    prepare_find_external_macro_definitions_req(copy_id(id), origin, definitions, callers, &mut ts.ongoing);
                    return None;
                }
                if definitions.len() > 0 {
                    if cfg.trace_level != TraceValue::Off {
                        outgoing.push(Some(log_conv_find_macro_ref_req(id)));
                        proof {
                            assert(outgoing@.drop_last() =~= old(outgoing)@);
                        }
                    }
                    let scripts = match refs.get_all_scripts_with_macro(origin.name.as_str()) {
                        Some(v) => v.clone(),
                        None => Vec::new(),
                    };
                    proof {
                        assert(scripts@ == macro_scripts_of(*refs, origin.name@));
                    }
                    prepare_find_macro_references_req(&scripts, copy_id(id), origin, definitions, &mut ts.ongoing);
                    return None;
                }
                let mut one: Vec<Location> = Vec::new();
                one.push(Location { uri: origin.uri, range: origin.span });
                proof {
                    assert(one@ =~= seq![Location { uri: origin.uri, range: origin.span }]);
                }
                Some(one)
            },
            FindReferencesPartialResult::FileTarget { .. } => match targets {
                Some(scripts) => {
                    let locations = collect_target_locations(refs, scripts);
                    if locations.len() == 0 {
                        None
                    } else {
                        Some(locations)
                    }
                },
                None => None,
            },
            FindReferencesPartialResult::Command(cmd) => match refs.get_all_command_refs(cmd.as_str()) {
                Some(m) => {
                    let locations = m.to_locations();
                    if locations.len() == 0 {
                        None
                    } else {
                        Some(locations)
                    }
                },
                None => None,
            },
        },
        None => None,
    };
    Some(FindReferencesResponse { id: copy_id(id), result })
}

/// The definitions that answer a definition request.
#[derive(Debug, PartialEq)]
pub enum LocationResult {
    /// Links from the reference to each definition.
    ExtMeta(Vec<LocationLink>),
}

/// The answer to a definition request.
#[derive(Debug, PartialEq)]
pub struct GoToDefinitionResponse {
    pub id: NumberOrString,
    pub result: Option<LocationResult>,
}

/// The note that a definition request goes on as a lookup in the callers.
pub open spec fn goto_converted_text(id: NumberOrString) -> Seq<char> {
    "INFO: Request with ID \""@ + id_text(id) + "\" converted to goto macro definition request."@
}

fn log_conv_goto_macro_ref_req(id: &NumberOrString) -> (m: Message)
    ensures
        is_log_message(m, goto_converted_text(*id)),
{
    let mut text = String::from_str("INFO: Request with ID \"");
    push_id(&mut text, id);
    push_text(&mut text, "\" converted to goto macro definition request.");
    log_message(text)
}

/// The response answers the request `id` with the links `links`, or with
/// nothing.
pub open spec fn answers_links(r: Option<GoToDefinitionResponse>, id: NumberOrString, links: Option<Seq<LocationLink>>) -> bool {
    r matches Some(resp) && resp.id == id && match (resp.result, links) {
        (Some(LocationResult::ExtMeta(v)), Some(l)) => v@ == l,
        (None, None) => true,
        _ => false,
    }
}

/// The lookup goes on in the callers of the macro's script.
pub open spec fn goto_goes_on(refs: ScriptRefs, goto_def: Option<GotoDefinitionResult>) -> bool {
    goto_def matches Some(GotoDefinitionResult::PartialMacro(uri, ..)) && entry_of(refs.callers@, uri@) is Some
}

/// The answer to a definition request once the lookup in the requesting
/// script is done: final links are the answer; for a macro that may be
/// defined in a calling script, the request goes on as a lookup in the
/// script's callers where it has any, and otherwise the links found so far,
/// if any, are the answer. No answer is given while the lookup goes on.
pub fn process_goto_definition_result(
    refs: &ScriptRefs,
    id: &NumberOrString,
    goto_def: Option<GotoDefinitionResult>,
    trace_level: TraceValue,
    ts: &mut Tasks,
    outgoing: &mut Vec<Option<Message>>,
) -> (r: Option<GoToDefinitionResponse>)
    requires
        refs.wf(),
        goto_goes_on(*refs, goto_def) ==> is_definition_request(old(ts).ongoing@, *id),
    ensures
        final(ts).counters == old(ts).counters,
        final(ts).completed@ == old(ts).completed@,
        !goto_goes_on(*refs, goto_def) ==> final(ts).ongoing@ == old(ts).ongoing@ && final(outgoing)@ == old(outgoing)@,
        match goto_def {
            None => answers_links(r, *id, None),
            Some(GotoDefinitionResult::Final(links)) => answers_links(r, *id, Some(links@)),
            Some(GotoDefinitionResult::PartialMacro(uri, name, span, links)) => match entry_of(refs.callers@, uri@) {
                Some(callers) => {
                    &&& r is None
                    &&& if trace_level == TraceValue::Off {
                        final(outgoing)@ == old(outgoing)@
                    } else {
                        &&& final(outgoing)@.len() == old(outgoing)@.len() + 1
                        &&& final(outgoing)@.drop_last() == old(outgoing)@
                        &&& final(outgoing)@.last() matches Some(m) && is_log_message(m, goto_converted_text(*id))
                    }
                    &&& only_slot_changed(
                        old(ts).ongoing@,
                        final(ts).ongoing@,
                        first_task_with_id(old(ts).ongoing@, *id),
                        |a, b| ext_def_prepared(a, b, *id, MacroReferenceOrigin { name, span, uri }, links@, callers@),
                    )
                },
                None => answers_links(r, *id, if links@.len() == 0 { None } else { Some(links@) }),
            },
        },
{
    let result = match goto_def {
        Some(GotoDefinitionResult::Final(links)) => Some(LocationResult::ExtMeta(links)),
        Some(GotoDefinitionResult::PartialMacro(uri, name, span, links)) => {
            if let Some(callers) = refs.get_callers(uri.as_str()) {
                if trace_level != TraceValue::Off {
                    outgoing.push(Some(log_conv_goto_macro_ref_req(id)));
                    proof {
                        assert(outgoing@.drop_last() =~= old(outgoing)@);
                    }
                }
                let callers = callers.clone();
                prepare_goto_external_macro_def_req(
                    copy_id(id),
                    MacroReferenceOrigin { name, span, uri },
                    links,
                    callers,
                    &mut ts.ongoing,
                );
                return None;
            }
            if links.len() == 0 {
                None
            } else {
                Some(LocationResult::ExtMeta(links))
            }
        },
        None => None,
    };
    Some(GoToDefinitionResponse { id: copy_id(id), result })
}

/// The answer for a call target holds every place that calls any of the
/// scripts the target resolves to.
pub proof fn law_target_locations_complete(refs: ScriptRefs, scripts: Seq<Uri>)
    ensures
        forall|i: int, m: int|
            0 <= i < scripts.len() && 0 <= m < map_locations(entry_of(refs.file_targets@, scripts[i]@)).len()
                ==> target_locations(refs, scripts).contains(
                #[trigger] map_locations(entry_of(refs.file_targets@, scripts[i]@))[m],
            ),
    decreases scripts.len(),
{
    if scripts.len() > 0 {
        let s0 = scripts.drop_last();
        law_target_locations_complete(refs, s0);
        let prev = target_locations(refs, s0);
        let last = map_locations(entry_of(refs.file_targets@, scripts.last()@));
        assert(target_locations(refs, scripts) == prev + last);
        assert forall|i: int, m: int|
            0 <= i < scripts.len() && 0 <= m < map_locations(entry_of(refs.file_targets@, scripts[i]@)).len()
                implies target_locations(refs, scripts).contains(#[trigger] map_locations(entry_of(refs.file_targets@, scripts[i]@))[m]) by {
            let loc = map_locations(entry_of(refs.file_targets@, scripts[i]@))[m];
            if i < scripts.len() - 1 {
                assert(s0[i] == scripts[i]);
                assert(prev.contains(loc));
                let k = choose|k: int| 0 <= k < prev.len() && prev[k] == loc;
                assert(target_locations(refs, scripts)[k] == loc);
            } else {
                assert(target_locations(refs, scripts)[prev.len() + m] == loc);
            }
        }
    }
}


} // verus!
