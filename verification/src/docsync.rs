//! Keeping the store of documents in step with what the client opens,
//! changes and closes.
use vstd::prelude::*;

use crate::docstore::{stored, TextDocStatus, TextDocs};
use crate::lsp::{invalid_request_error, is_invalid_request_error, Message};
use crate::files::FileIndex;
use crate::protocol::TextDocumentItem;
use crate::tasks::Task;
use crate::text::push_text;

verus! {

/// The error for a change to a document that is not open.
pub open spec fn not_open_text(uri: Seq<char>) -> Seq<char> {
    "Error: Text document \""@ + uri + "\" has not been opened, so it cannot be changed."@
}

/// The error for closing a document that is not open.
pub open spec fn cannot_close_text(uri: Seq<char>) -> Seq<char> {
    "Error: Text document \""@ + uri + "\" has not been opened, so it cannot be closed."@
}

pub fn error_textdoc_not_open(uri: &str) -> (m: Message)
    ensures
        is_invalid_request_error(m, None, not_open_text(uri@)),
{
    let mut text = String::from_str("Error: Text document \"");
    push_text(&mut text, uri);
    push_text(&mut text, "\" has not been opened, so it cannot be changed.");
    invalid_request_error(None, text)
}

pub fn error_textdoc_cannot_close(uri: &str) -> (m: Message)
    ensures
        is_invalid_request_error(m, None, cannot_close_text(uri@)),
{
    let mut text = String::from_str("Error: Text document \"");
    push_text(&mut text, uri);
    push_text(&mut text, "\" has not been opened, so it cannot be closed.");
    invalid_request_error(None, text)
}

/// Closes a document the client has closed; a document that is not open is
/// answered with an error.
pub fn process_doc_close_notif(uri: &str, docs: &mut TextDocs, outgoing: &mut Vec<Option<Message>>)
    requires
        old(docs).wf(),
    ensures
        if old(docs).entry(uri@) matches Some((st, _, _)) && st == TextDocStatus::Open {
            &&& stored(
                *old(docs),
                *final(docs),
                uri@,
                (TextDocStatus::Closed, old(docs).entry(uri@)->Some_0.1, old(docs).entry(uri@)->Some_0.2),
            )
            &&& final(outgoing)@ == old(outgoing)@
        } else {
            &&& *final(docs) == *old(docs)
            &&& final(outgoing)@.len() == old(outgoing)@.len() + 1
            &&& final(outgoing)@.drop_last() == old(outgoing)@
            &&& final(outgoing)@.last() matches Some(m) && is_invalid_request_error(m, None, cannot_close_text(uri@))
        },
{
    if !docs.is_open(uri) {
        outgoing.push(Some(error_textdoc_cannot_close(uri)));
        proof {
            assert(outgoing@.drop_last() =~= old(outgoing)@);
        }
        return;
    }
    docs.close(uri);
}

/// Gives the work that reads in a document the client has opened.
pub fn process_doc_open_notif(doc: TextDocumentItem, files: FileIndex) -> (job: Task)
    ensures
        job == Task::TextDocNew(doc, files),
{
    Task::TextDocNew(doc, files)
}

} // verus!
