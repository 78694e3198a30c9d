//! Folding ranges, adapted to the client's capabilities.
//!
//! The client property `foldingRangeKind` signals which folding range kinds
//! it supports. If the property is missing, the client does not guarantee
//! to handle any kind, so the server must not populate the kind of a
//! range. If it is present, kinds that the client does not support are
//! dropped and the client falls back to its default.
use vstd::prelude::*;

use crate::lsp::{is_log_message, received_note, received_text, Message};
use crate::protocol::{FoldingRange, FoldingRangeKind, NumberOrString};

verus! {

/// How the client wants folding ranges: whether it folds whole lines only,
/// and whether it shows a collapsed text.
#[derive(Clone, Copy, Debug, PartialEq, Eq, Structural)]
pub struct CodeFoldingEncoding {
    pub line_folds_only: bool,
    pub collapsed_text_supported: bool,
}

/// The kind of a fold that survives for a client supporting `kinds`.
pub open spec fn supported_kind(kinds: Seq<FoldingRangeKind>, kind: Option<FoldingRangeKind>) -> Option<FoldingRangeKind> {
    match kind {
        Some(FoldingRangeKind::Comment) => if kinds.contains(FoldingRangeKind::Comment) {
            kind
        } else {
            None
        },
        Some(FoldingRangeKind::Region) => if kinds.contains(FoldingRangeKind::Region) {
            kind
        } else {
            None
        },
        _ => kind,
    }
}

/// A fold with its kind restricted to the supported kinds.
pub open spec fn strip_kind(kinds: Seq<FoldingRangeKind>, f: FoldingRange) -> FoldingRange {
    FoldingRange { kind: supported_kind(kinds, f.kind), ..f }
}

/// A fold as a whole-line fold: an end at character 0 excludes its line
/// (if the fold spans more than one line), and characters are dropped.
pub open spec fn line_fold(f: FoldingRange) -> FoldingRange {
    FoldingRange {
        end_line: if f.end_character == Some(0u32) && f.end_line > f.start_line {
            (f.end_line - 1) as u32
        } else {
            f.end_line
        },
        start_character: None,
        end_character: None,
        ..f
    }
}

fn kinds_contain(kinds: &[FoldingRangeKind], kind: FoldingRangeKind) -> (r: bool)
    ensures
        r == kinds@.contains(kind),
{
    let mut i: usize = 0;
    while i < kinds.len()
        invariant
            i <= kinds@.len(),
            forall|k: int| 0 <= k < i ==> kinds@[k] != kind,
        decreases kinds@.len() - i,
    {
        if kinds[i] == kind {
            return true;
        }
        i = i + 1;
    }
    false
}

/// Drops the `Comment` and `Region` kinds of folds that the client does not
/// list as supported.
pub fn strip_unsupported_fold_range_types(fold_kinds: &[FoldingRangeKind], folds: Vec<FoldingRange>) -> (r: Vec<FoldingRange>)
    ensures
        r@.len() == folds@.len(),
        forall|i: int| 0 <= i < r@.len() ==> #[trigger] r@[i] == strip_kind(fold_kinds@, folds@[i]),
{
    let encodes_comment = if fold_kinds.len() == 0 {
        false
    } else {
        kinds_contain(fold_kinds, FoldingRangeKind::Comment)
    };
    let encodes_region = if fold_kinds.len() == 0 {
        false
    } else {
        kinds_contain(fold_kinds, FoldingRangeKind::Region)
    };
    let ghost input = folds@;
    let mut out: Vec<FoldingRange> = Vec::new();
    for fold in it: folds.into_iter()
        invariant
            it.seq() == input,
            encodes_comment == fold_kinds@.contains(FoldingRangeKind::Comment),
            encodes_region == fold_kinds@.contains(FoldingRangeKind::Region),
            out@.len() == it.index(),
            forall|k: int| 0 <= k < it.index() ==> #[trigger] out@[k] == strip_kind(fold_kinds@, input[k]),
    {
        let mut fold = fold;
        let drop = match fold.kind {
            Some(FoldingRangeKind::Comment) => !encodes_comment,
            Some(FoldingRangeKind::Region) => !encodes_region,
            _ => false,
        };
        if drop {
            fold.kind = None;
        }
        out.push(fold);
    }
    out
}


/// Adapts folds to clients that only fold whole lines: an end at character
/// 0 selects the prior line completely, so the fold ends one line earlier;
/// start and end characters are dropped. Other clients get the folds as
/// they are.
pub fn encode_code_folds(encoding: &CodeFoldingEncoding, folds: Vec<FoldingRange>) -> (r: Vec<FoldingRange>)
    requires
        forall|i: int| 0 <= i < folds@.len() ==> (#[trigger] folds@[i]).start_line <= folds@[i].end_line,
    ensures
        !encoding.line_folds_only ==> r@ == folds@,
        encoding.line_folds_only ==> r@.len() == folds@.len() && forall|i: int|
            0 <= i < r@.len() ==> #[trigger] r@[i] == line_fold(folds@[i]),
{
    if !encoding.line_folds_only {
        return folds;
    }
    let ghost input = folds@;
    let mut out: Vec<FoldingRange> = Vec::new();
    for fold in it: folds.into_iter()
        invariant
            it.seq() == input,
            forall|i: int| 0 <= i < input.len() ==> (#[trigger] input[i]).start_line <= input[i].end_line,
            out@.len() == it.index(),
            forall|k: int| 0 <= k < it.index() ==> #[trigger] out@[k] == line_fold(input[k]),
    {
        let mut fold = fold;
        if let Some(end) = fold.end_character {
            if end == 0 && fold.end_line > fold.start_line {
                fold.end_line = fold.end_line - 1;
            }
        }
        fold.start_character = None;
        fold.end_character = None;
        out.push(fold);
    }
    out
}

/// Adapts the folds found in a document to the client: unsupported kinds
/// are dropped, then the folds are encoded as the client wants them.
pub fn mark_code_folds(encoding: CodeFoldingEncoding, fold_kinds: Vec<FoldingRangeKind>, folds: Vec<FoldingRange>) -> (r: Vec<FoldingRange>)
    requires
        forall|i: int| 0 <= i < folds@.len() ==> (#[trigger] folds@[i]).start_line <= folds@[i].end_line,
    ensures
        r@.len() == folds@.len(),
        forall|i: int|
            0 <= i < r@.len() ==> #[trigger] r@[i] == (if encoding.line_folds_only {
                line_fold(strip_kind(fold_kinds@, folds@[i]))
            } else {
                strip_kind(fold_kinds@, folds@[i])
            }),
{
    let mut folds = folds;
    let ghost input = folds@;
    if folds.len() > 0 {
        folds = strip_unsupported_fold_range_types(fold_kinds.as_slice(), folds);
        proof {
            assert forall|i: int| 0 <= i < folds@.len() implies (#[trigger] folds@[i]).start_line <= folds@[i].end_line by {
                assert(folds@[i] == strip_kind(fold_kinds@, input[i]));
            }
        }
        folds = encode_code_folds(&encoding, folds);
    }
    folds
}

/// Notes that a folding range request arrived (with the note of a full
/// file semantic tokens request).
pub fn log_folding_range_req(id: NumberOrString) -> (m: Message)
    ensures
        is_log_message(m, received_text("semantic tokens for full file"@, id)),
{
    received_note("semantic tokens for full file", &id)
}

} // verus!
