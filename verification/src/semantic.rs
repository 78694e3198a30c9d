//! Semantic tokens: adapting highlighted spans to the client's capabilities
//! and encoding them as the protocol's integer array.
//!
//! [Note: Order Overlapping Semantic Tokens] Tokens come sorted by their
//! start, and a token that is nested in another one follows it directly or
//! after other tokens nested in the same parent.
use vstd::prelude::*;

use crate::lsp::{is_log_message, received_note, received_text, Message};
use crate::protocol::{
    NumberOrString,
    position_at_or_before, position_before, range_contains, Position, Range, SemanticTokens,
};
use crate::textdoc::{distance, TextDoc};

verus! {

/// A highlighted span with its token type and modifier set.
#[derive(Clone, Copy, Debug, PartialEq, Eq, Structural)]
pub struct SemanticToken {
    pub span: Range,
    pub token_type: u32,
    pub modifier: u32,
}

/// The five integers that encode one token.
#[derive(Clone, Copy, Debug, PartialEq, Eq, Structural)]
pub struct SemanticTokenIntegerEncoded {
    pub line: u32,
    pub character: u32,
    pub len: u32,
    pub token_type: u32,
    pub modifier: u32,
}

/// A token at its absolute position.
#[derive(Clone, Copy, Debug, PartialEq, Eq, Structural)]
pub struct SemanticTokenAbsoluteEncoding(pub SemanticTokenIntegerEncoded);

/// A token at its position relative to the token before it.
#[derive(Clone, Copy, Debug, PartialEq, Eq, Structural)]
pub struct SemanticTokenRelativeEncoding(pub SemanticTokenIntegerEncoded);

/// Whether a token spans more than one line.
pub open spec fn is_multiline(t: SemanticToken) -> bool {
    t.span.start.line < t.span.end.line
}

pub fn contains_multiline_tokens(tokens: &[SemanticToken]) -> (r: bool)
    ensures
        r == exists|i: int| 0 <= i < tokens@.len() && is_multiline(#[trigger] tokens@[i]),
{
    let mut i: usize = 0;
    while i < tokens.len()
        invariant
            i <= tokens@.len(),
            forall|k: int| 0 <= k < i ==> !is_multiline(#[trigger] tokens@[k]),
        decreases tokens@.len() - i,
    {
        if tokens[i].span.start.line < tokens[i].span.end.line {
            return true;
        }
        i = i + 1;
    }
    false
}

/// The relative encoding of `tok` after `prior`.
pub open spec fn relative_to(prior: SemanticTokenIntegerEncoded, tok: SemanticTokenIntegerEncoded) -> SemanticTokenIntegerEncoded {
    if prior.line == tok.line {
        SemanticTokenIntegerEncoded { line: 0, character: (tok.character - prior.character) as u32, ..tok }
    } else {
        SemanticTokenIntegerEncoded { line: (tok.line - prior.line) as u32, ..tok }
    }
}

/// Absolute positions in the order of the token list: lines do not
/// decrease, and characters on the same line do not decrease.
pub open spec fn ordered_absolute(tokens: Seq<SemanticTokenAbsoluteEncoding>) -> bool {
    forall|i: int|
        0 <= i < tokens.len() - 1 ==> {
            let a = #[trigger] tokens[i].0;
            let b = tokens[i + 1].0;
            a.line < b.line || (a.line == b.line && a.character <= b.character)
        }
}

/// Converts absolute token positions into positions relative to the prior
/// token. The first token is a virtual token at the start of the file and
/// is not encoded itself.
pub fn encode_semantic_tokens_relative_format(tokens: &[SemanticTokenAbsoluteEncoding]) -> (r: Vec<
    SemanticTokenRelativeEncoding,
>)
    requires
        ordered_absolute(tokens@),
    ensures
        tokens@.len() == 0 ==> r@.len() == 0,
        tokens@.len() > 0 ==> r@.len() == tokens@.len() - 1,
        forall|i: int|
            0 <= i < r@.len() ==> (#[trigger] r@[i]).0 == relative_to(tokens@[i].0, tokens@[i + 1].0),
{
    let mut encoded: Vec<SemanticTokenRelativeEncoding> = Vec::new();
    if tokens.len() == 0 {
        return encoded;
    }
    let mut ii: usize = 0;
    while ii < tokens.len() - 1
        invariant
            tokens@.len() > 0,
            ordered_absolute(tokens@),
            ii < tokens@.len(),
            encoded@.len() == ii,
            forall|i: int|
                0 <= i < ii ==> (#[trigger] encoded@[i]).0 == relative_to(tokens@[i].0, tokens@[i + 1].0),
        decreases tokens@.len() - ii,
    {
        let prior = tokens[ii].0;
        let tok = tokens[ii + 1].0;
        proof {
            assert(tokens@[ii as int].0 == prior);
        }
        let enc = if prior.line == tok.line {
            SemanticTokenIntegerEncoded { line: 0, character: tok.character - prior.character, ..tok }
        } else {
            SemanticTokenIntegerEncoded { line: tok.line - prior.line, ..tok }
        };
        encoded.push(SemanticTokenRelativeEncoding(enc));
        ii = ii + 1;
    }
    encoded
}

/// Lays out the tokens as five integers each: line, character, length,
/// type, and modifiers.
pub fn encode_semantic_tokens_integer_array(tokens: &[SemanticTokenRelativeEncoding]) -> (r: Vec<u32>)
    ensures
        r@.len() == 5 * tokens@.len(),
        forall|i: int|
            #![trigger tokens@[i]]
            0 <= i < tokens@.len() ==> {
                &&& r@[5 * i] == tokens@[i].0.line
                &&& r@[5 * i + 1] == tokens@[i].0.character
                &&& r@[5 * i + 2] == tokens@[i].0.len
                &&& r@[5 * i + 3] == tokens@[i].0.token_type
                &&& r@[5 * i + 4] == tokens@[i].0.modifier
            },
{
    let mut encoded: Vec<u32> = Vec::new();
    let mut i: usize = 0;
    while i < tokens.len()
        invariant
            i <= tokens@.len(),
            encoded@.len() == 5 * i,
            forall|k: int|
                #![trigger tokens@[k]]
                0 <= k < i ==> {
                    &&& encoded@[5 * k] == tokens@[k].0.line
                    &&& encoded@[5 * k + 1] == tokens@[k].0.character
                    &&& encoded@[5 * k + 2] == tokens@[k].0.len
                    &&& encoded@[5 * k + 3] == tokens@[k].0.token_type
                    &&& encoded@[5 * k + 4] == tokens@[k].0.modifier
                },
        decreases tokens@.len() - i,
    {
        let tok = tokens[i].0;
        let ghost before = encoded@;
        encoded.push(tok.line);
        encoded.push(tok.character);
        encoded.push(tok.len);
        encoded.push(tok.token_type);
        encoded.push(tok.modifier);
        proof {
            assert forall|k: int|
                #![trigger tokens@[k]]
                0 <= k < i + 1 implies {
                    &&& encoded@[5 * k] == tokens@[k].0.line
                    &&& encoded@[5 * k + 1] == tokens@[k].0.character
                    &&& encoded@[5 * k + 2] == tokens@[k].0.len
                    &&& encoded@[5 * k + 3] == tokens@[k].0.token_type
                    &&& encoded@[5 * k + 4] == tokens@[k].0.modifier
                } by {
                if k < i {
                    assert(encoded@[5 * k] == before[5 * k]);
                    assert(encoded@[5 * k + 1] == before[5 * k + 1]);
                    assert(encoded@[5 * k + 2] == before[5 * k + 2]);
                    assert(encoded@[5 * k + 3] == before[5 * k + 3]);
                    assert(encoded@[5 * k + 4] == before[5 * k + 4]);
                }
            }
        }
        i = i + 1;
    }
    encoded
}

/// The last-character offset of `line` in the line table, if the line has
/// one.
pub open spec fn eol_offset(maxs: Seq<Option<u32>>, line: int) -> Option<u32> {
    if 0 <= line < maxs.len() {
        maxs[line]
    } else {
        None
    }
}

/// The end of the segment of a multi-line token on `line`: the line's last
/// character, or one character after the token's start if the line length
/// is unknown.
pub open spec fn segment_end(maxs: Seq<Option<u32>>, t: SemanticToken, line: int) -> Position {
    match eol_offset(maxs, line) {
        Some(eol) => Position { line: line as u32, character: eol },
        None => Position { line: line as u32, character: (t.span.start.character + 1) as u32 },
    }
}

/// The single-line segments of a multi-line token: the rest of its first
/// line, all lines in between, and the start of its last line (if it ends
/// after the line's first character).
pub open spec fn token_segments(maxs: Seq<Option<u32>>, t: SemanticToken) -> Seq<SemanticToken> {
    let start = t.span.start;
    let end = t.span.end;
    let first = SemanticToken {
        span: Range { start, end: segment_end(maxs, t, start.line as int) },
        ..t
    };
    let middle = Seq::new(
        (end.line - start.line - 1) as nat,
        |i: int|
            SemanticToken {
                span: Range {
                    start: Position { line: (start.line + 1 + i) as u32, character: 0 },
                    end: segment_end(maxs, t, start.line + 1 + i),
                },
                ..t
            },
    );
    let last = if end.character > 0 {
        seq![SemanticToken { span: Range { start: Position { line: end.line, character: 0 }, end }, ..t }]
    } else {
        Seq::<SemanticToken>::empty()
    };
    seq![first] + middle + last
}

/// Whether a token needs splitting: it crosses a line end. A token that
/// ends at the first character of the next line does not.
pub open spec fn needs_split(t: SemanticToken) -> bool {
    !(t.span.end.line <= t.span.start.line || (t.span.end.character == 0 && t.span.end.line
        == t.span.start.line + 1))
}

/// The tokens, each multi-line token replaced by its segments.
pub open spec fn split_tokens(maxs: Seq<Option<u32>>, tokens: Seq<SemanticToken>) -> Seq<SemanticToken>
    decreases tokens.len(),
{
    if tokens.len() == 0 {
        Seq::empty()
    } else {
        let t = tokens.last();
        split_tokens(maxs, tokens.drop_last()) + if needs_split(t) {
            token_segments(maxs, t)
        } else {
            seq![t]
        }
    }
}

/// The segment ends of a multi-line token can be computed: its start
/// character can be advanced by one, or every line it ends on has a known
/// length, so that no segment end is taken from the start character.
pub open spec fn segment_ends_fit(maxs: Seq<Option<u32>>, t: SemanticToken) -> bool {
    t.span.start.character < u32::MAX || forall|l: int|
        t.span.start.line <= l < t.span.end.line ==> #[trigger] eol_offset(maxs, l) is Some
}

/// Tokens whose ends do not come before their starts, and whose segments
/// can be computed where they need splitting.
pub open spec fn tokens_well_ordered(maxs: Seq<Option<u32>>, tokens: Seq<SemanticToken>) -> bool {
    forall|i: int|
        0 <= i < tokens.len() ==> (#[trigger] tokens[i]).span.start.line <= tokens[i].span.end.line
            && (needs_split(tokens[i]) ==> segment_ends_fit(maxs, tokens[i]))
}

/// Splits a token that spans several lines into one token per line; see
/// [`token_segments`].
pub fn distribute_multiline_token(
    doc: &TextDoc,
    multiline_token: &SemanticToken,
    segments: &mut Vec<SemanticToken>,
)
    requires
        old(segments)@.len() == 0,
        multiline_token.span.start.line < multiline_token.span.end.line,
        segment_ends_fit(doc.lines.max_utf16_char_offset@, *multiline_token),
    ensures
        final(segments)@ == token_segments(doc.lines.max_utf16_char_offset@, *multiline_token),
{
    let ghost maxs = doc.lines.max_utf16_char_offset@;
    let ghost t = *multiline_token;
    let start = multiline_token.span.start;
    let end = multiline_token.span.end;

    let end_pos: Position = if let Some(eol) = doc.get_eol_character_offset(start.line as usize) {
        Position { line: start.line, character: eol }
    } else {
        // The length of the token's first line is unknown. The token cannot
        // start at the end of the line, so it gets the minimal length of 1.
        assert(eol_offset(maxs, start.line as int) is None);
        Position { line: start.line, character: start.character + 1 }
    };

    segments.push(SemanticToken { span: Range { start: multiline_token.span.start, end: end_pos }, ..*multiline_token });

    let mut offset: u32 = 1;
    while start.line + offset < end.line
        invariant
            t == *multiline_token,
            start == t.span.start,
            end == t.span.end,
            start.line < end.line,
            segment_ends_fit(maxs, t),
            1 <= offset <= end.line - start.line,
            maxs == doc.lines.max_utf16_char_offset@,
            segments@ == token_segments(maxs, t).take(offset as int),
        decreases end.line - start.line - offset,
    {
        let start_pos = Position { line: start.line + offset, character: 0 };
        let end_pos: Position = if let Some(eol) = doc.get_eol_character_offset(
            (start.line + offset) as usize,
        ) {
            Position { line: start_pos.line, character: eol }
        } else {
            assert(eol_offset(maxs, (start.line + offset) as int) is None);
            Position { line: start_pos.line, character: start.character + 1 }
        };
        let seg = SemanticToken { span: Range { start: start_pos, end: end_pos }, ..*multiline_token };
        proof {
            assert(token_segments(maxs, t)[offset as int] == seg);
            assert(token_segments(maxs, t).take(offset + 1) =~= token_segments(maxs, t).take(
                offset as int,
            ).push(seg));
        }
        segments.push(seg);
        offset = offset + 1;
    }

    if end.character > 0 {
        let start_pos = Position { line: end.line, character: 0 };
        let seg = SemanticToken { span: Range { start: start_pos, end: multiline_token.span.end }, ..*multiline_token };
        proof {
            assert(token_segments(maxs, t)[offset as int] == seg);
            assert(token_segments(maxs, t).take(offset + 1) =~= token_segments(maxs, t));
            assert(token_segments(maxs, t).take(offset + 1) =~= token_segments(maxs, t).take(
                offset as int,
            ).push(seg));
        }
        segments.push(seg);
    } else {
        proof {
            assert(token_segments(maxs, t).take(offset as int) =~= token_segments(maxs, t));
        }
    }
}

/// Replaces every token that crosses a line end by its per-line segments,
/// for clients that do not support multi-line tokens.
pub fn split_multiline_semantic_tokens(doc: &TextDoc, tokens: Vec<SemanticToken>) -> (r: Vec<SemanticToken>)
    requires
        tokens_well_ordered(doc.lines.max_utf16_char_offset@, tokens@),
    ensures
        r@ == split_tokens(doc.lines.max_utf16_char_offset@, tokens@),
{
    let ghost maxs = doc.lines.max_utf16_char_offset@;
    if !contains_multiline_tokens(tokens.as_slice()) {
        proof {
            lemma_split_nothing(maxs, tokens@);
        }
        return tokens;
    }

    let mut extra_tokens: Vec<SemanticToken> = Vec::new();
    let mut i: usize = 0;
    while i < tokens.len()
        invariant
            tokens_well_ordered(maxs, tokens@),
            i <= tokens@.len(),
            maxs == doc.lines.max_utf16_char_offset@,
            extra_tokens@ == split_tokens(maxs, tokens@.take(i as int)),
        decreases tokens@.len() - i,
    {
        let token = tokens[i];
        let start = token.span.start;
        let end = token.span.end;
        proof {
            assert(tokens@.take(i + 1).drop_last() =~= tokens@.take(i as int));
            assert(tokens@.take(i + 1).last() == token);
        }
        // Tokens ending at the end of a line have their end at character 0
        // of the next line; their length does not take them past the end of
        // the line, so they stay whole.
        if end.line <= start.line || (end.character == 0 && end.line == start.line + 1) {
            extra_tokens.push(token);
        } else {
            let mut segments: Vec<SemanticToken> = Vec::new();
            distribute_multiline_token(doc, &token, &mut segments);
            extra_tokens.append(&mut segments);
        }
        i = i + 1;
    }
    proof {
        assert(tokens@.take(tokens@.len() as int) =~= tokens@);
    }
    extra_tokens
}

proof fn lemma_split_nothing(maxs: Seq<Option<u32>>, tokens: Seq<SemanticToken>)
    requires
        forall|i: int| 0 <= i < tokens.len() ==> !is_multiline(#[trigger] tokens[i]),
    ensures
        split_tokens(maxs, tokens) == tokens,
    decreases tokens.len(),
{
    if tokens.len() > 0 {
        let t = tokens.last();
        assert(!is_multiline(tokens[tokens.len() - 1]));
        assert forall|i: int| 0 <= i < tokens.drop_last().len() implies !is_multiline(
            #[trigger] tokens.drop_last()[i],
        ) by {
            assert(tokens.drop_last()[i] == tokens[i]);
        }
        lemma_split_nothing(maxs, tokens.drop_last());
        assert(tokens.drop_last().push(t) =~= tokens);
    }
}


/// The later of two positions.
pub open spec fn later(a: Position, b: Position) -> Position {
    if position_before(a, b) {
        b
    } else {
        a
    }
}

/// `t` restricted to the span from `start` to `end`.
pub open spec fn with_span(t: SemanticToken, start: Position, end: Position) -> SemanticToken {
    SemanticToken { span: Range { start, end }, ..t }
}

/// The state of flattening: the emitted tokens, the stack of open tokens
/// (each one containing the next), and the position up to which tokens have
/// been emitted.
pub struct FlattenState {
    pub flattened: Seq<SemanticToken>,
    pub stack: Seq<SemanticToken>,
    pub cutoff: Position,
}

/// Closes open tokens until one contains `tok`: each closed token is
/// emitted from the cutoff (or its start) to its end, if anything of it is
/// left. A token that contains `tok` is emitted up to `tok`'s start, if it
/// starts before `tok` and anything of that part is left.
pub open spec fn unwind(fl: Seq<SemanticToken>, st: Seq<SemanticToken>, cut: Position, tok: SemanticToken) -> FlattenState
    decreases st.len(),
{
    if st.len() == 0 {
        FlattenState { flattened: fl, stack: st, cutoff: cut }
    } else {
        let top = st.last();
        if range_contains(top.span, tok.span) {
            let fl2 = if position_before(top.span.start, tok.span.start) && position_before(cut, tok.span.start) {
                fl.push(with_span(top, later(cut, top.span.start), tok.span.start))
            } else {
                fl
            };
            FlattenState { flattened: fl2, stack: st, cutoff: tok.span.start }
        } else if position_before(cut, top.span.end) {
            unwind(
                fl.push(with_span(top, later(cut, top.span.start), top.span.end)),
                st.drop_last(),
                top.span.end,
                tok,
            )
        } else {
            unwind(fl, st.drop_last(), cut, tok)
        }
    }
}

/// One step of flattening: `tok` becomes the innermost open token.
pub open spec fn flatten_step(state: FlattenState, tok: SemanticToken) -> FlattenState {
    let st = state.stack;
    if st.len() == 0 {
        FlattenState { flattened: state.flattened, stack: seq![tok], cutoff: tok.span.start }
    } else if range_contains(st.last().span, tok.span) {
        let top = st.last();
        let fl2 = if position_before(top.span.start, tok.span.start) && position_before(state.cutoff, tok.span.start) {
            state.flattened.push(with_span(top, top.span.start, tok.span.start))
        } else {
            state.flattened
        };
        FlattenState { flattened: fl2, stack: st.push(tok), cutoff: tok.span.start }
    } else {
        let u = unwind(state.flattened, st, state.cutoff, tok);
        FlattenState { flattened: u.flattened, stack: u.stack.push(tok), cutoff: u.cutoff }
    }
}

/// Flattening state after the tokens `tokens`, from `init`.
pub open spec fn flatten_all(init: FlattenState, tokens: Seq<SemanticToken>) -> FlattenState
    decreases tokens.len(),
{
    if tokens.len() == 0 {
        init
    } else {
        flatten_step(flatten_all(init, tokens.drop_last()), tokens.last())
    }
}

/// A virtual token after all others; it closes all open tokens.
pub open spec fn closing_token() -> SemanticToken {
    SemanticToken {
        span: Range {
            start: Position { line: u32::MAX, character: u32::MAX },
            end: Position { line: u32::MAX, character: u32::MAX },
        },
        token_type: 0,
        modifier: 0,
    }
}

/// The non-overlapping tokens for a list of possibly nested tokens: a
/// nested token cuts its parent into the parts before and after it.
pub open spec fn flattened_tokens(tokens: Seq<SemanticToken>) -> Seq<SemanticToken> {
    flatten_all(
        FlattenState { flattened: Seq::empty(), stack: Seq::empty(), cutoff: tokens[0].span.start },
        tokens.push(closing_token()),
    ).flattened
}

/// Flattening leaves exactly the closing token open, as no token ends where
/// the closing token does.
pub open spec fn flatten_closes_all(tokens: Seq<SemanticToken>) -> bool {
    forall|i: int|
        0 <= i < tokens.len() ==> (#[trigger] tokens[i]).span.end != closing_token().span.end
}

proof fn lemma_unwind_closes(fl: Seq<SemanticToken>, st: Seq<SemanticToken>, cut: Position)
    requires
        forall|i: int| 0 <= i < st.len() ==> (#[trigger] st[i]).span.end != closing_token().span.end,
    ensures
        unwind(fl, st, cut, closing_token()).stack.len() == 0,
    decreases st.len(),
{
    if st.len() > 0 {
        let top = st.last();
        assert(top.span.end != closing_token().span.end);
        assert forall|i: int| 0 <= i < st.drop_last().len() implies (#[trigger] st.drop_last()[i]).span.end
            != closing_token().span.end by {
            assert(st.drop_last()[i] == st[i]);
        }
        if position_before(cut, top.span.end) {
            lemma_unwind_closes(fl.push(with_span(top, later(cut, top.span.start), top.span.end)), st.drop_last(), top.span.end);
        } else {
            lemma_unwind_closes(fl, st.drop_last(), cut);
        }
    }
}

/// The open tokens are always input tokens (or the closing token last).
proof fn lemma_stack_from_input(init: FlattenState, tokens: Seq<SemanticToken>)
    requires
        init.stack.len() == 0,
        flatten_closes_all(tokens),
    ensures
        forall|i: int|
            0 <= i < flatten_all(init, tokens).stack.len() ==> (#[trigger] flatten_all(
                init,
                tokens,
            ).stack[i]).span.end != closing_token().span.end,
    decreases tokens.len(),
{
    if tokens.len() > 0 {
        assert forall|i: int| 0 <= i < tokens.drop_last().len() implies (#[trigger] tokens.drop_last()[i]).span.end
            != closing_token().span.end by {
            assert(tokens.drop_last()[i] == tokens[i]);
        }
        lemma_stack_from_input(init, tokens.drop_last());
        let prev = flatten_all(init, tokens.drop_last());
        let tok = tokens.last();
        assert(tok.span.end != closing_token().span.end);
        if prev.stack.len() > 0 && !range_contains(prev.stack.last().span, tok.span) {
            lemma_unwind_stack_prefix(prev.flattened, prev.stack, prev.cutoff, tok);
        }
    }
}

proof fn lemma_unwind_stack_prefix(fl: Seq<SemanticToken>, st: Seq<SemanticToken>, cut: Position, tok: SemanticToken)
    ensures
        unwind(fl, st, cut, tok).stack.len() <= st.len(),
        unwind(fl, st, cut, tok).stack =~= st.take(unwind(fl, st, cut, tok).stack.len() as int),
    decreases st.len(),
{
    if st.len() > 0 {
        let top = st.last();
        if !range_contains(top.span, tok.span) {
            if position_before(cut, top.span.end) {
                lemma_unwind_stack_prefix(fl.push(with_span(top, later(cut, top.span.start), top.span.end)), st.drop_last(), top.span.end, tok);
            } else {
                lemma_unwind_stack_prefix(fl, st.drop_last(), cut, tok);
            }
            let u = unwind(fl, st, cut, tok);
            assert(st.drop_last().take(u.stack.len() as int) =~= st.take(u.stack.len() as int));
        } else {
            assert(st.take(st.len() as int) =~= st);
        }
    }
}

/// Splits overlapping tokens into non-overlapping ones, for clients that do
/// not support overlapping tokens; see [`flattened_tokens`].
pub fn flatten_semantic_tokens(tokens: Vec<SemanticToken>) -> (r: Vec<SemanticToken>)
    requires
        tokens@.len() > 0,
        flatten_closes_all(tokens@),
    ensures
        r@ == flattened_tokens(tokens@),
{
    let ghost input = tokens@;
    let ghost all = input.push(closing_token());
    let mut flattened: Vec<SemanticToken> = Vec::new();
    let mut stacked_tokens: Vec<SemanticToken> = Vec::new();
    let mut cutoff = tokens[0].span.start;
    let ghost init = FlattenState { flattened: Seq::empty(), stack: Seq::empty(), cutoff };

    let closing = SemanticToken {
        span: Range {
            start: Position { line: u32::MAX, character: u32::MAX },
            end: Position { line: u32::MAX, character: u32::MAX },
        },
        token_type: 0,
        modifier: 0,
    };
    let n = tokens.len();
    let mut idx: usize = 0;
    let mut finished = false;
    let ghost mut k: int = 0;
    // The next token can only be processed once all its nested tokens have
    // been seen, so a closing token is processed after the last one.
    while !finished
        invariant
            n == input.len(),
            input == tokens@,
            all == input.push(closing_token()),
            closing == closing_token(),
            idx <= n,
            finished ==> idx == n,
            k == idx + if finished { 1int } else { 0int },
            flatten_all(init, all.take(k)) == (FlattenState {
                flattened: flattened@,
                stack: stacked_tokens@,
                cutoff,
            }),
        decreases n + 1 - k,
    {
        let token = if idx < n {
            tokens[idx]
        } else {
            closing
        };
        proof {
            assert(all[idx as int] == token);
            assert(all.take(idx + 1).drop_last() =~= all.take(idx as int));
            assert(all.take(idx + 1).last() == token);
        }
        let ghost before = FlattenState { flattened: flattened@, stack: stacked_tokens@, cutoff };
        let len = stacked_tokens.len();
        if len == 0 {
            cutoff = token.span.start;
            stacked_tokens.push(token);
            proof {
                assert(stacked_tokens@ =~= seq![token]);
            }
        } else {
            let top = stacked_tokens[len - 1];
            if top.span.contains(&token.span) {
                // Fill the gap until the nested token starts. Only the
                // direct parent determines the filler width.
                if top.span.start.before(&token.span.start) && cutoff.before(&token.span.start) {
                    let filler = SemanticToken { span: Range { start: top.span.start, end: token.span.start }, ..top };
                    flattened.push(filler);
                }
                cutoff = token.span.start;
                stacked_tokens.push(token);
            } else {
                // Emit the prior tokens until a parent of the current token
                // is found, then check whether the parent needs a filler.
                let mut ii: usize = len;
                let mut found = false;
                while ii > 0 && !found
                    invariant
                        ii == stacked_tokens@.len(),
                        !found ==> unwind(before.flattened, before.stack, before.cutoff, token) == unwind(
                            flattened@,
                            stacked_tokens@,
                            cutoff,
                            token,
                        ),
                        found ==> unwind(before.flattened, before.stack, before.cutoff, token) == (FlattenState {
                            flattened: flattened@,
                            stack: stacked_tokens@,
                            cutoff,
                        }),
                    decreases ii + if found { 0int } else { 1int },
                {
                    let pos = ii - 1;
                    let candidate = stacked_tokens[pos];
                    proof {
                        assert(stacked_tokens@.last() == candidate);
                    }
                    if candidate.span.contains(&token.span) {
                        if candidate.span.start.before(&token.span.start) && cutoff.before(&token.span.start) {
                            let start = if cutoff.before(&candidate.span.start) {
                                candidate.span.start
                            } else {
                                cutoff
                            };
                            let filler = SemanticToken { span: Range { start, end: token.span.start }, ..candidate };
                            flattened.push(filler);
                        }
                        cutoff = token.span.start;
                        found = true;
                    } else {
                        let popped = stacked_tokens.pop().unwrap();
                        proof {
                            assert(popped == candidate);
                        }
                        if cutoff.before(&popped.span.end) {
                            let start = if cutoff.before(&popped.span.start) {
                                popped.span.start
                            } else {
                                cutoff
                            };
                            flattened.push(SemanticToken { span: Range { start, end: popped.span.end }, ..popped });
                            cutoff = popped.span.end;
                        }
                        ii = ii - 1;
                    }
                }
                stacked_tokens.push(token);
            }
        }
        if idx < n {
            idx = idx + 1;
        } else {
            finished = true;
        }
        proof {
            k = k + 1;
        }
    }
    proof {
        assert(all.take(n + 1) =~= all);
        // Only the closing token is left open.
        assert(all.drop_last() =~= input);
        lemma_stack_from_input(init, input);
        let prev = flatten_all(init, input);
        if prev.stack.len() > 0 && !range_contains(prev.stack.last().span, closing_token().span) {
            lemma_unwind_closes(prev.flattened, prev.stack, prev.cutoff);
        }
        if prev.stack.len() > 0 && range_contains(prev.stack.last().span, closing_token().span) {
            assert(prev.stack[prev.stack.len() - 1].span.end != closing_token().span.end);
        }
        assert(stacked_tokens@.len() == 1);
    }
    flattened
}


/// The absolute encoding of a token: its start, and as length the distance
/// from its start to its end, less the end itself.
pub open spec fn absolute_token(offs: Seq<usize>, text: Seq<char>, t: SemanticToken) -> SemanticTokenIntegerEncoded {
    let d = distance(offs, text, t.span.start, t.span.end);
    SemanticTokenIntegerEncoded {
        line: t.span.start.line,
        character: t.span.start.character,
        len: (if d > 0 { d - 1 } else { 0 }) as u32,
        token_type: t.token_type,
        modifier: t.modifier,
    }
}

/// The virtual token at the start of the file that precedes the encoded
/// tokens.
pub open spec fn virtual_token() -> SemanticTokenIntegerEncoded {
    SemanticTokenIntegerEncoded { line: 0, character: 0, len: 0, token_type: 0, modifier: 0 }
}

/// Encodes the tokens with absolute positions, after a virtual token at the
/// start of the file (none at all for no tokens).
pub fn encode_semantic_tokens_absolute_format(doc: &TextDoc, tokens: &[SemanticToken]) -> (r: Vec<
    SemanticTokenAbsoluteEncoding,
>)
    requires
        doc.wf(),
    ensures
        tokens@.len() == 0 ==> r@.len() == 0,
        tokens@.len() > 0 ==> r@.len() == tokens@.len() + 1 && r@[0].0 == virtual_token(),
        tokens@.len() > 0 ==> forall|i: int|
            0 <= i < tokens@.len() ==> (#[trigger] r@[i + 1]).0 == absolute_token(
                doc.lines.byte_offsets@,
                doc.text@,
                tokens@[i],
            ),
{
    let mut encoded: Vec<SemanticTokenAbsoluteEncoding> = Vec::new();
    if tokens.len() == 0 {
        return encoded;
    }
    // The virtual token makes the conversion to relative positions uniform.
    encoded.push(
        SemanticTokenAbsoluteEncoding(
            SemanticTokenIntegerEncoded { line: 0, character: 0, len: 0, token_type: 0, modifier: 0 },
        ),
    );
    let mut i: usize = 0;
    while i < tokens.len()
        invariant
            doc.wf(),
            i <= tokens@.len(),
            encoded@.len() == i + 1,
            encoded@[0].0 == virtual_token(),
            forall|k: int|
                0 <= k < i ==> (#[trigger] encoded@[k + 1]).0 == absolute_token(
                    doc.lines.byte_offsets@,
                    doc.text@,
                    tokens@[k],
                ),
        decreases tokens@.len() - i,
    {
        let token = &tokens[i];
        let span = &token.span;
        // The end of a token is one character after its last character.
        let distance = doc.calculate_distance(&span.start, &span.end);
        let len = if distance > 0 {
            distance - 1
        } else {
            0
        };
        encoded.push(
            SemanticTokenAbsoluteEncoding(
                SemanticTokenIntegerEncoded {
                    line: span.start.line,
                    character: span.start.character,
                    len,
                    token_type: token.token_type,
                    modifier: token.modifier,
                },
            ),
        );
        i = i + 1;
    }
    encoded
}

/// How the client wants semantic tokens: whether it supports tokens that
/// span several lines, and tokens that overlap.
#[derive(Clone, Copy, Debug, PartialEq, Eq, Structural)]
pub struct SemanticTokenEncoding {
    pub multiline_tokens: bool,
    pub overlapping_tokens: bool,
}

/// The tokens adapted to the client: multi-line tokens split, then
/// overlapping tokens flattened, as far as the client needs it.
pub open spec fn adapted_tokens(encoding: SemanticTokenEncoding, maxs: Seq<Option<u32>>, tokens: Seq<SemanticToken>) -> Seq<SemanticToken> {
    if tokens.len() == 0 {
        tokens
    } else {
        let split = if !encoding.multiline_tokens {
            split_tokens(maxs, tokens)
        } else {
            tokens
        };
        if !encoding.overlapping_tokens {
            flattened_tokens(split)
        } else {
            split
        }
    }
}

/// The integer array of the tokens: each token relative to its predecessor
/// (the first one relative to the start of the file).
pub open spec fn token_data(offs: Seq<usize>, text: Seq<char>, tokens: Seq<SemanticToken>) -> Seq<u32> {
    let abs = Seq::new(tokens.len(), |i: int| absolute_token(offs, text, tokens[i]));
    let all = seq![virtual_token()] + abs;
    let rel = Seq::new(tokens.len(), |i: int| relative_to(all[i], all[i + 1]));
    Seq::new(5 * tokens.len(), |k: int| {
        let t = rel[k / 5];
        if k % 5 == 0 {
            t.line
        } else if k % 5 == 1 {
            t.character
        } else if k % 5 == 2 {
            t.len
        } else if k % 5 == 3 {
            t.token_type
        } else {
            t.modifier
        }
    })
}

/// Tokens whose starts do not decrease: the order that the relative
/// encoding needs.
pub open spec fn starts_ordered(tokens: Seq<SemanticToken>) -> bool {
    forall|i: int|
        0 <= i < tokens.len() - 1 ==> position_at_or_before(
            (#[trigger] tokens[i]).span.start,
            tokens[i + 1].span.start,
        )
}

/// Inputs on which the encoding works: well-ordered tokens whose adapted
/// list (if flattening applies) leaves only the closing token open and
/// whose adapted starts are ordered.
pub open spec fn encoding_ok(encoding: SemanticTokenEncoding, maxs: Seq<Option<u32>>, tokens: Seq<SemanticToken>) -> bool {
    let split = if !encoding.multiline_tokens {
        split_tokens(maxs, tokens)
    } else {
        tokens
    };
    &&& tokens_well_ordered(maxs, tokens)
    &&& (tokens.len() > 0 && !encoding.overlapping_tokens ==> split.len() > 0 && flatten_closes_all(split))
    &&& starts_ordered(adapted_tokens(encoding, maxs, tokens))
}

/// Adapts highlighted tokens to the client and encodes them.
fn encode_tokens(encoding: SemanticTokenEncoding, doc: &TextDoc, tokens: Vec<SemanticToken>) -> (r: SemanticTokens)
    requires
        doc.wf(),
        encoding_ok(encoding, doc.lines.max_utf16_char_offset@, tokens@),
    ensures
        r.result_id is None,
        r.data@ == token_data(
            doc.lines.byte_offsets@,
            doc.text@,
            adapted_tokens(encoding, doc.lines.max_utf16_char_offset@, tokens@),
        ),
{
    let ghost maxs = doc.lines.max_utf16_char_offset@;
    let ghost offs = doc.lines.byte_offsets@;
    let mut tokens = tokens;
    if tokens.len() > 0 {
        if !encoding.multiline_tokens {
            tokens = split_multiline_semantic_tokens(doc, tokens);
        }
        if !encoding.overlapping_tokens {
            tokens = flatten_semantic_tokens(tokens);
        }
    }
    let ghost adapted = tokens@;
    let abs = encode_semantic_tokens_absolute_format(doc, tokens.as_slice());
    proof {
        assert forall|i: int| 0 <= i < abs@.len() - 1 implies {
            let a = #[trigger] abs@[i].0;
            let b = abs@[i + 1].0;
            a.line < b.line || (a.line == b.line && a.character <= b.character)
        } by {
            if i > 0 {
                assert(abs@[i].0 == absolute_token(offs, doc.text@, adapted[i - 1]));
                assert(position_at_or_before(adapted[i - 1].span.start, adapted[i].span.start));
            }
        }
    }
    let rel = encode_semantic_tokens_relative_format(abs.as_slice());
    let data = encode_semantic_tokens_integer_array(rel.as_slice());
    proof {
        let expected = token_data(offs, doc.text@, adapted);
        let all = seq![virtual_token()] + Seq::new(adapted.len(), |i: int| absolute_token(offs, doc.text@, adapted[i]));
        if adapted.len() > 0 {
            assert(abs@.len() == all.len());
            assert forall|i: int| 0 <= i < all.len() implies abs@[i].0 == #[trigger] all[i] by {
                if i > 0 {
                    assert(abs@[(i - 1) + 1].0 == absolute_token(offs, doc.text@, adapted[i - 1]));
                }
            }
        }
        assert(data@.len() == expected.len());
        assert forall|k: int| 0 <= k < data@.len() implies data@[k] == #[trigger] expected[k] by {
            let i = k / 5;
            assert(0 <= i < rel@.len());
            assert(k == 5 * i + k % 5);
            assert(rel@[i].0 == relative_to(abs@[i].0, abs@[i + 1].0));
        }
        assert(data@ =~= expected);
    }
    SemanticTokens { result_id: None, data }
}

/// Encodes the semantic tokens highlighted for a whole document.
pub fn capture_semantic_tokens_full_doc(encoding: SemanticTokenEncoding, doc: &TextDoc, tokens: Vec<SemanticToken>) -> (r: SemanticTokens)
    requires
        doc.wf(),
        encoding_ok(encoding, doc.lines.max_utf16_char_offset@, tokens@),
    ensures
        r.result_id is None,
        r.data@ == token_data(
            doc.lines.byte_offsets@,
            doc.text@,
            adapted_tokens(encoding, doc.lines.max_utf16_char_offset@, tokens@),
        ),
{
    encode_tokens(encoding, doc, tokens)
}

/// Encodes the semantic tokens highlighted for a range of a document.
pub fn capture_semantic_tokens_doc_range(encoding: SemanticTokenEncoding, doc: &TextDoc, tokens: Vec<SemanticToken>) -> (r: SemanticTokens)
    requires
        doc.wf(),
        encoding_ok(encoding, doc.lines.max_utf16_char_offset@, tokens@),
    ensures
        r.result_id is None,
        r.data@ == token_data(
            doc.lines.byte_offsets@,
            doc.text@,
            adapted_tokens(encoding, doc.lines.max_utf16_char_offset@, tokens@),
        ),
{
    encode_tokens(encoding, doc, tokens)
}

/// Notes that a semantic tokens request for a full file arrived.
pub fn log_semantic_tok_full_req(id: NumberOrString) -> (m: Message)
    ensures
        is_log_message(m, received_text("semantic tokens for full file"@, id)),
{
    received_note("semantic tokens for full file", &id)
}

/// Notes that a semantic tokens request for a file range arrived.
pub fn log_semantic_tok_range_req(id: NumberOrString) -> (m: Message)
    ensures
        is_log_message(m, received_text("semantic tokens for file range"@, id)),
{
    received_note("semantic tokens for file range", &id)
}

/// A token that covers at least one character.
pub open spec fn non_empty(t: SemanticToken) -> bool {
    position_before(t.span.start, t.span.end)
}

/// `b` lies inside `a` or after it.
pub open spec fn inside_or_after(a: SemanticToken, b: SemanticToken) -> bool {
    range_contains(a.span, b.span) || position_at_or_before(a.span.end, b.span.start)
}

/// Tokens as the highlighting produces them: each one non-empty, and each
/// one inside or after every token before it, so that tokens are ordered by
/// their starts and a token comes before the tokens nested in it. Flattening
/// relies on the latter: a token listed after a nested token with the same
/// start has its part taken from its start again, over the nested token's
/// part, where a token before it contains it or a later token lies in it.
pub open spec fn properly_nested(tokens: Seq<SemanticToken>) -> bool {
    &&& forall|i: int| 0 <= i < tokens.len() ==> non_empty(#[trigger] tokens[i])
    &&& forall|i: int, j: int| 0 <= i < j < tokens.len() ==> inside_or_after(#[trigger] tokens[i], #[trigger] tokens[j])
}

/// Non-empty tokens, each ending at or before the start of the next one.
pub open spec fn in_order_apart(fl: Seq<SemanticToken>) -> bool {
    &&& forall|i: int| 0 <= i < fl.len() ==> non_empty(#[trigger] fl[i])
    &&& forall|i: int| 0 <= i < fl.len() - 1 ==> position_at_or_before((#[trigger] fl[i]).span.end, fl[i + 1].span.start)
}

/// `t` is a part of one of `tokens`, with its type and modifier.
pub open spec fn part_of(t: SemanticToken, tokens: Seq<SemanticToken>) -> bool {
    exists|k: int| 0 <= k < tokens.len() && {
        let o = #[trigger] tokens[k];
        &&& o.token_type == t.token_type
        &&& o.modifier == t.modifier
        &&& position_at_or_before(o.span.start, t.span.start)
        &&& position_at_or_before(t.span.end, o.span.end)
    }
}

/// `t` is one of the first `n` tokens of `all`.
pub open spec fn among_first(t: SemanticToken, all: Seq<SemanticToken>, n: int) -> bool {
    exists|idx: int| 0 <= idx < n && #[trigger] all[idx] == t
}

/// The start state of flattening.
pub open spec fn flatten_init(tokens: Seq<SemanticToken>) -> FlattenState {
    FlattenState { flattened: Seq::empty(), stack: Seq::empty(), cutoff: tokens[0].span.start }
}

proof fn lemma_unwind_ordered(tokens: Seq<SemanticToken>, fl: Seq<SemanticToken>, st: Seq<SemanticToken>, cut: Position, tok: SemanticToken)
    requires
        in_order_apart(fl),
        fl.len() > 0 ==> position_at_or_before(fl.last().span.end, cut),
        position_at_or_before(cut, tok.span.start),
        position_at_or_before(tok.span.start, tok.span.end),
        forall|k: int| 0 <= k < st.len() ==> {
            &&& inside_or_after(#[trigger] st[k], tok)
            &&& non_empty(st[k])
            &&& among_first(st[k], tokens, tokens.len() as int)
        },
        forall|m: int| 0 <= m < fl.len() ==> part_of(#[trigger] fl[m], tokens),
    ensures
        ({
            let u = unwind(fl, st, cut, tok);
            &&& in_order_apart(u.flattened)
            &&& u.flattened.len() > 0 ==> position_at_or_before(u.flattened.last().span.end, u.cutoff)
            &&& position_at_or_before(u.cutoff, tok.span.start)
            &&& forall|m: int| 0 <= m < u.flattened.len() ==> part_of(#[trigger] u.flattened[m], tokens)
        }),
    decreases st.len(),
{
    if st.len() > 0 {
        let top = st.last();
        assert(inside_or_after(st[st.len() - 1], tok) && non_empty(st[st.len() - 1]));
        assert(among_first(st[st.len() - 1], tokens, tokens.len() as int));
        let idx = choose|idx: int| 0 <= idx < tokens.len() && #[trigger] tokens[idx] == top;
        let st0 = st.drop_last();
        assert forall|k: int| 0 <= k < st0.len() implies {
            &&& inside_or_after(#[trigger] st0[k], tok)
            &&& non_empty(st0[k])
            &&& among_first(st0[k], tokens, tokens.len() as int)
        } by {
            assert(st0[k] == st[k]);
        }
        if range_contains(top.span, tok.span) {
            if position_before(top.span.start, tok.span.start) && position_before(cut, tok.span.start) {
                let seg = with_span(top, later(cut, top.span.start), tok.span.start);
                let fl2 = fl.push(seg);
                assert(part_of(seg, tokens)) by {
                    assert(tokens[idx] == top);
                }
                assert forall|m: int| 0 <= m < fl2.len() implies part_of(#[trigger] fl2[m], tokens) by {
                    if m < fl.len() {
                        assert(fl2[m] == fl[m]);
                    }
                }
                assert forall|i: int| 0 <= i < fl2.len() - 1 implies position_at_or_before((#[trigger] fl2[i]).span.end, fl2[i + 1].span.start) by {
                    if i < fl.len() - 1 {
                        assert(fl2[i] == fl[i] && fl2[i + 1] == fl[i + 1]);
                    } else {
                        assert(fl2[i] == fl.last());
                    }
                }
                assert forall|i: int| 0 <= i < fl2.len() implies non_empty(#[trigger] fl2[i]) by {
                    if i < fl.len() {
                        assert(fl2[i] == fl[i]);
                    }
                }
            }
        } else {
            if position_before(cut, top.span.end) {
                let seg = with_span(top, later(cut, top.span.start), top.span.end);
                let fl2 = fl.push(seg);
                assert(part_of(seg, tokens)) by {
                    assert(tokens[idx] == top);
                }
                assert forall|m: int| 0 <= m < fl2.len() implies part_of(#[trigger] fl2[m], tokens) by {
                    if m < fl.len() {
                        assert(fl2[m] == fl[m]);
                    }
                }
                assert forall|i: int| 0 <= i < fl2.len() - 1 implies position_at_or_before((#[trigger] fl2[i]).span.end, fl2[i + 1].span.start) by {
                    if i < fl.len() - 1 {
                        assert(fl2[i] == fl[i] && fl2[i + 1] == fl[i + 1]);
                    } else {
                        assert(fl2[i] == fl.last());
                    }
                }
                assert forall|i: int| 0 <= i < fl2.len() implies non_empty(#[trigger] fl2[i]) by {
                    if i < fl.len() {
                        assert(fl2[i] == fl[i]);
                    }
                }
                lemma_unwind_ordered(tokens, fl2, st0, top.span.end, tok);
            } else {
                lemma_unwind_ordered(tokens, fl, st0, cut, tok);
            }
        }
    }
}

proof fn lemma_flatten_ordered(tokens: Seq<SemanticToken>, n: int)
    requires
        tokens.len() > 0,
        properly_nested(tokens),
        0 <= n <= tokens.len() + 1,
    ensures
        ({
            let all = tokens.push(closing_token());
            let f = flatten_all(flatten_init(tokens), all.take(n));
            &&& in_order_apart(f.flattened)
            &&& f.flattened.len() > 0 ==> position_at_or_before(f.flattened.last().span.end, f.cutoff)
            &&& f.stack.len() > 0 ==> position_at_or_before(f.cutoff, f.stack.last().span.start)
            &&& f.stack.len() == 0 ==> f.flattened.len() == 0
            &&& forall|k: int| 0 <= k < f.stack.len() ==> among_first(#[trigger] f.stack[k], all, n)
            &&& forall|m: int| 0 <= m < f.flattened.len() ==> part_of(#[trigger] f.flattened[m], tokens)
        }),
    decreases n,
{
    let all = tokens.push(closing_token());
    let init = flatten_init(tokens);
    if n == 0 {
        assert(all.take(0) =~= Seq::<SemanticToken>::empty());
    } else {
        lemma_flatten_ordered(tokens, n - 1);
        assert(all.take(n).drop_last() =~= all.take(n - 1));
        assert(all.take(n).last() == all[n - 1]);
        let prev = flatten_all(init, all.take(n - 1));
        let tok = all[n - 1];
        let st = prev.stack;
        assert(position_at_or_before(tok.span.start, tok.span.end)) by {
            if n - 1 < tokens.len() {
                assert(tok == tokens[n - 1]);
                assert(non_empty(tokens[n - 1]));
            }
        }
        // Every open token is an input token, with `tok` inside or after it.
        assert forall|k: int| 0 <= k < st.len() implies {
            &&& inside_or_after(#[trigger] st[k], tok)
            &&& non_empty(st[k])
            &&& among_first(st[k], tokens, tokens.len() as int)
        } by {
            assert(among_first(st[k], all, n - 1));
            let idx = choose|idx: int| 0 <= idx < n - 1 && #[trigger] all[idx] == st[k];
            assert(all[idx] == tokens[idx]);
            assert(non_empty(tokens[idx]));
            if n - 1 < tokens.len() {
                assert(tok == tokens[n - 1]);
                assert(inside_or_after(tokens[idx], tokens[n - 1]));
            }
        }
        if st.len() == 0 {
            let f = flatten_all(init, all.take(n));
            assert forall|k: int| 0 <= k < f.stack.len() implies among_first(#[trigger] f.stack[k], all, n) by {
                assert(f.stack[k] == all[n - 1]);
            }
        } else if range_contains(st.last().span, tok.span) {
            let top = st.last();
            assert(inside_or_after(st[st.len() - 1], tok) && among_first(st[st.len() - 1], tokens, tokens.len() as int));
            let idx = choose|idx: int| 0 <= idx < tokens.len() && #[trigger] tokens[idx] == top;
            let fl = prev.flattened;
            if position_before(top.span.start, tok.span.start) && position_before(prev.cutoff, tok.span.start) {
                let seg = with_span(top, top.span.start, tok.span.start);
                let fl2 = fl.push(seg);
                assert(part_of(seg, tokens)) by {
                    assert(tokens[idx] == top);
                }
                assert forall|m: int| 0 <= m < fl2.len() implies part_of(#[trigger] fl2[m], tokens) by {
                    if m < fl.len() {
                        assert(fl2[m] == fl[m]);
                    }
                }
                assert forall|i: int| 0 <= i < fl2.len() - 1 implies position_at_or_before((#[trigger] fl2[i]).span.end, fl2[i + 1].span.start) by {
                    if i < fl.len() - 1 {
                        assert(fl2[i] == fl[i] && fl2[i + 1] == fl[i + 1]);
                    } else {
                        assert(fl2[i] == fl.last());
                    }
                }
                assert forall|i: int| 0 <= i < fl2.len() implies non_empty(#[trigger] fl2[i]) by {
                    if i < fl.len() {
                        assert(fl2[i] == fl[i]);
                    }
                }
            }
            let f = flatten_all(init, all.take(n));
            assert(f.stack == st.push(tok));
            assert forall|k: int| 0 <= k < f.stack.len() implies among_first(#[trigger] f.stack[k], all, n) by {
                if k < st.len() {
                    assert(f.stack[k] == st[k]);
                    assert(among_first(st[k], all, n - 1));
                } else {
                    assert(f.stack[k] == all[n - 1]);
                }
            }
        } else {
            assert(inside_or_after(st[st.len() - 1], tok) && non_empty(st[st.len() - 1]));
            lemma_unwind_ordered(tokens, prev.flattened, st, prev.cutoff, tok);
            lemma_unwind_stack_prefix(prev.flattened, st, prev.cutoff, tok);
            let u = unwind(prev.flattened, st, prev.cutoff, tok);
            let f = flatten_all(init, all.take(n));
            assert(f.stack == u.stack.push(tok));
            assert forall|k: int| 0 <= k < f.stack.len() implies among_first(#[trigger] f.stack[k], all, n) by {
                if k < u.stack.len() {
                    assert(f.stack[k] == u.stack[k]);
                    assert(u.stack[k] == st[k]);
                    assert(among_first(st[k], all, n - 1));
                } else {
                    assert(f.stack[k] == all[n - 1]);
                }
            }
        }
    }
}

/// Flattening nested tokens gives tokens that do not overlap: each one is
/// non-empty and ends at or before the start of the next, and each one is a
/// part of an input token, with that token's type and modifier.
pub proof fn law_flattened_tokens_ordered(tokens: Seq<SemanticToken>)
    requires
        tokens.len() > 0,
        properly_nested(tokens),
    ensures
        in_order_apart(flattened_tokens(tokens)),
        forall|m: int| 0 <= m < flattened_tokens(tokens).len() ==> part_of(#[trigger] flattened_tokens(tokens)[m], tokens),
{
    let all = tokens.push(closing_token());
    lemma_flatten_ordered(tokens, all.len() as int);
    assert(all.take(all.len() as int) =~= all);
}


/// `t` covers the position `p`.
pub open spec fn covers(t: SemanticToken, p: Position) -> bool {
    position_at_or_before(t.span.start, p) && position_before(p, t.span.end)
}

/// Two tokens of the same type and modifier.
pub open spec fn same_kind(a: SemanticToken, b: SemanticToken) -> bool {
    a.token_type == b.token_type && a.modifier == b.modifier
}

/// The last of the first `n` tokens that covers `p` (the innermost one, for
/// properly nested tokens), or -1.
pub open spec fn last_cover(tokens: Seq<SemanticToken>, p: Position, n: int) -> int
    decreases n,
{
    if n <= 0 {
        -1
    } else if covers(tokens[n - 1], p) {
        n - 1
    } else {
        last_cover(tokens, p, n - 1)
    }
}

/// The position of the topmost token of `st` that covers `p`, or -1.
pub open spec fn top_cover(st: Seq<SemanticToken>, p: Position) -> int
    decreases st.len(),
{
    if st.len() == 0 {
        -1
    } else if covers(st.last(), p) {
        st.len() - 1
    } else {
        top_cover(st.drop_last(), p)
    }
}

/// Before the cutoff: `p` is covered by an emitted token exactly where one
/// of the first `m` input tokens covers it, and each emitted token covering
/// it has the kind of the innermost such input token.
pub open spec fn emitted_ok(fl: Seq<SemanticToken>, tokens: Seq<SemanticToken>, m: int, p: Position) -> bool {
    let lc = last_cover(tokens, p, m);
    &&& (exists|k: int| 0 <= k < fl.len() && covers(#[trigger] fl[k], p)) == (lc >= 0)
    &&& forall|k: int| 0 <= k < fl.len() && covers(#[trigger] fl[k], p) ==> same_kind(fl[k], tokens[lc])
}

/// From the cutoff on: `p` is covered by an open token exactly where one of
/// the first `m` input tokens covers it, and the topmost open token covering
/// it has the kind of the innermost such input token.
pub open spec fn open_ok(st: Seq<SemanticToken>, tokens: Seq<SemanticToken>, m: int, p: Position) -> bool {
    let lc = last_cover(tokens, p, m);
    let tc = top_cover(st, p);
    &&& (tc >= 0) == (lc >= 0)
    &&& tc >= 0 ==> same_kind(st[tc], tokens[lc])
}

proof fn lemma_top_cover_bounds(st: Seq<SemanticToken>, p: Position)
    ensures
        -1 <= top_cover(st, p) < st.len(),
        top_cover(st, p) >= 0 ==> covers(st[top_cover(st, p)], p),
        top_cover(st, p) < 0 ==> forall|k: int| 0 <= k < st.len() ==> !covers(#[trigger] st[k], p),
    decreases st.len(),
{
    if st.len() > 0 {
        lemma_top_cover_bounds(st.drop_last(), p);
        if !covers(st.last(), p) {
            assert forall|k: int| 0 <= k < st.len() && top_cover(st, p) < 0 implies !covers(#[trigger] st[k], p) by {
                if k < st.len() - 1 {
                    assert(st.drop_last()[k] == st[k]);
                }
            }
            if top_cover(st, p) >= 0 {
                assert(st.drop_last()[top_cover(st, p)] == st[top_cover(st, p)]);
            }
        }
    }
}

/// Taking open tokens off the top that do not cover `p` leaves the topmost
/// token covering `p` where it was.
proof fn lemma_top_cover_prefix(st: Seq<SemanticToken>, k: int, p: Position)
    requires
        0 <= k <= st.len(),
        forall|j: int| k <= j < st.len() ==> !covers(#[trigger] st[j], p),
    ensures
        top_cover(st.take(k), p) == top_cover(st, p),
    decreases st.len() - k,
{
    if k < st.len() {
        assert(!covers(st[st.len() - 1], p));
        assert(st.drop_last().take(k) =~= st.take(k));
        assert forall|j: int| k <= j < st.drop_last().len() implies !covers(#[trigger] st.drop_last()[j], p) by {
            assert(st.drop_last()[j] == st[j]);
        }
        lemma_top_cover_prefix(st.drop_last(), k, p);
    } else {
        assert(st.take(k) =~= st);
    }
}

proof fn lemma_last_cover_bounds(tokens: Seq<SemanticToken>, p: Position, n: int)
    requires
        0 <= n <= tokens.len(),
    ensures
        -1 <= last_cover(tokens, p, n) < n,
        last_cover(tokens, p, n) >= 0 ==> covers(tokens[last_cover(tokens, p, n)], p),
    decreases n,
{
    if n > 0 {
        lemma_last_cover_bounds(tokens, p, n - 1);
    }
}

/// The invariant of unwinding for the coverage law: before the cutoff the
/// emitted tokens are right, from the cutoff on the open tokens are.
proof fn lemma_unwind_covers(
    tokens: Seq<SemanticToken>,
    m: int,
    fl: Seq<SemanticToken>,
    st: Seq<SemanticToken>,
    cut: Position,
    tok: SemanticToken,
)
    requires
        0 <= m <= tokens.len(),
        position_at_or_before(cut, tok.span.start),
        position_at_or_before(tok.span.start, tok.span.end),
        forall|k: int| 0 <= k < fl.len() ==> position_at_or_before((#[trigger] fl[k]).span.end, cut),
        forall|k: int| 0 <= k < st.len() ==> inside_or_after(#[trigger] st[k], tok) && non_empty(st[k]),
        forall|k: int| 0 <= k < st.len() - 1 ==> range_contains((#[trigger] st[k]).span, st[k + 1].span),
        forall|k: int| 1 <= k < st.len() ==> position_at_or_before((#[trigger] st[k]).span.start, cut),
        forall|p: Position| position_before(p, cut) ==> #[trigger] emitted_ok(fl, tokens, m, p),
        forall|p: Position| position_at_or_before(cut, p) ==> #[trigger] open_ok(st, tokens, m, p),
    ensures
        ({
            let u = unwind(fl, st, cut, tok);
            &&& forall|k: int| 0 <= k < u.flattened.len() ==> position_at_or_before((#[trigger] u.flattened[k]).span.end, u.cutoff)
            &&& forall|k: int| 1 <= k < u.stack.len() ==> position_at_or_before((#[trigger] u.stack[k]).span.start, u.cutoff)
            &&& forall|p: Position| position_before(p, u.cutoff) ==> #[trigger] emitted_ok(u.flattened, tokens, m, p)
            &&& forall|p: Position| position_at_or_before(u.cutoff, p) ==> #[trigger] open_ok(u.stack, tokens, m, p)
            &&& position_at_or_before(cut, u.cutoff)
        }),
    decreases st.len(),
{
    lemma_unwind_stack_prefix(fl, st, cut, tok);
    if st.len() > 0 {
        let top = st.last();
        let n = st.len();
        assert(inside_or_after(st[n - 1], tok) && non_empty(st[n - 1]));
        let st0 = st.drop_last();
        if range_contains(top.span, tok.span) {
            let s0 = later(cut, top.span.start);
            let emit = position_before(top.span.start, tok.span.start) && position_before(cut, tok.span.start);
            let seg = with_span(top, s0, tok.span.start);
            let fl2 = if emit { fl.push(seg) } else { fl };
            // The new cutoff is the token's start.
            assert forall|p: Position| position_before(p, tok.span.start) implies #[trigger] emitted_ok(fl2, tokens, m, p) by {
                assert(open_ok(st, tokens, m, p) || position_before(p, cut));
                if position_before(p, cut) {
                    assert(emitted_ok(fl, tokens, m, p));
                    if emit {
                        assert(!covers(seg, p));
                        assert forall|k: int| 0 <= k < fl2.len() && covers(#[trigger] fl2[k], p) implies same_kind(fl2[k], tokens[last_cover(tokens, p, m)]) by {
                            assert(k < fl.len());
                            assert(fl2[k] == fl[k]);
                        }
                        if exists|k: int| 0 <= k < fl2.len() && covers(#[trigger] fl2[k], p) {
                            let k = choose|k: int| 0 <= k < fl2.len() && covers(#[trigger] fl2[k], p);
                            assert(fl2[k] == fl[k]);
                        }
                        if exists|k: int| 0 <= k < fl.len() && covers(#[trigger] fl[k], p) {
                            let k = choose|k: int| 0 <= k < fl.len() && covers(#[trigger] fl[k], p);
                            assert(fl2[k] == fl[k]);
                        }
                    }
                } else {
                    assert(open_ok(st, tokens, m, p));
                    lemma_top_cover_bounds(st, p);
                    // No emitted token reaches past the cutoff.
                    assert forall|k: int| 0 <= k < fl.len() implies !covers(#[trigger] fl[k], p) by {
                        assert(position_at_or_before(fl[k].span.end, cut));
                    }
                    if emit && position_at_or_before(s0, p) {
                        // The container covers `p`, and it is the topmost.
                        assert(covers(top, p));
                        assert(top_cover(st, p) == n - 1);
                        assert forall|k: int| 0 <= k < fl2.len() && covers(#[trigger] fl2[k], p) implies same_kind(fl2[k], tokens[last_cover(tokens, p, m)]) by {
                            if k < fl.len() {
                                assert(fl2[k] == fl[k]);
                            }
                        }
                        assert(covers(fl2[fl.len() as int], p));
                    } else {
                        // In the gap before the container: nothing covers `p`.
                        if n >= 2 {
                            assert(position_at_or_before(st[n - 1].span.start, cut));
                        }
                        assert forall|k: int| 0 <= k < st.len() implies !covers(#[trigger] st[k], p) by {
                            if k < n - 1 {
                                // A lower token contains the container, which does not cover `p`.
                                lemma_chain_contains(st, k, n - 1);
                            }
                        }
                        assert(top_cover(st, p) < 0) by {
                            if top_cover(st, p) >= 0 {
                                assert(covers(st[top_cover(st, p)], p));
                            }
                        }
                        assert forall|k: int| 0 <= k < fl2.len() implies !covers(#[trigger] fl2[k], p) by {
                            if k < fl.len() {
                                assert(fl2[k] == fl[k]);
                            }
                        }
                    }
                }
            }
            assert forall|p: Position| position_at_or_before(tok.span.start, p) implies #[trigger] open_ok(st, tokens, m, p) by {
                assert(open_ok(st, tokens, m, p));
            }
            assert forall|k: int| 0 <= k < fl2.len() implies position_at_or_before((#[trigger] fl2[k]).span.end, tok.span.start) by {
                if k < fl.len() {
                    assert(fl2[k] == fl[k]);
                }
            }
            assert forall|k: int| 1 <= k < st.len() implies position_at_or_before((#[trigger] st[k]).span.start, tok.span.start) by {
                assert(position_at_or_before(st[k].span.start, cut));
            }
        } else {
            assert forall|k: int| 0 <= k < st0.len() implies inside_or_after(#[trigger] st0[k], tok) && non_empty(st0[k]) by {
                assert(st0[k] == st[k]);
            }
            assert forall|k: int| 0 <= k < st0.len() - 1 implies range_contains((#[trigger] st0[k]).span, st0[k + 1].span) by {
                assert(st0[k] == st[k] && st0[k + 1] == st[k + 1]);
            }
            if position_before(cut, top.span.end) {
                let s0 = later(cut, top.span.start);
                let seg = with_span(top, s0, top.span.end);
                let fl2 = fl.push(seg);
                let cut2 = top.span.end;
                assert forall|p: Position| position_before(p, cut2) implies #[trigger] emitted_ok(fl2, tokens, m, p) by {
                    if position_before(p, cut) {
                        assert(emitted_ok(fl, tokens, m, p));
                        assert(!covers(seg, p));
                        assert forall|k: int| 0 <= k < fl2.len() && covers(#[trigger] fl2[k], p) implies same_kind(fl2[k], tokens[last_cover(tokens, p, m)]) by {
                            assert(k < fl.len());
                            assert(fl2[k] == fl[k]);
                        }
                        if exists|k: int| 0 <= k < fl2.len() && covers(#[trigger] fl2[k], p) {
                            let k = choose|k: int| 0 <= k < fl2.len() && covers(#[trigger] fl2[k], p);
                            assert(fl2[k] == fl[k]);
                        }
                        if exists|k: int| 0 <= k < fl.len() && covers(#[trigger] fl[k], p) {
                            let k = choose|k: int| 0 <= k < fl.len() && covers(#[trigger] fl[k], p);
                            assert(fl2[k] == fl[k]);
                        }
                    } else {
                        assert(open_ok(st, tokens, m, p));
                        lemma_top_cover_bounds(st, p);
                        assert forall|k: int| 0 <= k < fl.len() implies !covers(#[trigger] fl[k], p) by {
                            assert(position_at_or_before(fl[k].span.end, cut));
                        }
                        if position_at_or_before(s0, p) {
                            assert(covers(top, p));
                            assert(top_cover(st, p) == n - 1);
                            assert forall|k: int| 0 <= k < fl2.len() && covers(#[trigger] fl2[k], p) implies same_kind(fl2[k], tokens[last_cover(tokens, p, m)]) by {
                                if k < fl.len() {
                                    assert(fl2[k] == fl[k]);
                                }
                            }
                            assert(covers(fl2[fl.len() as int], p));
                        } else {
                            if n >= 2 {
                                assert(position_at_or_before(st[n - 1].span.start, cut));
                            }
                            assert forall|k: int| 0 <= k < st.len() implies !covers(#[trigger] st[k], p) by {
                                if k < n - 1 {
                                    lemma_chain_contains(st, k, n - 1);
                                }
                            }
                            assert(top_cover(st, p) < 0) by {
                                if top_cover(st, p) >= 0 {
                                    assert(covers(st[top_cover(st, p)], p));
                                }
                            }
                            assert forall|k: int| 0 <= k < fl2.len() implies !covers(#[trigger] fl2[k], p) by {
                                if k < fl.len() {
                                    assert(fl2[k] == fl[k]);
                                }
                            }
                        }
                    }
                }
                assert forall|p: Position| position_at_or_before(cut2, p) implies #[trigger] open_ok(st0, tokens, m, p) by {
                    assert(open_ok(st, tokens, m, p));
                    assert(!covers(top, p));
                    assert(st0 =~= st.take(n - 1));
                    lemma_top_cover_prefix(st, n - 1, p);
                    lemma_top_cover_bounds(st, p);
                    if top_cover(st, p) >= 0 {
                        assert(st0[top_cover(st, p)] == st[top_cover(st, p)]);
                    }
                }
                assert forall|k: int| 0 <= k < fl2.len() implies position_at_or_before((#[trigger] fl2[k]).span.end, cut2) by {
                    if k < fl.len() {
                        assert(fl2[k] == fl[k]);
                    }
                }
                assert forall|k: int| 1 <= k < st0.len() implies position_at_or_before((#[trigger] st0[k]).span.start, cut2) by {
                    assert(st0[k] == st[k]);
                    assert(position_at_or_before(st[k].span.start, cut));
                }
                assert(position_at_or_before(cut2, tok.span.start));
                lemma_unwind_covers(tokens, m, fl2, st0, cut2, tok);
            } else {
                assert forall|p: Position| position_at_or_before(cut, p) implies #[trigger] open_ok(st0, tokens, m, p) by {
                    assert(open_ok(st, tokens, m, p));
                    assert(!covers(top, p));
                    assert(st0 =~= st.take(n - 1));
                    lemma_top_cover_prefix(st, n - 1, p);
                    lemma_top_cover_bounds(st, p);
                    if top_cover(st, p) >= 0 {
                        assert(st0[top_cover(st, p)] == st[top_cover(st, p)]);
                    }
                }
                assert forall|k: int| 1 <= k < st0.len() implies position_at_or_before((#[trigger] st0[k]).span.start, cut) by {
                    assert(st0[k] == st[k]);
                }
                lemma_unwind_covers(tokens, m, fl, st0, cut, tok);
            }
        }
    }
}

/// In a chain of nested tokens, a lower token contains each higher one.
proof fn lemma_chain_contains(st: Seq<SemanticToken>, a: int, b: int)
    requires
        0 <= a <= b < st.len(),
        forall|k: int| 0 <= k < st.len() - 1 ==> range_contains((#[trigger] st[k]).span, st[k + 1].span),
    ensures
        range_contains(st[a].span, st[b].span),
    decreases b - a,
{
    if a < b {
        lemma_chain_contains(st, a + 1, b);
        assert(range_contains(st[a].span, st[a + 1].span));
    }
}


/// Where unwinding stops at an open token, that token contains `tok` and
/// the cutoff is `tok`'s start.
proof fn lemma_unwind_found(fl: Seq<SemanticToken>, st: Seq<SemanticToken>, cut: Position, tok: SemanticToken)
    ensures
        ({
            let u = unwind(fl, st, cut, tok);
            u.stack.len() > 0 ==> u.cutoff == tok.span.start && range_contains(u.stack.last().span, tok.span)
        }),
    decreases st.len(),
{
    if st.len() > 0 {
        let top = st.last();
        if !range_contains(top.span, tok.span) {
            if position_before(cut, top.span.end) {
                lemma_unwind_found(fl.push(with_span(top, later(cut, top.span.start), top.span.end)), st.drop_last(), top.span.end, tok);
            } else {
                lemma_unwind_found(fl, st.drop_last(), cut, tok);
            }
        }
    }
}

/// The flattening state after the first `n` of the tokens and the closing
/// token.
pub open spec fn flatten_prefix(tokens: Seq<SemanticToken>, n: int) -> FlattenState {
    flatten_all(flatten_init(tokens), tokens.push(closing_token()).take(n))
}

/// How many input tokens the first `n` steps have taken in.
pub open spec fn taken_in(tokens: Seq<SemanticToken>, n: int) -> int {
    if n <= tokens.len() {
        n
    } else {
        tokens.len() as int
    }
}

proof fn lemma_flatten_covers(tokens: Seq<SemanticToken>, n: int)
    requires
        tokens.len() > 0,
        properly_nested(tokens),
        0 <= n <= tokens.len() + 1,
    ensures
        forall|k: int| 0 <= k < flatten_prefix(tokens, n).flattened.len() ==> position_at_or_before(
            (#[trigger] flatten_prefix(tokens, n).flattened[k]).span.end,
            flatten_prefix(tokens, n).cutoff,
        ),
        forall|k: int| 0 <= k < flatten_prefix(tokens, n).stack.len() - 1 ==> range_contains(
            (#[trigger] flatten_prefix(tokens, n).stack[k]).span,
            flatten_prefix(tokens, n).stack[k + 1].span,
        ),
        forall|k: int| 1 <= k < flatten_prefix(tokens, n).stack.len() ==> position_at_or_before(
            (#[trigger] flatten_prefix(tokens, n).stack[k]).span.start,
            flatten_prefix(tokens, n).cutoff,
        ),
        forall|p: Position| position_before(p, flatten_prefix(tokens, n).cutoff) ==> #[trigger] emitted_ok(
            flatten_prefix(tokens, n).flattened,
            tokens,
            taken_in(tokens, n),
            p,
        ),
        forall|p: Position| position_at_or_before(flatten_prefix(tokens, n).cutoff, p) ==> #[trigger] open_ok(
            flatten_prefix(tokens, n).stack,
            tokens,
            taken_in(tokens, n),
            p,
        ),
    decreases n,
{
    let all = tokens.push(closing_token());
    let init = flatten_init(tokens);
    let nt = tokens.len() as int;
    if n == 0 {
        assert(all.take(0) =~= Seq::<SemanticToken>::empty());
        let f = flatten_all(init, all.take(0));
        assert forall|p: Position| position_before(p, f.cutoff) implies #[trigger] emitted_ok(f.flattened, tokens, 0, p) by {}
        assert forall|p: Position| position_at_or_before(f.cutoff, p) implies #[trigger] open_ok(f.stack, tokens, 0, p) by {}
    } else {
        lemma_flatten_covers(tokens, n - 1);
        lemma_flatten_ordered(tokens, n - 1);
        assert(all.take(n).drop_last() =~= all.take(n - 1));
        assert(all.take(n).last() == all[n - 1]);
        let prev = flatten_all(init, all.take(n - 1));
        let f = flatten_all(init, all.take(n));
        let tok = all[n - 1];
        let st = prev.stack;
        let m0 = taken_in(tokens, n - 1);
        let m1 = taken_in(tokens, n);
        assert(prev == flatten_prefix(tokens, n - 1));
        assert(f == flatten_prefix(tokens, n));
        assert(position_at_or_before(tok.span.start, tok.span.end)) by {
            if n - 1 < nt {
                assert(tok == tokens[n - 1]);
                assert(non_empty(tokens[n - 1]));
            }
        }
        // `tok` is the next input token, or the closing token, which covers nothing.
        assert forall|p: Position| !covers(tok, p) implies #[trigger] last_cover(tokens, p, m1) == last_cover(tokens, p, m0) by {
            if n - 1 < nt {
                assert(tokens[n - 1] == tok);
            }
        }
        assert forall|p: Position| covers(tok, p) implies last_cover(tokens, p, m1) == n - 1 && #[trigger] tokens[n - 1] == tok by {
            assert(n - 1 < nt);
        }
        assert forall|k: int| 0 <= k < st.len() implies inside_or_after(#[trigger] st[k], tok) && non_empty(st[k]) by {
            assert(among_first(st[k], all, n - 1));
            let idx = choose|idx: int| 0 <= idx < n - 1 && #[trigger] all[idx] == st[k];
            assert(all[idx] == tokens[idx]);
            assert(non_empty(tokens[idx]));
            if n - 1 < nt {
                assert(tok == tokens[n - 1]);
                assert(inside_or_after(tokens[idx], tokens[n - 1]));
            }
        }
        if st.len() == 0 {
            // Nothing was open: no input token so far covers anything.
            assert(f.flattened.len() == 0);
            assert forall|p: Position| position_before(p, f.cutoff) implies #[trigger] emitted_ok(f.flattened, tokens, m1, p) by {
                assert(!covers(tok, p));
                if position_before(p, prev.cutoff) {
                    assert(emitted_ok(prev.flattened, tokens, m0, p));
                } else {
                    assert(open_ok(st, tokens, m0, p));
                }
            }
            assert forall|p: Position| position_at_or_before(f.cutoff, p) implies #[trigger] open_ok(f.stack, tokens, m1, p) by {
                assert(f.stack == seq![tok]);
                assert(f.stack.drop_last() =~= Seq::<SemanticToken>::empty());
                if !covers(tok, p) {
                    if position_before(p, prev.cutoff) {
                        assert(emitted_ok(prev.flattened, tokens, m0, p));
                    } else {
                        assert(open_ok(st, tokens, m0, p));
                    }
                }
            }
        } else {
            let top = st.last();
            assert(inside_or_after(st[st.len() - 1], tok));
            assert(position_at_or_before(prev.cutoff, tok.span.start));
            lemma_unwind_covers(tokens, m0, prev.flattened, st, prev.cutoff, tok);
            lemma_unwind_found(prev.flattened, st, prev.cutoff, tok);
            lemma_unwind_stack_prefix(prev.flattened, st, prev.cutoff, tok);
            lemma_unwind_ordered(tokens, prev.flattened, st, prev.cutoff, tok);
            let u = unwind(prev.flattened, st, prev.cutoff, tok);
            // Both ways of stepping end where unwinding does.
            if range_contains(top.span, tok.span) {
                assert(later(prev.cutoff, top.span.start) == top.span.start);
            }
            assert(f.flattened == u.flattened && f.cutoff == u.cutoff && f.stack == u.stack.push(tok));
            assert forall|k: int| 0 <= k < f.stack.len() - 1 implies range_contains((#[trigger] f.stack[k]).span, f.stack[k + 1].span) by {
                if k + 1 < u.stack.len() {
                    assert(f.stack[k] == st[k] && f.stack[k + 1] == st[k + 1]);
                } else {
                    assert(f.stack[k] == u.stack.last());
                }
            }
            assert forall|k: int| 1 <= k < f.stack.len() implies position_at_or_before((#[trigger] f.stack[k]).span.start, f.cutoff) by {
                if k < u.stack.len() {
                    assert(f.stack[k] == u.stack[k]);
                } else {
                    assert(f.stack[k] == tok);
                }
            }
            assert forall|p: Position| position_before(p, f.cutoff) implies #[trigger] emitted_ok(f.flattened, tokens, m1, p) by {
                assert(emitted_ok(u.flattened, tokens, m0, p));
                assert(!covers(tok, p));
                assert(last_cover(tokens, p, m1) == last_cover(tokens, p, m0));
            }
            assert forall|p: Position| position_at_or_before(f.cutoff, p) implies #[trigger] open_ok(f.stack, tokens, m1, p) by {
                assert(f.stack.drop_last() =~= u.stack);
                if !covers(tok, p) {
                    assert(open_ok(u.stack, tokens, m0, p));
                    assert(last_cover(tokens, p, m1) == last_cover(tokens, p, m0));
                    lemma_top_cover_bounds(u.stack, p);
                    if top_cover(u.stack, p) >= 0 {
                        assert(f.stack[top_cover(u.stack, p)] == u.stack[top_cover(u.stack, p)]);
                    }
                } else {
                    assert(tokens[n - 1] == tok);
                }
            }
        }
    }
}

/// Where some input token covers `p`, the last one that does.
proof fn lemma_last_cover_exists(tokens: Seq<SemanticToken>, p: Position, n: int)
    requires
        0 <= n <= tokens.len(),
    ensures
        (last_cover(tokens, p, n) >= 0) == (exists|k: int| 0 <= k < n && covers(#[trigger] tokens[k], p)),
    decreases n,
{
    if n > 0 {
        lemma_last_cover_exists(tokens, p, n - 1);
        if !covers(tokens[n - 1], p) && exists|k: int| 0 <= k < n && covers(#[trigger] tokens[k], p) {
            let k = choose|k: int| 0 <= k < n && covers(#[trigger] tokens[k], p);
            assert(k < n - 1);
        }
    }
}

/// The last covering token comes at or after every covering token.
proof fn lemma_last_cover_max(tokens: Seq<SemanticToken>, p: Position, n: int, k: int)
    requires
        0 <= k < n <= tokens.len(),
        covers(tokens[k], p),
    ensures
        k <= last_cover(tokens, p, n),
    decreases n,
{
    if k < n - 1 && !covers(tokens[n - 1], p) {
        lemma_last_cover_max(tokens, p, n - 1, k);
    }
}

/// Flattening nested tokens covers exactly what the input tokens cover, and
/// each covered position carries the type and modifier of the innermost
/// input token that covers it: the last one, which every other input token
/// covering the position contains.
pub proof fn law_flattened_tokens_cover(tokens: Seq<SemanticToken>, p: Position)
    requires
        tokens.len() > 0,
        properly_nested(tokens),
        flatten_closes_all(tokens),
    ensures
        (exists|k: int| 0 <= k < flattened_tokens(tokens).len() && covers(#[trigger] flattened_tokens(tokens)[k], p))
            == (exists|k: int| 0 <= k < tokens.len() && covers(#[trigger] tokens[k], p)),
        forall|k: int| 0 <= k < flattened_tokens(tokens).len() && covers(#[trigger] flattened_tokens(tokens)[k], p)
            ==> same_kind(flattened_tokens(tokens)[k], tokens[last_cover(tokens, p, tokens.len() as int)]),
        forall|k: int| 0 <= k < tokens.len() && covers(#[trigger] tokens[k], p) ==> range_contains(
            tokens[k].span,
            tokens[last_cover(tokens, p, tokens.len() as int)].span,
        ),
{
    let all = tokens.push(closing_token());
    let nt = tokens.len() as int;
    let n = all.len() as int;
    let init = flatten_init(tokens);
    assert forall|k: int| 0 <= k < nt && covers(#[trigger] tokens[k], p) implies range_contains(
        tokens[k].span,
        tokens[last_cover(tokens, p, nt)].span,
    ) by {
        lemma_last_cover_max(tokens, p, nt, k);
        lemma_last_cover_bounds(tokens, p, nt);
        let l = last_cover(tokens, p, nt);
        if k < l {
            assert(inside_or_after(tokens[k], tokens[l]));
        }
    }
    assert(all.take(n) =~= all);
    assert(all.take(n - 1) =~= tokens);
    assert(all.take(n).drop_last() =~= all.take(n - 1));
    lemma_flatten_covers(tokens, n);
    lemma_last_cover_exists(tokens, p, nt);
    let f = flatten_prefix(tokens, n);
    assert(flattened_tokens(tokens) == f.flattened);
    assert(taken_in(tokens, n) == nt);
    let prev = flatten_all(init, tokens);
    assert(f == flatten_step(prev, closing_token()));
    lemma_flatten_ordered(tokens, n - 1);
    assert(prev == flatten_prefix(tokens, n - 1));
    lemma_stack_from_input(init, tokens);
    assert(prev.stack.len() > 0);
    let top = prev.stack.last();
    assert(top.span.end != closing_token().span.end);
    assert(!range_contains(top.span, closing_token().span));
    lemma_unwind_closes(prev.flattened, prev.stack, prev.cutoff);
    assert(f.stack =~= seq![closing_token()]);
    if position_before(p, f.cutoff) {
        assert(emitted_ok(f.flattened, tokens, taken_in(tokens, n), p));
    } else {
        assert(open_ok(f.stack, tokens, taken_in(tokens, n), p));
        assert(f.stack.drop_last() =~= Seq::<SemanticToken>::empty());
        assert(!covers(f.stack.last(), p));
        assert(top_cover(f.stack.drop_last(), p) == -1);
        assert(top_cover(f.stack, p) == -1);
        assert forall|k: int| 0 <= k < f.flattened.len() implies !covers(#[trigger] f.flattened[k], p) by {
            assert(position_at_or_before(f.flattened[k].span.end, f.cutoff));
        }
    }
}


/// The sum of the line fields of the first `n` relative tokens.
pub open spec fn line_sum(r: Seq<SemanticTokenRelativeEncoding>, n: int) -> int
    decreases n,
{
    if n <= 0 {
        0
    } else {
        line_sum(r, n - 1) + r[n - 1].0.line
    }
}

/// The relative encoding can be decoded: adding up the line deltas from the
/// virtual first token gives each token's line, a token on the same line as
/// the one before it has line delta 0 and its character relative to that
/// token's, and a token on a new line has its own character; length, type
/// and modifiers are the token's own.
pub proof fn law_relative_encoding_decodes(tokens: Seq<SemanticTokenAbsoluteEncoding>, r: Seq<SemanticTokenRelativeEncoding>)
    requires
        ordered_absolute(tokens),
        tokens.len() > 0,
        r.len() == tokens.len() - 1,
        forall|i: int| 0 <= i < r.len() ==> (#[trigger] r[i]).0 == relative_to(tokens[i].0, tokens[i + 1].0),
    ensures
        forall|k: int| 0 <= k < r.len() ==> tokens[0].0.line + #[trigger] line_sum(r, k + 1) == tokens[k + 1].0.line,
        forall|k: int| 0 <= k < r.len() ==> ((#[trigger] r[k]).0.line == 0 <==> tokens[k].0.line == tokens[k + 1].0.line),
        forall|k: int| 0 <= k < r.len() && (#[trigger] r[k]).0.line == 0 ==> tokens[k].0.character + r[k].0.character == tokens[k + 1].0.character,
        forall|k: int| 0 <= k < r.len() && (#[trigger] r[k]).0.line != 0 ==> r[k].0.character == tokens[k + 1].0.character,
        forall|k: int| 0 <= k < r.len() ==> {
            &&& (#[trigger] r[k]).0.len == tokens[k + 1].0.len
            &&& r[k].0.token_type == tokens[k + 1].0.token_type
            &&& r[k].0.modifier == tokens[k + 1].0.modifier
        },
{
    assert forall|k: int| 0 <= k < r.len() implies tokens[0].0.line + #[trigger] line_sum(r, k + 1) == tokens[k + 1].0.line by {
        lemma_line_sum(tokens, r, k + 1);
    }
    assert forall|k: int| 0 <= k < r.len() implies ((#[trigger] r[k]).0.line == 0 <==> tokens[k].0.line == tokens[k + 1].0.line) by {
        assert(tokens[k].0.line <= tokens[k + 1].0.line);
    }
}

proof fn lemma_line_sum(tokens: Seq<SemanticTokenAbsoluteEncoding>, r: Seq<SemanticTokenRelativeEncoding>, n: int)
    requires
        ordered_absolute(tokens),
        tokens.len() > 0,
        r.len() == tokens.len() - 1,
        forall|i: int| 0 <= i < r.len() ==> (#[trigger] r[i]).0 == relative_to(tokens[i].0, tokens[i + 1].0),
        0 <= n <= r.len(),
    ensures
        tokens[0].0.line + line_sum(r, n) == tokens[n].0.line,
    decreases n,
{
    if n > 0 {
        lemma_line_sum(tokens, r, n - 1);
        assert(r[n - 1].0 == relative_to(tokens[n - 1].0, tokens[n].0));
        assert(tokens[n - 1].0.line <= tokens[n].0.line);
    }
}


} // verus!
