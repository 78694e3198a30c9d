//! Text documents: their text, line table, and edits in protocol positions.
use vstd::prelude::*;

use crate::linemap::{
    create_line_map_for_text, ends_with_eol, line_of_offset, line_table, sorted,
    table_shape, text_ends_with_eol, LineMap, lemma_line_table_shape,
};
use crate::protocol::{Position, Range, TextDocumentItem};
use crate::text::{
    byte_len, byte_pos, char_index_at_byte, char_index_of, char_utf16_width, char_utf8_width,
    is_boundary, lemma_boundary_index, lemma_byte_pos_full, lemma_byte_pos_mono,
    lemma_byte_pos_step, lemma_char_index_of, lemma_str_len, lemma_utf16_len_bounds, str_chars,
    utf16_len, utf16_width,
};

verus! {

/// Well-formed line table of the text `s`: one entry per line in both
/// tables, the first line starts at byte 0, line starts grow strictly and
/// are character boundaries whose character index is at least the line
/// number, all lines but the last have a last-character offset, and those
/// offsets stay below `u32::MAX`.
pub open spec fn lines_wf(offs: Seq<usize>, maxs: Seq<Option<u32>>, s: Seq<char>) -> bool {
    &&& offs.len() == maxs.len()
    &&& offs.len() >= 1
    &&& offs[0] == 0
    &&& forall|a: int, b: int| 0 <= a < b < offs.len() ==> #[trigger] offs[a] < #[trigger] offs[b]
    &&& forall|k: int|
        #![trigger offs[k]]
        0 <= k < offs.len() ==> is_boundary(s, offs[k] as int) && char_index_of(s, offs[k] as int)
            >= k
    &&& forall|k: int| 0 <= k < maxs.len() - 1 ==> (#[trigger] maxs[k]) is Some
    &&& forall|k: int|
        0 <= k < maxs.len() && (#[trigger] maxs[k]) is Some ==> maxs[k].unwrap() < u32::MAX
    &&& byte_len(s) <= usize::MAX
    &&& utf16_len(s) < u32::MAX
}

pub open spec fn map_wf(lines: LineMap, s: Seq<char>) -> bool {
    lines_wf(lines.byte_offsets@, lines.max_utf16_char_offset@, s)
}

/// A freshly built line table of a text is well formed.
pub proof fn lemma_table_wf(s: Seq<char>, offs: Seq<usize>, maxs: Seq<Option<u32>>)
    requires
        table_shape(s, 0, offs, maxs),
        byte_len(s) <= usize::MAX,
        utf16_len(s) < u32::MAX,
    ensures
        lines_wf(offs, maxs, s),
{
    assert forall|k: int| #![trigger offs[k]] 0 <= k < offs.len() implies is_boundary(s, offs[k] as int)
        && char_index_of(s, offs[k] as int) >= k by {
        assert(offs[k] - 0 == offs[k] as int);
    }
}

/// A well-formed table has at most `u32::MAX` lines, all sorted.
pub proof fn lemma_lines_wf_facts(offs: Seq<usize>, maxs: Seq<Option<u32>>, s: Seq<char>)
    requires
        lines_wf(offs, maxs, s),
    ensures
        offs.len() <= u32::MAX,
        offs.len() <= s.len() + 1,
        sorted(offs),
{
    let last = offs.len() - 1;
    assert(is_boundary(s, offs[last] as int));
    lemma_boundary_index(s, offs[last] as int);
    lemma_utf16_len_bounds(s);
    assert forall|a: int, b: int| 0 <= a < b < offs.len() implies #[trigger] offs[a] <= #[trigger] offs[b] by {
        assert(offs[a] < offs[b]);
    }
}

/// Number of leading characters of `rest` whose UTF-16 length first
/// reaches `k` (all of `rest` if it never does).
pub open spec fn units_prefix(rest: Seq<char>, k: int) -> nat
    decreases rest.len(),
{
    if rest.len() == 0 {
        0
    } else if utf16_width(rest[0]) >= k {
        1
    } else {
        1 + units_prefix(rest.drop_first(), k - utf16_width(rest[0]))
    }
}

/// UTF-16 length of the longest prefix of `rest` that is at most `k`.
pub open spec fn align_units(rest: Seq<char>, k: int) -> nat
    decreases rest.len(),
{
    if rest.len() == 0 {
        0
    } else if utf16_width(rest[0]) > k {
        0
    } else {
        utf16_width(rest[0]) + align_units(rest.drop_first(), k - utf16_width(rest[0]))
    }
}

/// The characters of `s` from byte offset `b` on.
pub open spec fn rest_at(s: Seq<char>, b: int) -> Seq<char> {
    s.skip(char_index_of(s, b))
}

/// Character index of `spot`: the start of its line, advanced until the
/// UTF-16 offset reaches `spot.character`; the end of the text if the line
/// does not exist.
pub open spec fn char_index_at(offs: Seq<usize>, s: Seq<char>, spot: Position) -> int {
    if spot.line >= offs.len() {
        s.len() as int
    } else {
        let j = char_index_of(s, offs[spot.line as int] as int);
        if spot.character == 0 {
            j
        } else {
            j + units_prefix(s.skip(j), spot.character as int)
        }
    }
}

/// Byte offset of `spot` in `s`.
pub open spec fn byte_offset_at(offs: Seq<usize>, s: Seq<char>, spot: Position) -> int {
    byte_pos(s, char_index_at(offs, s, spot)) as int
}

/// Byte column of `spot` within its line (tree-sitter counts columns in bytes).
pub open spec fn column_at(offs: Seq<usize>, s: Seq<char>, spot: Position) -> int {
    if spot.character == 0 || spot.line >= offs.len() {
        0
    } else {
        byte_offset_at(offs, s, spot) - offs[spot.line as int]
    }
}

/// `spot` with a character offset that lies past the last character of its
/// line moved to the start of the next line (or, if the text does not end
/// with a line break, one past the last character of the last line), and
/// with an offset inside a surrogate pair moved back to the start of the
/// pair.
pub open spec fn normalized_position(offs: Seq<usize>, maxs: Seq<Option<u32>>, s: Seq<char>, spot: Position) -> Position {
    let max = match maxs[spot.line as int] {
        Some(m) => m as int,
        None => 0,
    };
    if spot.character > max {
        if ends_with_eol(maxs) {
            Position { line: (spot.line + 1) as u32, character: 0 }
        } else {
            Position {
                line: spot.line,
                character: (maxs[maxs.len() - 1].unwrap() + 1) as u32,
            }
        }
    } else if 0 < spot.character < max {
        Position {
            line: spot.line,
            character: align_units(rest_at(s, offs[spot.line as int] as int), spot.character as int) as u32,
        }
    } else {
        spot
    }
}

/// UTF-16 offset of `spot` from the start of the text.
pub open spec fn utf16_offset_at(offs: Seq<usize>, s: Seq<char>, spot: Position) -> int {
    utf16_len(s.take(char_index_at(offs, s, spot))) as int
}

/// Number of UTF-16 code units from `start` up to and including `end`, or 0
/// if `end` comes first.
pub open spec fn distance(offs: Seq<usize>, s: Seq<char>, start: Position, end: Position) -> int {
    if char_index_at(offs, s, end) < char_index_at(offs, s, start) {
        0
    } else {
        utf16_offset_at(offs, s, end) - utf16_offset_at(offs, s, start) + 1
    }
}

/// Position order: by line, then by character.
pub open spec fn pos_before(a: Position, b: Position) -> bool {
    a.line < b.line || (a.line == b.line && a.character < b.character)
}

/// `range` with normalized ends, swapped if the end comes before the start.
pub open spec fn well_formed_range(offs: Seq<usize>, maxs: Seq<Option<u32>>, s: Seq<char>, range: Range) -> Range {
    let start = normalized_position(offs, maxs, s, range.start);
    let end = normalized_position(offs, maxs, s, range.end);
    if pos_before(end, start) {
        Range { start: end, end: start }
    } else {
        Range { start, end }
    }
}

proof fn lemma_units_prefix_bound(rest: Seq<char>, k: int)
    ensures
        units_prefix(rest, k) <= rest.len(),
    decreases rest.len(),
{
    if rest.len() > 0 && utf16_width(rest[0]) < k {
        lemma_units_prefix_bound(rest.drop_first(), k - utf16_width(rest[0]));
    }
}

proof fn lemma_align_units_bound(rest: Seq<char>, k: int)
    requires
        k >= 0,
    ensures
        align_units(rest, k) <= k,
    decreases rest.len(),
{
    if rest.len() > 0 && utf16_width(rest[0]) <= k {
        lemma_align_units_bound(rest.drop_first(), k - utf16_width(rest[0]));
    }
}

/// Finds the character index and byte offset of `spot`.
fn locate_position(text: &String, chars: &Vec<char>, lines: &LineMap, spot: &Position) -> (r: (
    usize,
    usize,
))
    requires
        chars@ == text@,
        map_wf(*lines, text@),
    ensures
        r.1 == char_index_at(lines.byte_offsets@, text@, *spot),
        r.0 == byte_offset_at(lines.byte_offsets@, text@, *spot),
        r.1 <= text@.len(),
{
    let ghost s = text@;
    let ghost offs = lines.byte_offsets@;
    let t = text.as_str();
    proof {
        lemma_lines_wf_facts(offs, lines.max_utf16_char_offset@, s);
        lemma_byte_pos_full(s);
        lemma_str_len(t);
    }
    if spot.line >= lines.byte_offsets.len() as u32 {
        return (t.len(), chars.len());
    }
    let mut offset = lines.byte_offsets[spot.line as usize];
    proof {
        assert(is_boundary(s, offs[spot.line as int] as int));
    }
    let j = char_index_at_byte(chars, offset);
    if spot.character == 0 {
        return (offset, j);
    }
    let ghost rest = s.skip(j as int);
    let mut k = j;
    let mut num_utf16_code_units: u64 = 0;
    let mut done = false;
    while k < chars.len() && !done
        invariant
            s == chars@,
            s == text@,
            j <= k <= s.len(),
            rest == s.skip(j as int),
            spot.character > 0,
            offset == byte_pos(s, k as int),
            byte_len(s) <= usize::MAX,
            num_utf16_code_units < spot.character,
            !done ==> j + units_prefix(rest, spot.character as int) == k + units_prefix(
                s.skip(k as int),
                spot.character as int - num_utf16_code_units,
            ),
            done ==> j + units_prefix(rest, spot.character as int) == k,
        decreases s.len() - k + if done { 0int } else { 1int },
    {
        let ch = chars[k];
        proof {
            lemma_byte_pos_step(s, k as int);
            lemma_byte_pos_mono(s, k as int + 1, s.len() as int);
            lemma_byte_pos_full(s);
            assert(s.skip(k as int)[0] == ch);
            assert(s.skip(k as int).drop_first() =~= s.skip(k as int + 1));
        }
        offset = offset + char_utf8_width(ch);
        let w = char_utf16_width(ch) as u64;
        k = k + 1;
        if num_utf16_code_units + w >= spot.character as u64 {
            done = true;
        } else {
            num_utf16_code_units = num_utf16_code_units + w;
        }
    }
    proof {
        if !done {
            assert(s.skip(k as int).len() == 0);
        }
    }
    (offset, k)
}

/// Byte column of `spot` in `text`, measured from the start of its line
/// in `lines` (the table may be older than the text).
fn column_of_position(text: &String, chars: &Vec<char>, lines: &LineMap, spot: &Position) -> (col: usize)
    requires
        chars@ == text@,
        lines.byte_offsets@.len() <= u32::MAX,
        byte_len(text@) <= usize::MAX,
        spot.character == 0 || spot.line >= lines.byte_offsets@.len() || is_boundary(
            text@,
            lines.byte_offsets@[spot.line as int] as int,
        ),
    ensures
        col == column_at(lines.byte_offsets@, text@, *spot),
{
    let ghost s = text@;
    let ghost offs = lines.byte_offsets@;
    if spot.character == 0 || spot.line >= (lines.byte_offsets.len() as u32) {
        return 0;
    }
    let offset = lines.byte_offsets[spot.line as usize];
    let j = char_index_at_byte(chars, offset);
    let ghost rest = s.skip(j as int);
    let mut k = j;
    let mut column: usize = 0;
    let mut num_utf16_code_units: u64 = 0;
    while k < chars.len() && num_utf16_code_units < spot.character as u64
        invariant
            s == chars@,
            j <= k <= s.len(),
            rest == s.skip(j as int),
            spot.character > 0,
            offset == byte_pos(s, j as int),
            column == byte_pos(s, k as int) - offset,
            byte_len(s) <= usize::MAX,
            num_utf16_code_units < spot.character ==> j + units_prefix(rest, spot.character as int) == k + units_prefix(
                s.skip(k as int),
                spot.character as int - num_utf16_code_units,
            ),
            num_utf16_code_units >= spot.character ==> j + units_prefix(rest, spot.character as int) == k,
            num_utf16_code_units < spot.character + 2,
        decreases s.len() - k,
    {
        let ch = chars[k];
        proof {
            lemma_byte_pos_step(s, k as int);
            lemma_byte_pos_mono(s, k as int + 1, s.len() as int);
            lemma_byte_pos_full(s);
            assert(s.skip(k as int)[0] == ch);
            assert(s.skip(k as int).drop_first() =~= s.skip(k as int + 1));
        }
        num_utf16_code_units = num_utf16_code_units + char_utf16_width(ch) as u64;
        column = column + char_utf8_width(ch);
        k = k + 1;
    }
    proof {
        if num_utf16_code_units < spot.character {
            assert(s.skip(k as int).len() == 0);
        }
    }
    column
}

impl LineMap {
    /// The UTF-16 offset of the last character boundary at or before
    /// `spot.character` on the line of `spot`.
    pub fn align_with_character_border(&self, spot: &Position, text: &str) -> (units: u32)
        requires
            map_wf(*self, text@),
            (spot.line as int) < self.byte_offsets@.len(),
        ensures
            units == align_units(
                rest_at(text@, self.byte_offsets@[spot.line as int] as int),
                spot.character as int,
            ),
            units <= spot.character,
    {
        let ghost s = text@;
        let chars = str_chars(text);
        let offset = self.byte_offsets[spot.line as usize];
        proof {
            assert(is_boundary(s, self.byte_offsets@[spot.line as int] as int));
        }
        let j = char_index_at_byte(&chars, offset);
        let ghost rest = s.skip(j as int);
        let mut k = j;
        let mut num_utf16_code_units: u32 = 0;
        let mut done = false;
        proof {
            lemma_align_units_bound(rest, spot.character as int);
        }
        while k < chars.len() && !done
            invariant
                s == chars@,
                j <= k <= s.len(),
                rest == s.skip(j as int),
                num_utf16_code_units <= spot.character,
                !done ==> align_units(rest, spot.character as int) == num_utf16_code_units
                    + align_units(s.skip(k as int), spot.character - num_utf16_code_units),
                done ==> align_units(rest, spot.character as int) == num_utf16_code_units,
            decreases s.len() - k + if done { 0int } else { 1int },
        {
            let ch = chars[k];
            proof {
                assert(s.skip(k as int)[0] == ch);
                assert(s.skip(k as int).drop_first() =~= s.skip(k as int + 1));
            }
            let len = char_utf16_width(ch);
            if num_utf16_code_units as u64 + len as u64 > spot.character as u64 {
                done = true;
            } else {
                num_utf16_code_units = num_utf16_code_units + len;
                k = k + 1;
            }
        }
        proof {
            if !done {
                assert(s.skip(k as int).len() == 0);
            }
        }
        num_utf16_code_units
    }
}

/// Moves `spot` onto a character border of the text; see
/// [`normalized_position`].
pub fn normalize_position(spot: &Position, lines: &LineMap, text: &str) -> (p: Position)
    requires
        map_wf(*lines, text@),
        (spot.line as int) < lines.byte_offsets@.len(),
    ensures
        p == normalized_position(lines.byte_offsets@, lines.max_utf16_char_offset@, text@, *spot),
{
    proof {
        lemma_lines_wf_facts(lines.byte_offsets@, lines.max_utf16_char_offset@, text@);
    }
    let num_lines = lines.byte_offsets.len() as u32;
    let line = spot.line;
    let character = spot.character;
    let max_char_offset = match lines.max_utf16_char_offset[line as usize] {
        Some(m) => m,
        None => 0,
    };
    if character > max_char_offset {
        if text_ends_with_eol(lines) {
            Position { line: line + 1, character: 0 }
        } else {
            let last = match lines.max_utf16_char_offset[(num_lines - 1) as usize] {
                Some(m) => m,
                None => 0,
            };
            Position { line, character: last + 1 }
        }
    } else if character > 0 && character < max_char_offset {
        let c = lines.align_with_character_border(spot, text);
        Position { line, character: c }
    } else {
        *spot
    }
}

pub fn normalize_range(range: &Range, lines: &LineMap, text: &str) -> (r: Range)
    requires
        map_wf(*lines, text@),
        (range.start.line as int) < lines.byte_offsets@.len(),
        (range.end.line as int) < lines.byte_offsets@.len(),
    ensures
        r.start == normalized_position(lines.byte_offsets@, lines.max_utf16_char_offset@, text@, range.start),
        r.end == normalized_position(lines.byte_offsets@, lines.max_utf16_char_offset@, text@, range.end),
{
    Range {
        start: normalize_position(&range.start, lines, text),
        end: normalize_position(&range.end, lines, text),
    }
}

/// Normalizes both ends of `range` and orders them.
pub fn make_range_well_formed_range(range: Range, lines: &LineMap, text: &str) -> (r: Range)
    requires
        map_wf(*lines, text@),
        (range.start.line as int) < lines.byte_offsets@.len(),
        (range.end.line as int) < lines.byte_offsets@.len(),
    ensures
        r == well_formed_range(lines.byte_offsets@, lines.max_utf16_char_offset@, text@, range),
{
    let range = normalize_range(&range, lines, text);
    if range.end.line < range.start.line || (range.end.line == range.start.line
        && range.end.character < range.start.character) {
        Range { start: range.end, end: range.start }
    } else {
        range
    }
}


/// A location as tree-sitter counts it: row and byte column.
#[derive(Clone, Copy, Debug, PartialEq, Eq, Structural)]
pub struct Point {
    pub row: usize,
    pub column: usize,
}

/// Describes an edit of a text for an incremental reparse: byte offsets and
/// points of its start, of the end of the replaced text, and of the end of
/// the new text.
#[derive(Clone, Copy, Debug, PartialEq, Eq, Structural)]
pub struct InputEdit {
    pub start_byte: usize,
    pub old_end_byte: usize,
    pub new_end_byte: usize,
    pub start_position: Point,
    pub old_end_position: Point,
    pub new_end_position: Point,
}

impl Point {
    pub fn new(row: usize, column: usize) -> (p: Point)
        ensures
            p == (Point { row, column }),
    {
        Point { row, column }
    }
}

/// The language ID of TRACE32 PRACTICE scripts, as the PRACTICE extension
/// for Visual Studio Code names them.
pub const LANGUAGE_ID: &'static str = "practice";

/// An open or known text document.
#[derive(Clone, Debug)]
pub struct TextDoc {
    pub uri: String,
    pub lang_id: String,
    pub text: String,
    pub version: i64,
    pub lines: LineMap,
}

/// Use the same language ID as the PRACTICE extension for Visual Studio Code.
pub open spec fn language_id() -> Seq<char> {
    seq!['p', 'r', 'a', 'c', 't', 'i', 'c', 'e']
}

/// Whether `lang_id` names the TRACE32 PRACTICE script language.
pub fn lang_id_supported(lang_id: &str) -> (r: bool)
    ensures
        r == (lang_id@ == language_id()),
{
    let id = language_id_string();
    let ids: &str = id.as_str();
    str_equal(lang_id, ids)
}

/// The language ID `practice` as a string.
pub fn language_id_string() -> (r: String)
    ensures
        r@ == language_id(),
{
    let mut r = String::new();
    let mut chars: Vec<char> = Vec::new();
    chars.push('p');
    chars.push('r');
    chars.push('a');
    chars.push('c');
    chars.push('t');
    chars.push('i');
    chars.push('c');
    chars.push('e');
    let r = crate::text::string_of_chars(&chars, 0, 8);
    assert(chars@ =~= language_id());
    assert(chars@.subrange(0, 8) =~= chars@);
    r
}

/// Character-wise equality of two strings.
pub fn str_equal(a: &str, b: &str) -> (r: bool)
    ensures
        r == (a@ == b@),
{
    let x = str_chars(a);
    let y = str_chars(b);
    if x.len() != y.len() {
        return false;
    }
    let mut i: usize = 0;
    while i < x.len()
        invariant
            x@ == a@,
            y@ == b@,
            x@.len() == y@.len(),
            i <= x@.len(),
            forall|k: int| 0 <= k < i ==> x@[k] == y@[k],
        decreases x@.len() - i,
    {
        if x[i] != y[i] {
            return false;
        }
        i = i + 1;
    }
    assert(x@ =~= y@);
    true
}

impl TextDoc {
    pub open spec fn wf(&self) -> bool {
        map_wf(self.lines, self.text@)
    }

    /// A document from a client's text document item, with a fresh line
    /// table and the `practice` language ID.
    pub fn from(item: TextDocumentItem) -> (doc: TextDoc)
        requires
            byte_len(item.text@) <= usize::MAX,
            utf16_len(item.text@) < u32::MAX,
        ensures
            doc.uri == item.uri,
            doc.version == item.version,
            doc.text == item.text,
            doc.lang_id@ == language_id(),
            doc.lines.byte_offsets@ == line_table(item.text@, 0, usize::MAX as int).0,
            doc.lines.max_utf16_char_offset@ == line_table(item.text@, 0, usize::MAX as int).1,
            doc.lines.num_bytes == byte_len(item.text@),
            doc.wf(),
    {
        let lines = create_line_map_for_text(item.text.as_str(), None, None);
        proof {
            lemma_table_wf(item.text@, lines.byte_offsets@, lines.max_utf16_char_offset@);
        }
        TextDoc {
            uri: item.uri,
            lang_id: language_id_string(),
            version: item.version,
            text: item.text,
            lines,
        }
    }

    /// Byte offset of `spot` in the text.
    pub fn get_byte_offset_at(&self, spot: &Position) -> (offset: usize)
        requires
            self.wf(),
        ensures
            offset == byte_offset_at(self.lines.byte_offsets@, self.text@, *spot),
    {
        let chars = str_chars(self.text.as_str());
        let (b, _) = locate_position(&self.text, &chars, &self.lines, spot);
        b
    }

    /// Byte column of `spot` within its line; tree-sitter measures columns
    /// in bytes.
    pub fn get_column_offset_at(&self, spot: &Position) -> (column: usize)
        requires
            self.wf(),
        ensures
            column == column_at(self.lines.byte_offsets@, self.text@, *spot),
    {
        proof {
            lemma_lines_wf_facts(self.lines.byte_offsets@, self.lines.max_utf16_char_offset@, self.text@);
            if spot.character != 0 && (spot.line as int) < self.lines.byte_offsets@.len() {
                assert(is_boundary(self.text@, self.lines.byte_offsets@[spot.line as int] as int));
            }
        }
        let chars = str_chars(self.text.as_str());
        column_of_position(&self.text, &chars, &self.lines, spot)
    }

    /// Number of UTF-16 code units from `start` up to and including `end`
    /// (0 if `end` comes first).
    pub fn calculate_distance(&self, start: &Position, end: &Position) -> (d: u32)
        requires
            self.wf(),
        ensures
            d == distance(self.lines.byte_offsets@, self.text@, *start, *end),
    {
        let ghost s = self.text@;
        let ghost offs = self.lines.byte_offsets@;
        let chars = str_chars(self.text.as_str());
        let (_, a) = locate_position(&self.text, &chars, &self.lines, start);
        let (_, b) = locate_position(&self.text, &chars, &self.lines, end);
        if b < a {
            return 0;
        }
        let mut units: u32 = 0;
        let mut k = a;
        proof {
            crate::text::lemma_utf16_take_mono(s, b as int, s.len() as int);
            assert(s.take(s.len() as int) =~= s);
        }
        while k < b
            invariant
                s == chars@,
                a <= k <= b <= s.len(),
                utf16_len(s) < u32::MAX,
                utf16_len(s.take(b as int)) <= utf16_len(s),
                units == utf16_len(s.take(k as int)) - utf16_len(s.take(a as int)),
                utf16_len(s.take(a as int)) <= utf16_len(s.take(k as int)),
            decreases b - k,
        {
            proof {
                crate::text::lemma_utf16_take_step(s, k as int);
                crate::text::lemma_utf16_take_mono(s, k as int + 1, b as int);
            }
            units = units + char_utf16_width(chars[k]);
            k = k + 1;
        }
        units + 1
    }

    /// UTF-16 offset of the last character of `line`, if known.
    pub fn get_eol_character_offset(&self, line: usize) -> (r: Option<u32>)
        ensures
            r == (if line < self.lines.max_utf16_char_offset@.len() {
                self.lines.max_utf16_char_offset@[line as int]
            } else {
                None
            }),
    {
        if line < self.lines.max_utf16_char_offset.len() {
            self.lines.max_utf16_char_offset[line]
        } else {
            None
        }
    }
}

/// The part of an edit that `update` carries out, in terms of the old
/// text `s` and its table: the well-formed range and its character indices.
pub open spec fn edit_start(offs: Seq<usize>, maxs: Seq<Option<u32>>, s: Seq<char>, change: Range) -> int {
    char_index_at(offs, s, well_formed_range(offs, maxs, s, change).start)
}

pub open spec fn edit_end(offs: Seq<usize>, maxs: Seq<Option<u32>>, s: Seq<char>, change: Range) -> int {
    char_index_at(offs, s, well_formed_range(offs, maxs, s, change).end)
}

/// The text after replacing the range `change` of `s` with `new`.
pub open spec fn edited_text(offs: Seq<usize>, maxs: Seq<Option<u32>>, s: Seq<char>, change: Range, new: Seq<char>) -> Seq<char> {
    s.take(edit_start(offs, maxs, s, change)) + new + s.skip(edit_end(offs, maxs, s, change))
}

/// Inputs on which `TextDoc::update` does its work: both ends of `change`
/// name existing lines, the normalized start does not come after the
/// normalized end in the text, the result fits the machine, and the start
/// of the end line in the old table is still a character boundary of the
/// new text (unless the end column is 0 or past the table).
pub open spec fn update_ok(offs: Seq<usize>, maxs: Seq<Option<u32>>, s: Seq<char>, change: Range, new: Seq<char>) -> bool {
    let r = well_formed_range(offs, maxs, s, change);
    let t = edited_text(offs, maxs, s, change, new);
    &&& (change.start.line as int) < offs.len()
    &&& (change.end.line as int) < offs.len()
    &&& edit_start(offs, maxs, s, change) <= edit_end(offs, maxs, s, change)
    &&& byte_len(s) + byte_len(new) <= usize::MAX
    &&& utf16_len(t) < u32::MAX
    &&& (r.end.character == 0 || r.end.line >= offs.len() || is_boundary(t, offs[r.end.line as int] as int))
}

/// The line table after an edit that starts at byte `start_byte` and whose
/// new text ends at byte `new_end`: the lines before the line containing
/// `start_byte` are kept; from the start of that line on, the new text `t`
/// is scanned up to the first line break after `new_end`.
pub open spec fn updated_table(offs: Seq<usize>, maxs: Seq<Option<u32>>, t: Seq<char>, start_byte: int, new_end: int) -> (Seq<usize>, Seq<Option<u32>>) {
    let sl = line_of_offset(offs, start_byte);
    let bias = offs[sl] as int;
    let seg = line_table(rest_at(t, bias), bias, new_end);
    (offs.take(sl) + seg.0, maxs.take(sl) + seg.1)
}

/// Keeping the lines before a boundary of the unchanged prefix and
/// rescanning the rest yields a well-formed table of the new text.
proof fn lemma_updated_table_wf(
    offs: Seq<usize>,
    maxs: Seq<Option<u32>>,
    s: Seq<char>,
    t: Seq<char>,
    cs: int,
    sl: int,
    seg0: Seq<usize>,
    seg1: Seq<Option<u32>>,
)
    requires
        lines_wf(offs, maxs, s),
        0 <= cs <= s.len(),
        cs <= t.len(),
        t.take(cs) == s.take(cs),
        0 <= sl < offs.len(),
        offs[sl] <= byte_pos(s, cs),
        table_shape(rest_at(t, offs[sl] as int), offs[sl] as int, seg0, seg1),
        byte_len(t) <= usize::MAX,
        utf16_len(t) < u32::MAX,
    ensures
        is_boundary(t, offs[sl] as int),
        char_index_of(t, offs[sl] as int) == char_index_of(s, offs[sl] as int),
        lines_wf(offs.take(sl) + seg0, maxs.take(sl) + seg1, t),
{
    let bias = offs[sl] as int;
    assert(is_boundary(s, bias));
    lemma_boundary_index(s, bias);
    let ci = char_index_of(s, bias);
    lemma_byte_pos_mono(s, 0, cs);
    if ci > cs {
        crate::text::lemma_byte_pos_strict(s, cs, ci);
    }
    assert(ci <= cs);
    assert(t.take(ci) == s.take(cs).take(ci));
    assert(s.take(ci) == s.take(cs).take(ci));
    lemma_char_index_of(t, ci);
    let rest = t.skip(ci);
    assert(rest == rest_at(t, bias));
    let no = offs.take(sl) + seg0;
    let nm = maxs.take(sl) + seg1;
    crate::text::lemma_utf16_len_append(t.take(ci), rest);
    assert(t.take(ci) + rest =~= t);
    assert forall|a: int, b: int| 0 <= a < b < no.len() implies #[trigger] no[a] < #[trigger] no[b] by {
        if b < sl {
            assert(no[a] == offs[a] && no[b] == offs[b]);
        } else if a < sl {
            assert(no[a] == offs[a]);
            assert(offs[a] < offs[sl]);
            assert(no[b] == seg0[b - sl]);
            if b - sl > 0 {
                assert(seg0[0] < seg0[b - sl]);
            }
        } else {
            assert(no[a] == seg0[a - sl] && no[b] == seg0[b - sl]);
        }
    }
    assert forall|k: int| #![trigger no[k]] 0 <= k < no.len() implies is_boundary(t, no[k] as int)
        && char_index_of(t, no[k] as int) >= k by {
        if k < sl {
            assert(no[k] == offs[k]);
            assert(is_boundary(s, offs[k] as int) && char_index_of(s, offs[k] as int) >= k);
            lemma_boundary_index(s, offs[k] as int);
            let j = char_index_of(s, offs[k] as int);
            if j >= ci {
                if j > ci {
                    crate::text::lemma_byte_pos_strict(s, ci, j);
                }
                assert(offs[k] < offs[sl]);
                assert(false);
            }
            assert(t.take(j) == s.take(cs).take(j));
            assert(s.take(j) == s.take(cs).take(j));
            lemma_char_index_of(t, j);
        } else {
            let m0 = k - sl;
            assert(no[k] == seg0[m0]);
            assert(is_boundary(rest, seg0[m0] - bias) && char_index_of(rest, seg0[m0] - bias) >= m0);
            lemma_boundary_index(rest, seg0[m0] - bias);
            let m = char_index_of(rest, seg0[m0] - bias);
            crate::text::lemma_byte_len_append(t.take(ci), rest.take(m));
            assert(t.take(ci + m) =~= t.take(ci) + rest.take(m));
            assert(byte_pos(t, ci + m) == no[k]);
            lemma_char_index_of(t, ci + m);
            assert(is_boundary(s, offs[sl] as int) && char_index_of(s, offs[sl] as int) >= sl);
        }
    }
    assert forall|k: int| 0 <= k < nm.len() - 1 implies (#[trigger] nm[k]) is Some by {
        if k < sl {
            assert(nm[k] == maxs[k]);
        } else {
            assert(nm[k] == seg1[k - sl]);
        }
    }
    assert forall|k: int| 0 <= k < nm.len() && (#[trigger] nm[k]) is Some implies nm[k].unwrap() < u32::MAX by {
        if k < sl {
            assert(nm[k] == maxs[k]);
        } else {
            assert(nm[k] == seg1[k - sl]);
        }
    }
    if sl == 0 {
        assert(no[0] == seg0[0]);
    } else {
        assert(no[0] == offs[0]);
    }
}


/// Replaces the line table entries from line `start_line` on with the table
/// of `text` from byte `start_byte` on (shifted by `start_byte`), scanned up
/// to the first line break after a character at or after `cutoff` bytes
/// into that rest of the text. `end_line` is the first line that the edit
/// left unchanged.
pub fn update_line_map_from_text_segment(
    start_byte: usize,
    start_line: usize,
    end_line: usize,
    cutoff: usize,
    text: &str,
    lines: &mut LineMap,
)
    requires
        start_line <= old(lines).byte_offsets@.len(),
        start_line <= old(lines).max_utf16_char_offset@.len(),
        end_line <= old(lines).byte_offsets@.len(),
        is_boundary(text@, start_byte as int),
        byte_len(text@) <= usize::MAX,
        utf16_len(text@) < u32::MAX,
    ensures
        ({
            let seg = line_table(rest_at(text@, start_byte as int), start_byte as int, cutoff as int);
            &&& final(lines).byte_offsets@ == old(lines).byte_offsets@.take(start_line as int) + seg.0
            &&& final(lines).max_utf16_char_offset@ == old(lines).max_utf16_char_offset@.take(
                start_line as int,
            ) + seg.1
            &&& table_shape(rest_at(text@, start_byte as int), start_byte as int, seg.0, seg.1)
        }),
        final(lines).num_bytes == byte_len(text@),
{
    let ghost s = text@;
    let chars = str_chars(text);
    let ci = char_index_at_byte(&chars, start_byte);
    let rest = crate::text::string_of_chars(&chars, ci, chars.len());
    proof {
        assert(rest@ =~= rest_at(s, start_byte as int));
        crate::text::lemma_byte_len_append(s.take(ci as int), rest@);
        crate::text::lemma_utf16_len_append(s.take(ci as int), rest@);
        assert(s.take(ci as int) + rest@ =~= s);
        lemma_byte_pos_full(s);
        lemma_str_len(text);
    }
    let mut new_segment = create_line_map_for_text(rest.as_str(), Some(start_byte), Some(cutoff));
    lines.byte_offsets.truncate(start_line);
    lines.max_utf16_char_offset.truncate(start_line);
    lines.byte_offsets.append(&mut new_segment.byte_offsets);
    lines.max_utf16_char_offset.append(&mut new_segment.max_utf16_char_offset);
    lines.num_bytes = text.len();
}


/// The line that contains the start of an edit starts in the unchanged
/// prefix of the new text.
proof fn lemma_edit_line_start(offs: Seq<usize>, maxs: Seq<Option<u32>>, s: Seq<char>, t: Seq<char>, cs: int)
    requires
        lines_wf(offs, maxs, s),
        0 <= cs <= s.len(),
        cs <= t.len(),
        t.take(cs) == s.take(cs),
    ensures
        ({
            let sl = line_of_offset(offs, byte_pos(s, cs) as int);
            &&& 0 <= sl < offs.len()
            &&& offs[sl] <= byte_pos(s, cs)
            &&& is_boundary(t, offs[sl] as int)
        }),
{
    lemma_lines_wf_facts(offs, maxs, s);
    let sl = line_of_offset(offs, byte_pos(s, cs) as int);
    crate::linemap::lemma_line_of_offset_bounds(offs, byte_pos(s, cs) as int);
    let b = offs[sl] as int;
    assert(is_boundary(s, b));
    lemma_boundary_index(s, b);
    let j = char_index_of(s, b);
    if j > cs {
        crate::text::lemma_byte_pos_strict(s, cs, j);
    }
    assert(t.take(j) == t.take(cs).take(j));
    assert(s.take(j) == s.take(cs).take(j));
    lemma_char_index_of(t, j);
}

/// The updated table of an edit is well formed for the new text.
proof fn lemma_update_table(offs: Seq<usize>, maxs: Seq<Option<u32>>, s: Seq<char>, t: Seq<char>, cs: int, new_end: int)
    requires
        lines_wf(offs, maxs, s),
        0 <= cs <= s.len(),
        cs <= t.len(),
        t.take(cs) == s.take(cs),
        byte_len(t) <= usize::MAX,
        utf16_len(t) < u32::MAX,
    ensures
        ({
            let table = updated_table(offs, maxs, t, byte_pos(s, cs) as int, new_end);
            &&& lines_wf(table.0, table.1, t)
            &&& table.0.len() <= u32::MAX
            &&& sorted(table.0)
        }),
{
    lemma_edit_line_start(offs, maxs, s, t, cs);
    let sl = line_of_offset(offs, byte_pos(s, cs) as int);
    let bias = offs[sl] as int;
    lemma_boundary_index(t, bias);
    let ci = char_index_of(t, bias);
    let rest = rest_at(t, bias);
    crate::text::lemma_utf16_len_append(t.take(ci), rest);
    crate::text::lemma_byte_len_append(t.take(ci), rest);
    assert(t.take(ci) + rest =~= t);
    lemma_line_table_shape(rest, bias, new_end);
    let seg = line_table(rest, bias, new_end);
    lemma_updated_table_wf(offs, maxs, s, t, cs, sl, seg.0, seg.1);
    let table = updated_table(offs, maxs, t, byte_pos(s, cs) as int, new_end);
    lemma_lines_wf_facts(table.0, table.1, t);
}

impl TextDoc {
    /// Brings the line table up to date after `edit` changed the text.
    pub fn update_line_map(&mut self, edit: &InputEdit)
        requires
            lines_wf(old(self).lines.byte_offsets@, old(self).lines.max_utf16_char_offset@, old(self).text@)
                || (sorted(old(self).lines.byte_offsets@) && old(self).lines.byte_offsets@.len() >= 1
                && old(self).lines.byte_offsets@[0] == 0 && old(self).lines.byte_offsets@.len()
                == old(self).lines.max_utf16_char_offset@.len()),
            is_boundary(
                old(self).text@,
                old(self).lines.byte_offsets@[line_of_offset(
                    old(self).lines.byte_offsets@,
                    edit.start_byte as int,
                )] as int,
            ),
            byte_len(old(self).text@) <= usize::MAX,
            utf16_len(old(self).text@) < u32::MAX,
        ensures
            ({
                let t = updated_table(
                    old(self).lines.byte_offsets@,
                    old(self).lines.max_utf16_char_offset@,
                    old(self).text@,
                    edit.start_byte as int,
                    edit.new_end_byte as int,
                );
                &&& final(self).lines.byte_offsets@ == t.0
                &&& final(self).lines.max_utf16_char_offset@ == t.1
            }),
            final(self).lines.num_bytes == byte_len(old(self).text@),
            final(self).text == old(self).text,
            final(self).uri == old(self).uri,
            final(self).lang_id == old(self).lang_id,
            final(self).version == old(self).version,
    {
        proof {
            if lines_wf(self.lines.byte_offsets@, self.lines.max_utf16_char_offset@, self.text@) {
                lemma_lines_wf_facts(self.lines.byte_offsets@, self.lines.max_utf16_char_offset@, self.text@);
            }
        }
        // The changed section is extended to the start of its line, and the
        // table is recalculated from there on.
        let start_mod_lines = self.lines.get_line_with_offset(edit.start_byte);
        let start_mod_bytes = self.lines.byte_offsets[start_mod_lines];

        let start_unmod_lines = if edit.old_end_position.row < self.lines.byte_offsets.len() {
            edit.old_end_position.row + 1
        } else {
            self.lines.byte_offsets.len()
        };
        let cutoff = edit.new_end_byte;

        update_line_map_from_text_segment(
            start_mod_bytes,
            start_mod_lines,
            start_unmod_lines,
            cutoff,
            self.text.as_str(),
            &mut self.lines,
        );
    }

    /// Replaces the text in `change` with `new` and returns the edit for an
    /// incremental reparse.
    ///
    /// Both ends of `change` are first moved onto character borders and
    /// ordered; see [`well_formed_range`]. The line table is updated from
    /// the line of the edit's start up to the first line break after the
    /// end of the new text.
    #[verifier::rlimit(50)]
    pub fn update(&mut self, change: Range, new: &str) -> (edit: InputEdit)
        requires
            old(self).wf(),
            update_ok(
                old(self).lines.byte_offsets@,
                old(self).lines.max_utf16_char_offset@,
                old(self).text@,
                change,
                new@,
            ),
        ensures
            ({
                let offs = old(self).lines.byte_offsets@;
                let maxs = old(self).lines.max_utf16_char_offset@;
                let s = old(self).text@;
                let r = well_formed_range(offs, maxs, s, change);
                let cs = edit_start(offs, maxs, s, change);
                let ce = edit_end(offs, maxs, s, change);
                let t = edited_text(offs, maxs, s, change, new@);
                let table = updated_table(offs, maxs, t, byte_pos(s, cs) as int, (byte_pos(s, cs) + byte_len(new@)) as int);
                &&& final(self).text@ == t
                &&& edit.start_byte == byte_pos(s, cs)
                &&& edit.old_end_byte == byte_pos(s, ce)
                &&& edit.new_end_byte == byte_pos(s, cs) + byte_len(new@)
                &&& edit.start_position == Point { row: r.start.line as usize, column: column_at(offs, t, r.start) as usize }
                &&& edit.old_end_position == Point { row: r.end.line as usize, column: column_at(offs, t, r.end) as usize }
                &&& final(self).lines.byte_offsets@ == table.0
                &&& final(self).lines.max_utf16_char_offset@ == table.1
                &&& final(self).lines.num_bytes == byte_len(t)
                &&& edit.new_end_position.row == line_of_offset(table.0, edit.new_end_byte as int)
                &&& edit.new_end_position.column == edit.new_end_byte - table.0[edit.new_end_position.row as int]
            }),
            final(self).wf(),
            final(self).uri == old(self).uri,
            final(self).lang_id == old(self).lang_id,
            final(self).version == old(self).version,
    {
        let ghost offs = self.lines.byte_offsets@;
        let ghost maxs = self.lines.max_utf16_char_offset@;
        let ghost s = self.text@;
        let range = make_range_well_formed_range(change, &self.lines, self.text.as_str());
        let chars = str_chars(self.text.as_str());
        let (start_byte, start_char) = locate_position(&self.text, &chars, &self.lines, &range.start);
        let (end_byte, end_char) = locate_position(&self.text, &chars, &self.lines, &range.end);
        let ghost t = edited_text(offs, maxs, s, change, new@);
        proof {
            lemma_lines_wf_facts(offs, maxs, s);
            lemma_byte_pos_mono(s, start_char as int, end_char as int);
            lemma_byte_pos_mono(s, end_char as int, s.len() as int);
            lemma_byte_pos_full(s);
            lemma_str_len(new);
        }

        let mut text = crate::text::string_of_chars(&chars, 0, start_char);
        text.append(new);
        let suffix = crate::text::string_of_chars(&chars, end_char, chars.len());
        text.append(suffix.as_str());
        self.text = text;
        proof {
            assert(self.text@ =~= t);
            assert(s.take(start_char as int) + s.subrange(start_char as int, end_char as int) + s.skip(end_char as int) =~= s);
            crate::text::lemma_byte_len_append(s.take(start_char as int), s.subrange(start_char as int, end_char as int));
            crate::text::lemma_byte_len_append(s.take(start_char as int) + s.subrange(start_char as int, end_char as int), s.skip(end_char as int));
            crate::text::lemma_byte_len_append(s.take(start_char as int), new@);
            crate::text::lemma_byte_len_append(s.take(start_char as int) + new@, s.skip(end_char as int));
            assert(t.take(start_char as int) =~= s.take(start_char as int));
            assert(s.take(end_char as int).take(start_char as int) =~= s.take(start_char as int));
        }
        let ghost new_chars = self.text@;
        let chars2 = str_chars(self.text.as_str());

        proof {
            // The line starts of both range ends lie in the unchanged prefix.
            if range.start.character != 0 && (range.start.line as int) < offs.len() {
                let b = offs[range.start.line as int] as int;
                assert(is_boundary(s, b));
                lemma_boundary_index(s, b);
                let j = char_index_of(s, b);
                assert(t.take(j) == t.take(start_char as int).take(j));
                assert(s.take(j) == s.take(start_char as int).take(j));
                lemma_char_index_of(t, j);
            }
        }
        let start_pos = Point {
            row: range.start.line as usize,
            column: column_of_position(&self.text, &chars2, &self.lines, &range.start),
        };
        let end_pos = Point {
            row: range.end.line as usize,
            column: column_of_position(&self.text, &chars2, &self.lines, &range.end),
        };

        let mut edit = InputEdit {
            start_byte,
            old_end_byte: end_byte,
            new_end_byte: start_byte + new.len(),
            start_position: start_pos,
            old_end_position: end_pos,
            new_end_position: Point { row: usize::MAX, column: usize::MAX },
        };

        proof {
            lemma_edit_line_start(offs, maxs, s, t, start_char as int);
        }
        self.update_line_map(&edit);
        proof {
            lemma_update_table(offs, maxs, s, t, start_char as int, edit.new_end_byte as int);
        }

        let end_line = self.lines.get_line_with_offset(edit.new_end_byte);
        let end_column: usize = edit.new_end_byte - self.lines.byte_offsets[end_line];

        edit.new_end_position = Point { row: end_line, column: end_column };
        edit
    }
}

/// A range whose end comes before its start is taken as the range with its
/// ends swapped: both give the same well-formed range, the same edit and the
/// same edited text, and an update accepts one exactly where it accepts the
/// other.
pub proof fn law_reversed_range_is_swapped(
    offs: Seq<usize>,
    maxs: Seq<Option<u32>>,
    s: Seq<char>,
    a: Position,
    b: Position,
    new: Seq<char>,
)
    ensures
        well_formed_range(offs, maxs, s, Range { start: b, end: a }) == well_formed_range(offs, maxs, s, Range { start: a, end: b }),
        edit_start(offs, maxs, s, Range { start: b, end: a }) == edit_start(offs, maxs, s, Range { start: a, end: b }),
        edit_end(offs, maxs, s, Range { start: b, end: a }) == edit_end(offs, maxs, s, Range { start: a, end: b }),
        edited_text(offs, maxs, s, Range { start: b, end: a }, new) == edited_text(offs, maxs, s, Range { start: a, end: b }, new),
        update_ok(offs, maxs, s, Range { start: b, end: a }, new) == update_ok(offs, maxs, s, Range { start: a, end: b }, new),
{
    let na = normalized_position(offs, maxs, s, a);
    let nb = normalized_position(offs, maxs, s, b);
    if !pos_before(na, nb) && !pos_before(nb, na) {
        assert(na == nb);
    }
}


} // verus!
