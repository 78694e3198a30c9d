//! Line tables for text documents.
//!
//! A line table records the byte offset at which each line starts and, for
//! each line, the UTF-16 offset of its last character (the first character
//! of the end-of-line sequence, if the line has one). Lines end at `\n`,
//! `\r`, or `\r\n`.
use vstd::prelude::*;

use crate::text::{
    char_utf16_width, char_utf8_width, lemma_byte_len_bounds, lemma_utf16_len_bounds, str_chars,
    byte_len, byte_pos, char_index_of, is_boundary, lemma_byte_pos_full, lemma_byte_pos_mono,
    lemma_boundary_index, lemma_byte_pos_step, lemma_byte_pos_strict, lemma_char_index_of, lemma_utf16_take_mono, lemma_utf16_take_step,
    utf16_len, utf16_width, utf8_width,
};

verus! {

/// Byte offsets of line starts, the UTF-16 offset of the last character of
/// each line (`None` for an empty last line), and the number of bytes
/// scanned.
#[derive(Clone, Debug, PartialEq)]
pub struct LineMap {
    pub byte_offsets: Vec<usize>,
    pub max_utf16_char_offset: Vec<Option<u32>>,
    pub num_bytes: usize,
}

/// The result of scanning `s[i..]` for line breaks, continuing from the
/// scanner state `(offs, maxs, nb, units, stop)`: the line start offsets
/// (shifted by `bias`), the last-character offsets, and the bytes consumed.
///
/// Each character first records the number of UTF-16 units before it on
/// its line as the line's last-character offset. Once a character starts
/// at or after `cutoff`, the scan stops at the next line break (consuming
/// it, but not starting a new line).
pub open spec fn scan_lines(
    s: Seq<char>,
    bias: int,
    cutoff: int,
    i: int,
    offs: Seq<usize>,
    maxs: Seq<Option<u32>>,
    nb: int,
    units: int,
    stop: bool,
) -> (Seq<usize>, Seq<Option<u32>>, int)
    decreases s.len() - i,
{
    if i < 0 || i >= s.len() {
        (offs, maxs, nb)
    } else {
        let c = s[i];
        let off = byte_pos(s, i) as int;
        let maxs1 = maxs.update(maxs.len() - 1, Some(units as u32));
        let nb1 = nb + utf8_width(c);
        let stop1 = stop || off >= cutoff;
        let crlf = i + 1 < s.len() && s[i + 1] == '\n';
        if c == '\r' {
            if stop1 {
                (offs, maxs1, if crlf { nb1 + 1 } else { nb1 })
            } else if crlf {
                scan_lines(
                    s,
                    bias,
                    cutoff,
                    i + 2,
                    offs.push((bias + off + 2) as usize),
                    maxs1.push(None),
                    nb1 + 1,
                    0,
                    stop1,
                )
            } else {
                scan_lines(
                    s,
                    bias,
                    cutoff,
                    i + 1,
                    offs.push((bias + off + 1) as usize),
                    maxs1.push(None),
                    nb1,
                    0,
                    stop1,
                )
            }
        } else if c == '\n' {
            if stop1 {
                (offs, maxs1, nb1)
            } else {
                scan_lines(
                    s,
                    bias,
                    cutoff,
                    i + 1,
                    offs.push((bias + off + 1) as usize),
                    maxs1.push(None),
                    nb1,
                    0,
                    stop1,
                )
            }
        } else {
            scan_lines(s, bias, cutoff, i + 1, offs, maxs1, nb1, units + utf16_width(c), stop1)
        }
    }
}

/// The line table of `s` whose offsets are shifted by `bias`, scanned up to
/// the first line break that follows a character at or after `cutoff`.
pub open spec fn line_table(s: Seq<char>, bias: int, cutoff: int) -> (
    Seq<usize>,
    Seq<Option<u32>>,
    int,
) {
    scan_lines(s, bias, cutoff, 0, seq![bias as usize], seq![None], 0, 0, false)
}

pub open spec fn option_or(o: Option<usize>, d: int) -> int {
    match o {
        Some(v) => v as int,
        None => d,
    }
}

/// Structural facts of a line table for the text `s`, shifted by `bias`:
/// both tables have one entry per line, the first line starts at `bias`,
/// line starts grow strictly, each one is a character boundary whose
/// character index is at least its line number, every line but the last
/// has a last-character offset, and these offsets stay below `u32::MAX`.
pub open spec fn table_shape(
    s: Seq<char>,
    bias: int,
    offs: Seq<usize>,
    maxs: Seq<Option<u32>>,
) -> bool {
    &&& offs.len() == maxs.len()
    &&& offs.len() >= 1
    &&& offs[0] == bias
    &&& forall|a: int, b: int| 0 <= a < b < offs.len() ==> #[trigger] offs[a] < #[trigger] offs[b]
    &&& forall|k: int|
        #![trigger offs[k]]
        0 <= k < offs.len() ==> is_boundary(s, offs[k] - bias) && char_index_of(s, offs[k] - bias)
            >= k
    &&& forall|k: int| 0 <= k < maxs.len() - 1 ==> (#[trigger] maxs[k]) is Some
    &&& forall|k: int|
        0 <= k < maxs.len() && (#[trigger] maxs[k]) is Some ==> maxs[k].unwrap() <= utf16_len(s)
}

/// Invariant of the scanner state after the characters `s[..i]`.
pub open spec fn scan_inv(
    s: Seq<char>,
    bias: int,
    i: int,
    offs: Seq<usize>,
    maxs: Seq<Option<u32>>,
    nb: int,
    units: int,
) -> bool {
    &&& 0 <= i <= s.len()
    &&& offs.len() == maxs.len()
    &&& offs.len() >= 1
    &&& offs[0] == bias
    &&& bias >= 0
    &&& bias + byte_len(s) <= usize::MAX
    &&& forall|a: int, b: int| 0 <= a < b < offs.len() ==> #[trigger] offs[a] < #[trigger] offs[b]
    &&& forall|k: int|
        #![trigger offs[k]]
        0 <= k < offs.len() ==> is_boundary(s, offs[k] - bias) && char_index_of(s, offs[k] - bias)
            >= k
    &&& offs[offs.len() - 1] - bias <= byte_pos(s, i)
    &&& char_index_of(s, offs[offs.len() - 1] - bias) <= i
    &&& forall|k: int| 0 <= k < maxs.len() - 1 ==> (#[trigger] maxs[k]) is Some
    &&& forall|k: int|
        0 <= k < maxs.len() && (#[trigger] maxs[k]) is Some ==> maxs[k].unwrap() <= utf16_len(
            s.take(i),
        )
    &&& nb == byte_pos(s, i)
    &&& 0 <= units <= utf16_len(s.take(i))
}

/// The scanner keeps its invariant, so every line table has the expected
/// shape, and the scanner consumes at most all bytes of the text.
pub proof fn lemma_scan_shape(
    s: Seq<char>,
    bias: int,
    cutoff: int,
    i: int,
    offs: Seq<usize>,
    maxs: Seq<Option<u32>>,
    nb: int,
    units: int,
    stop: bool,
)
    requires
        scan_inv(s, bias, i, offs, maxs, nb, units),
    ensures
        ({
            let r = scan_lines(s, bias, cutoff, i, offs, maxs, nb, units, stop);
            &&& table_shape(s, bias, r.0, r.1)
            &&& r.2 <= byte_len(s)
            &&& r.0[r.0.len() - 1] - bias <= byte_len(s)
            &&& (!stop && cutoff >= byte_len(s) ==> r.2 == byte_len(s))
        }),
    decreases s.len() - i,
{
    if i >= s.len() {
        lemma_byte_pos_full(s);
        assert(s.take(i) =~= s);

    } else {
        let c = s[i];
        let off = byte_pos(s, i) as int;
        let maxs1 = maxs.update(maxs.len() - 1, Some(units as u32));
        let nb1 = nb + utf8_width(c);
        let stop1 = stop || off >= cutoff;
        let crlf = i + 1 < s.len() && s[i + 1] == '\n';
        lemma_byte_pos_step(s, i);
        lemma_utf16_take_step(s, i);
        lemma_byte_pos_mono(s, i + 1, s.len() as int);
        lemma_byte_pos_full(s);
        lemma_utf16_take_mono(s, i + 1, s.len() as int);
        assert(s.take(s.len() as int) =~= s);
        assert forall|k: int|
            0 <= k < maxs1.len() && (#[trigger] maxs1[k]) is Some implies maxs1[k].unwrap()
            <= utf16_len(s.take(i + 1)) by {
            if k == maxs1.len() - 1 {
            } else {
                assert(maxs1[k] == maxs[k]);
            }
        }
        assert forall|k: int| 0 <= k < maxs1.len() - 1 implies (#[trigger] maxs1[k]) is Some by {
            assert(maxs1[k] == maxs[k]);
        }
        if c == '\r' || c == '\n' {
            let j = if c == '\r' && crlf {
                i + 2
            } else {
                i + 1
            };
            if c == '\r' && crlf {
                lemma_byte_pos_step(s, i + 1);
                lemma_utf16_take_step(s, i + 1);
                lemma_byte_pos_mono(s, i + 2, s.len() as int);
            }
            if stop1 {
                // The result is the current tables with the updated last entry.
                assert(table_shape(s, bias, offs, maxs1)) by {
                    assert forall|k: int|
                        0 <= k < maxs1.len() && (#[trigger] maxs1[k]) is Some implies maxs1[k].unwrap()
                        <= utf16_len(s) by {
                        lemma_utf16_take_mono(s, i + 1, s.len() as int);
                    }
                }
                lemma_byte_pos_mono(s, i, s.len() as int);
            } else {
                lemma_scan_push(s, bias, i, j, offs, maxs, units);
                if c == '\r' && crlf {
                    assert(nb1 + 1 == byte_pos(s, j));
                }
                lemma_scan_shape(
                    s,
                    bias,
                    cutoff,
                    j,
                    offs.push((bias + byte_pos(s, j)) as usize),
                    maxs1.push(None),
                    byte_pos(s, j) as int,
                    0,
                    stop1,
                );
            }
        } else {
            assert(is_boundary(s, offs[offs.len() - 1] - bias));
                lemma_boundary_index(s, offs[offs.len() - 1] - bias);
            assert(scan_inv(s, bias, i + 1, offs, maxs1, nb1, units + utf16_width(c)));
            lemma_scan_shape(s, bias, cutoff, i + 1, offs, maxs1, nb1, units + utf16_width(c), stop1);
        }
    }
}

/// Starting a new line after the line break that ends before character `j`
/// keeps the scanner invariant.
proof fn lemma_scan_push(
    s: Seq<char>,
    bias: int,
    i: int,
    j: int,
    offs: Seq<usize>,
    maxs: Seq<Option<u32>>,
    units: int,
)
    requires
        scan_inv(s, bias, i, offs, maxs, byte_pos(s, i) as int, units),
        i < j <= s.len(),
        j <= i + 2,
    ensures
        scan_inv(
            s,
            bias,
            j,
            offs.push((bias + byte_pos(s, j)) as usize),
            maxs.update(maxs.len() - 1, Some(units as u32)).push(None),
            byte_pos(s, j) as int,
            0,
        ),
{
    let maxs1 = maxs.update(maxs.len() - 1, Some(units as u32));
    let x = bias + byte_pos(s, j);
    let offs2 = offs.push(x as usize);
    let maxs2 = maxs1.push(None);
    lemma_byte_pos_strict(s, i, j);
    lemma_byte_pos_mono(s, j, s.len() as int);
    lemma_byte_pos_full(s);
    lemma_char_index_of(s, j);
    lemma_utf16_take_mono(s, i, j);
    lemma_utf16_take_step(s, i);
    lemma_utf16_take_mono(s, i + 1, j);
    assert(s.take(j).take(0) =~= Seq::<char>::empty());
    assert(0 <= x <= usize::MAX);
    let last = offs[offs.len() - 1] - bias;
    assert(is_boundary(s, last));
    lemma_boundary_index(s, last);
    assert forall|a: int, b: int| 0 <= a < b < offs2.len() implies #[trigger] offs2[a] < #[trigger] offs2[b] by {
        if b == offs2.len() - 1 {
            if a < offs.len() - 1 {
                assert(offs[a] < offs[offs.len() - 1]);
            }
        } else {
            assert(offs2[a] == offs[a] && offs2[b] == offs[b]);
        }
    }
    assert forall|k: int| #![trigger offs2[k]] 0 <= k < offs2.len() implies is_boundary(s, offs2[k] - bias)
        && char_index_of(s, offs2[k] - bias) >= k by {
        if k == offs2.len() - 1 {
            assert(offs2[k] - bias == byte_pos(s, j));
            assert(char_index_of(s, last) >= offs.len() - 1);
        } else {
            assert(offs2[k] == offs[k]);
            assert(is_boundary(s, offs[k] - bias) && char_index_of(s, offs[k] - bias) >= k);
        }
    }
    assert forall|k: int| 0 <= k < maxs2.len() - 1 implies (#[trigger] maxs2[k]) is Some by {
        if k < maxs.len() - 1 {
            assert(maxs2[k] == maxs[k]);
        }
    }
    assert forall|k: int|
        0 <= k < maxs2.len() && (#[trigger] maxs2[k]) is Some implies maxs2[k].unwrap()
        <= utf16_len(s.take(j)) by {
        if k < maxs.len() - 1 {
            assert(maxs2[k] == maxs[k]);
        }
    }
    assert(offs2[offs2.len() - 1] - bias == byte_pos(s, j));
}

/// The line table of `s` has the expected shape; without a cutoff inside the
/// text, the whole text is scanned.
pub proof fn lemma_line_table_shape(s: Seq<char>, bias: int, cutoff: int)
    requires
        bias >= 0,
        bias + byte_len(s) <= usize::MAX,
    ensures
        table_shape(s, bias, line_table(s, bias, cutoff).0, line_table(s, bias, cutoff).1),
        line_table(s, bias, cutoff).2 <= byte_len(s),
        ({
            let offs = line_table(s, bias, cutoff).0;
            offs[offs.len() - 1] - bias <= byte_len(s)
        }),
        cutoff >= byte_len(s) ==> line_table(s, bias, cutoff).2 == byte_len(s),
{
    let offs = seq![bias as usize];
    let maxs: Seq<Option<u32>> = seq![None];
    assert(s.take(0) =~= Seq::<char>::empty());
    lemma_char_index_of(s, 0);
    assert(offs[0] - bias == 0);
    assert(scan_inv(s, bias, 0, offs, maxs, 0, 0));
    lemma_scan_shape(s, bias, cutoff, 0, offs, maxs, 0, 0, false);
}


/// Creates the line table of `text`. Line starts are shifted by `bias`
/// (default 0). With a `cutoff` (default: none), scanning ends at the first
/// line break after a character that starts at or after `cutoff` bytes
/// into `text`.
///
/// Clients only need to support UTF-16 character offsets, so this is the
/// unit of the last-character offsets.
pub fn create_line_map_for_text(text: &str, bias: Option<usize>, cutoff: Option<usize>) -> (lm:
    LineMap)
    requires
        option_or(bias, 0) + byte_len(text@) <= usize::MAX,
        utf16_len(text@) < u32::MAX,
    ensures
        ({
            let t = line_table(text@, option_or(bias, 0), option_or(cutoff, usize::MAX as int));
            &&& lm.byte_offsets@ == t.0
            &&& lm.max_utf16_char_offset@ == t.1
            &&& lm.num_bytes == t.2
        }),
        table_shape(
            text@,
            option_or(bias, 0),
            lm.byte_offsets@,
            lm.max_utf16_char_offset@,
        ),
        lm.num_bytes <= byte_len(text@),
        lm.byte_offsets@[lm.byte_offsets@.len() - 1] - option_or(bias, 0) <= byte_len(text@),
        cutoff is None ==> lm.num_bytes == byte_len(text@),
{
    let bias: usize = match bias {
        Some(b) => b,
        None => 0,
    };
    let cutoff: usize = match cutoff {
        Some(c) => c,
        None => usize::MAX,
    };
    let ghost s = text@;
    let ghost target = line_table(s, bias as int, cutoff as int);
    proof {
        lemma_line_table_shape(s, bias as int, cutoff as int);
        lemma_byte_pos_full(s);
        lemma_utf16_len_bounds(s);
        lemma_byte_len_bounds(s);
    }
    let chars = str_chars(text);
    let n = chars.len();

    let mut byte_offsets: Vec<usize> = Vec::new();
    byte_offsets.push(bias);
    let mut max_utf16_char_offset: Vec<Option<u32>> = Vec::new();
    max_utf16_char_offset.push(None);
    let mut num_bytes: usize = 0;

    let mut num_inline_code_units: u32 = 0;
    let mut stop_after_eol: bool = false;
    let mut done: bool = false;
    let mut i: usize = 0;
    proof {
        assert(s.take(0) =~= Seq::<char>::empty());
        assert(byte_offsets@ =~= seq![bias]);
        assert(max_utf16_char_offset@ =~= seq![None]);
    }

    while i < n && !done
        invariant
            s == text@,
            s == chars@,
            n == s.len(),
            i <= n,
            bias + byte_len(s) <= usize::MAX,
            utf16_len(s) < u32::MAX,
            max_utf16_char_offset@.len() >= 1,
            !done ==> num_bytes == byte_pos(s, i as int),
            num_inline_code_units <= utf16_len(s.take(i as int)),
            !done ==> scan_lines(
                s,
                bias as int,
                cutoff as int,
                i as int,
                byte_offsets@,
                max_utf16_char_offset@,
                num_bytes as int,
                num_inline_code_units as int,
                stop_after_eol,
            ) == target,
            done ==> (byte_offsets@, max_utf16_char_offset@, num_bytes as int) == target,
        decreases n - i + if done { 0int } else { 1int },
    {
        let ch = chars[i];
        let offset = num_bytes;
        proof {
            lemma_byte_pos_step(s, i as int);
            lemma_utf16_take_step(s, i as int);
            lemma_byte_pos_mono(s, i as int + 1, n as int);
            lemma_utf16_take_mono(s, i as int + 1, n as int);
            assert(s.take(n as int) =~= s);
        }
        let len = max_utf16_char_offset.len();
        max_utf16_char_offset.set(len - 1, Some(num_inline_code_units));
        let w = char_utf8_width(ch);
        num_bytes = num_bytes + w;
        if offset >= cutoff {
            stop_after_eol = true;
        }
        let crlf = i + 1 < n && chars[i + 1] == '\n';
        if ch == '\r' {
            if crlf {
                proof {
                    lemma_byte_pos_step(s, i as int + 1);
                    lemma_byte_pos_mono(s, i as int + 2, n as int);
                }
            }
            if stop_after_eol {
                if crlf {
                    num_bytes = num_bytes + 1;
                }
                done = true;
            } else {
                max_utf16_char_offset.push(None);
                num_inline_code_units = 0;
                if crlf {
                    num_bytes = num_bytes + 1;
                    byte_offsets.push(bias + offset + 2);
                    i = i + 2;
                } else {
                    byte_offsets.push(bias + offset + 1);
                    i = i + 1;
                }
                proof {
                    assert(s.take(i as int).take(0) =~= Seq::<char>::empty());
                }
            }
        } else if ch == '\n' {
            if stop_after_eol {
                done = true;
            } else {
                max_utf16_char_offset.push(None);
                num_inline_code_units = 0;
                byte_offsets.push(bias + offset + 1);
                i = i + 1;
                proof {
                    assert(s.take(i as int).take(0) =~= Seq::<char>::empty());
                }
            }
        } else {
            num_inline_code_units = num_inline_code_units + char_utf16_width(ch);
            i = i + 1;
        }
    }
    LineMap { byte_offsets, max_utf16_char_offset, num_bytes }
}

/// True when the text of the table ends with a line break: its last line is
/// empty.
pub open spec fn ends_with_eol(maxs: Seq<Option<u32>>) -> bool {
    maxs[maxs.len() - 1] is None
}

pub fn text_ends_with_eol(lines: &LineMap) -> (r: bool)
    requires
        lines.max_utf16_char_offset@.len() >= 1,
    ensures
        r == ends_with_eol(lines.max_utf16_char_offset@),
{
    lines.max_utf16_char_offset[lines.max_utf16_char_offset.len() - 1].is_none()
}

/// Sorted ascending.
pub open spec fn sorted(offs: Seq<usize>) -> bool {
    forall|a: int, b: int| 0 <= a < b < offs.len() ==> #[trigger] offs[a] <= #[trigger] offs[b]
}

/// The index of the last line that starts at or before `offset`.
pub open spec fn line_of_offset(offs: Seq<usize>, offset: int) -> int
    recommends
        offs.len() >= 1,
        offs[0] <= offset,
    decreases offs.len(),
{
    if offs.len() <= 1 {
        0
    } else if offs[offs.len() - 1] <= offset {
        offs.len() - 1
    } else {
        line_of_offset(offs.drop_last(), offset)
    }
}

/// The line of an offset is a line of the table, and it starts at or
/// before the offset.
pub proof fn lemma_line_of_offset_bounds(offs: Seq<usize>, offset: int)
    requires
        offs.len() >= 1,
        offs[0] <= offset,
    ensures
        0 <= line_of_offset(offs, offset) < offs.len(),
        offs[line_of_offset(offs, offset)] <= offset,
    decreases offs.len(),
{
    if offs.len() > 1 && offs[offs.len() - 1] > offset {
        lemma_line_of_offset_bounds(offs.drop_last(), offset);
    }
}

proof fn lemma_line_of_offset(offs: Seq<usize>, offset: int, r: int)
    requires
        sorted(offs),
        0 <= r < offs.len(),
        offs[r] <= offset,
        r + 1 == offs.len() || offs[r + 1] > offset,
    ensures
        line_of_offset(offs, offset) == r,
    decreases offs.len(),
{
    if offs.len() > 1 && r < offs.len() - 1 {
        assert(offs[offs.len() - 1] >= offs[r + 1]);
        lemma_line_of_offset(offs.drop_last(), offset, r);
    }
}

impl LineMap {
    /// The line that contains the byte `offset`.
    pub fn get_line_with_offset(&self, offset: usize) -> (line: usize)
        requires
            self.byte_offsets@.len() >= 1,
            sorted(self.byte_offsets@),
            self.byte_offsets@[0] <= offset,
        ensures
            line < self.byte_offsets@.len(),
            self.byte_offsets@[line as int] <= offset,
            line + 1 == self.byte_offsets@.len() || self.byte_offsets@[line + 1] > offset,
            line == line_of_offset(self.byte_offsets@, offset as int),
    {
        let mut left: usize = 0;
        let mut right: usize = self.byte_offsets.len();

        while left < right
            invariant
                left <= right <= self.byte_offsets@.len(),
                self.byte_offsets@.len() >= 1,
                sorted(self.byte_offsets@),
                self.byte_offsets@[0] <= offset,
                forall|k: int| 0 <= k < left ==> #[trigger] self.byte_offsets@[k] <= offset,
                forall|k: int| right <= k < self.byte_offsets@.len() ==> #[trigger] self.byte_offsets@[k] > offset,
            decreases right - left,
        {
            assert(left <= (left >> 1) + (right >> 1) < right) by (bit_vector)
                requires
                    left < right,
            ;
            let idx = (left >> 1) + (right >> 1);
            if self.byte_offsets[idx] > offset {
                right = idx;
            } else {
                left = idx + 1;
            }
        }
        assert(right > 0);
        let line = right - 1;
        proof {
            lemma_line_of_offset(self.byte_offsets@, offset as int, line as int);
        }
        line
    }
}

/// A character that breaks a line on its own: `\n` or `\r`.
pub open spec fn is_eol_char(c: char) -> bool {
    c == '\n' || c == '\r'
}

/// The number of line breaks in `s` from index `i` on; `\r\n` counts once.
pub open spec fn eol_count_from(s: Seq<char>, i: int) -> nat
    decreases s.len() - i,
{
    if i < 0 || i >= s.len() {
        0
    } else if s[i] == '\r' && i + 1 < s.len() && s[i + 1] == '\n' {
        1 + eol_count_from(s, i + 2)
    } else if is_eol_char(s[i]) {
        1 + eol_count_from(s, i + 1)
    } else {
        eol_count_from(s, i + 1)
    }
}

/// The number of line breaks in `s`: `\n`, `\r` and `\r\n`, the last
/// counting once.
pub open spec fn eol_count(s: Seq<char>) -> nat {
    eol_count_from(s, 0)
}

/// Scanning the rest of a text without a cutoff adds one line per line
/// break; the last line has no last-character offset exactly where the text
/// ends with a line break.
proof fn lemma_scan_count(
    s: Seq<char>,
    bias: int,
    cutoff: int,
    i: int,
    offs: Seq<usize>,
    maxs: Seq<Option<u32>>,
    nb: int,
    units: int,
)
    requires
        0 <= i <= s.len(),
        cutoff >= byte_len(s),
        offs.len() == maxs.len(),
        maxs.len() >= 1,
    ensures
        ({
            let r = scan_lines(s, bias, cutoff, i, offs, maxs, nb, units, false);
            &&& r.0.len() == offs.len() + eol_count_from(s, i)
            &&& r.1.len() == maxs.len() + eol_count_from(s, i)
            &&& i < s.len() ==> (r.1.last() is None <==> is_eol_char(s.last()))
            &&& i == s.len() ==> r.1 == maxs
        }),
    decreases s.len() - i,
{
    if i < s.len() {
        lemma_byte_pos_strict(s, i, s.len() as int);
        lemma_byte_pos_full(s);
        let c = s[i];
        let maxs1 = maxs.update(maxs.len() - 1, Some(units as u32));
        let off = byte_pos(s, i) as int;
        if c == '\r' && i + 1 < s.len() && s[i + 1] == '\n' {
            let o2 = offs.push((bias + off + 2) as usize);
            let m2 = maxs1.push(None);
            lemma_scan_count(s, bias, cutoff, i + 2, o2, m2, nb + utf8_width(c) + 1, 0);
        } else if is_eol_char(c) {
            let o2 = offs.push((bias + off + 1) as usize);
            let m2 = maxs1.push(None);
            lemma_scan_count(s, bias, cutoff, i + 1, o2, m2, nb + utf8_width(c), 0);
        } else {
            lemma_scan_count(s, bias, cutoff, i + 1, offs, maxs1, nb + utf8_width(c), units + utf16_width(c));
        }
    }
}

/// Without a cutoff inside the text, the line table has one line more than
/// the text has line breaks (`\n`, `\r`, `\r\n`), and its last line has no
/// last-character offset exactly where the text is empty or ends with a line
/// break.
pub proof fn law_line_count(s: Seq<char>, bias: int, cutoff: int)
    requires
        cutoff >= byte_len(s),
    ensures
        line_table(s, bias, cutoff).0.len() == 1 + eol_count(s),
        line_table(s, bias, cutoff).1.len() == 1 + eol_count(s),
        line_table(s, bias, cutoff).1.last() is None <==> (s.len() == 0 || is_eol_char(s.last())),
{
    lemma_scan_count(s, bias, cutoff, 0, seq![bias as usize], seq![None], 0, 0);
}


/// `s` with every `\n` replaced by `\r`.
pub open spec fn lf_to_cr(s: Seq<char>) -> Seq<char> {
    Seq::new(s.len(), |i: int| if s[i] == '\n' { '\r' } else { s[i] })
}

/// Texts whose characters have the same UTF-8 widths have the same length
/// in bytes.
proof fn lemma_byte_len_same_widths(a: Seq<char>, b: Seq<char>)
    requires
        a.len() == b.len(),
        forall|k: int| 0 <= k < a.len() ==> utf8_width(#[trigger] a[k]) == utf8_width(b[k]),
    ensures
        byte_len(a) == byte_len(b),
    decreases a.len(),
{
    if a.len() > 0 {
        lemma_byte_len_same_widths(a.drop_last(), b.drop_last());
    }
}

/// Scanning a text with `\r` in place of `\n` goes through the same states.
proof fn lemma_scan_cr(
    s: Seq<char>,
    bias: int,
    cutoff: int,
    i: int,
    offs: Seq<usize>,
    maxs: Seq<Option<u32>>,
    nb: int,
    units: int,
    stop: bool,
)
    requires
        0 <= i <= s.len(),
        forall|k: int| 0 <= k < s.len() ==> #[trigger] s[k] != '\r',
    ensures
        scan_lines(lf_to_cr(s), bias, cutoff, i, offs, maxs, nb, units, stop) == scan_lines(
            s,
            bias,
            cutoff,
            i,
            offs,
            maxs,
            nb,
            units,
            stop,
        ),
    decreases s.len() - i,
{
    let t = lf_to_cr(s);
    if i < s.len() {
        assert(t.take(i).len() == s.take(i).len());
        assert forall|k: int| 0 <= k < t.take(i).len() implies utf8_width(#[trigger] t.take(i)[k]) == utf8_width(s.take(i)[k]) by {
            assert(t.take(i)[k] == t[k]);
            assert(s.take(i)[k] == s[k]);
        }
        lemma_byte_len_same_widths(t.take(i), s.take(i));
        assert(byte_pos(t, i) == byte_pos(s, i));
        let c = s[i];
        let off = byte_pos(s, i) as int;
        let maxs1 = maxs.update(maxs.len() - 1, Some(units as u32));
        let stop1 = stop || off >= cutoff;
        if i + 1 < s.len() {
            assert(t[i + 1] != '\n');
        }
        if c == '\n' {
            assert(t[i] == '\r');
            lemma_scan_cr(s, bias, cutoff, i + 1, offs.push((bias + off + 1) as usize), maxs1.push(None), nb + 1, 0, stop1);
        } else {
            assert(t[i] == c);
            lemma_scan_cr(s, bias, cutoff, i + 1, offs, maxs1, nb + utf8_width(c), units + utf16_width(c), stop1);
        }
    }
}

/// A text whose lines end with `\n` and the same text with `\r` in their
/// place have the same line table.
pub proof fn law_cr_same_as_lf(s: Seq<char>, bias: int, cutoff: int)
    requires
        forall|k: int| 0 <= k < s.len() ==> #[trigger] s[k] != '\r',
    ensures
        line_table(lf_to_cr(s), bias, cutoff) == line_table(s, bias, cutoff),
{
    lemma_scan_cr(s, bias, cutoff, 0, seq![bias as usize], seq![None], 0, 0, false);
}


/// `s` with every `\n` replaced by `\r\n`.
pub open spec fn lf_to_crlf(s: Seq<char>) -> Seq<char>
    decreases s.len(),
{
    if s.len() == 0 {
        Seq::empty()
    } else {
        (if s[0] == '\n' { seq!['\r', '\n'] } else { seq![s[0]] }) + lf_to_crlf(s.drop_first())
    }
}

/// Scanning a text with `\r\n` in place of `\n` (without a cutoff) goes
/// through the same line ends: the same last-character offsets, each line
/// start later by one byte per line break before it, and one more byte per
/// line break consumed.
proof fn lemma_scan_crlf(
    s: Seq<char>,
    t: Seq<char>,
    bias: int,
    cutoff: int,
    i: int,
    j: int,
    offs_s: Seq<usize>,
    offs_t: Seq<usize>,
    maxs: Seq<Option<u32>>,
    nb_s: int,
    nb_t: int,
    units: int,
)
    requires
        forall|k: int| 0 <= k < s.len() ==> #[trigger] s[k] != '\r',
        0 <= i <= s.len(),
        0 <= j <= t.len(),
        t.skip(j) == lf_to_crlf(s.skip(i)),
        cutoff >= byte_len(s),
        cutoff >= byte_len(t),
        bias >= 0,
        bias + byte_len(t) <= usize::MAX,
        byte_pos(t, j) == byte_pos(s, i) + offs_s.len() - 1,
        offs_s.len() == offs_t.len(),
        offs_s.len() >= 1,
        maxs.len() >= 1,
        forall|k: int| 0 <= k < offs_s.len() ==> #[trigger] offs_t[k] == offs_s[k] + k,
        nb_t == nb_s + offs_s.len() - 1,
    ensures
        ({
            let rs = scan_lines(s, bias, cutoff, i, offs_s, maxs, nb_s, units, false);
            let rt = scan_lines(t, bias, cutoff, j, offs_t, maxs, nb_t, units, false);
            &&& rt.1 == rs.1
            &&& rt.0.len() == rs.0.len()
            &&& forall|k: int| 0 <= k < rs.0.len() ==> #[trigger] rt.0[k] == rs.0[k] + k
            &&& rt.2 == rs.2 + rs.0.len() - 1
        }),
    decreases s.len() - i,
{
    let rest = s.skip(i);
    if i == s.len() {
        assert(rest.len() == 0);
        assert(t.skip(j).len() == 0);
    } else {
        assert(rest[0] == s[i]);
        assert(rest.drop_first() =~= s.skip(i + 1));
        let head = if s[i] == '\n' { seq!['\r', '\n'] } else { seq![s[i]] };
        assert(t.skip(j) == head + lf_to_crlf(s.skip(i + 1)));
        assert(t.skip(j)[0] == t[j]);
        lemma_byte_pos_strict(s, i, s.len() as int);
        lemma_byte_pos_full(s);
        lemma_byte_pos_strict(t, j, t.len() as int);
        lemma_byte_pos_full(t);
        lemma_byte_pos_step(s, i);
        lemma_byte_pos_step(t, j);
        let off_s = byte_pos(s, i) as int;
        let off_t = byte_pos(t, j) as int;
        let maxs1 = maxs.update(maxs.len() - 1, Some(units as u32));
        if s[i] == '\n' {
            assert(t[j] == '\r');
            assert(t.skip(j)[1] == t[j + 1]);
            assert(t[j + 1] == '\n');
            assert(j + 1 < t.len());
            lemma_byte_pos_step(t, j + 1);
            assert(t.skip(j + 2) =~= t.skip(j).skip(2));
            assert(t.skip(j).skip(2) =~= lf_to_crlf(s.skip(i + 1)));
            let os2 = offs_s.push((bias + off_s + 1) as usize);
            let ot2 = offs_t.push((bias + off_t + 2) as usize);
            assert(off_t + 2 <= byte_len(t)) by {
                lemma_byte_pos_mono(t, j + 2, t.len() as int);
            }
            assert forall|k: int| 0 <= k < os2.len() implies #[trigger] ot2[k] == os2[k] + k by {
                if k < offs_s.len() {
                    assert(ot2[k] == offs_t[k] && os2[k] == offs_s[k]);
                }
            }
            lemma_scan_crlf(s, t, bias, cutoff, i + 1, j + 2, os2, ot2, maxs1.push(None), nb_s + 1, nb_t + 2, 0);
        } else {
            assert(t[j] == s[i]);
            assert(t.skip(j + 1) =~= t.skip(j).skip(1));
            assert(t.skip(j).skip(1) =~= lf_to_crlf(s.skip(i + 1)));
            lemma_scan_crlf(
                s,
                t,
                bias,
                cutoff,
                i + 1,
                j + 1,
                offs_s,
                offs_t,
                maxs1,
                nb_s + utf8_width(s[i]),
                nb_t + utf8_width(s[i]),
                units + utf16_width(s[i]),
            );
        }
    }
}

/// A text whose lines end with `\n` and the same text with `\r\n` in their
/// place have, without a cutoff, the same last-character offsets; line `k`
/// starts `k` bytes later, and `k` is the number of line breaks before it.
pub proof fn law_crlf_same_lines_as_lf(s: Seq<char>, bias: int, cutoff: int)
    requires
        forall|k: int| 0 <= k < s.len() ==> #[trigger] s[k] != '\r',
        cutoff >= byte_len(s),
        cutoff >= byte_len(lf_to_crlf(s)),
        bias >= 0,
        bias + byte_len(lf_to_crlf(s)) <= usize::MAX,
    ensures
        ({
            let a = line_table(s, bias, cutoff);
            let b = line_table(lf_to_crlf(s), bias, cutoff);
            &&& b.1 == a.1
            &&& b.0.len() == a.0.len()
            &&& forall|k: int| 0 <= k < a.0.len() ==> #[trigger] b.0[k] == a.0[k] + k
            &&& b.2 == a.2 + eol_count(s)
        }),
{
    let t = lf_to_crlf(s);
    assert(s.skip(0) =~= s);
    assert(t.skip(0) =~= t);
    assert(s.take(0) =~= Seq::<char>::empty());
    assert(t.take(0) =~= Seq::<char>::empty());
    lemma_scan_crlf(s, t, bias, cutoff, 0, 0, seq![bias as usize], seq![bias as usize], seq![None], 0, 0, 0);
    lemma_scan_count(s, bias, cutoff, 0, seq![bias as usize], seq![None], 0, 0);
}


/// The character indices just after each line break in `s` from index `i`
/// on; `\r\n` is one line break.
pub open spec fn eol_ends_from(s: Seq<char>, i: int) -> Seq<int>
    decreases s.len() - i,
{
    if i < 0 || i >= s.len() {
        Seq::empty()
    } else if s[i] == '\r' && i + 1 < s.len() && s[i + 1] == '\n' {
        seq![i + 2] + eol_ends_from(s, i + 2)
    } else if is_eol_char(s[i]) {
        seq![i + 1] + eol_ends_from(s, i + 1)
    } else {
        eol_ends_from(s, i + 1)
    }
}

proof fn lemma_scan_starts(
    s: Seq<char>,
    bias: int,
    cutoff: int,
    i: int,
    offs: Seq<usize>,
    maxs: Seq<Option<u32>>,
    nb: int,
    units: int,
)
    requires
        0 <= i <= s.len(),
        cutoff >= byte_len(s),
        bias >= 0,
        bias + byte_len(s) <= usize::MAX,
        maxs.len() >= 1,
    ensures
        ({
            let r = scan_lines(s, bias, cutoff, i, offs, maxs, nb, units, false);
            let ends = eol_ends_from(s, i);
            &&& r.0.len() == offs.len() + ends.len()
            &&& r.0.take(offs.len() as int) == offs
            &&& forall|k: int| 0 <= k < ends.len() ==> #[trigger] r.0[offs.len() + k] == bias + byte_pos(s, ends[k])
        }),
    decreases s.len() - i,
{
    if i < s.len() {
        lemma_byte_pos_strict(s, i, s.len() as int);
        lemma_byte_pos_full(s);
        lemma_byte_pos_step(s, i);
        let c = s[i];
        let maxs1 = maxs.update(maxs.len() - 1, Some(units as u32));
        let off = byte_pos(s, i) as int;
        if c == '\r' && i + 1 < s.len() && s[i + 1] == '\n' {
            lemma_byte_pos_step(s, i + 1);
            lemma_byte_pos_mono(s, i + 2, s.len() as int);
            let o2 = offs.push((bias + off + 2) as usize);
            lemma_scan_starts(s, bias, cutoff, i + 2, o2, maxs1.push(None), nb + utf8_width(c) + 1, 0);
            let r = scan_lines(s, bias, cutoff, i, offs, maxs, nb, units, false);
            let ends = eol_ends_from(s, i);
            let rest = eol_ends_from(s, i + 2);
            assert(ends == seq![i + 2] + rest);
            assert(r.0.take(o2.len() as int) == o2);
            assert(r.0.take(offs.len() as int) =~= o2.take(offs.len() as int));
            assert(o2.take(offs.len() as int) =~= offs);
            assert forall|k: int| 0 <= k < ends.len() implies #[trigger] r.0[offs.len() + k] == bias + byte_pos(s, ends[k]) by {
                if k == 0 {
                    assert(r.0[offs.len() as int] == r.0.take(o2.len() as int)[offs.len() as int]);
                } else {
                    assert(ends[k] == rest[k - 1]);
                    assert(r.0[o2.len() + (k - 1)] == bias + byte_pos(s, rest[k - 1]));
                }
            }
        } else if is_eol_char(c) {
            lemma_byte_pos_mono(s, i + 1, s.len() as int);
            let o2 = offs.push((bias + off + 1) as usize);
            lemma_scan_starts(s, bias, cutoff, i + 1, o2, maxs1.push(None), nb + utf8_width(c), 0);
            let r = scan_lines(s, bias, cutoff, i, offs, maxs, nb, units, false);
            let ends = eol_ends_from(s, i);
            let rest = eol_ends_from(s, i + 1);
            assert(ends == seq![i + 1] + rest);
            assert(r.0.take(o2.len() as int) == o2);
            assert(r.0.take(offs.len() as int) =~= o2.take(offs.len() as int));
            assert(o2.take(offs.len() as int) =~= offs);
            assert forall|k: int| 0 <= k < ends.len() implies #[trigger] r.0[offs.len() + k] == bias + byte_pos(s, ends[k]) by {
                if k == 0 {
                    assert(r.0[offs.len() as int] == r.0.take(o2.len() as int)[offs.len() as int]);
                } else {
                    assert(ends[k] == rest[k - 1]);
                    assert(r.0[o2.len() + (k - 1)] == bias + byte_pos(s, rest[k - 1]));
                }
            }
        } else {
            lemma_scan_starts(s, bias, cutoff, i + 1, offs, maxs1, nb + utf8_width(c), units + utf16_width(c));
        }
    } else {
        let r = scan_lines(s, bias, cutoff, i, offs, maxs, nb, units, false);
        assert(r.0.take(offs.len() as int) =~= offs);
    }
}

/// Without a cutoff inside the text, the first line starts at `bias` and
/// every further line starts right after a line break: line `k + 1` starts
/// `bias` plus the bytes of the text up to and including its `k`-th line
/// break (`\r\n` counting as one).
pub proof fn law_line_starts(s: Seq<char>, bias: int, cutoff: int)
    requires
        cutoff >= byte_len(s),
        bias >= 0,
        bias + byte_len(s) <= usize::MAX,
    ensures
        line_table(s, bias, cutoff).0[0] == bias,
        line_table(s, bias, cutoff).0.len() == 1 + eol_ends_from(s, 0).len(),
        forall|k: int| 0 <= k < eol_ends_from(s, 0).len() ==> #[trigger] line_table(s, bias, cutoff).0[k + 1] == bias
            + byte_pos(s, eol_ends_from(s, 0)[k]),
{
    let offs = seq![bias as usize];
    lemma_scan_starts(s, bias, cutoff, 0, offs, seq![None], 0, 0);
    let r = line_table(s, bias, cutoff);
    assert(r.0.take(1) == offs);
    assert(r.0[0] == r.0.take(1)[0]);
    assert forall|k: int| 0 <= k < eol_ends_from(s, 0).len() implies #[trigger] r.0[k + 1] == bias + byte_pos(s, eol_ends_from(s, 0)[k]) by {
        assert(r.0[offs.len() + k] == bias + byte_pos(s, eol_ends_from(s, 0)[k]));
    }
}


} // verus!
