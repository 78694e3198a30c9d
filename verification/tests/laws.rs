use t32_language_server::linemap::create_line_map_for_text;
use t32_language_server::protocol::{Position, Range};
use t32_language_server::semantic::{flatten_semantic_tokens, SemanticToken};

fn tok(start: u32, end: u32, token_type: u32) -> SemanticToken {
    SemanticToken {
        span: Range {
            start: Position { line: 0, character: start },
            end: Position { line: 0, character: end },
        },
        token_type,
        modifier: 0,
    }
}

#[test]
fn line_count_is_one_more_than_line_breaks() {
    let map = create_line_map_for_text("a\nb\r\nc\rd", None, None);
    assert_eq!(map.byte_offsets, vec![0, 2, 5, 7]);
    assert_eq!(map.max_utf16_char_offset, vec![Some(1), Some(1), Some(1), Some(0)]);

    let map = create_line_map_for_text("x\n", None, None);
    assert_eq!(map.byte_offsets.len(), 2);
    assert_eq!(map.max_utf16_char_offset.last(), Some(&None));

    let map = create_line_map_for_text("", None, None);
    assert_eq!(map.byte_offsets, vec![0]);
    assert_eq!(map.max_utf16_char_offset, vec![None]);
}

#[test]
fn cr_text_has_same_table_as_lf_text() {
    let lf = "Line 1\nLine \u{1F680}\n\nline \u{263}\n";
    let cr = lf.replace('\n', "\r");
    assert_eq!(
        create_line_map_for_text(lf, None, None),
        create_line_map_for_text(&cr, None, None)
    );
}

#[test]
fn flattened_nested_tokens_do_not_overlap() {
    let tokens = vec![tok(0, 10, 1), tok(2, 4, 2), tok(6, 8, 3), tok(12, 14, 4)];
    let flat = flatten_semantic_tokens(tokens);
    assert_eq!(
        flat,
        vec![tok(0, 2, 1), tok(2, 4, 2), tok(4, 6, 1), tok(6, 8, 3), tok(8, 10, 1), tok(12, 14, 4)]
    );
    for pair in flat.windows(2) {
        assert!(pair[0].span.end.character <= pair[1].span.start.character);
    }
}

#[test]
fn crlf_text_has_same_line_ends_as_lf_text() {
    let lf = "Line 1\nLine \u{1F680}\n\nline \u{263}\n";
    let crlf = lf.replace('\n', "\r\n");
    let a = create_line_map_for_text(lf, None, None);
    let b = create_line_map_for_text(&crlf, None, None);
    assert_eq!(a.max_utf16_char_offset, b.max_utf16_char_offset);
    assert_eq!(a.byte_offsets.len(), b.byte_offsets.len());
    for (k, (x, y)) in a.byte_offsets.iter().zip(b.byte_offsets.iter()).enumerate() {
        assert_eq!(*y, *x + k);
    }
    assert_eq!(b.num_bytes, a.num_bytes + 4);
}

#[test]
fn flattening_needs_parents_before_children() {
    // A parent that starts with its child but is listed after it: the part
    // of the parent before its next child is taken from the parent's start,
    // and overlaps the child's part.
    let tokens = vec![tok(0, 2, 1), tok(0, 10, 2), tok(3, 4, 3)];
    let flat = flatten_semantic_tokens(tokens);
    assert_eq!(flat, vec![tok(0, 2, 1), tok(0, 3, 2), tok(3, 4, 3), tok(4, 10, 2)]);
}

#[test]
fn flattening_overlaps_for_a_parent_listed_after_its_child() {
    // Sorted by start, with a parent listed after its child of the same
    // start, inside a grandparent: the parent's part is taken from its start
    // again and overlaps the child's part.
    let tokens = vec![tok(0, 20, 1), tok(0, 2, 2), tok(0, 10, 3)];
    let flat = flatten_semantic_tokens(tokens);
    assert_eq!(flat, vec![tok(0, 2, 2), tok(0, 10, 3), tok(10, 20, 1)]);
}

#[test]
fn lines_start_right_after_line_breaks() {
    let map = create_line_map_for_text("ab\r\nc\nd\re", Some(10), None);
    assert_eq!(map.byte_offsets, vec![10, 14, 16, 18]);
}
