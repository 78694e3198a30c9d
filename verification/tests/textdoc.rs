use t32_language_server::linemap::{create_line_map_for_text, LineMap};
use t32_language_server::protocol::{Position, Range};
use t32_language_server::textdoc::{InputEdit, Point, TextDoc, LANGUAGE_ID};

#[test]
fn uses_bytes_and_utf16_code_units_for_offsets() {
    let text = "a𐐀b";

    let map = create_line_map_for_text(&text, None, None);
    assert_eq!(
        map,
        LineMap {
            byte_offsets: vec![0],
            max_utf16_char_offset: vec![Some(3)],
            num_bytes: text.len(),
        }
    );
}

#[test]
fn can_calculate_offsets_for_all_eol_variants() {
    let text = "Line 1\nLine 🚀\nline ɣ\n";

    let map = create_line_map_for_text(&text, None, None);
    assert_eq!(
        map,
        LineMap {
            byte_offsets: vec![
                0,
                "Line 1\n".len(),
                "Line 1\nLine 🚀\n".len(),
                "Line 1\nLine 🚀\nline ɣ\n".len()
            ],
            max_utf16_char_offset: vec![Some(6), Some(7), Some(6), None],
            num_bytes: text.len(),
        }
    );

    let text = "Line 1\rLine 🚀\rline ɣ\r";

    let map = create_line_map_for_text(&text, None, None);
    assert_eq!(
        map,
        LineMap {
            byte_offsets: vec![
                0,
                "Line 1\r".len(),
                "Line 1\rLine 🚀\r".len(),
                "Line 1\rLine 🚀\nline ɣ\r".len()
            ],
            max_utf16_char_offset: vec![Some(6), Some(7), Some(6), None],
            num_bytes: text.len(),
        }
    );

    let text = "Line 1\r\nLine 🚀\r\nline ɣ\r\n";

    let map = create_line_map_for_text(&text, None, None);
    assert_eq!(
        map,
        LineMap {
            byte_offsets: vec![
                0,
                "Line 1\r\n".len(),
                "Line 1\r\nLine 🚀\r\n".len(),
                "Line 1\r\nLine 🚀\r\nline ɣ\r\n".len()
            ],
            max_utf16_char_offset: vec![Some(6), Some(7), Some(6), None],
            num_bytes: text.len(),
        }
    );
}

#[test]
fn can_handle_text_not_ending_with_newline() {
    let text = "Line 1\nabcd";

    let map = create_line_map_for_text(&text, None, None);
    assert_eq!(
        map,
        LineMap {
            byte_offsets: vec![0, "Line 1\n".len()],
            max_utf16_char_offset: vec![Some(6), Some(3)],
            num_bytes: text.len(),
        }
    );
}

#[test]
fn can_shift_byte_offset() {
    let text = "Line A\rLine B\rLine C\r";

    let bias = 52;
    let map = create_line_map_for_text(&text, Some(bias), None);
    assert_eq!(
        map,
        LineMap {
            byte_offsets: vec![
                bias,
                bias + "Line A\r".len(),
                bias + "Line A\rLine B\r".len(),
                bias + "Line A\rLine B\nLine C\r".len()
            ],
            max_utf16_char_offset: vec![Some(6), Some(6), Some(6), None],
            num_bytes: text.len(),
        }
    );
}

fn doc(text: &str, version: i64) -> TextDoc {
    let lines = create_line_map_for_text(&text, None, None);
    TextDoc {
        uri: "file:///C:/doc.rs".to_string(),
        lang_id: LANGUAGE_ID.to_string(),
        version,
        text: text.to_string(),
        lines,
    }
}

fn pos(line: u32, character: u32) -> Position {
    Position { line, character }
}

#[test]
fn can_perform_incremenal_text_update() {
    let mut doc = doc("fn test() {}", 1);

    let delta = doc.update(
        Range {
            start: pos(0, 8),
            end: pos(0, 8),
        },
        &"a: u32",
    );

    assert_eq!(
        delta,
        InputEdit {
            start_byte: 8,
            old_end_byte: 8,
            new_end_byte: 14,
            start_position: Point::new(0, 8),
            old_end_position: Point::new(0, 8),
            new_end_position: Point::new(0, 14),
        }
    );
    assert_eq!(doc.text, "fn test(a: u32) {}");

    let mut doc = self::doc("Line 1\r\nLine 2\r\nLine 3\r\n", 2);

    let delta = doc.update(
        Range {
            start: pos(1, 3),
            end: pos(2, 6),
        },
        &"E A\r\nLINEB",
    );
    assert_eq!(
        delta,
        InputEdit {
            start_byte: 11,
            old_end_byte: 22,
            new_end_byte: 21,
            start_position: Point::new(1, 3),
            old_end_position: Point::new(2, 6),
            new_end_position: Point::new(2, 5),
        }
    );
    assert_eq!(doc.text, "Line 1\r\nLinE A\r\nLINEB\r\n");

    let mut doc = self::doc("Line 1\nLine 2\nLine 3\n", 3);

    let delta = doc.update(
        Range {
            start: pos(0, 0),
            end: pos(0, 1),
        },
        &"new line\n",
    );
    assert_eq!(
        delta,
        InputEdit {
            start_byte: 0,
            old_end_byte: 1,
            new_end_byte: 9,
            start_position: Point::new(0, 0),
            old_end_position: Point::new(0, 1),
            new_end_position: Point::new(1, 0),
        }
    );
    assert_eq!(doc.text, "new line\nine 1\nLine 2\nLine 3\n");

    let mut doc = self::doc("Line 1\nLine 2\nLine 3\n", 4);

    let delta = doc.update(
        Range {
            start: pos(2, 6),
            end: pos(2, 7),
        },
        &"NEW LINE\n",
    );
    assert_eq!(
        delta,
        InputEdit {
            start_byte: 20,
            old_end_byte: 21,
            new_end_byte: 29,
            start_position: Point::new(2, 6),
            old_end_position: Point::new(3, 0),
            new_end_position: Point::new(3, 0),
        }
    );
    assert_eq!(doc.text, "Line 1\nLine 2\nLine 3NEW LINE\n");
}

#[test]
fn can_handle_edits_that_append_text() {
    let mut doc = doc("a𐐀b", 1);

    let delta = doc.update(
        Range {
            start: pos(0, 4),
            end: pos(0, 4),
        },
        &"#NEW LINE",
    );
    assert_eq!(
        delta,
        InputEdit {
            start_byte: 6,
            old_end_byte: 6,
            new_end_byte: "a𐐀b#NEW LINE".len(),
            start_position: Point::new(0, "a𐐀b".len()),
            old_end_position: Point::new(0, "a𐐀b".len()),
            new_end_position: Point::new(0, "a𐐀b#NEW LINE".len()),
        }
    );
    assert_eq!(doc.text, "a𐐀b#NEW LINE");
}

#[test]
fn can_handle_edits_that_prepend_text() {
    let mut doc = doc("a𐐀b", 1);

    let delta = doc.update(
        Range {
            start: pos(0, 0),
            end: pos(0, 0),
        },
        &"NEW LINE#",
    );
    assert_eq!(
        delta,
        InputEdit {
            start_byte: 0,
            old_end_byte: 0,
            new_end_byte: "NEW LINE#".len(),
            start_position: Point::new(0, 0),
            old_end_position: Point::new(0, 0),
            new_end_position: Point::new(0, "NEW LINE#".len()),
        }
    );
    assert_eq!(doc.text, "NEW LINE#a𐐀b");
}

#[test]
fn can_handle_edits_that_remove_text() {
    let mut doc = doc(
        "𝕿𝖍𝖎𝖘 𝖎𝖘 𝖆 𝖑𝖆𝖓𝖌𝖚𝖆𝖌𝖊 𝖘𝖊𝖗𝖛𝖊𝖗.\nIƚ ιʂ ϝσɾ PRACTICE.\n",
        1,
    );

    let delta = doc.update(
        Range {
            start: pos(
                0,
                "𝕿𝖍𝖎𝖘 𝖎𝖘 𝖆 𝖑𝖆𝖓𝖌𝖚𝖆𝖌𝖊 𝖘𝖊𝖗𝖛𝖊𝖗."
                    .chars()
                    .map(|ch| ch.len_utf16())
                    .sum::<usize>() as u32,
            ),
            end: pos(
                1,
                "Iƚ ιʂ ϝσɾ PRACTICE.\n"
                    .chars()
                    .map(|ch| ch.len_utf16())
                    .sum::<usize>() as u32
                    + 4,
            ),
        },
        &"",
    );

    assert_eq!(
        delta,
        InputEdit {
            start_byte: "𝕿𝖍𝖎𝖘 𝖎𝖘 𝖆 𝖑𝖆𝖓𝖌𝖚𝖆𝖌𝖊 𝖘𝖊𝖗𝖛𝖊𝖗.".len(),
            old_end_byte: "𝕿𝖍𝖎𝖘 𝖎𝖘 𝖆 𝖑𝖆𝖓𝖌𝖚𝖆𝖌𝖊 𝖘𝖊𝖗𝖛𝖊𝖗.\nIƚ ιʂ ϝσɾ PRACTICE.\n".len(),
            new_end_byte: "𝕿𝖍𝖎𝖘 𝖎𝖘 𝖆 𝖑𝖆𝖓𝖌𝖚𝖆𝖌𝖊 𝖘𝖊𝖗𝖛𝖊𝖗.".len(),
            start_position: Point::new(0, "𝕿𝖍𝖎𝖘 𝖎𝖘 𝖆 𝖑𝖆𝖓𝖌𝖚𝖆𝖌𝖊 𝖘𝖊𝖗𝖛𝖊𝖗.".len()),
            old_end_position: Point::new(2, 0),
            new_end_position: Point::new(0, "𝕿𝖍𝖎𝖘 𝖎𝖘 𝖆 𝖑𝖆𝖓𝖌𝖚𝖆𝖌𝖊 𝖘𝖊𝖗𝖛𝖊𝖗.".len()),
        }
    );
    assert_eq!(doc.text, "𝕿𝖍𝖎𝖘 𝖎𝖘 𝖆 𝖑𝖆𝖓𝖌𝖚𝖆𝖌𝖊 𝖘𝖊𝖗𝖛𝖊𝖗.");
}

#[test]
fn can_deal_with_malformed_ranges() {
    let mut doc = doc(
        "Sed ut perspiciatis unde omnis iste natus error sit voluptatem accusantium doloremque laudantium,\ntotam rem aperiam,\neaque ipsa quae ab illo inventore veritatis et quasi architecto beatae vitae dicta sunt explicabo.",
        1,
    );

    let delta = doc.update(
        Range {
            start: pos(1, 3),
            end: pos(0, 0),
        },
        &"Lorem Ipsum#",
    );
    assert_eq!(
        delta,
        InputEdit {
            start_byte: 0,
            old_end_byte: "Sed ut perspiciatis unde omnis iste natus error sit voluptatem accusantium doloremque laudantium,\ntot".len(),
            new_end_byte: "Lorem Ipsum#".len(),
            start_position: Point::new(0, 0),
            old_end_position: Point::new(1, 3),
            new_end_position: Point::new(0, "Lorem Ipsum#".len()),
        }
    );
    assert_eq!(
        doc.text,
        "Lorem Ipsum#am rem aperiam,\neaque ipsa quae ab illo inventore veritatis et quasi architecto beatae vitae dicta sunt explicabo."
    );
}
