use swim::document::{DOC_LINES, LINE_CAPACITY};
use swim::editor::TextEditor;
use swim::screen::{Color, ColorCode};
use swim::text::ByteString;
use swim::window::Window;

fn editor_in(w: usize, h: usize) -> TextEditor {
    TextEditor::new(Window::new(0, 0, w, h), ByteString::from_bytes(b"notes"))
}

fn type_text(editor: &mut TextEditor, text: &str) {
    for c in text.chars() {
        if c == '\n' {
            editor.newline();
        } else {
            editor.insert_char(c);
        }
    }
}

fn line_text(editor: &TextEditor, i: usize) -> String {
    editor.line(i).into_iter().collect()
}

fn all_lines(editor: &TextEditor) -> Vec<String> {
    (0..DOC_LINES).map(|i| line_text(editor, i)).collect()
}

#[test]
fn new_editor_is_empty() {
    let editor = editor_in(10, 5);
    for i in 0..DOC_LINES {
        assert_eq!(line_text(&editor, i), "");
    }
    assert_eq!(editor.cursor_line(), 0);
    assert_eq!(editor.cursor_col(), 0);
    assert_eq!(editor.scroll(), 0);
    assert_eq!(editor.filename().to_vec(), b"notes".to_vec());
    assert_eq!(editor.window(), Window::new(0, 0, 10, 5));
}

#[test]
fn insert_newline_insert_gives_two_lines() {
    let mut editor = editor_in(10, 5);
    type_text(&mut editor, "ab");
    editor.newline();
    type_text(&mut editor, "c");
    assert_eq!(line_text(&editor, 0), "ab");
    assert_eq!(line_text(&editor, 1), "c");
    assert_eq!(line_text(&editor, 2), "");
    assert_eq!(editor.cursor_line(), 1);
    assert_eq!(editor.cursor_col(), 1);
}

#[test]
fn backspace_empties_line_and_stops_at_start() {
    let mut editor = editor_in(10, 5);
    type_text(&mut editor, "hello");
    assert_eq!(editor.cursor_col(), 5);
    for _ in 0..5 {
        editor.backspace();
    }
    assert_eq!(line_text(&editor, 0), "");
    assert_eq!(editor.cursor_col(), 0);
    editor.backspace();
    assert_eq!(line_text(&editor, 0), "");
    assert_eq!(editor.cursor_line(), 0);
    assert_eq!(editor.cursor_col(), 0);
}

#[test]
fn insert_in_the_middle_shifts_right() {
    let mut editor = editor_in(10, 5);
    type_text(&mut editor, "acd");
    editor.arrow_left();
    editor.arrow_left();
    editor.insert_char('b');
    assert_eq!(line_text(&editor, 0), "abcd");
    assert_eq!(editor.cursor_col(), 2);
}

#[test]
fn backspace_in_the_middle_shifts_left() {
    let mut editor = editor_in(10, 5);
    type_text(&mut editor, "abxcd");
    editor.arrow_left();
    editor.arrow_left();
    editor.backspace();
    assert_eq!(line_text(&editor, 0), "abcd");
    assert_eq!(editor.cursor_col(), 2);
}

#[test]
fn typing_matches_an_unbounded_string() {
    let mut editor = editor_in(10, 5);
    let mut model = String::new();
    let mut pos = 0usize;
    let script = "abc<<de<f<<<<<<gh<i";
    for c in script.chars() {
        if c == '<' {
            editor.backspace();
            if pos > 0 {
                model.remove(pos - 1);
                pos -= 1;
            }
        } else {
            editor.insert_char(c);
            model.insert(pos, c);
            pos += 1;
        }
        assert_eq!(line_text(&editor, 0), model);
        assert_eq!(editor.cursor_col(), pos);
        assert_eq!(editor.cursor_line(), 0);
    }
    assert_eq!(model, "gi");
}

#[test]
fn full_line_takes_no_more_characters() {
    let mut editor = editor_in(10, 5);
    for _ in 0..LINE_CAPACITY {
        editor.insert_char('x');
    }
    assert_eq!(editor.line(0).len(), 255);
    editor.insert_char('y');
    assert_eq!(editor.line(0).len(), 255);
    assert_eq!(editor.cursor_col(), 255);
    assert!(editor.line(0).iter().all(|c| *c == 'x'));
}

#[test]
fn newline_splits_at_the_cursor() {
    let mut editor = editor_in(10, 5);
    type_text(&mut editor, "hello world");
    for _ in 0..6 {
        editor.arrow_left();
    }
    editor.newline();
    assert_eq!(line_text(&editor, 0), "hello");
    assert_eq!(line_text(&editor, 1), " world");
    assert_eq!(editor.cursor_line(), 1);
    assert_eq!(editor.cursor_col(), 0);
}

#[test]
fn newline_moves_lower_lines_down() {
    let mut editor = editor_in(10, 5);
    type_text(&mut editor, "one\ntwo\nthree");
    editor.arrow_up();
    editor.arrow_up();
    editor.newline();
    assert_eq!(line_text(&editor, 0), "one");
    assert_eq!(line_text(&editor, 1), "");
    assert_eq!(line_text(&editor, 2), "two");
    assert_eq!(line_text(&editor, 3), "three");
}

#[test]
fn newline_on_last_line_does_nothing() {
    let mut editor = editor_in(10, 5);
    for _ in 0..DOC_LINES - 1 {
        editor.newline();
    }
    assert_eq!(editor.cursor_line(), DOC_LINES - 1);
    type_text(&mut editor, "end");
    editor.newline();
    assert_eq!(editor.cursor_line(), DOC_LINES - 1);
    assert_eq!(editor.cursor_col(), 3);
    assert_eq!(line_text(&editor, DOC_LINES - 1), "end");
}

#[test]
fn newline_in_a_full_document_drops_the_last_line() {
    let mut editor = editor_in(10, 5);
    for i in 0..DOC_LINES {
        editor.insert_char((b'a' + (i % 26) as u8) as char);
        editor.newline();
    }
    assert_eq!(line_text(&editor, DOC_LINES - 1), "l");
    assert_eq!(line_text(&editor, DOC_LINES - 2), "k");
    for _ in 0..DOC_LINES {
        editor.arrow_up();
    }
    assert_eq!((editor.cursor_line(), editor.cursor_col()), (0, 1));
    editor.newline();
    assert_eq!(line_text(&editor, 0), "a");
    assert_eq!(line_text(&editor, 1), "");
    assert_eq!(line_text(&editor, 2), "b");
    // what was the last line is gone
    assert_eq!(line_text(&editor, DOC_LINES - 1), "k");
    assert_eq!(editor.cursor_line(), 1);
}

#[test]
fn backspace_at_line_start_joins_lines() {
    let mut editor = editor_in(10, 5);
    type_text(&mut editor, "ab\ncd\nef");
    editor.arrow_up();
    editor.arrow_left();
    editor.arrow_left();
    assert_eq!((editor.cursor_line(), editor.cursor_col()), (1, 0));
    editor.backspace();
    assert_eq!(line_text(&editor, 0), "abcd");
    assert_eq!(line_text(&editor, 1), "ef");
    assert_eq!(line_text(&editor, 2), "");
    assert_eq!((editor.cursor_line(), editor.cursor_col()), (0, 2));
}

#[test]
fn joining_lines_drops_what_does_not_fit() {
    let mut editor = editor_in(10, 5);
    for _ in 0..200 {
        editor.insert_char('a');
    }
    editor.newline();
    for _ in 0..100 {
        editor.insert_char('b');
    }
    for _ in 0..100 {
        editor.arrow_left();
    }
    editor.backspace();
    let joined = editor.line(0);
    assert_eq!(joined.len(), 255);
    assert!(joined[..200].iter().all(|c| *c == 'a'));
    assert!(joined[200..].iter().all(|c| *c == 'b'));
    assert_eq!(line_text(&editor, 1), "");
    assert_eq!((editor.cursor_line(), editor.cursor_col()), (0, 200));
}

#[test]
fn arrows_wrap_between_lines() {
    let mut editor = editor_in(10, 5);
    type_text(&mut editor, "ab\ncde");
    editor.arrow_right();
    assert_eq!((editor.cursor_line(), editor.cursor_col()), (2, 0));
    editor.arrow_left();
    assert_eq!((editor.cursor_line(), editor.cursor_col()), (1, 3));
    for _ in 0..3 {
        editor.arrow_left();
    }
    editor.arrow_left();
    assert_eq!((editor.cursor_line(), editor.cursor_col()), (0, 2));
    editor.arrow_left();
    editor.arrow_left();
    editor.arrow_left();
    assert_eq!((editor.cursor_line(), editor.cursor_col()), (0, 0));
}

#[test]
fn arrow_right_stops_at_document_end() {
    let mut editor = editor_in(10, 5);
    for _ in 0..DOC_LINES - 1 {
        editor.arrow_down();
    }
    assert_eq!(editor.cursor_line(), DOC_LINES - 1);
    editor.arrow_right();
    assert_eq!((editor.cursor_line(), editor.cursor_col()), (DOC_LINES - 1, 0));
    editor.arrow_down();
    assert_eq!(editor.cursor_line(), DOC_LINES - 1);
}

#[test]
fn arrow_up_and_down_clamp_the_column() {
    let mut editor = editor_in(10, 5);
    type_text(&mut editor, "a\nlonger\nxy");
    editor.arrow_up();
    assert_eq!((editor.cursor_line(), editor.cursor_col()), (1, 2));
    for _ in 0..4 {
        editor.arrow_right();
    }
    assert_eq!(editor.cursor_col(), 6);
    editor.arrow_up();
    assert_eq!((editor.cursor_line(), editor.cursor_col()), (0, 1));
    editor.arrow_up();
    assert_eq!((editor.cursor_line(), editor.cursor_col()), (0, 1));
    editor.arrow_down();
    editor.arrow_down();
    assert_eq!((editor.cursor_line(), editor.cursor_col()), (2, 1));
}

#[test]
fn cursor_never_passes_the_end_of_its_line() {
    let mut editor = editor_in(7, 3);
    let mut seed: u32 = 12345;
    for _ in 0..5000 {
        seed = seed.wrapping_mul(1664525).wrapping_add(1013904223);
        match (seed >> 16) % 9 {
            0 | 1 | 2 => editor.insert_char((b'a' + ((seed >> 8) % 26) as u8) as char),
            3 => editor.newline(),
            4 => editor.backspace(),
            5 => editor.arrow_left(),
            6 => editor.arrow_right(),
            7 => editor.arrow_up(),
            _ => editor.arrow_down(),
        }
        let line = editor.cursor_line();
        assert!(line < DOC_LINES);
        assert!(editor.cursor_col() <= editor.line(line).len());
        assert!(editor.line(line).len() <= LINE_CAPACITY);
    }
}

#[test]
fn dump_writes_lines_and_trims_trailing_newlines() {
    let mut editor = editor_in(10, 5);
    type_text(&mut editor, "ab\nc");
    let mut buf = [0xeeu8; 100];
    let n = editor.dump(&mut buf);
    assert_eq!(n, 4);
    assert_eq!(&buf[..4], b"ab\nc");
    // every one of the 64 lines went out with its newline byte
    assert_eq!(&buf[4..4 + 63], &[b'\n'; 63][..]);
    assert_eq!(buf[4 + 63], 0xee);
}

#[test]
fn dump_keeps_empty_lines_between_text() {
    let mut editor = editor_in(10, 5);
    type_text(&mut editor, "a\n\n\nb\n\n");
    let mut buf = [0u8; 100];
    let n = editor.dump(&mut buf);
    assert_eq!(&buf[..n], b"a\n\n\nb");
}

#[test]
fn dump_of_empty_document_is_empty() {
    let editor = editor_in(10, 5);
    let mut buf = [0u8; 100];
    assert_eq!(editor.dump(&mut buf), 0);
    assert_eq!(editor.saved(), Vec::<u8>::new());
}

#[test]
fn dump_stops_when_the_buffer_is_full() {
    let mut editor = editor_in(10, 5);
    type_text(&mut editor, "abcdef\ngh");
    let mut buf = [0u8; 4];
    assert_eq!(editor.dump(&mut buf), 4);
    assert_eq!(&buf, b"abcd");
    let mut buf = [0u8; 7];
    assert_eq!(editor.dump(&mut buf), 6);
    assert_eq!(&buf, b"abcdef\n");
    let mut none: [u8; 0] = [];
    assert_eq!(editor.dump(&mut none), 0);
}

#[test]
fn dump_writes_low_bytes_of_characters() {
    let mut editor = editor_in(10, 5);
    editor.insert_char('\u{141}');
    editor.insert_char('\u{e9}');
    assert_eq!(editor.saved(), vec![0x41, 0xe9]);
}

#[test]
fn saved_text_replays_to_the_same_lines() {
    let mut editor = editor_in(10, 5);
    type_text(&mut editor, "first line\n\nthird\n  indented\nlast");
    editor.arrow_up();
    editor.arrow_up();
    let saved = editor.saved();
    assert_eq!(saved, b"first line\n\nthird\n  indented\nlast".to_vec());
    let mut again = editor_in(10, 5);
    again.replay(&saved);
    assert_eq!(all_lines(&again), all_lines(&editor));
}

#[test]
fn full_document_replays_to_the_same_lines() {
    let mut editor = editor_in(10, 5);
    for i in 0..DOC_LINES {
        for _ in 0..LINE_CAPACITY {
            editor.insert_char((b'a' + (i % 26) as u8) as char);
        }
        editor.newline();
    }
    let saved = editor.saved();
    assert_eq!(saved.len(), 64 * 256 - 1);
    let mut again = editor_in(10, 5);
    again.replay(&saved);
    assert_eq!(all_lines(&again), all_lines(&editor));
}

#[test]
fn replay_types_bytes_and_breaks_lines() {
    let mut editor = editor_in(10, 5);
    editor.replay(b"print(1)\nprint(257)");
    assert_eq!(line_text(&editor, 0), "print(1)");
    assert_eq!(line_text(&editor, 1), "print(257)");
    assert_eq!((editor.cursor_line(), editor.cursor_col()), (1, 10));
}

#[test]
fn scroll_follows_the_cursor_down() {
    let mut editor = editor_in(10, 3);
    type_text(&mut editor, "x\nx\nx\nx\nx");
    assert_eq!(editor.scroll(), 0);
    editor.keep_cursor_on_screen();
    // five rows from the scroll line through the cursor, three fit
    assert_eq!(editor.scroll(), 2);
    editor.keep_cursor_on_screen();
    assert_eq!(editor.scroll(), 2);
}

#[test]
fn scroll_returns_to_a_cursor_above() {
    let mut editor = editor_in(10, 3);
    type_text(&mut editor, "x\nx\nx\nx\nx");
    editor.keep_cursor_on_screen();
    for _ in 0..4 {
        editor.arrow_up();
    }
    editor.keep_cursor_on_screen();
    assert_eq!(editor.scroll(), 0);
}

#[test]
fn scroll_counts_wrapped_rows() {
    let mut editor = editor_in(4, 3);
    type_text(&mut editor, "abcdefghij\nk\nl");
    // rows: 3 for the first line, 1, and 1 for the cursor's line
    editor.keep_cursor_on_screen();
    assert_eq!(editor.scroll(), 2);
}

#[test]
fn scroll_overshoots_past_long_lines() {
    let mut editor = editor_in(2, 3);
    type_text(&mut editor, "abcdefghijklmnop\nq");
    // nine rows for the first line and one for the cursor's: seven in excess
    editor.keep_cursor_on_screen();
    assert_eq!(editor.scroll(), 7);
    editor.keep_cursor_on_screen();
    assert_eq!(editor.scroll(), 1);
}

#[test]
fn draw_wraps_and_marks_the_cursor() {
    let mut editor = editor_in(4, 2);
    type_text(&mut editor, "abcde");
    let cells = editor.draw();
    let plain = ColorCode::new(Color::LightGray, Color::Black);
    let inverse = ColorCode::new(Color::Black, Color::LightGray);
    assert_eq!(cells.len(), 8);
    let shown: Vec<u8> = cells.iter().map(|c| c.ch).collect();
    assert_eq!(shown, b"abcde   ".to_vec());
    for (k, cell) in cells.iter().enumerate() {
        assert_eq!(cell.col, k % 4);
        assert_eq!(cell.row, k / 4);
        assert_eq!(cell.color, if k == 5 { inverse } else { plain });
    }
}

#[test]
fn draw_lands_in_the_pane() {
    let mut editor = TextEditor::new(Window::new(35, 13, 3, 2), ByteString::from_bytes(b"f"));
    type_text(&mut editor, "a\nb");
    let cells = editor.draw();
    let at: Vec<(u8, usize, usize)> = cells.iter().map(|c| (c.ch, c.col, c.row)).collect();
    assert_eq!(
        at,
        vec![
            (b'a', 35, 13),
            (b' ', 36, 13),
            (b' ', 37, 13),
            (b'b', 35, 14),
            (b' ', 36, 14),
            (b' ', 37, 14),
        ]
    );
    assert_eq!(cells[4].color, ColorCode::new(Color::Black, Color::LightGray));
}

#[test]
fn draw_shows_the_end_of_the_document() {
    let mut editor = editor_in(3, 4);
    for _ in 0..DOC_LINES - 1 {
        editor.newline();
    }
    type_text(&mut editor, "yz");
    let cells = editor.draw();
    assert_eq!(editor.scroll(), 60);
    let shown: Vec<u8> = cells.iter().map(|c| c.ch).collect();
    assert_eq!(shown, b"         yz ".to_vec());
}

#[test]
fn draw_blanks_rows_below_the_last_line() {
    let mut editor = editor_in(2, 4);
    for _ in 0..DOC_LINES - 2 {
        editor.newline();
    }
    type_text(&mut editor, "abcdefgh\nz");
    // 62 rows, five for the long line, one for the cursor's: 64 in excess of the pane
    let cells = editor.draw();
    assert_eq!(editor.scroll(), 64);
    assert_eq!(cells.len(), 8);
    assert!(cells.iter().all(|c| c.ch == b' '));
    assert!(cells.iter().all(|c| c.color == ColorCode::new(Color::LightGray, Color::Black)));
    let cells = editor.draw();
    assert_eq!(editor.scroll(), 63);
    let shown: Vec<u8> = cells.iter().map(|c| c.ch).collect();
    assert_eq!(shown, b"z       ".to_vec());
    assert_eq!(cells[1].color, ColorCode::new(Color::Black, Color::LightGray));
}

#[test]
fn draw_clips_a_line_at_the_pane_end() {
    let mut editor = editor_in(2, 2);
    type_text(&mut editor, "abcdefg");
    for _ in 0..7 {
        editor.arrow_left();
    }
    let cells = editor.draw();
    assert_eq!(editor.scroll(), 0);
    let shown: Vec<u8> = cells.iter().map(|c| c.ch).collect();
    assert_eq!(shown, b"abcd".to_vec());
    assert_eq!(cells[0].color, ColorCode::new(Color::Black, Color::LightGray));
}
