use swim::app::{save_failed, App, Open};
use swim::editor::TextEditor;
use swim::explorer::Explorer;
use swim::script::{Reply, Request, RunningScript, TickStatus};
use swim::text::ByteString;
use swim::window::Window;

fn pane() -> Window {
    Window::new(1, 2, 33, 10)
}

fn listing(entries: &[&[u8]]) -> [[u8; 10]; 30] {
    let mut names = [[0u8; 10]; 30];
    for (i, e) in entries.iter().enumerate() {
        names[i][..e.len()].copy_from_slice(e);
    }
    names
}

fn browser_app(entries: &[&[u8]]) -> App {
    App::Explorer(Explorer::new(pane(), entries.len(), listing(entries)))
}

fn editor_app(name: &[u8]) -> App {
    App::TextEditor(TextEditor::new(pane(), ByteString::from_bytes(name)))
}

fn script_app(name: &[u8]) -> App {
    App::RunningScript(RunningScript::new(pane(), ByteString::from_bytes(name)).0)
}

fn editor_lines(app: &App, n: usize) -> Vec<String> {
    match app {
        App::TextEditor(t) => (0..n).map(|i| t.line(i).into_iter().collect()).collect(),
        _ => panic!("not an editor"),
    }
}

fn transcript(app: &App) -> Vec<u8> {
    match app {
        App::RunningScript(r) => r.output(),
        _ => panic!("not a script session"),
    }
}

fn selection(app: &App) -> usize {
    match app {
        App::Explorer(e) => e.selected(),
        _ => panic!("not a browser"),
    }
}

#[test]
fn titles_name_the_mode_and_the_file() {
    assert_eq!(browser_app(&[b"a"]).title().to_vec(), b"(e)dit,(r)un".to_vec());
    assert_eq!(editor_app(b"notes").title().to_vec(), b"EDIT:notes,F6 to exit".to_vec());
    assert_eq!(script_app(b"pi").title().to_vec(), b"RUN:pi,F6 to exit".to_vec());
    assert_eq!(editor_app(b"").title().to_vec(), b"EDIT:,F6 to exit".to_vec());
}

#[test]
fn title_of_a_name_that_is_not_utf8() {
    assert_eq!(
        editor_app(&[b'a', 0xff]).title().to_vec(),
        b"EDIT:INVALID_NAME,F6 to exit".to_vec()
    );
    assert_eq!(script_app(&[0xc3]).title().to_vec(), b"RUN:INVALID_NAME,F6 to exit".to_vec());
    assert_eq!(
        editor_app(&[0xc3, 0xa9]).title().to_vec(),
        vec![b'E', b'D', b'I', b'T', b':', 0xc3, 0xa9, b',', b'F', b'6', b' ', b't', b'o', b' ', b'e', b'x', b'i', b't']
    );
}

#[test]
fn app_window_is_the_pane_of_its_mode() {
    assert_eq!(browser_app(&[]).window(), pane());
    assert_eq!(editor_app(b"f").window(), pane());
    assert_eq!(script_app(b"f").window(), pane());
}

#[test]
fn exit_of_an_editor_leaves_the_document_to_save() {
    let mut app = editor_app(b"notes");
    for c in "ab".chars() {
        app.insert_char(c);
    }
    app.newline();
    app.insert_char('c');
    let exit = app.exit();
    assert_eq!(exit.window, pane());
    assert_eq!(exit.message.to_vec(), Vec::<u8>::new());
    let save = exit.save.expect("a document to save");
    assert_eq!(save.name.to_vec(), b"notes".to_vec());
    assert_eq!(save.data, b"ab\nc".to_vec());
}

#[test]
fn exit_of_an_editor_with_a_bad_name_leaves_a_message() {
    let mut app = editor_app(&[0xff, 0xfe]);
    app.insert_char('x');
    let exit = app.exit();
    assert!(exit.save.is_none());
    assert_eq!(exit.message.to_vec(), b"couldn't save: bad file name".to_vec());
    assert_eq!(exit.window, pane());
}

#[test]
fn exit_of_other_modes_leaves_nothing() {
    let exit = browser_app(&[b"a"]).exit();
    assert!(exit.save.is_none());
    assert_eq!(exit.message.len(), 0);
    let exit = script_app(b"a").exit();
    assert!(exit.save.is_none());
    assert_eq!(exit.message.len(), 0);
    assert_eq!(exit.window, pane());
}

#[test]
fn save_failed_message_is_cut_at_64_bytes() {
    assert_eq!(save_failed(b"disk full").to_vec(), b"couldn't save: disk full".to_vec());
    let long = [b'e'; 100];
    let message = save_failed(&long).to_vec();
    assert_eq!(message.len(), 64);
    assert_eq!(&message[..15], b"couldn't save: ");
    assert!(message[15..].iter().all(|b| *b == b'e'));
}

#[test]
fn arrows_move_in_editor_and_browser_and_not_in_a_script() {
    let mut app = editor_app(b"f");
    app.insert_char('a');
    app.insert_char('b');
    app.arrow_left();
    match &app {
        App::TextEditor(t) => assert_eq!(t.cursor_col(), 1),
        _ => unreachable!(),
    }
    app.arrow_right();
    app.arrow_down();
    app.arrow_up();
    match &app {
        App::TextEditor(t) => assert_eq!((t.cursor_line(), t.cursor_col()), (0, 0)),
        _ => unreachable!(),
    }
    let mut app = browser_app(&[b"a", b"b", b"c", b"d", b"e"]);
    app.arrow_right();
    assert_eq!(selection(&app), 1);
    app.arrow_down();
    assert_eq!(selection(&app), 4);
    app.arrow_left();
    assert_eq!(selection(&app), 3);
    app.arrow_up();
    assert_eq!(selection(&app), 0);
    let mut app = script_app(b"f");
    app.arrow_left();
    app.arrow_right();
    app.arrow_up();
    app.arrow_down();
    assert_eq!(transcript(&app), Vec::<u8>::new());
}

#[test]
fn enter_and_backspace_by_mode() {
    let mut app = editor_app(b"f");
    app.insert_char('a');
    assert!(app.newline().is_none());
    app.insert_char('b');
    app.insert_char('c');
    assert!(app.backspace().is_none());
    assert_eq!(editor_lines(&app, 3), vec!["a", "b", ""]);
    let mut app = script_app(b"f");
    assert!(app.insert_char('4').is_none());
    assert!(app.backspace().is_none());
    assert!(app.newline().is_none());
    assert_eq!(transcript(&app), vec![b'4', 8, b'\n']);
    let mut app = browser_app(&[b"a", b"b"]);
    app.arrow_right();
    assert!(app.newline().is_none());
    assert!(app.backspace().is_none());
    assert_eq!(selection(&app), 1);
}

#[test]
fn browser_asks_for_the_selected_file() {
    let mut app = browser_app(&[b"hello", b"nums"]);
    app.arrow_right();
    let open = app.insert_char('e').expect("a file to edit");
    assert_eq!(open.name.to_vec(), b"nums".to_vec());
    assert!(!open.run);
    let open = app.insert_char('r').expect("a file to run");
    assert_eq!(open.name.to_vec(), b"nums".to_vec());
    assert!(open.run);
    assert!(app.insert_char('x').is_none());
    assert!(app.insert_char('E').is_none());
    assert_eq!(selection(&app), 1);
}

#[test]
fn browser_does_not_ask_for_a_name_that_is_not_utf8() {
    let mut app = browser_app(&[&[b'a', 0xff], b"ok"]);
    assert!(app.insert_char('e').is_none());
    assert!(app.insert_char('r').is_none());
    app.arrow_right();
    assert!(app.insert_char('e').is_some());
}

#[test]
fn file_opens_in_an_editor_with_its_text() {
    let open = Open { name: ByteString::from_bytes(b"nums"), run: false };
    let (app, cells) = App::opened(pane(), &open, b"print(1)\nprint(257)").expect("an editor");
    assert!(cells.is_empty());
    assert_eq!(editor_lines(&app, 3), vec!["print(1)", "print(257)", ""]);
    assert_eq!(app.title().to_vec(), b"EDIT:nums,F6 to exit".to_vec());
    assert_eq!(app.window(), pane());
    // bytes that are not UTF-8 are typed in as they are
    let (app, _) = App::opened(pane(), &open, &[0xff, b'a']).expect("an editor");
    assert_eq!(editor_lines(&app, 1), vec!["\u{ff}a"]);
}

#[test]
fn file_runs_in_a_script_session() {
    let open = Open { name: ByteString::from_bytes(b"hello"), run: true };
    let (mut app, cells) = App::opened(pane(), &open, b"print(\"Hello, world!\")").expect("a session");
    assert_eq!(cells.len(), 330);
    assert!(cells.iter().all(|c| c.ch == b' '));
    assert_eq!(app.title().to_vec(), b"RUN:hello,F6 to exit".to_vec());
    match &mut app {
        App::RunningScript(r) => {
            assert_eq!(r.status(), TickStatus::Continuing);
            assert_eq!(r.request(), Request::Step);
            assert!(r.tick(&Reply::Stepped { printed: b"Hello, world!".to_vec(), status: TickStatus::Finished }));
        }
        _ => panic!("not a script session"),
    }
}

#[test]
fn file_that_is_not_utf8_does_not_run() {
    let open = Open { name: ByteString::from_bytes(b"hello"), run: true };
    assert!(App::opened(pane(), &open, &[b'a', 0xc3]).is_none());
    assert!(App::opened(pane(), &open, &[0x80]).is_none());
    assert!(App::opened(pane(), &open, b"").is_some());
    assert!(App::opened(pane(), &open, "h\u{e9}llo \u{1f600}".as_bytes()).is_some());
}

#[test]
fn draw_by_mode() {
    let mut app = browser_app(&[b"a"]);
    assert_eq!(app.draw().len(), 300);
    let mut app = editor_app(b"f");
    app.insert_char('q');
    let cells = app.draw();
    assert_eq!(cells.len(), 330);
    assert_eq!((cells[0].ch, cells[0].col, cells[0].row), (b'q', 1, 2));
    let mut app = script_app(b"f");
    app.insert_char('w');
    let cells = app.draw();
    assert_eq!(cells.len(), 330);
    assert_eq!((cells[0].ch, cells[0].col, cells[0].row), (b'w', 1, 2));
    assert_eq!((cells[329].col, cells[329].row), (33, 11));
}
