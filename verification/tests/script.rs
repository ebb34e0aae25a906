use swim::screen::{Color, ColorCode};
use swim::script::{Reply, Request, RunningScript, TickStatus};
use swim::text::ByteString;
use swim::window::Window;

fn session_in(w: usize, h: usize) -> RunningScript {
    RunningScript::new(Window::new(0, 0, w, h), ByteString::from_bytes(b"average")).0
}

fn stepped(printed: &[u8], status: TickStatus) -> Reply {
    Reply::Stepped { printed: printed.to_vec(), status }
}

fn shown(session: &mut RunningScript) -> Vec<u8> {
    session.draw().iter().map(|c| c.ch).collect()
}

#[test]
fn new_session_is_ready_to_run_and_blanks_its_pane() {
    let (session, cells) = RunningScript::new(Window::new(3, 4, 2, 2), ByteString::from_bytes(b"pi"));
    assert_eq!(session.status(), TickStatus::Continuing);
    assert_eq!(session.output(), Vec::<u8>::new());
    assert_eq!(session.filename().to_vec(), b"pi".to_vec());
    assert_eq!(session.window(), Window::new(3, 4, 2, 2));
    assert_eq!(session.request(), Request::Step);
    let at: Vec<(u8, usize, usize)> = cells.iter().map(|c| (c.ch, c.col, c.row)).collect();
    assert_eq!(at, vec![(b' ', 3, 4), (b' ', 3, 5), (b' ', 4, 4), (b' ', 4, 5)]);
}

#[test]
fn step_appends_output_and_counts_as_work() {
    let mut s = session_in(10, 4);
    assert!(s.tick(&stepped(b"Hello, world!\n", TickStatus::Continuing)));
    assert_eq!(s.output(), b"Hello, world!\n".to_vec());
    assert_eq!(s.status(), TickStatus::Continuing);
    assert_eq!(s.request(), Request::Step);
}

#[test]
fn script_that_asks_for_input_waits_for_a_line() {
    let mut s = session_in(20, 4);
    assert!(s.tick(&stepped(b"Enter a number:", TickStatus::AwaitInput)));
    assert_eq!(s.status(), TickStatus::AwaitInput);
    assert_eq!(s.request(), Request::Nothing);
    // a tick without a complete line does nothing
    assert!(!s.tick(&Reply::Nothing));
    assert!(!s.tick(&Reply::Accepted));
    assert_eq!(s.status(), TickStatus::AwaitInput);
    s.input('5');
    assert_eq!(s.request(), Request::Nothing);
    s.input('\n');
    assert_eq!(s.output(), b"Enter a number:5\n".to_vec());
    assert_eq!(s.request(), Request::Input(b"5".to_vec()));
    assert!(!s.tick(&Reply::Accepted));
    assert_eq!(s.status(), TickStatus::Continuing);
    assert_eq!(s.request(), Request::Step);
    assert_eq!(s.output(), b"Enter a number:5\n".to_vec());
}

#[test]
fn lone_newline_is_the_empty_line() {
    let mut s = session_in(20, 4);
    s.tick(&stepped(b"?", TickStatus::AwaitInput));
    assert_eq!(s.request(), Request::Nothing);
    s.input('\n');
    assert_eq!(s.request(), Request::Input(Vec::new()));
    assert!(!s.tick(&Reply::Accepted));
    assert_eq!(s.status(), TickStatus::Continuing);
    assert_eq!(s.request(), Request::Step);
    assert_eq!(s.output(), b"?\n".to_vec());
}

#[test]
fn newline_before_the_marker_is_no_line() {
    let mut s = session_in(20, 4);
    s.tick(&stepped(b"number?\n", TickStatus::AwaitInput));
    // the prompt ends in a newline, but nothing has been typed
    assert_eq!(s.request(), Request::Nothing);
    assert!(!s.tick(&Reply::Accepted));
    assert_eq!(s.status(), TickStatus::AwaitInput);
    s.input('\n');
    assert_eq!(s.request(), Request::Input(Vec::new()));
    s.input('\n');
    assert_eq!(s.request(), Request::Input(b"\n".to_vec()));
}

#[test]
fn refused_input_shows_the_message_and_waits_on() {
    let mut s = session_in(20, 4);
    s.tick(&stepped(b"n:", TickStatus::AwaitInput));
    s.input('x');
    s.input('\n');
    assert!(!s.tick(&Reply::Rejected { message: b"bad input".to_vec() }));
    assert_eq!(s.status(), TickStatus::AwaitInput);
    assert_eq!(s.output(), b"n:x\nbad input".to_vec());
    assert_eq!(s.request(), Request::Nothing);
    s.input('7');
    s.input('\n');
    // the pending line still starts where the script asked
    assert_eq!(s.request(), Request::Input(b"x\nbad input7".to_vec()));
}

#[test]
fn input_that_is_not_utf8_is_handed_over_as_nothing() {
    let mut s = session_in(20, 4);
    s.tick(&stepped(b"", TickStatus::AwaitInput));
    s.input('\u{ff}');
    s.input('\n');
    assert_eq!(s.output(), vec![0xff, b'\n']);
    assert_eq!(s.request(), Request::Input(Vec::new()));
    let mut t = session_in(20, 4);
    t.tick(&stepped(b"", TickStatus::AwaitInput));
    t.input('\u{c3}');
    t.input('\u{a9}');
    t.input('\n');
    assert_eq!(t.request(), Request::Input(vec![0xc3, 0xa9]));
}

#[test]
fn finished_session_does_nothing() {
    let mut s = session_in(20, 4);
    assert!(s.tick(&stepped(b"1\n", TickStatus::Finished)));
    assert_eq!(s.status(), TickStatus::Finished);
    assert_eq!(s.request(), Request::Nothing);
    assert!(!s.tick(&stepped(b"more", TickStatus::Continuing)));
    assert!(!s.tick(&Reply::Accepted));
    assert!(!s.tick(&Reply::Nothing));
    assert_eq!(s.status(), TickStatus::Finished);
    assert_eq!(s.output(), b"1\n".to_vec());
}

#[test]
fn reply_that_answers_nothing_is_ignored() {
    let mut s = session_in(20, 4);
    assert!(!s.tick(&Reply::Accepted));
    assert!(!s.tick(&Reply::Rejected { message: b"no".to_vec() }));
    assert!(!s.tick(&Reply::Nothing));
    assert_eq!(s.status(), TickStatus::Continuing);
    assert_eq!(s.output(), Vec::<u8>::new());
    s.tick(&stepped(b"?", TickStatus::AwaitInput));
    s.input('1');
    s.input('\n');
    assert!(!s.tick(&stepped(b"zzz", TickStatus::Finished)));
    assert_eq!(s.status(), TickStatus::AwaitInput);
    assert_eq!(s.output(), b"?1\n".to_vec());
}

#[test]
fn keystrokes_go_to_the_transcript_in_any_state() {
    let mut s = session_in(20, 4);
    s.input('a');
    s.input('\u{8}');
    s.input('\u{141}');
    assert_eq!(s.output(), vec![b'a', 8, 0x41]);
}

#[test]
fn transcript_holds_1024_bytes() {
    let mut s = session_in(20, 4);
    s.tick(&stepped(&[b'x'; 1000], TickStatus::Continuing));
    s.tick(&stepped(&[b'y'; 100], TickStatus::Continuing));
    let out = s.output();
    assert_eq!(out.len(), 1024);
    assert!(out[..1000].iter().all(|b| *b == b'x'));
    assert!(out[1000..].iter().all(|b| *b == b'y'));
    s.input('z');
    assert_eq!(s.output().len(), 1024);
    assert_eq!(s.output()[1023], b'y');
}

#[test]
fn draw_shows_text_cursor_and_blanks() {
    let mut s = session_in(4, 2);
    s.tick(&stepped(b"ab", TickStatus::Continuing));
    let cells = s.draw();
    let plain = ColorCode::new(Color::LightGray, Color::Black);
    let inverse = ColorCode::new(Color::Black, Color::LightGray);
    assert_eq!(cells.len(), 8);
    let bytes: Vec<u8> = cells.iter().map(|c| c.ch).collect();
    assert_eq!(bytes, b"ab      ".to_vec());
    for (k, cell) in cells.iter().enumerate() {
        assert_eq!((cell.col, cell.row), (k % 4, k / 4));
        assert_eq!(cell.color, if k == 2 { inverse } else { plain });
    }
}

#[test]
fn draw_pads_a_newline_to_the_end_of_its_row() {
    let mut s = session_in(4, 3);
    s.tick(&stepped(b"a\nbc", TickStatus::Continuing));
    assert_eq!(shown(&mut s), b"a   bc      ".to_vec());
    let cells = s.draw();
    assert_eq!(cells[6].color, ColorCode::new(Color::Black, Color::LightGray));
}

#[test]
fn draw_gives_a_newline_at_a_row_start_a_whole_row() {
    let mut s = session_in(2, 4);
    s.tick(&stepped(b"ab\nc", TickStatus::Continuing));
    assert_eq!(shown(&mut s), b"ab  c   ".to_vec());
}

#[test]
fn draw_shows_the_end_of_a_long_transcript() {
    let mut s = session_in(3, 2);
    s.tick(&stepped(b"abcdefg", TickStatus::Continuing));
    // the scan reaches two rows at the second byte and starts behind it
    let cells = s.draw();
    let bytes: Vec<u8> = cells.iter().map(|c| c.ch).collect();
    assert_eq!(bytes, b"cdefg ".to_vec());
    assert_eq!(cells[5].color, ColorCode::new(Color::Black, Color::LightGray));
}

#[test]
fn draw_shows_the_last_lines_of_a_transcript() {
    let mut s = session_in(3, 2);
    s.tick(&stepped(b"abc\nd", TickStatus::Continuing));
    assert_eq!(shown(&mut s), b"bc d  ".to_vec());
    let mut t = session_in(5, 2);
    t.tick(&stepped(b"one\ntwo\nthree\n", TickStatus::Continuing));
    // the newline at the end counts one row, the five bytes before it the other
    assert_eq!(shown(&mut t), b"hree      ".to_vec());
    let mut u = session_in(6, 3);
    u.tick(&stepped(b"one\ntwo\nthree", TickStatus::Continuing));
    assert_eq!(shown(&mut u), b"two   three       ".to_vec());
}

#[test]
fn draw_changes_nothing_in_the_session() {
    let mut s = session_in(3, 2);
    s.tick(&stepped(b"hi\n", TickStatus::AwaitInput));
    s.draw();
    assert_eq!(s.output(), b"hi\n".to_vec());
    assert_eq!(s.status(), TickStatus::AwaitInput);
}
