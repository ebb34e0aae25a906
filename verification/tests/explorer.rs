use swim::explorer::Explorer;
use swim::screen::{Color, ColorCode};
use swim::window::Window;

fn table(entries: &[&[u8]]) -> [[u8; 10]; 30] {
    let mut names = [[0u8; 10]; 30];
    for (i, e) in entries.iter().enumerate() {
        names[i][..e.len()].copy_from_slice(e);
    }
    names
}

fn browser(entries: &[&[u8]]) -> Explorer {
    Explorer::new(Window::new(1, 2, 33, 10), entries.len(), table(entries))
}

fn sample() -> Explorer {
    browser(&[b"hello", b"nums", b"average", b"pi"])
}

#[test]
fn explorer_starts_on_the_first_entry() {
    let e = sample();
    assert_eq!(e.selected(), 0);
    assert_eq!(e.num_files(), 4);
    assert_eq!(e.window(), Window::new(1, 2, 33, 10));
    assert_eq!(e.name().to_vec(), b"hello".to_vec());
}

#[test]
fn name_stops_at_the_first_zero_byte() {
    let e = browser(&[b"ab\0cd", b"abcdefghij", b""]);
    assert_eq!(e.name_as_slice(0), b"ab");
    assert_eq!(e.name_as_slice(1), b"abcdefghij");
    assert_eq!(e.name_as_slice(2), b"");
    assert_eq!(e.name_as_slice(29), b"");
}

#[test]
fn name_follows_the_selection() {
    let mut e = sample();
    e.arrow_right();
    assert_eq!(e.name().to_vec(), b"nums".to_vec());
    e.arrow_right();
    assert_eq!(e.name().to_vec(), b"average".to_vec());
}

#[test]
fn explorer_arrow_right_stops_at_the_third_column() {
    let mut e = sample();
    e.arrow_right();
    assert_eq!(e.selected(), 1);
    e.arrow_right();
    assert_eq!(e.selected(), 2);
    e.arrow_right();
    assert_eq!(e.selected(), 2);
}

#[test]
fn explorer_arrow_right_stops_at_the_last_entry() {
    let mut e = sample();
    e.arrow_down();
    assert_eq!(e.selected(), 3);
    e.arrow_right();
    assert_eq!(e.selected(), 3);
}

#[test]
fn explorer_arrow_left_stops_at_the_first_column() {
    let mut e = sample();
    e.arrow_left();
    assert_eq!(e.selected(), 0);
    e.arrow_right();
    e.arrow_right();
    e.arrow_left();
    assert_eq!(e.selected(), 1);
    e.arrow_down();
    assert_eq!(e.selected(), 3);
    e.arrow_left();
    assert_eq!(e.selected(), 3);
}

#[test]
fn explorer_arrow_down_clamps_to_the_last_entry() {
    let mut e = sample();
    e.arrow_right();
    e.arrow_down();
    assert_eq!(e.selected(), 3);
    e.arrow_down();
    assert_eq!(e.selected(), 3);
}

#[test]
fn explorer_arrow_up_moves_one_row() {
    let mut e = sample();
    e.arrow_up();
    assert_eq!(e.selected(), 0);
    e.arrow_down();
    e.arrow_up();
    assert_eq!(e.selected(), 0);
}

#[test]
fn explorer_moves_through_a_full_grid() {
    let entries: Vec<Vec<u8>> = (0..30).map(|i| format!("f{i}").into_bytes()).collect();
    let refs: Vec<&[u8]> = entries.iter().map(|e| e.as_slice()).collect();
    let mut e = browser(&refs);
    for _ in 0..20 {
        e.arrow_down();
    }
    assert_eq!(e.selected(), 29);
    e.arrow_up();
    assert_eq!(e.selected(), 26);
    e.arrow_left();
    e.arrow_left();
    e.arrow_left();
    assert_eq!(e.selected(), 24);
    assert_eq!(e.name().to_vec(), b"f24".to_vec());
}

#[test]
fn explorer_on_an_empty_directory_stays_put() {
    let mut e = browser(&[]);
    e.arrow_right();
    assert_eq!(e.selected(), 0);
    e.arrow_down();
    assert_eq!(e.selected(), 0);
    e.arrow_left();
    e.arrow_up();
    assert_eq!(e.selected(), 0);
    assert_eq!(e.name().to_vec(), Vec::<u8>::new());
}

#[test]
fn explorer_draws_a_grid_of_names() {
    let mut e = sample();
    e.arrow_right();
    let cells = e.draw();
    let plain = ColorCode::new(Color::LightGray, Color::Black);
    let inverse = ColorCode::new(Color::Black, Color::LightGray);
    assert_eq!(cells.len(), 300);
    for (k, cell) in cells.iter().enumerate() {
        let idx = k / 10;
        let ci = k % 10;
        assert_eq!(cell.col, 1 + (idx % 3) * 10 + ci);
        assert_eq!(cell.row, 2 + idx / 3);
        assert_eq!(cell.color, if idx == 1 { inverse } else { plain });
    }
    let first: Vec<u8> = cells[..10].iter().map(|c| c.ch).collect();
    assert_eq!(first, b"hello\0\0\0\0\0".to_vec());
    let fourth: Vec<u8> = cells[30..40].iter().map(|c| c.ch).collect();
    assert_eq!(fourth, b"pi\0\0\0\0\0\0\0\0".to_vec());
    assert_eq!((cells[30].col, cells[30].row), (1, 3));
}
