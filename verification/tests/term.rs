use cursebox::builtin::Builtin;
use cursebox::term::{is_cursor_hidden, write_cursor, write_decimal, Func, TermWriter};
use cursebox::{Attr, HideCursor, BLACK, BOLD, DEFAULT, RED, UNDERLINE, WHITE};

fn xterm_writer() -> TermWriter {
    let mut w = TermWriter::new(Vec::new());
    w.funcs = Builtin::Xterm.spec().funcs;
    w
}

fn attr(bits: u16) -> Attr {
    Attr { bits }
}

#[test]
fn hidden_cursor_is_the_pair_of_sentinels() {
    assert!(is_cursor_hidden(HideCursor, HideCursor));
    assert!(is_cursor_hidden(usize::MAX, usize::MAX));
    assert!(!is_cursor_hidden(usize::MAX, 0));
    assert!(!is_cursor_hidden(0, usize::MAX));
    assert!(!is_cursor_hidden(0, 0));
}

#[test]
fn decimal_digits() {
    let mut w = Vec::new();
    write_decimal(&mut w, 0);
    w.push(b' ');
    write_decimal(&mut w, 7);
    w.push(b' ');
    write_decimal(&mut w, 10);
    w.push(b' ');
    write_decimal(&mut w, 4096);
    w.push(b' ');
    write_decimal(&mut w, u128::MAX);
    assert_eq!(w, b"0 7 10 4096 340282366920938463463374607431768211455".to_vec());
}

#[test]
fn cursor_move_counts_from_one() {
    let mut w = Vec::new();
    write_cursor(&mut w, 3, 2);
    assert_eq!(w, b"\x1B[3;4H".to_vec());
    let mut w = b"ab".to_vec();
    write_cursor(&mut w, 0, 0);
    assert_eq!(w, b"ab\x1B[1;1H".to_vec());
    let mut w = Vec::new();
    write_cursor(&mut w, 99, 9);
    assert_eq!(w, b"\x1B[10;100H".to_vec());
}

#[test]
fn cursor_move_at_the_largest_coordinate() {
    let mut w = Vec::new();
    write_cursor(&mut w, usize::MAX, 0);
    let expected = format!("\x1B[1;{}H", usize::MAX as u128 + 1);
    assert_eq!(w, expected.into_bytes());
}

#[test]
fn function_places() {
    assert_eq!(Func::EnterCa.index(), 0);
    assert_eq!(Func::ExitCa.index(), 1);
    assert_eq!(Func::ShowCursor.index(), 2);
    assert_eq!(Func::HideCursor.index(), 3);
    assert_eq!(Func::ClearScreen.index(), 4);
    assert_eq!(Func::Sgr0.index(), 5);
    assert_eq!(Func::Underline.index(), 6);
    assert_eq!(Func::Bold.index(), 7);
    assert_eq!(Func::Blink.index(), 8);
    assert_eq!(Func::Reverse.index(), 9);
    assert_eq!(Func::EnterKeypad.index(), 10);
    assert_eq!(Func::ExitKeypad.index(), 11);
}

#[test]
fn new_writer_knows_nothing() {
    let mut w = TermWriter::new(b"x".to_vec());
    assert_eq!(w.last_pos, (usize::MAX, usize::MAX));
    assert_eq!(w.last_attr, (attr(0xFFFF), attr(0xFFFF)));
    assert!(w.funcs.iter().all(|f| f.is_empty()));
    w.write_func(Func::ClearScreen);
    assert_eq!(w.w, b"x".to_vec());
}

#[test]
fn write_func_writes_the_capability() {
    let mut w = xterm_writer();
    w.write_func(Func::ClearScreen);
    w.write_func(Func::HideCursor);
    assert_eq!(w.w, b"\x1B[H\x1B[2J\x1B[?25l".to_vec());
}

#[test]
fn colours_red_on_default() {
    let mut w = xterm_writer();
    w.write_attr(attr(RED), attr(DEFAULT));
    assert_eq!(w.w, b"\x1B(B\x1B[m\x1B[31;49m".to_vec());
    assert_eq!(w.last_attr, (attr(RED), attr(DEFAULT)));
}

#[test]
fn colours_are_not_written_twice() {
    let mut w = xterm_writer();
    w.write_attr(attr(WHITE), attr(BLACK));
    let n = w.w.len();
    w.write_attr(attr(WHITE), attr(BLACK));
    assert_eq!(w.w.len(), n);
    w.write_attr(attr(BLACK), attr(WHITE));
    assert_eq!(&w.w[n..], b"\x1B(B\x1B[m\x1B[30;47m");
}

#[test]
fn flags_append_their_functions() {
    let mut w = xterm_writer();
    w.write_attr(attr(RED | BOLD | UNDERLINE), attr(WHITE | BOLD));
    assert_eq!(w.w, b"\x1B(B\x1B[m\x1B[31;47m\x1B[1m\x1B[5m\x1B[4m".to_vec());
    let mut w = xterm_writer();
    w.write_attr(attr(DEFAULT), attr(DEFAULT | UNDERLINE));
    assert_eq!(w.w, b"\x1B(B\x1B[m\x1B[39;49m".to_vec());
}

#[test]
fn colour_bits_beyond_the_eight_colours() {
    let mut w = xterm_writer();
    w.write_attr(attr(0x0A), attr(0x08));
    assert_eq!(w.w, b"\x1B(B\x1B[m\x1B[310;48m".to_vec());
}

#[test]
fn character_after_a_cursor_move() {
    let mut w = xterm_writer();
    w.write_char('X' as u32, 3, 2);
    assert_eq!(w.w, b"\x1B[3;4HX".to_vec());
    assert_eq!(w.last_pos, (3, 2));
}

#[test]
fn next_character_in_the_row_needs_no_move() {
    let mut w = xterm_writer();
    w.write_char('a' as u32, 0, 0);
    w.write_char('b' as u32, 1, 0);
    w.write_char('c' as u32, 3, 0);
    w.write_char('d' as u32, 4, 1);
    w.write_char('e' as u32, 0, 1);
    assert_eq!(w.w, b"\x1B[1;1Hab\x1B[1;4Hc\x1B[2;5Hd\x1B[2;1He".to_vec());
}

#[test]
fn first_column_always_needs_a_move() {
    let mut w = xterm_writer();
    w.last_pos = (usize::MAX, 5);
    w.write_char('a' as u32, 0, 5);
    assert_eq!(w.w, b"\x1B[6;1Ha".to_vec());
}

#[test]
fn characters_are_written_as_utf8() {
    let mut w = xterm_writer();
    w.write_char(0x20AC, 0, 0);
    w.write_char(0x1F600, 1, 0);
    assert_eq!(w.w, "\x1B[1;1H€😀".as_bytes().to_vec());
}

#[test]
fn what_is_no_character_is_shown_as_a_space() {
    let mut w = xterm_writer();
    w.write_char(0, 0, 0);
    w.write_char(0xD800, 1, 0);
    w.write_char(0x110000, 2, 0);
    assert_eq!(w.w, b"\x1B[1;1H   ".to_vec());
}

#[test]
fn clear_with_hidden_cursor() {
    let mut w = xterm_writer();
    w.last_pos = (1, 1);
    w.write_clear(usize::MAX, usize::MAX, attr(DEFAULT), attr(DEFAULT));
    assert_eq!(w.w, b"\x1B(B\x1B[m\x1B[39;49m\x1B[H\x1B[2J".to_vec());
    assert_eq!(w.last_pos, (usize::MAX, usize::MAX));
    assert_eq!(w.last_attr, (attr(DEFAULT), attr(DEFAULT)));
}

#[test]
fn clear_with_visible_cursor() {
    let mut w = xterm_writer();
    w.write_attr(attr(RED), attr(DEFAULT));
    let n = w.w.len();
    w.write_clear(4, 2, attr(RED), attr(DEFAULT));
    assert_eq!(&w.w[n..], b"\x1B[H\x1B[2J\x1B[3;5H");
}

#[test]
fn invalidate_forgets_the_position() {
    let mut w = xterm_writer();
    w.write_char('a' as u32, 0, 0);
    w.invalidate_pos();
    assert_eq!(w.last_pos, (usize::MAX, usize::MAX));
    let n = w.w.len();
    w.write_char('b' as u32, 1, 0);
    assert_eq!(&w.w[n..], b"\x1B[1;2Hb");
}

#[test]
fn attribute_sets() {
    assert!(attr(RED | BOLD).contains(attr(BOLD)));
    assert!(!attr(RED).contains(attr(BOLD)));
    assert_eq!(attr(RED | BOLD).intersection(attr(DEFAULT)), attr(RED));
    assert_eq!(attr(RED).union(attr(UNDERLINE)), attr(RED | UNDERLINE));
}
