use cursebox::builtin::Builtin;
use cursebox::input::Mode;
use cursebox::ui::{FetchAction, FetchInput, INPUT_BUFFER_SIZE};
use cursebox::{Attr, Cell, Event, Key, Mod, HideCursor, DEFAULT, RED, UI};

fn cell(ch: char, fg: u16, bg: u16) -> Cell {
    Cell { ch: ch as u32, fg: Attr { bits: fg }, bg: Attr { bits: bg } }
}

fn started(w: u16, h: u16) -> UI {
    let mut ui = UI::new_in(Builtin::Xterm.spec(), (w, h)).unwrap();
    ui.take_output();
    ui
}

#[test]
fn new_interface_enters_the_terminal_and_clears_it() {
    let mut ui = UI::new_in(Builtin::Xterm.spec(), (10, 5)).unwrap();
    assert_eq!(ui.width(), 10);
    assert_eq!(ui.height(), 5);
    assert_eq!(ui.get_cursor(), (HideCursor, HideCursor));
    assert_eq!(ui.input_room(), INPUT_BUFFER_SIZE - 1);
    let out = ui.take_output();
    let expected: Vec<u8> = [
        &b"\x1B[?1049h"[..],
        b"\x1B[?1h\x1B=",
        b"\x1B[?25l",
        b"\x1B(B\x1B[m\x1B[39;49m",
        b"\x1B[H\x1B[2J",
        b"\x1B[H\x1B[2J",
    ]
    .concat();
    assert_eq!(out, expected);
    assert_eq!(ui.take_output(), Vec::<u8>::new());
}

#[test]
fn new_interface_for_a_terminal_without_cells() {
    let mut ui = UI::new_in(Builtin::Linux.spec(), (0, 0)).unwrap();
    assert_eq!(ui.width(), 0);
    ui.take_output();
    ui.present();
    assert_eq!(ui.take_output(), Vec::<u8>::new());
}

#[test]
fn one_changed_cell_is_written() {
    let mut ui = started(10, 5);
    ui.clear();
    *ui.cells_mut().at_mut(3, 2).unwrap() = cell('X', RED, DEFAULT);
    ui.present();
    assert_eq!(ui.take_output(), b"\x1B(B\x1B[m\x1B[31;49m\x1B[3;4HX".to_vec());
    ui.present();
    assert_eq!(ui.take_output(), Vec::<u8>::new());
    assert_eq!(*ui.cells_mut().at(3, 2).unwrap(), cell('X', RED, DEFAULT));
}

#[test]
fn presenting_twice_writes_the_cells_once() {
    let mut ui = started(4, 2);
    ui.set_cursor(1, 1);
    ui.take_output();
    *ui.cells_mut().at_mut(0, 0).unwrap() = cell('a', RED, DEFAULT);
    *ui.cells_mut().at_mut(3, 1).unwrap() = cell('b', RED, DEFAULT);
    ui.present();
    assert_eq!(
        ui.take_output(),
        b"\x1B(B\x1B[m\x1B[31;49m\x1B[1;1Ha\x1B[2;4Hb\x1B[2;2H".to_vec()
    );
    ui.present();
    assert_eq!(ui.take_output(), b"\x1B[2;2H".to_vec());
}

#[test]
fn neighbours_in_a_row_share_one_cursor_move() {
    let mut ui = started(4, 2);
    for (x, ch) in "abc".chars().enumerate() {
        *ui.cells_mut().at_mut(x + 1, 1).unwrap() = cell(ch, DEFAULT, DEFAULT);
    }
    ui.present();
    assert_eq!(ui.take_output(), b"\x1B[2;2Habc".to_vec());
}

#[test]
fn a_new_row_needs_a_cursor_move() {
    let mut ui = started(2, 2);
    for y in 0..2 {
        for x in 0..2 {
            *ui.cells_mut().at_mut(x, y).unwrap() = cell('#', DEFAULT, DEFAULT);
        }
    }
    ui.present();
    assert_eq!(ui.take_output(), b"\x1B[1;1H##\x1B[2;1H##".to_vec());
}

#[test]
fn colours_change_only_between_different_cells() {
    let mut ui = started(3, 1);
    *ui.cells_mut().at_mut(0, 0).unwrap() = cell('a', RED, DEFAULT);
    *ui.cells_mut().at_mut(1, 0).unwrap() = cell('b', RED, DEFAULT);
    *ui.cells_mut().at_mut(2, 0).unwrap() = cell('c', DEFAULT, RED);
    ui.present();
    assert_eq!(
        ui.take_output(),
        b"\x1B(B\x1B[m\x1B[31;49m\x1B[1;1Hab\x1B(B\x1B[m\x1B[39;41mc".to_vec()
    );
}

#[test]
fn clear_blanks_the_back_plane() {
    let mut ui = started(3, 2);
    *ui.cells_mut().at_mut(1, 1).unwrap() = cell('X', RED, DEFAULT);
    ui.clear();
    assert_eq!(*ui.cells_mut().at(1, 1).unwrap(), cell(' ', DEFAULT, DEFAULT));
    ui.present();
    assert_eq!(ui.take_output(), Vec::<u8>::new());
}

#[test]
fn cursor_is_shown_moved_and_hidden() {
    let mut ui = started(10, 5);
    ui.set_cursor(2, 1);
    assert_eq!(ui.get_cursor(), (2, 1));
    assert_eq!(ui.take_output(), b"\x1B[?12l\x1B[?25h\x1B[2;3H".to_vec());
    ui.set_cursor(0, 0);
    assert_eq!(ui.take_output(), b"\x1B[1;1H".to_vec());
    ui.set_cursor(HideCursor, HideCursor);
    assert_eq!(ui.take_output(), b"\x1B[?25l".to_vec());
    ui.set_cursor(HideCursor, HideCursor);
    assert_eq!(ui.take_output(), Vec::<u8>::new());
    assert_eq!(ui.get_cursor(), (HideCursor, HideCursor));
}

#[test]
fn stop_leaves_the_terminal() {
    let mut ui = started(10, 5);
    ui.stop();
    let expected: Vec<u8> = [
        &b"\x1B[?12l\x1B[?25h"[..],
        b"\x1B(B\x1B[m",
        b"\x1B[H\x1B[2J",
        b"\x1B[?1049l",
        b"\x1B[?1l\x1B>",
    ]
    .concat();
    assert_eq!(ui.take_output(), expected);
}

#[test]
fn start_again_after_stop() {
    let mut ui = started(4, 2);
    *ui.cells_mut().at_mut(1, 1).unwrap() = cell('X', RED, DEFAULT);
    ui.present();
    ui.stop();
    ui.take_output();
    assert_eq!(ui.fetch_event(FetchInput::Read(b"q".to_vec())), FetchAction::Return(Some(Event::Key(Mod::empty(), Key::Char('q')))));
    assert_eq!(ui.fetch_event(FetchInput::Read(vec![0xE2])), FetchAction::Wait);
    assert_eq!(ui.start((4, 2)), Ok(()));
    let expected: Vec<u8> =
        [&b"\x1B[?1049h"[..], b"\x1B[?1h\x1B=", b"\x1B[?25l", b"\x1B(B\x1B[m\x1B[39;49m", b"\x1B[H\x1B[2J"].concat();
    assert_eq!(ui.take_output(), expected);
    assert_eq!(ui.input_room(), INPUT_BUFFER_SIZE - 1);
    ui.present();
    assert_eq!(ui.take_output(), b"\x1B(B\x1B[m\x1B[31;49m\x1B[2;2HX".to_vec());
}

#[test]
fn new_size_keeps_the_drawing_and_redraws_it() {
    let mut ui = started(4, 3);
    *ui.cells_mut().at_mut(1, 1).unwrap() = cell('X', RED, DEFAULT);
    *ui.cells_mut().at_mut(3, 2).unwrap() = cell('Y', RED, DEFAULT);
    ui.present();
    ui.take_output();
    assert_eq!(ui.update_size((3, 2)), Ok(()));
    assert_eq!(ui.width(), 3);
    assert_eq!(ui.height(), 2);
    assert_eq!(ui.take_output(), b"\x1B(B\x1B[m\x1B[39;49m\x1B[H\x1B[2J".to_vec());
    assert_eq!(*ui.cells_mut().at(1, 1).unwrap(), cell('X', RED, DEFAULT));
    assert!(ui.cells_mut().at(3, 2).is_none());
    ui.present();
    assert_eq!(ui.take_output(), b"\x1B(B\x1B[m\x1B[31;49m\x1B[2;2HX".to_vec());
}

#[test]
fn input_mode_can_be_changed() {
    let mut ui = started(2, 2);
    assert_eq!(ui.select_input_mode(None), Mode::Esc);
    assert_eq!(ui.select_input_mode(Some(Mode::Alt)), Mode::Esc);
    assert_eq!(ui.select_input_mode(None), Mode::Alt);
    *ui.input_mode_mut() = Mode::Esc;
    assert_eq!(*ui.input_mode_mut(), Mode::Esc);
}

#[test]
fn fetch_begins_with_the_input_held() {
    let mut ui = started(2, 2);
    assert_eq!(ui.fetch_event(FetchInput::Begin), FetchAction::ReadInput);
    assert_eq!(
        ui.fetch_event(FetchInput::Read(b"ab".to_vec())),
        FetchAction::Return(Some(Event::Key(Mod::empty(), Key::Char('a'))))
    );
    assert_eq!(
        ui.fetch_event(FetchInput::Begin),
        FetchAction::Return(Some(Event::Key(Mod::empty(), Key::Char('b'))))
    );
    assert_eq!(ui.fetch_event(FetchInput::Begin), FetchAction::ReadInput);
}

#[test]
fn fetch_waits_for_the_rest_of_a_character() {
    let mut ui = started(2, 2);
    assert_eq!(ui.fetch_event(FetchInput::Read(vec![0xE2, 0x82])), FetchAction::Wait);
    assert_eq!(ui.fetch_event(FetchInput::Read(Vec::new())), FetchAction::Wait);
    assert_eq!(
        ui.fetch_event(FetchInput::Read(vec![0xAC])),
        FetchAction::Return(Some(Event::Key(Mod::empty(), Key::Char('€'))))
    );
}

#[test]
fn fetch_decodes_key_sequences() {
    let mut ui = started(2, 2);
    assert_eq!(
        ui.fetch_event(FetchInput::Read(b"\x1BOA".to_vec())),
        FetchAction::Return(Some(Event::Key(Mod::empty(), Key::Up)))
    );
    assert_eq!(
        ui.fetch_event(FetchInput::Read(b"\x1B".to_vec())),
        FetchAction::Return(Some(Event::Key(Mod::empty(), Key::Esc)))
    );
    *ui.input_mode_mut() = Mode::Alt;
    assert_eq!(ui.fetch_event(FetchInput::Read(b"\x1B".to_vec())), FetchAction::Wait);
    assert_eq!(
        ui.fetch_event(FetchInput::Read(b"\x1Bx".to_vec())),
        FetchAction::Return(Some(Event::Key(Mod::alt(), Key::Char('x'))))
    );
}

#[test]
fn fetch_ends_without_an_event() {
    let mut ui = started(2, 2);
    assert_eq!(ui.fetch_event(FetchInput::WouldBlock), FetchAction::Return(None));
    assert_eq!(ui.fetch_event(FetchInput::Timeout), FetchAction::Return(None));
}

#[test]
fn fetch_reports_a_new_size() {
    let mut ui = started(4, 3);
    *ui.cells_mut().at_mut(1, 1).unwrap() = cell('X', RED, DEFAULT);
    assert_eq!(
        ui.fetch_event(FetchInput::Resized(8, 6)),
        FetchAction::Return(Some(Event::Resize(8, 6)))
    );
    assert_eq!(ui.width(), 8);
    assert_eq!(ui.height(), 6);
    assert_eq!(ui.take_output(), b"\x1B[H\x1B[2J".to_vec());
    assert_eq!(*ui.cells_mut().at(1, 1).unwrap(), cell('X', RED, DEFAULT));
    assert!(ui.cells_mut().at(7, 5).is_some());
}

#[test]
fn input_beyond_the_room_is_left_out() {
    let mut ui = started(2, 2);
    let room = ui.input_room();
    let mut bytes = vec![0xE2u8; room + 10];
    bytes[0] = b'a';
    assert_eq!(
        ui.fetch_event(FetchInput::Read(bytes)),
        FetchAction::Return(Some(Event::Key(Mod::empty(), Key::Char('a'))))
    );
    assert_eq!(ui.input_room(), 1);
}

#[test]
fn printer_writes_text_into_the_back_plane() {
    let mut ui = started(6, 2);
    {
        let mut p = ui.printer((1, 1), Attr { bits: RED }, Attr { bits: DEFAULT });
        p.write_str("hé");
        p.write_str("llo, world");
        assert_eq!(p.pt, (13, 1));
    }
    let expected = [' ', 'h', 'é', 'l', 'l', 'o'];
    for x in 0..6 {
        let c = *ui.cells_mut().at(x, 1).unwrap();
        if x == 0 {
            assert_eq!(c, cell(' ', DEFAULT, DEFAULT));
        } else {
            assert_eq!(c, cell(expected[x], RED, DEFAULT));
        }
        assert_eq!(*ui.cells_mut().at(x, 0).unwrap(), cell(' ', DEFAULT, DEFAULT));
    }
    ui.present();
    assert_eq!(ui.take_output(), "\x1B(B\x1B[m\x1B[31;49m\x1B[2;2Hhéllo".as_bytes().to_vec());
}

#[test]
fn printer_below_the_grid_writes_nothing() {
    let mut ui = started(3, 2);
    {
        let mut p = ui.printer((0, 2), Attr { bits: RED }, Attr { bits: DEFAULT });
        assert_eq!(p.print_chars(&['a', 'b']), 2);
        assert_eq!(p.pt, (0, 2));
    }
    {
        let mut p = ui.printer((usize::MAX, 0), Attr { bits: RED }, Attr { bits: DEFAULT });
        assert_eq!(p.print_chars(&['a', 'b']), 2);
    }
    ui.present();
    assert_eq!(ui.take_output(), Vec::<u8>::new());
}
