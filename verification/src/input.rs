//! Decoding of terminal input bytes into key events.

use crate::ringbuffer::Ringbuffer;
use crate::terminfo::TB_KEYS_NUM;
use crate::utf8::{decode, spec_decode};
use vstd::prelude::*;

verus! {

/// Most bytes that the decoder looks at for one event.
pub const BUFFER_SIZE_MAX: usize = 16;

/// Bit of the Alt modifier.
pub const ALT: u16 = 2;

/// The escape byte.
pub const ESC: u8 = 0x1B;

/// A key of the keyboard.
#[derive(PartialEq, Eq, Clone, Copy, Debug, Structural)]
pub enum Key {
    Tab,
    Enter,
    Esc,
    Backspace,
    Right,
    Left,
    Up,
    Down,
    Delete,
    Insert,
    Home,
    End,
    PgUp,
    PgDn,
    Char(char),
    F(u16),
}

impl Key {
    /// The control character of a letter: the byte with bits 5 and 6 cleared.
    pub fn Ctrl(b: u8) -> (k: Key)
        ensures
            k == Key::Char((b & 0x9F) as char),
    {
        Key::Char((b & 0x9F) as char)
    }
}

/// A set of key modifiers.
#[derive(PartialEq, Eq, Clone, Copy, Debug, Structural)]
pub struct Mod {
    pub bits: u16,
}

impl Mod {
    /// No modifier.
    pub fn empty() -> (m: Mod)
        ensures
            m == (Mod { bits: 0 }),
    {
        Mod { bits: 0 }
    }

    /// The Alt modifier alone.
    pub fn alt() -> (m: Mod)
        ensures
            m == (Mod { bits: ALT }),
    {
        Mod { bits: ALT }
    }

    /// Whether the set holds no modifier.
    pub fn is_empty(&self) -> (b: bool)
        ensures
            b == (self.bits == 0),
    {
        self.bits == 0
    }

    /// Whether every modifier of `other` is in `self`.
    pub fn contains(&self, other: Mod) -> (b: bool)
        ensures
            b == (self.bits & other.bits == other.bits),
    {
        self.bits & other.bits == other.bits
    }

    /// The modifiers of both sets.
    pub fn union(self, other: Mod) -> (m: Mod)
        ensures
            m == (Mod { bits: self.bits | other.bits }),
    {
        Mod { bits: self.bits | other.bits }
    }
}

/// What the terminal reports: a key, with its modifiers, or a new size.
#[derive(PartialEq, Eq, Clone, Copy, Debug, Structural)]
pub enum Event {
    Key(Mod, Key),
    Resize(u32, u32),
}

/// How a lone escape byte is read: as the Escape key, or as Alt held with the
/// key that follows.
#[derive(PartialEq, Eq, Clone, Copy, Debug, Structural)]
pub enum Mode {
    Esc,
    Alt,
}

/// The key that entry `i` of a key table stands for.
pub open spec fn event_key(i: int) -> Key {
    if i < 12 {
        Key::F((i + 1) as u16)
    } else if i == 12 {
        Key::Insert
    } else if i == 13 {
        Key::Delete
    } else if i == 14 {
        Key::Home
    } else if i == 15 {
        Key::End
    } else if i == 16 {
        Key::PgUp
    } else if i == 17 {
        Key::PgDn
    } else if i == 18 {
        Key::Up
    } else if i == 19 {
        Key::Down
    } else if i == 20 {
        Key::Left
    } else {
        Key::Right
    }
}

fn key_of_entry(i: usize) -> (k: Key)
    requires
        i < TB_KEYS_NUM,
    ensures
        k == event_key(i as int),
{
    if i < 12 {
        Key::F((i + 1) as u16)
    } else if i == 12 {
        Key::Insert
    } else if i == 13 {
        Key::Delete
    } else if i == 14 {
        Key::Home
    } else if i == 15 {
        Key::End
    } else if i == 16 {
        Key::PgUp
    } else if i == 17 {
        Key::PgDn
    } else if i == 18 {
        Key::Up
    } else if i == 19 {
        Key::Down
    } else if i == 20 {
        Key::Left
    } else {
        Key::Right
    }
}

/// The byte strings of a key table.
pub open spec fn table_view(keys: &[Vec<u8>; 22]) -> Seq<Seq<u8>> {
    Seq::new(22, |i: int| keys@[i]@)
}

/// Entry `i` is not empty and the window starts with it.
pub open spec fn matches_entry(window: Seq<u8>, keys: Seq<Seq<u8>>, i: int) -> bool {
    keys[i].len() > 0 && keys[i].is_prefix_of(window)
}

/// Index of the first entry from `from` on that the window starts with.
pub open spec fn first_match(window: Seq<u8>, keys: Seq<Seq<u8>>, from: int) -> Option<int>
    decreases keys.len() - from,
{
    if from < 0 || from >= keys.len() {
        None
    } else if matches_entry(window, keys, from) {
        Some(from)
    } else {
        first_match(window, keys, from + 1)
    }
}

/// What `parse_escape_seq` returns: the key of the first matching entry, with
/// no modifier, and the length of that entry.
pub open spec fn spec_parse_escape_seq(window: Seq<u8>, keys: Seq<Seq<u8>>) -> Option<
    (Mod, Key, usize),
> {
    match first_match(window, keys, 0) {
        Some(i) => Some((Mod { bits: 0 }, event_key(i), keys[i].len() as usize)),
        None => None,
    }
}

/// `first_match` finds the least matching index, and none only when no entry
/// matches.
pub proof fn lemma_first_match(window: Seq<u8>, keys: Seq<Seq<u8>>, from: int)
    requires
        0 <= from,
    ensures
        match first_match(window, keys, from) {
            Some(i) => from <= i < keys.len() && matches_entry(window, keys, i) && forall|j: int|
                from <= j < i ==> !matches_entry(window, keys, j),
            None => forall|j: int| from <= j < keys.len() ==> !matches_entry(window, keys, j),
        },
    decreases keys.len() - from,
{
    if from < keys.len() && !matches_entry(window, keys, from) {
        lemma_first_match(window, keys, from + 1);
    }
}

fn starts_with(window: &[u8], key: &Vec<u8>) -> (b: bool)
    ensures
        b == key@.is_prefix_of(window@),
{
    let n = key.len();
    if n > window.len() {
        return false;
    }
    let mut k: usize = 0;
    while k < n
        invariant
            k <= n,
            n == key@.len(),
            n <= window@.len(),
            forall|j: int| 0 <= j < k ==> key@[j] == window@[j],
        decreases n - k,
    {
        if key[k] != window[k] {
            assert(key@[k as int] != window@.subrange(0, n as int)[k as int]);
            return false;
        }
        k = k + 1;
    }
    assert(key@ =~= window@.subrange(0, n as int));
    true
}

/// Looks the window up in the key table: the first entry, in table order,
/// that is not empty and that the window starts with.
pub fn parse_escape_seq(window: &[u8], keys: &[Vec<u8>; 22]) -> (r: Option<(Mod, Key, usize)>)
    ensures
        r == spec_parse_escape_seq(window@, table_view(keys)),
        r is Some ==> 1 <= r.unwrap().2 <= window@.len(),
{
    let ghost table = table_view(keys);
    let mut i: usize = 0;
    while i < TB_KEYS_NUM
        invariant
            i <= TB_KEYS_NUM,
            table == table_view(keys),
            first_match(window@, table, 0) == first_match(window@, table, i as int),
        decreases TB_KEYS_NUM - i,
    {
        let key = &keys[i];
        assert(table[i as int] == key@);
        if key.len() > 0 && starts_with(window, key) {
            return Some((Mod::empty(), key_of_entry(i), key.len()));
        }
        i = i + 1;
    }
    None
}

/// Whether a number is a Unicode scalar value.
pub open spec fn is_scalar(x: u32) -> bool {
    x < 0xD800 || (0xE000 <= x && x <= 0x10FFFF)
}

/// `char::from_u32` gives the character of a number that is a scalar value
/// and nothing for any other number, as its documentation says. This is
/// taken on trust.
pub assume_specification[ char::from_u32 ](x: u32) -> (r: Option<char>)
    ensures
        is_scalar(x) ==> r == Some(x as char),
        !is_scalar(x) ==> r is None,
;

/// The bytes that the decoder looks at: at most the first sixteen.
pub open spec fn peek_window(data: Seq<u8>) -> Seq<u8> {
    if data.len() <= BUFFER_SIZE_MAX {
        data
    } else {
        data.subrange(0, BUFFER_SIZE_MAX as int)
    }
}

/// Adds Alt to the modifiers of a decoded key.
pub open spec fn with_alt(r: Option<(Mod, Key)>) -> Option<(Mod, Key)> {
    match r {
        Some((m, k)) => Some((Mod { bits: m.bits | ALT }, k)),
        None => None,
    }
}

/// The event at the front of `data`, if one is complete, and the number of
/// bytes taken off the front of `data`.
///
/// An escape byte that starts no key sequence is always taken: in `Mode::Esc`
/// it is the Escape key, in `Mode::Alt` it marks the event after it, and
/// stays taken when that event is not complete yet.
pub open spec fn spec_extract(data: Seq<u8>, mode: Mode, keys: Seq<Seq<u8>>) -> (
    Option<(Mod, Key)>,
    nat,
)
    decreases data.len(),
{
    let window = peek_window(data);
    if data.len() == 0 {
        (None, 0)
    } else if window[0] == ESC {
        match spec_parse_escape_seq(window, keys) {
            Some((m, k, n)) => (Some((m, k)), n as nat),
            None => match mode {
                Mode::Esc => (Some((Mod { bits: 0 }, Key::Esc)), 1),
                Mode::Alt => {
                    let (r, n) = spec_extract(data.subrange(1, data.len() as int), mode, keys);
                    (with_alt(r), n + 1)
                },
            },
        }
    } else {
        match spec_decode(window) {
            Some((x, n)) => if is_scalar(x) {
                (Some((Mod { bits: 0 }, Key::Char(x as char))), n as nat)
            } else {
                (None, 0)
            },
            None => (None, 0),
        }
    }
}

/// No more bytes are taken than are there.
pub proof fn lemma_extract_bound(data: Seq<u8>, mode: Mode, keys: Seq<Seq<u8>>)
    ensures
        spec_extract(data, mode, keys).1 <= data.len(),
    decreases data.len(),
{
    let window = peek_window(data);
    if data.len() > 0 && window[0] == ESC {
        lemma_first_match(window, keys, 0);
        if spec_parse_escape_seq(window, keys) is None && mode == Mode::Alt {
            lemma_extract_bound(data.subrange(1, data.len() as int), mode, keys);
        }
    }
}

/// A buffer that holds exactly one key sequence of the table decodes to the
/// key of that entry, with no modifier, and the whole sequence is taken.
///
/// The table is searched in order and only after an escape byte, so this is
/// stated of a sequence that starts with the escape byte and that no earlier
/// entry is a prefix of.
pub proof fn lemma_exact_sequence(data: Seq<u8>, mode: Mode, keys: Seq<Seq<u8>>, i: int)
    requires
        keys.len() == TB_KEYS_NUM,
        0 <= i < keys.len(),
        data == keys[i],
        0 < data.len() <= BUFFER_SIZE_MAX,
        data[0] == ESC,
        forall|j: int| 0 <= j < i ==> !matches_entry(data, keys, j),
    ensures
        spec_extract(data, mode, keys) == (Some((Mod { bits: 0 }, event_key(i))), data.len()),
{
    lemma_first_match(data, keys, 0);
    assert(data.is_prefix_of(data)) by {
        assert(data.subrange(0, data.len() as int) =~= data);
    }
    assert(matches_entry(data, keys, i));
}

/// In `Mode::Esc`, an escape byte that starts no key sequence of the table is
/// the Escape key, with no modifier, and one byte is taken.
pub proof fn lemma_lone_escape(data: Seq<u8>, keys: Seq<Seq<u8>>)
    requires
        data.len() > 0,
        data[0] == ESC,
        forall|j: int| 0 <= j < keys.len() ==> !matches_entry(peek_window(data), keys, j),
    ensures
        spec_extract(data, Mode::Esc, keys) == (Some((Mod { bits: 0 }, Key::Esc)), 1nat),
{
    lemma_first_match(peek_window(data), keys, 0);
}

/// Decodes the next key event from the bytes held in `inbuf` and takes the
/// bytes of that event off the buffer.
pub fn extract_event(inbuf: &mut Ringbuffer, mode: Mode, keys: &[Vec<u8>; 22]) -> (r: Option<
    (Mod, Key),
>)
    requires
        old(inbuf).wf(),
    ensures
        final(inbuf).wf(),
        final(inbuf).cap() == old(inbuf).cap(),
        r == spec_extract(old(inbuf)@, mode, table_view(keys)).0,
        spec_extract(old(inbuf)@, mode, table_view(keys)).1 <= old(inbuf)@.len(),
        final(inbuf)@ == old(inbuf)@.subrange(
            spec_extract(old(inbuf)@, mode, table_view(keys)).1 as int,
            old(inbuf)@.len() as int,
        ),
    decreases old(inbuf)@.len(),
{
    let ghost data = inbuf@;
    let held = inbuf.data_size();
    let nbytes = if held < BUFFER_SIZE_MAX {
        held
    } else {
        BUFFER_SIZE_MAX
    };
    if nbytes == 0 {
        assert(inbuf@ =~= data.subrange(0, data.len() as int));
        return None;
    }
    let mut window: Vec<u8> = vec![0u8; nbytes];
    inbuf.read(window.as_mut_slice());
    assert(window@ =~= peek_window(data));
    proof {
        lemma_extract_bound(data, mode, table_view(keys));
    }
    if window[0] == ESC {
        match parse_escape_seq(window.as_slice(), keys) {
            Some((m, k, n)) => {
                inbuf.skip(n);
                return Some((m, k));
            },
            None => {},
        }
        inbuf.skip(1);
        match mode {
            Mode::Esc => {
                return Some((Mod::empty(), Key::Esc));
            },
            Mode::Alt => {
                let ghost rest = inbuf@;
                let r = extract_event(inbuf, mode, keys);
                proof {
                    let n = spec_extract(rest, mode, table_view(keys)).1 as int;
                    assert(rest.subrange(n, rest.len() as int) =~= data.subrange(
                        n + 1,
                        data.len() as int,
                    ));
                }
                return match r {
                    Some((m, k)) => Some((m.union(Mod::alt()), k)),
                    None => None,
                };
            },
        }
    }
    match decode(window.as_slice()) {
        Some((x, n)) => {
            match char::from_u32(x) {
                Some(c) => {
                    inbuf.skip(n);
                    return Some((Mod::empty(), Key::Char(c)));
                },
                None => {},
            }
        },
        None => {},
    }
    assert(inbuf@ =~= data.subrange(0, data.len() as int));
    None
}

} // verus!
