//! The bytes that go to the terminal: cursor moves, colour changes and
//! characters, with the state that lets redundant ones be left out.

use crate::input::is_scalar;
use crate::terminfo::T_FUNCS_NUM;
use crate::utf8::{encode, spec_encode};
use crate::util::append;
use crate::{Attr, BOLD, DEFAULT, UNDERLINE};
use vstd::prelude::*;

verus! {

/// The control functions of a terminal, in the order of a function table.
#[derive(Debug, Clone, Copy, PartialEq, Eq, Structural)]
pub enum Func {
    EnterCa,
    ExitCa,
    ShowCursor,
    HideCursor,
    ClearScreen,
    Sgr0,
    Underline,
    Bold,
    Blink,
    Reverse,
    EnterKeypad,
    ExitKeypad,
}

impl Func {
    /// Place of the function in a function table.
    pub open spec fn spec_index(self) -> int {
        match self {
            Func::EnterCa => 0,
            Func::ExitCa => 1,
            Func::ShowCursor => 2,
            Func::HideCursor => 3,
            Func::ClearScreen => 4,
            Func::Sgr0 => 5,
            Func::Underline => 6,
            Func::Bold => 7,
            Func::Blink => 8,
            Func::Reverse => 9,
            Func::EnterKeypad => 10,
            Func::ExitKeypad => 11,
        }
    }

    /// Place of the function in a function table.
    pub fn index(self) -> (i: usize)
        ensures
            i == self.spec_index(),
            i < T_FUNCS_NUM,
    {
        match self {
            Func::EnterCa => 0,
            Func::ExitCa => 1,
            Func::ShowCursor => 2,
            Func::HideCursor => 3,
            Func::ClearScreen => 4,
            Func::Sgr0 => 5,
            Func::Underline => 6,
            Func::Bold => 7,
            Func::Blink => 8,
            Func::Reverse => 9,
            Func::EnterKeypad => 10,
            Func::ExitKeypad => 11,
        }
    }
}

/// Whether the pair of coordinates stands for a hidden cursor.
pub open spec fn cursor_hidden(cx: usize, cy: usize) -> bool {
    cx == usize::MAX && cy == usize::MAX
}

/// Tells whether `(cx, cy)` stands for a hidden cursor.
pub fn is_cursor_hidden(cx: usize, cy: usize) -> (hidden: bool)
    ensures
        hidden == cursor_hidden(cx, cy),
{
    cx == usize::MAX && cy == usize::MAX
}

/// The decimal digits of a number, as ASCII bytes.
pub open spec fn decimal(n: nat) -> Seq<u8>
    decreases n,
{
    if n < 10 {
        seq![(48 + n) as u8]
    } else {
        decimal(n / 10) + seq![(48 + n % 10) as u8]
    }
}

/// Appends the decimal digits of `n` to `w`.
pub fn write_decimal(w: &mut Vec<u8>, n: u128)
    ensures
        final(w)@ == old(w)@ + decimal(n as nat),
    decreases n,
{
    if n >= 10 {
        write_decimal(w, n / 10);
    }
    w.push((48 + n % 10) as u8);
    assert(w@ =~= old(w)@ + decimal(n as nat));
}

/// The escape sequence that puts the cursor at column `x` of row `y`, both
/// counted from zero: the row and the column are written counted from one.
pub open spec fn cursor_seq(x: nat, y: nat) -> Seq<u8> {
    seq![0x1Bu8, 0x5Bu8] + decimal(y + 1) + seq![0x3Bu8] + decimal(x + 1) + seq![0x48u8]
}

/// Appends to `w` the escape sequence that puts the cursor at `(x, y)`.
pub fn write_cursor(w: &mut Vec<u8>, x: usize, y: usize)
    ensures
        final(w)@ == old(w)@ + cursor_seq(x as nat, y as nat),
{
    w.push(0x1B);
    w.push(0x5B);
    write_decimal(w, y as u128 + 1);
    w.push(0x3B);
    write_decimal(w, x as u128 + 1);
    w.push(0x48);
    assert(w@ =~= old(w)@ + cursor_seq(x as nat, y as nat));
}

/// The byte strings of a function table.
pub open spec fn funcs_view(funcs: &[Vec<u8>; 12]) -> Seq<Seq<u8>> {
    Seq::new(12, |i: int| funcs@[i]@)
}

/// The number that stands for a colour in an escape sequence: the colour
/// bits, with 9 for the terminal's own colour.
pub open spec fn color_code(a: Attr) -> nat {
    if a.bits & DEFAULT == DEFAULT {
        9
    } else {
        (a.bits & DEFAULT) as nat
    }
}

/// `bs` if the flag is set, else nothing.
pub open spec fn only_if(flag: bool, bs: Seq<u8>) -> Seq<u8> {
    if flag {
        bs
    } else {
        Seq::empty()
    }
}

/// The escape sequence that selects the colours of foreground and
/// background.
pub open spec fn color_seq(fg: Attr, bg: Attr) -> Seq<u8> {
    seq![0x1Bu8, 0x5Bu8, 0x33u8] + decimal(color_code(fg)) + seq![0x3Bu8, 0x34u8] + decimal(
        color_code(bg),
    ) + seq![0x6Du8]
}

/// The bytes that select a pair of colours: the reset function, the two
/// colour codes, then the functions for bold, blink and underline as the
/// flags ask.
pub open spec fn attr_seq(funcs: Seq<Seq<u8>>, fg: Attr, bg: Attr) -> Seq<u8> {
    funcs[Func::Sgr0.spec_index()] + color_seq(fg, bg) + only_if(
        fg.bits & BOLD == BOLD,
        funcs[Func::Bold.spec_index()],
    ) + only_if(bg.bits & BOLD == BOLD, funcs[Func::Blink.spec_index()]) + only_if(
        fg.bits & UNDERLINE == UNDERLINE,
        funcs[Func::Underline.spec_index()],
    )
}

/// What `write_attr` writes: nothing when the colours are those last
/// written.
pub open spec fn attr_out(funcs: Seq<Seq<u8>>, last: (Attr, Attr), fg: Attr, bg: Attr) -> Seq<u8> {
    if last == (fg, bg) {
        Seq::empty()
    } else {
        attr_seq(funcs, fg, bg)
    }
}

/// Whether `(x, y)` is the position right after `last` in its row.
pub open spec fn follows(last: (usize, usize), x: usize, y: usize) -> bool {
    x >= 1 && last.0 == x - 1 && last.1 == y
}

/// The character shown for a code point: a space for zero and for what is
/// no scalar value.
pub open spec fn shown_char(ch: u32) -> char {
    if is_scalar(ch) && ch != 0 {
        ch as char
    } else {
        ' '
    }
}

/// What `write_char` writes: a cursor move unless the position follows the
/// last one written, then the character.
pub open spec fn char_out(last: (usize, usize), ch: u32, x: usize, y: usize) -> Seq<u8> {
    only_if(!follows(last, x, y), cursor_seq(x as nat, y as nat)) + spec_encode(shown_char(ch) as u32)
}

/// What `write_clear` writes.
pub open spec fn clear_out(
    funcs: Seq<Seq<u8>>,
    last: (Attr, Attr),
    cx: usize,
    cy: usize,
    fg: Attr,
    bg: Attr,
) -> Seq<u8> {
    attr_out(funcs, last, fg, bg) + funcs[Func::ClearScreen.spec_index()] + only_if(
        !cursor_hidden(cx, cy),
        cursor_seq(cx as nat, cy as nat),
    )
}

/// Writer of terminal output into a byte buffer.
#[derive(Debug)]
pub struct TermWriter {
    /// The control functions of the terminal.
    pub funcs: [Vec<u8>; 12],
    /// Where the last character was written.
    pub last_pos: (usize, usize),
    /// The colours last selected.
    pub last_attr: (Attr, Attr),
    /// The bytes written and not yet sent.
    pub w: Vec<u8>,
}

impl TermWriter {
    /// A writer into `w` that knows no control functions, no last position
    /// and no last colours.
    pub fn new(w: Vec<u8>) -> (r: TermWriter)
        ensures
            r.w@ == w@,
            r.last_pos == (usize::MAX, usize::MAX),
            r.last_attr == (Attr { bits: 0xFFFF }, Attr { bits: 0xFFFF }),
            forall|i: int| 0 <= i < 12 ==> #[trigger] funcs_view(&r.funcs)[i] == Seq::<u8>::empty(),
    {
        TermWriter {
            funcs: [
                Vec::new(),
                Vec::new(),
                Vec::new(),
                Vec::new(),
                Vec::new(),
                Vec::new(),
                Vec::new(),
                Vec::new(),
                Vec::new(),
                Vec::new(),
                Vec::new(),
                Vec::new(),
            ],
            last_pos: (usize::MAX, usize::MAX),
            last_attr: (Attr { bits: 0xFFFF }, Attr { bits: 0xFFFF }),
            w,
        }
    }

    /// Writes the bytes of a control function.
    pub fn write_func(&mut self, func: Func)
        ensures
            final(self).w@ == old(self).w@ + funcs_view(&old(self).funcs)[func.spec_index()],
            final(self).funcs == old(self).funcs,
            final(self).last_pos == old(self).last_pos,
            final(self).last_attr == old(self).last_attr,
    {
        let i = func.index();
        append(&mut self.w, self.funcs[i].as_slice());
    }

    /// Writes the character of code point `x` at `(xpos, ypos)`, after a
    /// cursor move unless the position follows the last one written.
    pub fn write_char(&mut self, x: u32, xpos: usize, ypos: usize)
        ensures
            final(self).w@ == old(self).w@ + char_out(old(self).last_pos, x, xpos, ypos),
            final(self).last_pos == (xpos, ypos),
            final(self).funcs == old(self).funcs,
            final(self).last_attr == old(self).last_attr,
    {
        let near = xpos >= 1 && self.last_pos.0 == xpos - 1 && self.last_pos.1 == ypos;
        if !near {
            write_cursor(&mut self.w, xpos, ypos);
        }
        self.last_pos = (xpos, ypos);
        let c = match char::from_u32(x) {
            Some(c) => if c == '\0' {
                ' '
            } else {
                c
            },
            None => ' ',
        };
        encode(c, &mut self.w);
        assert(self.w@ =~= old(self).w@ + char_out(old(self).last_pos, x, xpos, ypos));
    }

    /// Selects a pair of colours, unless they are the pair last selected.
    pub fn write_attr(&mut self, fg: Attr, bg: Attr)
        ensures
            final(self).w@ == old(self).w@ + attr_out(
                funcs_view(&old(self).funcs),
                old(self).last_attr,
                fg,
                bg,
            ),
            final(self).last_attr == (fg, bg),
            final(self).funcs == old(self).funcs,
            final(self).last_pos == old(self).last_pos,
    {
        if fg == self.last_attr.0 && bg == self.last_attr.1 {
            assert(self.w@ =~= old(self).w@ + Seq::<u8>::empty());
            return ;
        }
        let ghost start = self.w@;
        let ghost funcs = funcs_view(&self.funcs);
        self.write_func(Func::Sgr0);
        let ghost acc = funcs[Func::Sgr0.spec_index()];
        write_colors(&mut self.w, fg, bg);
        proof {
            lemma_assoc(start, acc, color_seq(fg, bg));
            acc = acc + color_seq(fg, bg);
        }
        self.write_when(fg.contains(Attr { bits: BOLD }), Func::Bold);
        proof {
            let piece = only_if(fg.bits & BOLD == BOLD, funcs[Func::Bold.spec_index()]);
            lemma_assoc(start, acc, piece);
            acc = acc + piece;
        }
        self.write_when(bg.contains(Attr { bits: BOLD }), Func::Blink);
        proof {
            let piece = only_if(bg.bits & BOLD == BOLD, funcs[Func::Blink.spec_index()]);
            lemma_assoc(start, acc, piece);
            acc = acc + piece;
        }
        self.write_when(fg.contains(Attr { bits: UNDERLINE }), Func::Underline);
        proof {
            let piece = only_if(fg.bits & UNDERLINE == UNDERLINE, funcs[Func::Underline.spec_index()]);
            lemma_assoc(start, acc, piece);
            acc = acc + piece;
        }
        self.last_attr = (fg, bg);
    }

    /// Writes the bytes of a control function if `flag` is set.
    fn write_when(&mut self, flag: bool, func: Func)
        ensures
            final(self).w@ == old(self).w@ + only_if(
                flag,
                funcs_view(&old(self).funcs)[func.spec_index()],
            ),
            final(self).funcs == old(self).funcs,
            final(self).last_pos == old(self).last_pos,
            final(self).last_attr == old(self).last_attr,
    {
        if flag {
            self.write_func(func);
        } else {
            assert(self.w@ =~= old(self).w@ + Seq::<u8>::empty());
        }
    }

    /// Selects the colours, clears the screen, puts the cursor at `(cx, cy)`
    /// unless it is hidden, and forgets the last position.
    pub fn write_clear(&mut self, cx: usize, cy: usize, fg: Attr, bg: Attr)
        ensures
            final(self).w@ == old(self).w@ + clear_out(
                funcs_view(&old(self).funcs),
                old(self).last_attr,
                cx,
                cy,
                fg,
                bg,
            ),
            final(self).last_attr == (fg, bg),
            final(self).last_pos == (usize::MAX, usize::MAX),
            final(self).funcs == old(self).funcs,
    {
        self.write_attr(fg, bg);
        self.write_func(Func::ClearScreen);
        if !is_cursor_hidden(cx, cy) {
            write_cursor(&mut self.w, cx, cy);
        }
        self.invalidate_pos();
        assert(self.w@ =~= old(self).w@ + clear_out(
            funcs_view(&old(self).funcs),
            old(self).last_attr,
            cx,
            cy,
            fg,
            bg,
        ));
    }

    /// Forgets the last position, so that the next character is written
    /// after a cursor move.
    pub fn invalidate_pos(&mut self)
        ensures
            final(self).last_pos == (usize::MAX, usize::MAX),
            final(self).w == old(self).w,
            final(self).funcs == old(self).funcs,
            final(self).last_attr == old(self).last_attr,
    {
        self.last_pos = (usize::MAX, usize::MAX);
    }
}

/// Joining byte strings does not depend on the grouping.
pub proof fn lemma_assoc(a: Seq<u8>, b: Seq<u8>, c: Seq<u8>)
    ensures
        (a + b) + c == a + (b + c),
{
    assert((a + b) + c =~= a + (b + c));
}

/// Appends the escape sequence that selects the two colours.
fn write_colors(w: &mut Vec<u8>, fg: Attr, bg: Attr)
    ensures
        final(w)@ == old(w)@ + color_seq(fg, bg),
{
    w.push(0x1B);
    w.push(0x5B);
    w.push(0x33);
    assert(w@ =~= old(w)@ + seq![0x1Bu8, 0x5Bu8, 0x33u8]);
    write_decimal(w, color_number(fg) as u128);
    w.push(0x3B);
    w.push(0x34);
    assert(w@ =~= old(w)@ + (seq![0x1Bu8, 0x5Bu8, 0x33u8] + decimal(color_code(fg)) + seq![
        0x3Bu8,
        0x34u8,
    ]));
    write_decimal(w, color_number(bg) as u128);
    w.push(0x6D);
    assert(w@ =~= old(w)@ + color_seq(fg, bg));
}

/// The number that stands for a colour in an escape sequence.
fn color_number(a: Attr) -> (n: u16)
    ensures
        n == color_code(a),
{
    let c = a.intersection(Attr { bits: DEFAULT });
    if c.bits == DEFAULT {
        9
    } else {
        c.bits
    }
}

} // verus!
