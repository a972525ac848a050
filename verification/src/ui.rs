//! The interface itself: it owns the grid, the input buffer, the capability
//! strings and the output writer, and takes the terminal's answers from its
//! caller.
//!
//! Nothing here touches the terminal. What is to be sent gathers in the
//! output, which the caller takes with `take_output` and sends; what the
//! terminal delivers is handed to `fetch_event`.

use crate::cellbuf::{
    blanks, is_resize_of, lemma_all_blank, lemma_position_of, resize_fails, resize_succeeds,
    AllocErr, CellBuf, CellsMut,
};
use crate::input::{extract_event, spec_extract, table_view, Event, Mode};
use crate::ringbuffer::{free_of, Ringbuffer};
use crate::term::{
    attr_out, char_out, clear_out, cursor_hidden, cursor_seq, funcs_view, is_cursor_hidden,
    lemma_assoc, only_if, write_cursor, Func, TermWriter,
};
use crate::terminfo::Spec;
use crate::{Attr, Cell, DEFAULT};
use vstd::prelude::*;
use vstd::string::StrSliceExecFns;

verus! {

/// Size of the input buffer.
pub const INPUT_BUFFER_SIZE: usize = 0x1000;

/// The state of the output writer that decides what can be left out: the
/// position of the last character written and the colours last selected.
pub struct Pen {
    pub pos: (usize, usize),
    pub attr: (Attr, Attr),
}

/// What is written for one position of the grid, and the pen after it:
/// nothing for a cell that is shown already, else its colours and its
/// character.
pub open spec fn render_cell(
    funcs: Seq<Seq<u8>>,
    pen: Pen,
    front: Cell,
    back: Cell,
    x: usize,
    y: usize,
) -> (Seq<u8>, Pen) {
    if back == front {
        (Seq::empty(), pen)
    } else {
        (
            attr_out(funcs, pen.attr, back.fg, back.bg) + char_out(pen.pos, back.ch, x, y),
            Pen { pos: (x, y), attr: (back.fg, back.bg) },
        )
    }
}

/// What is written for the first `n` positions of a grid, row after row,
/// and the pen after them.
pub open spec fn render(
    funcs: Seq<Seq<u8>>,
    pen: Pen,
    front: Seq<Cell>,
    back: Seq<Cell>,
    width: nat,
    n: nat,
) -> (Seq<u8>, Pen)
    decreases n,
{
    if n == 0 {
        (Seq::empty(), pen)
    } else {
        let i = (n - 1) as int;
        let (out, p) = render(funcs, pen, front, back, width, (n - 1) as nat);
        let (more, q) = render_cell(
            funcs,
            p,
            front[i],
            back[i],
            (i % (width as int)) as usize,
            (i / (width as int)) as usize,
        );
        (out + more, q)
    }
}

/// Where the planes agree nothing is written and the pen stays as it is.
pub proof fn lemma_render_same(funcs: Seq<Seq<u8>>, pen: Pen, plane: Seq<Cell>, width: nat, n: nat)
    ensures
        render(funcs, pen, plane, plane, width, n) == (Seq::<u8>::empty(), pen),
    decreases n,
{
    if n > 0 {
        lemma_render_same(funcs, pen, plane, width, (n - 1) as nat);
        assert(Seq::<u8>::empty() + Seq::<u8>::empty() =~= Seq::<u8>::empty());
    }
}

/// What can be seen of a `UI`.
pub struct UIView {
    /// Width of the grid.
    pub width: nat,
    /// Height of the grid.
    pub height: nat,
    /// The cells that the terminal shows, row after row.
    pub front: Seq<Cell>,
    /// The cells drawn since, row after row.
    pub back: Seq<Cell>,
    /// The bytes written and not yet taken.
    pub output: Seq<u8>,
    /// Where the last character was written.
    pub last_pos: (usize, usize),
    /// The colours last selected.
    pub last_attr: (Attr, Attr),
    /// The control functions of the terminal.
    pub funcs: Seq<Seq<u8>>,
    /// The key sequences of the terminal.
    pub keys: Seq<Seq<u8>>,
    /// The cursor, or the hidden-cursor pair.
    pub cursor: (usize, usize),
    /// The colours that `clear` fills with.
    pub fg: Attr,
    pub bg: Attr,
    /// The size of the terminal as last told.
    pub term_size: (u16, u16),
    pub input_mode: Mode,
    /// The input bytes held and not yet decoded.
    pub input: Seq<u8>,
    /// Size of the input buffer.
    pub input_cap: nat,
}

/// The interface after `present`: the changed cells are written, the cursor
/// is put in its place unless hidden, and the front plane equals the back
/// plane.
pub open spec fn presented(v: UIView) -> UIView {
    let start = Pen { pos: (usize::MAX, usize::MAX), attr: v.last_attr };
    let (bytes, pen) = render(v.funcs, start, v.front, v.back, v.width, v.width * v.height);
    UIView {
        front: v.back,
        output: v.output + bytes + only_if(
            !cursor_hidden(v.cursor.0, v.cursor.1),
            cursor_seq(v.cursor.0 as nat, v.cursor.1 as nat),
        ),
        last_pos: pen.pos,
        last_attr: pen.attr,
        ..v
    }
}

/// What `start` writes before it takes the size of the terminal.
pub open spec fn start_out(v: UIView) -> Seq<u8> {
    v.funcs[Func::EnterCa.spec_index()] + v.funcs[Func::EnterKeypad.spec_index()] + only_if(
        cursor_hidden(v.cursor.0, v.cursor.1),
        v.funcs[Func::HideCursor.spec_index()],
    )
}

/// What `stop` writes.
pub open spec fn stop_out(v: UIView) -> Seq<u8> {
    v.funcs[Func::ShowCursor.spec_index()] + v.funcs[Func::Sgr0.spec_index()]
        + v.funcs[Func::ClearScreen.spec_index()] + v.funcs[Func::ExitCa.spec_index()]
        + v.funcs[Func::ExitKeypad.spec_index()]
}

/// What `set_cursor` writes: the function that shows or hides the cursor
/// when it becomes visible or hidden, then its place when it is visible.
pub open spec fn cursor_out(v: UIView, cx: usize, cy: usize) -> Seq<u8> {
    only_if(
        cursor_hidden(v.cursor.0, v.cursor.1) && !cursor_hidden(cx, cy),
        v.funcs[Func::ShowCursor.spec_index()],
    ) + only_if(
        !cursor_hidden(v.cursor.0, v.cursor.1) && cursor_hidden(cx, cy),
        v.funcs[Func::HideCursor.spec_index()],
    ) + only_if(!cursor_hidden(cx, cy), cursor_seq(cx as nat, cy as nat))
}

/// Whether the grid of `v` is sure to take the size `size`: it is when it
/// has that size already or that size has no cells. Any other size needs
/// new storage, which may or may not be had.
pub open spec fn grid_follows(v: UIView, size: (u16, u16)) -> bool {
    resize_succeeds(v.width, v.height, size.0 as nat, size.1 as nat)
}

/// Whether the grid of `v` is sure not to take the size `size`: it is when
/// the cells of that size cannot be counted.
pub open spec fn grid_stays(v: UIView, size: (u16, u16)) -> bool {
    resize_fails(v.width, v.height, size.0 as nat, size.1 as nat)
}

/// `after` is `before` with the size `size` of the terminal taken and the
/// grid resized to it: the back plane keeps its cells where the sizes
/// overlap, the front plane is blank in the colours of the interface, and
/// the screen is cleared.
pub open spec fn took_size(before: UIView, after: UIView, size: (u16, u16)) -> bool {
    &&& after == sized(before, size, after.back)
    &&& is_resize_of(
        after.back,
        size.0 as nat,
        size.1 as nat,
        before.back,
        before.width,
        before.height,
    )
}

/// `after` is `before` with the size `size` of the terminal noted, and the
/// grid and the screen as they were.
pub open spec fn noted_size(before: UIView, after: UIView, size: (u16, u16)) -> bool {
    after == (UIView { term_size: size, ..before })
}

/// The interface after it was told the size `size` of the terminal and took
/// it: the grid has that size and `back` is its back plane, the front plane
/// is blank in the colours of the interface, and the screen is cleared.
pub open spec fn sized(v: UIView, size: (u16, u16), back: Seq<Cell>) -> UIView {
    UIView {
        term_size: size,
        width: size.0 as nat,
        height: size.1 as nat,
        front: blanks((size.0 * size.1) as nat, v.fg, v.bg),
        back,
        output: v.output + clear_out(v.funcs, v.last_attr, v.cursor.0, v.cursor.1, v.fg, v.bg),
        last_attr: (v.fg, v.bg),
        last_pos: (usize::MAX, usize::MAX),
        ..v
    }
}

/// The interface before it was started: no grid, nothing written, the
/// cursor hidden, the default colours, and an empty input buffer.
pub open spec fn fresh(spec: crate::terminfo::SpecView) -> UIView {
    UIView {
        width: 0,
        height: 0,
        front: Seq::empty(),
        back: Seq::empty(),
        output: Seq::empty(),
        last_pos: (usize::MAX, usize::MAX),
        last_attr: (Attr { bits: 0xFFFF }, Attr { bits: 0xFFFF }),
        funcs: spec.funcs,
        keys: spec.keys,
        cursor: (usize::MAX, usize::MAX),
        fg: Attr { bits: DEFAULT },
        bg: Attr { bits: DEFAULT },
        term_size: (0, 0),
        input_mode: Mode::Esc,
        input: Seq::empty(),
        input_cap: INPUT_BUFFER_SIZE as nat,
    }
}

/// The interface after `start` wrote what enters the terminal.
pub open spec fn entered(v: UIView) -> UIView {
    UIView { output: v.output + start_out(v), ..v }
}

/// The interface after the screen was cleared once more.
pub open spec fn cleared(v: UIView) -> UIView {
    UIView {
        output: v.output + clear_out(v.funcs, v.last_attr, v.cursor.0, v.cursor.1, v.fg, v.bg),
        last_attr: (v.fg, v.bg),
        last_pos: (usize::MAX, usize::MAX),
        ..v
    }
}

/// The interface that `new_in` makes for a terminal of the size `size`.
pub open spec fn initial(spec: crate::terminfo::SpecView, size: (u16, u16)) -> UIView {
    let blank_back = blanks(
        (size.0 * size.1) as nat,
        Attr { bits: DEFAULT },
        Attr { bits: DEFAULT },
    );
    cleared(sized(entered(fresh(spec)), size, blank_back))
}

/// Presenting twice with nothing drawn in between writes no cell the second
/// time: only the cursor is put in its place again, unless it is hidden.
pub proof fn lemma_present_twice(v: UIView)
    ensures
        presented(presented(v)) == (UIView {
            output: presented(v).output + only_if(
                !cursor_hidden(v.cursor.0, v.cursor.1),
                cursor_seq(v.cursor.0 as nat, v.cursor.1 as nat),
            ),
            last_pos: (usize::MAX, usize::MAX),
            ..presented(v)
        }),
{
    let once = presented(v);
    let start = Pen { pos: (usize::MAX, usize::MAX), attr: once.last_attr };
    lemma_render_same(once.funcs, start, once.back, once.width, once.width * once.height);
    assert(once.output + Seq::<u8>::empty() =~= once.output);
}

/// What the caller of `fetch_event` reports: that the call begins, or what
/// came of the step that the interface asked for last.
#[derive(Debug, Clone, PartialEq, Eq)]
pub enum FetchInput {
    /// A fetch begins.
    Begin,
    /// A read of the terminal delivered these bytes, possibly none.
    Read(Vec<u8>),
    /// A read of the terminal had nothing to deliver just now.
    WouldBlock,
    /// The wait ended with nothing ready.
    Timeout,
    /// The terminal changed its size to this width and height.
    Resized(u16, u16),
}

/// What the caller of `fetch_event` is to do next.
#[derive(Debug, Clone, Copy, PartialEq, Eq, Structural)]
pub enum FetchAction {
    /// The fetch is over, with this event or with none.
    Return(Option<Event>),
    /// Read the terminal once, without waiting, for at most as many bytes
    /// as `input_room` tells, and report `Read` or `WouldBlock`.
    ReadInput,
    /// Wait until the terminal can be read or has changed its size, or
    /// until the time allowed is over. Then read the terminal and report
    /// `Read`, or report `Resized`, or `Timeout`.
    Wait,
}

/// The event that the input held starts with, as `extract_event` decodes it.
pub open spec fn decoded_event(v: UIView) -> Option<Event> {
    match spec_extract(v.input, v.input_mode, v.keys).0 {
        Some((m, k)) => Some(Event::Key(m, k)),
        None => None,
    }
}

/// The interface after the bytes of the event that the input starts with
/// were taken off the input.
pub open spec fn after_decode(v: UIView) -> UIView {
    UIView {
        input: v.input.subrange(
            spec_extract(v.input, v.input_mode, v.keys).1 as int,
            v.input.len() as int,
        ),
        ..v
    }
}

/// What to do after an attempt to decode: return the event if there is
/// one, else go on with `otherwise`.
pub open spec fn decode_action(v: UIView, otherwise: FetchAction) -> FetchAction {
    match decoded_event(v) {
        Some(e) => FetchAction::Return(Some(e)),
        None => otherwise,
    }
}

/// The bytes of `bytes` that the input takes: as many as it has room for.
pub open spec fn accepted(v: UIView, bytes: Seq<u8>) -> Seq<u8> {
    if bytes.len() <= free_of(v.input_cap, v.input.len()) {
        bytes
    } else {
        bytes.subrange(0, free_of(v.input_cap, v.input.len()) as int)
    }
}

/// The grid of cells of a terminal, with its input and output.
#[derive(Debug)]
pub struct UI {
    cell_buffer: CellBuf,
    term_writer: TermWriter,
    cursor_x: usize,
    cursor_y: usize,
    fg: Attr,
    bg: Attr,
    term_size: (u16, u16),
    input_mode: Mode,
    inbuf: Ringbuffer,
    keys: [Vec<u8>; 22],
}

impl View for UI {
    type V = UIView;

    closed spec fn view(&self) -> UIView {
        UIView {
            width: self.cell_buffer.spec_width(),
            height: self.cell_buffer.spec_height(),
            front: self.cell_buffer.front(),
            back: self.cell_buffer.back(),
            output: self.term_writer.w@,
            last_pos: self.term_writer.last_pos,
            last_attr: self.term_writer.last_attr,
            funcs: funcs_view(&self.term_writer.funcs),
            keys: table_view(&self.keys),
            cursor: (self.cursor_x, self.cursor_y),
            fg: self.fg,
            bg: self.bg,
            term_size: self.term_size,
            input_mode: self.input_mode,
            input: self.inbuf@,
            input_cap: self.inbuf.cap(),
        }
    }
}

impl UI {
    /// The grid and the input buffer are well formed.
    pub closed spec fn wf(&self) -> bool {
        self.cell_buffer.wf() && self.inbuf.wf()
    }

    /// Both planes of a well-formed interface have the size of the grid, and
    /// the input held fits its buffer.
    pub proof fn lemma_wf(&self)
        requires
            self.wf(),
        ensures
            self@.front.len() == self@.width * self@.height,
            self@.back.len() == self@.width * self@.height,
            self@.funcs.len() == 12,
            self@.keys.len() == 22,
            self@.input.len() + free_of(self@.input_cap, self@.input.len()) <= self@.input_cap,
    {
        self.cell_buffer.lemma_planes();
        self.inbuf.lemma_slack();
    }

    /// Width of the terminal as last told.
    pub fn width(&self) -> (w: usize)
        ensures
            w == self@.term_size.0,
    {
        self.term_size.0 as usize
    }

    /// Height of the terminal as last told.
    pub fn height(&self) -> (h: usize)
        ensures
            h == self@.term_size.1,
    {
        self.term_size.1 as usize
    }

    /// The cursor, or the hidden-cursor pair.
    pub fn get_cursor(&self) -> (c: (usize, usize))
        ensures
            c == self@.cursor,
    {
        (self.cursor_x, self.cursor_y)
    }

    /// Takes the bytes written since the last call, to be sent to the
    /// terminal.
    pub fn take_output(&mut self) -> (bytes: Vec<u8>)
        ensures
            bytes@ == old(self)@.output,
            final(self)@ == (UIView { output: Seq::empty(), ..old(self)@ }),
            old(self).wf() ==> final(self).wf(),
    {
        let mut bytes: Vec<u8> = Vec::new();
        std::mem::swap(&mut bytes, &mut self.term_writer.w);
        bytes
    }

    /// Number of input bytes that the interface can still take.
    pub fn input_room(&self) -> (n: usize)
        requires
            self.wf(),
        ensures
            n == free_of(self@.input_cap, self@.input.len()),
    {
        self.inbuf.free_space()
    }

    /// Makes every cell of the back plane a space in the colours of the
    /// interface.
    pub fn clear(&mut self)
        requires
            old(self).wf(),
        ensures
            final(self).wf(),
            final(self)@ == (UIView {
                back: blanks(old(self)@.width * old(self)@.height, old(self)@.fg, old(self)@.bg),
                ..old(self)@
            }),
    {
        proof {
            self.cell_buffer.lemma_planes();
        }
        let (fg, bg) = (self.fg, self.bg);
        let (front, mut back) = self.cell_buffer.cells_mut();
        back.clear(fg, bg);
    }

    /// Moves the cursor, or hides it when given the hidden-cursor pair.
    pub fn set_cursor(&mut self, cx: usize, cy: usize)
        ensures
            final(self)@ == (UIView {
                cursor: (cx, cy),
                output: old(self)@.output + cursor_out(old(self)@, cx, cy),
                ..old(self)@
            }),
            old(self).wf() ==> final(self).wf(),
    {
        let was_hidden = is_cursor_hidden(self.cursor_x, self.cursor_y);
        let hidden = is_cursor_hidden(cx, cy);
        let ghost v = self@;
        let ghost start = v.output;
        let ghost one = only_if(was_hidden && !hidden, v.funcs[Func::ShowCursor.spec_index()]);
        let ghost two = only_if(!was_hidden && hidden, v.funcs[Func::HideCursor.spec_index()]);
        let ghost three = only_if(!hidden, cursor_seq(cx as nat, cy as nat));
        if was_hidden && !hidden {
            self.term_writer.write_func(Func::ShowCursor);
        }
        assert(self.term_writer.w@ =~= start + one);
        if !was_hidden && hidden {
            self.term_writer.write_func(Func::HideCursor);
        }
        assert(self.term_writer.w@ =~= start + one + two);
        self.cursor_x = cx;
        self.cursor_y = cy;
        if !hidden {
            write_cursor(&mut self.term_writer.w, cx, cy);
        }
        assert(self.term_writer.w@ =~= start + one + two + three);
        proof {
            lemma_assoc(start, one, two);
            lemma_assoc(start, one + two, three);
        }
    }

    /// Sets the input mode and returns the former one; with `None` the mode
    /// stays.
    pub fn select_input_mode(&mut self, mode: Option<Mode>) -> (former: Mode)
        ensures
            former == old(self)@.input_mode,
            final(self)@ == (UIView {
                input_mode: match mode {
                    Some(m) => m,
                    None => old(self)@.input_mode,
                },
                ..old(self)@
            }),
            old(self).wf() ==> final(self).wf(),
    {
        let former = self.input_mode;
        match mode {
            Some(m) => {
                self.input_mode = m;
            },
            None => {},
        }
        former
    }

    /// Leaves the terminal: shows the cursor, resets the colours, clears the
    /// screen and leaves the alternate screen and the keypad mode.
    pub fn stop(&mut self)
        ensures
            final(self)@ == (UIView {
                output: old(self)@.output + stop_out(old(self)@),
                ..old(self)@
            }),
            old(self).wf() ==> final(self).wf(),
    {
        let ghost v = self@;
        let ghost start = v.output;
        self.term_writer.write_func(Func::ShowCursor);
        let ghost acc = v.funcs[Func::ShowCursor.spec_index()];
        self.term_writer.write_func(Func::Sgr0);
        proof {
            lemma_assoc(start, acc, v.funcs[Func::Sgr0.spec_index()]);
            acc = acc + v.funcs[Func::Sgr0.spec_index()];
        }
        self.term_writer.write_func(Func::ClearScreen);
        proof {
            lemma_assoc(start, acc, v.funcs[Func::ClearScreen.spec_index()]);
            acc = acc + v.funcs[Func::ClearScreen.spec_index()];
        }
        self.term_writer.write_func(Func::ExitCa);
        proof {
            lemma_assoc(start, acc, v.funcs[Func::ExitCa.spec_index()]);
            acc = acc + v.funcs[Func::ExitCa.spec_index()];
        }
        self.term_writer.write_func(Func::ExitKeypad);
        proof {
            lemma_assoc(start, acc, v.funcs[Func::ExitKeypad.spec_index()]);
            acc = acc + v.funcs[Func::ExitKeypad.spec_index()];
        }
    }

    /// Takes the size of the terminal: gives the grid that size, keeping
    /// the back plane where the sizes overlap, blanks the front plane and
    /// clears the screen. Fails, with only the size noted, when the storage
    /// for the new grid cannot be had.
    pub fn update_size(&mut self, size: (u16, u16)) -> (r: Result<(), AllocErr>)
        requires
            old(self).wf(),
        ensures
            final(self).wf(),
            grid_follows(old(self)@, size) ==> r is Ok,
            grid_stays(old(self)@, size) ==> r is Err,
            r is Err ==> noted_size(old(self)@, final(self)@, size),
            r is Ok ==> took_size(old(self)@, final(self)@, size),
    {
        self.term_size = size;
        let (w, h) = (size.0 as usize, size.1 as usize);
        match self.cell_buffer.resize(w, h) {
            Ok(()) => {},
            Err(e) => {
                return Err(e);
            },
        }
        proof {
            self.cell_buffer.lemma_planes();
        }
        let (fg, bg) = (self.fg, self.bg);
        let (mut front, back) = self.cell_buffer.cells_mut();
        front.clear(fg, bg);
        self.term_writer.write_clear(self.cursor_x, self.cursor_y, fg, bg);
        Ok(())
    }

    /// Enters the terminal: writes what switches to the alternate screen and
    /// the keypad mode and hides the cursor if it is hidden, takes the size
    /// of the terminal as `update_size` does, and empties the input buffer.
    pub fn start(&mut self, size: (u16, u16)) -> (r: Result<(), AllocErr>)
        requires
            old(self).wf(),
        ensures
            final(self).wf(),
            grid_follows(old(self)@, size) ==> r is Ok,
            grid_stays(old(self)@, size) ==> r is Err,
            r is Err ==> noted_size(entered(old(self)@), final(self)@, size),
            r is Ok ==> took_size(
                entered(old(self)@),
                UIView { input: old(self)@.input, ..final(self)@ },
                size,
            ),
            r is Ok ==> final(self)@.input == Seq::<u8>::empty(),
    {
        let ghost v = self@;
        let ghost begin = v.output;
        let hidden = is_cursor_hidden(self.cursor_x, self.cursor_y);
        self.term_writer.write_func(Func::EnterCa);
        let ghost acc = v.funcs[Func::EnterCa.spec_index()];
        self.term_writer.write_func(Func::EnterKeypad);
        proof {
            lemma_assoc(begin, acc, v.funcs[Func::EnterKeypad.spec_index()]);
            acc = acc + v.funcs[Func::EnterKeypad.spec_index()];
        }
        if hidden {
            self.term_writer.write_func(Func::HideCursor);
        }
        proof {
            let piece = only_if(hidden, v.funcs[Func::HideCursor.spec_index()]);
            assert(self.term_writer.w@ =~= begin + acc + piece);
            lemma_assoc(begin, acc, piece);
        }
        assert(self@ == entered(v));
        match self.update_size(size) {
            Ok(()) => {},
            Err(e) => {
                return Err(e);
            },
        }
        self.inbuf.clear();
        Ok(())
    }

    /// An interface for a terminal with the capability strings `spec` and of
    /// the size `size`, started and with the screen cleared. Fails when the
    /// storage for a grid of that size cannot be had: always when its cells
    /// cannot be counted, never when it has no cells.
    pub fn new_in(spec: Spec, size: (u16, u16)) -> (r: Result<UI, AllocErr>)
        ensures
            2 * (size.0 * size.1) > usize::MAX ==> r is Err,
            size.0 * size.1 == 0 ==> r is Ok,
            r is Ok ==> r.unwrap().wf() && r.unwrap()@ == initial(spec@, size),
    {
        let ghost view = spec@;
        let Spec { keys, funcs } = spec;
        let mut term_writer = TermWriter::new(Vec::new());
        term_writer.funcs = funcs;
        let mut ui = UI {
            cell_buffer: CellBuf::new_in(),
            term_writer,
            cursor_x: usize::MAX,
            cursor_y: usize::MAX,
            fg: Attr { bits: DEFAULT },
            bg: Attr { bits: DEFAULT },
            term_size: (0, 0),
            input_mode: Mode::Esc,
            inbuf: Ringbuffer::new(INPUT_BUFFER_SIZE),
            keys,
        };
        proof {
            ui.cell_buffer.lemma_planes();
            assert(ui@.front =~= Seq::<Cell>::empty());
            assert(ui@.back =~= Seq::<Cell>::empty());
            assert(ui@.funcs =~= view.funcs);
            assert(ui@.keys =~= view.keys);
            assert(ui@.output =~= Seq::<u8>::empty());
            assert(ui@ == fresh(view));
            if size.0 == 0 && size.1 == 0 {
                assert(2 * (size.0 * size.1) <= usize::MAX);
            }
        }
        match ui.start(size) {
            Ok(()) => {},
            Err(e) => {
                return Err(e);
            },
        }
        proof {
            ui.lemma_wf();
            lemma_all_blank(
                ui@.back,
                size.0 as nat,
                size.1 as nat,
                Attr { bits: DEFAULT },
                Attr { bits: DEFAULT },
            );
        }
        ui.term_writer.write_clear(ui.cursor_x, ui.cursor_y, ui.fg, ui.bg);
        Ok(ui)
    }

    /// Shows the grid on the terminal: writes every cell of the back plane
    /// that differs from the front plane, puts the cursor in its place
    /// unless it is hidden, and makes the front plane equal the back plane.
    pub fn present(&mut self)
        requires
            old(self).wf(),
        ensures
            final(self).wf(),
            final(self)@ == presented(old(self)@),
    {
        self.term_writer.invalidate_pos();
        let w = self.cell_buffer.width();
        let h = self.cell_buffer.height();
        let ghost v = old(self)@;
        let ghost start = Pen { pos: (usize::MAX, usize::MAX), attr: v.last_attr };
        proof {
            self.cell_buffer.lemma_planes();
            assert(v.front =~= v.back.subrange(0, 0) + v.front.subrange(0, w * h));
            assert(v.output =~= v.output + Seq::<u8>::empty());
            assert(0 * w == 0 && w * h >= 0) by (nonlinear_arith);
        }
        let mut y: usize = 0;
        while y < h
            invariant
                y <= h,
                w == v.width,
                h == v.height,
                v == old(self)@,
                v.front.len() == w * h,
                v.back.len() == w * h,
                start == (Pen { pos: (usize::MAX, usize::MAX), attr: v.last_attr }),
                self.wf(),
                y * w <= w * h,
                self@ == (UIView {
                    front: v.back.subrange(0, y * w) + v.front.subrange(y * w, w * h),
                    output: v.output + render(v.funcs, start, v.front, v.back, v.width, (y * w) as nat).0,
                    last_pos: render(v.funcs, start, v.front, v.back, v.width, (y * w) as nat).1.pos,
                    last_attr: render(v.funcs, start, v.front, v.back, v.width, (y * w) as nat).1.attr,
                    ..v
                }),
            decreases h - y,
        {
            let mut x: usize = 0;
            proof {
                assert(y * w + w <= w * h) by (nonlinear_arith)
                    requires
                        y < h,
                ;
            }
            while x < w
                invariant
                    x <= w,
                    y < h,
                    w == v.width,
                    h == v.height,
                    v == old(self)@,
                    v.front.len() == w * h,
                    v.back.len() == w * h,
                    start == (Pen { pos: (usize::MAX, usize::MAX), attr: v.last_attr }),
                    self.wf(),
                    y * w + w <= w * h,
                    self@ == (UIView {
                        front: v.back.subrange(0, y * w + x) + v.front.subrange(y * w + x, w * h),
                        output: v.output + render(
                            v.funcs,
                            start,
                            v.front,
                            v.back,
                            v.width,
                            (y * w + x) as nat,
                        ).0,
                        last_pos: render(
                            v.funcs,
                            start,
                            v.front,
                            v.back,
                            v.width,
                            (y * w + x) as nat,
                        ).1.pos,
                        last_attr: render(
                            v.funcs,
                            start,
                            v.front,
                            v.back,
                            v.width,
                            (y * w + x) as nat,
                        ).1.attr,
                        ..v
                    }),
                decreases w - x,
            {
                let ghost i = (y * w + x) as int;
                let ghost done = render(v.funcs, start, v.front, v.back, v.width, i as nat);
                let ghost before = self@;
                let back = self.cell_buffer.back_cell(x, y);
                let front = self.cell_buffer.front_cell(x, y);
                proof {
                    lemma_position_of(w as int, x as int, y as int);
                    assert(back == v.back[i]);
                    assert(front == v.front[i]);
                }
                if back != front {
                    self.term_writer.write_attr(back.fg, back.bg);
                    self.term_writer.write_char(back.ch, x, y);
                    self.cell_buffer.set_front_cell(x, y, back);
                    proof {
                        let a = attr_out(v.funcs, done.1.attr, back.fg, back.bg);
                        let c = char_out(done.1.pos, back.ch, x, y);
                        lemma_assoc(v.output + done.0, a, c);
                        lemma_assoc(v.output, done.0, a + c);
                    }
                } else {
                    assert(done.0 + Seq::<u8>::empty() =~= done.0);
                }
                proof {
                    let next = render(v.funcs, start, v.front, v.back, v.width, (i + 1) as nat);
                    assert(next == {
                        let (more, q) = render_cell(v.funcs, done.1, v.front[i], v.back[i], x, y);
                        (done.0 + more, q)
                    });
                    assert(self@.front =~= v.back.subrange(0, i + 1) + v.front.subrange(
                        i + 1,
                        w * h,
                    ));
                }
                x = x + 1;
            }
            proof {
                assert(y * w + w == (y + 1) * w) by (nonlinear_arith);
            }
            y = y + 1;
        }
        proof {
            assert(h * w == w * h) by (nonlinear_arith);
            assert(self@.front =~= v.back);
        }
        let ghost bytes = render(v.funcs, start, v.front, v.back, v.width, v.width * v.height).0;
        if !is_cursor_hidden(self.cursor_x, self.cursor_y) {
            write_cursor(&mut self.term_writer.w, self.cursor_x, self.cursor_y);
        } else {
            assert(v.output + bytes + Seq::<u8>::empty() =~= v.output + bytes);
        }
    }

    /// Decodes the event that the input held starts with, takes its bytes
    /// off the input, and says what to do: return it, or `otherwise`.
    fn decode_next(&mut self, otherwise: FetchAction) -> (action: FetchAction)
        requires
            old(self).wf(),
        ensures
            final(self).wf(),
            final(self)@ == after_decode(old(self)@),
            action == decode_action(old(self)@, otherwise),
    {
        match extract_event(&mut self.inbuf, self.input_mode, &self.keys) {
            Some((m, k)) => FetchAction::Return(Some(Event::Key(m, k))),
            None => otherwise,
        }
    }

    /// One step of fetching the next event.
    ///
    /// At `Begin` the input held is decoded; without an event there, the
    /// terminal is to be read. Bytes read are taken into the input as far
    /// as there is room and decoded; without an event, and after a read of
    /// no bytes, the terminal is to be waited for. A read that would block
    /// and a wait that timed out end the fetch without an event. A change
    /// of size is taken as `update_size` does and ends the fetch with a
    /// resize event, whether or not the grid could follow.
    pub fn fetch_event(&mut self, input: FetchInput) -> (action: FetchAction)
        requires
            old(self).wf(),
        ensures
            final(self).wf(),
            input is Begin ==> final(self)@ == after_decode(old(self)@) && action == decode_action(
                old(self)@,
                FetchAction::ReadInput,
            ),
            input matches FetchInput::Read(bytes) ==> {
                let taken = UIView {
                    input: old(self)@.input + accepted(old(self)@, bytes@),
                    ..old(self)@
                };
                if accepted(old(self)@, bytes@).len() == 0 {
                    final(self)@ == old(self)@ && action == FetchAction::Wait
                } else {
                    final(self)@ == after_decode(taken) && action == decode_action(
                        taken,
                        FetchAction::Wait,
                    )
                }
            },
            input is WouldBlock || input is Timeout ==> final(self)@ == old(self)@ && action
                == FetchAction::Return(None),
            input matches FetchInput::Resized(w, h) ==> action == FetchAction::Return(
                Some(Event::Resize(w as u32, h as u32)),
            ),
            input matches FetchInput::Resized(w, h) ==> took_size(
                old(self)@,
                final(self)@,
                (w, h),
            ) || noted_size(old(self)@, final(self)@, (w, h)),
            input matches FetchInput::Resized(w, h) ==> (grid_follows(old(self)@, (w, h))
                ==> took_size(old(self)@, final(self)@, (w, h))),
            input matches FetchInput::Resized(w, h) ==> (grid_stays(old(self)@, (w, h))
                ==> noted_size(old(self)@, final(self)@, (w, h))),
    {
        match input {
            FetchInput::Begin => self.decode_next(FetchAction::ReadInput),
            FetchInput::Read(bytes) => {
                let n = self.inbuf.push_from_file(bytes.as_slice());
                if n > 0 {
                    assert(bytes@.subrange(0, n as int) =~= accepted(old(self)@, bytes@));
                    self.decode_next(FetchAction::Wait)
                } else {
                    assert(self.inbuf@ =~= old(self).inbuf@);
                    FetchAction::Wait
                }
            },
            FetchInput::WouldBlock => FetchAction::Return(None),
            FetchInput::Timeout => FetchAction::Return(None),
            FetchInput::Resized(w, h) => {
                let _ = self.update_size((w, h));
                FetchAction::Return(Some(Event::Resize(w as u32, h as u32)))
            },
        }
    }

    /// The input mode, for reading and writing.
    pub fn input_mode_mut(&mut self) -> (r: &mut Mode)
        ensures
            *r == old(self)@.input_mode,
            final(self)@ == (UIView { input_mode: *final(r), ..old(self)@ }),
            old(self).wf() ==> final(self).wf(),
    {
        &mut self.input_mode
    }

    /// The back plane, for drawing. What is written to it is written to the
    /// grid.
    pub fn cells_mut(&mut self) -> (r: CellsMut<'_>)
        requires
            old(self).wf(),
        ensures
            r.wf(),
            r.width == old(self)@.width,
            r.height == old(self)@.height,
            r@ == old(self)@.back,
            final(r.cells)@.len() == r@.len() ==> final(self).wf(),
            final(r.cells)@.len() == r@.len() ==> final(self)@ == (UIView {
                back: final(r.cells)@,
                ..old(self)@
            }),
    {
        proof {
            self.cell_buffer.lemma_planes();
        }
        let (front, back) = self.cell_buffer.cells_mut();
        back
    }

    /// A printer that writes to the back plane in the colours `fg` and
    /// `bg`, beginning at the position `pt`.
    pub fn printer(&mut self, pt: (usize, usize), fg: Attr, bg: Attr) -> (r: Printer<'_>)
        requires
            old(self).wf(),
        ensures
            r.pt == pt,
            r.fg == fg,
            r.bg == bg,
            r.screen.wf(),
            r.screen.width == old(self)@.width,
            r.screen.height == old(self)@.height,
            r.screen@ == old(self)@.back,
            final(r.screen.cells)@.len() == r.screen@.len() ==> final(self).wf(),
            final(r.screen.cells)@.len() == r.screen@.len() ==> final(self)@ == (UIView {
                back: final(r.screen.cells)@,
                ..old(self)@
            }),
    {
        Printer { pt, fg, bg, screen: self.cells_mut() }
    }
}

/// `new` is the plane `old` with the characters `xs` written in the colours
/// `fg` and `bg` from the position `pt` to the right, as far as the row
/// goes: what does not fit in the row, or lies below the plane, is left out.
pub open spec fn is_print_of(
    new: Seq<Cell>,
    old: Seq<Cell>,
    width: nat,
    height: nat,
    pt: (usize, usize),
    fg: Attr,
    bg: Attr,
    xs: Seq<char>,
) -> bool {
    &&& new.len() == old.len()
    &&& forall|cx: nat, cy: nat|
        cx < width && cy < height ==> #[trigger] crate::cellbuf::cell_at(new, width, cx, cy)
            == if cy == pt.1 && pt.0 <= cx < pt.0 + xs.len() {
            Cell { ch: xs[cx - pt.0] as u32, fg, bg }
        } else {
            crate::cellbuf::cell_at(old, width, cx, cy)
        }
}

/// Writer of text to a plane. Text that leaves the row is cut off.
#[derive(Debug)]
pub struct Printer<'a> {
    /// Where the next character goes.
    pub pt: (usize, usize),
    pub fg: Attr,
    pub bg: Attr,
    pub screen: CellsMut<'a>,
}

impl<'a> Printer<'a> {
    /// Writes the characters `xs` from the position of the printer to the
    /// right and returns their number. The position stays.
    pub fn print_chars(&mut self, xs: &[char]) -> (n: usize)
        requires
            old(self).screen.wf(),
        ensures
            n == xs@.len(),
            final(self).pt == old(self).pt,
            final(self).fg == old(self).fg,
            final(self).bg == old(self).bg,
            final(self).screen.wf(),
            final(self).screen.width == old(self).screen.width,
            final(self).screen.height == old(self).screen.height,
            final(final(self).screen.cells)@ == final(old(self).screen.cells)@,
            is_print_of(
                final(self).screen@,
                old(self).screen@,
                old(self).screen.width as nat,
                old(self).screen.height as nat,
                old(self).pt,
                old(self).fg,
                old(self).bg,
                xs@,
            ),
    {
        let len = xs.len();
        let ghost width = self.screen.width as nat;
        let ghost height = self.screen.height as nat;
        let mut n: usize = 0;
        while n < len
            invariant
                n <= len,
                len == xs@.len(),
                self.pt == old(self).pt,
                self.fg == old(self).fg,
                self.bg == old(self).bg,
                self.screen.wf(),
                self.screen.width == width,
                self.screen.height == height,
                width == old(self).screen.width,
                height == old(self).screen.height,
                final(self.screen.cells)@ == final(old(self).screen.cells)@,
                is_print_of(
                    self.screen@,
                    old(self).screen@,
                    width,
                    height,
                    self.pt,
                    self.fg,
                    self.bg,
                    xs@.subrange(0, n as int),
                ),
            decreases len - n,
        {
            let ch: char = xs[n];
            let c = Cell { ch: ch as u32, fg: self.fg, bg: self.bg };
            let ghost before = self.screen@;
            let ghost pt = self.pt;
            let y = self.pt.1;
            if self.pt.0 <= usize::MAX - n {
                let x = self.pt.0 + n;
                let screen = &mut self.screen;
                match screen.at_mut(x, y) {
                    Some(p) => {
                        *p = c;
                    },
                    None => {},
                }
            }
            proof {
                let so_far = xs@.subrange(0, n as int);
                let more = xs@.subrange(0, n + 1);
                assert forall|cx: nat, cy: nat| cx < width && cy < height implies #[trigger] crate::cellbuf::cell_at(
                    self.screen@,
                    width,
                    cx,
                    cy,
                ) == if cy == pt.1 && pt.0 <= cx < pt.0 + more.len() {
                    Cell { ch: more[cx - pt.0] as u32, fg: self.fg, bg: self.bg }
                } else {
                    crate::cellbuf::cell_at(old(self).screen@, width, cx, cy)
                } by {
                    crate::cellbuf::lemma_index(width, height, cx, cy);
                    if cy == pt.1 && cx == pt.0 + n {
                    } else {
                        if pt.0 + n < width && pt.1 < height {
                            crate::cellbuf::lemma_index(width, height, (pt.0 + n) as nat, pt.1 as nat);
                            if cy * width + cx == pt.1 * width + (pt.0 + n) {
                                crate::cellbuf::lemma_index_injective(
                                    width,
                                    cx,
                                    cy,
                                    (pt.0 + n) as nat,
                                    pt.1 as nat,
                                );
                            }
                        }
                        assert(crate::cellbuf::cell_at(self.screen@, width, cx, cy)
                            == crate::cellbuf::cell_at(before, width, cx, cy));
                        if cy == pt.1 && pt.0 <= cx < pt.0 + n {
                            assert(so_far[cx - pt.0] == more[cx - pt.0]);
                        }
                    }
                }
            }
            n = n + 1;
        }
        assert(xs@.subrange(0, len as int) =~= xs@);
        n
    }

    /// Writes the text `s` from the position of the printer to the right
    /// and moves the position behind it.
    pub fn write_str(&mut self, s: &str)
        requires
            old(self).screen.wf(),
            old(self).pt.0 + s@.len() <= usize::MAX,
        ensures
            final(self).pt == (((old(self).pt.0 + s@.len()) as usize), old(self).pt.1),
            final(self).fg == old(self).fg,
            final(self).bg == old(self).bg,
            final(self).screen.wf(),
            final(self).screen.width == old(self).screen.width,
            final(self).screen.height == old(self).screen.height,
            final(final(self).screen.cells)@ == final(old(self).screen.cells)@,
            is_print_of(
                final(self).screen@,
                old(self).screen@,
                old(self).screen.width as nat,
                old(self).screen.height as nat,
                old(self).pt,
                old(self).fg,
                old(self).bg,
                s@,
            ),
    {
        let len = s.unicode_len();
        let mut xs: Vec<char> = Vec::new();
        let mut i: usize = 0;
        while i < len
            invariant
                i <= len,
                len == s@.len(),
                xs@ == s@.subrange(0, i as int),
            decreases len - i,
        {
            xs.push(s.get_char(i));
            i = i + 1;
            assert(xs@ =~= s@.subrange(0, i as int));
        }
        assert(s@.subrange(0, len as int) =~= s@);
        let n = self.print_chars(xs.as_slice());
        self.pt.0 = self.pt.0 + n;
    }
}

} // verus!
