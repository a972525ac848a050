//! A cell-grid terminal interface: a double-buffered grid of character cells,
//! a renderer that writes only what changed, and a decoder of terminal input.

use vstd::prelude::*;

pub mod builtin;
pub mod cellbuf;
pub mod input;
pub mod ringbuffer;
pub mod term;
pub mod terminfo;
pub mod ui;
pub mod utf8;
pub mod util;

pub use cellbuf::{CellBuf, CellsMut};
pub use input::{Event, Key, Mod};
pub use ui::{Printer, UI};

verus! {

/// Both coordinates of a hidden cursor.
pub const HideCursor: usize = usize::MAX;

pub const BLACK: u16 = 0x00;

pub const RED: u16 = 0x01;

pub const GREEN: u16 = 0x02;

pub const YELLOW: u16 = 0x03;

pub const BLUE: u16 = 0x04;

pub const MAGENTA: u16 = 0x05;

pub const CYAN: u16 = 0x06;

pub const WHITE: u16 = 0x07;

/// The terminal's own colour; also the mask of the colour bits.
pub const DEFAULT: u16 = 0x0F;

pub const BOLD: u16 = 0x10;

pub const UNDERLINE: u16 = 0x20;

/// A colour in the low four bits, with the flags `BOLD` and `UNDERLINE`.
#[derive(Debug, Clone, Copy, PartialEq, Eq, Hash, Structural)]
pub struct Attr {
    pub bits: u16,
}

impl Attr {
    /// Whether every bit of `other` is set in `self`.
    pub fn contains(&self, other: Attr) -> (b: bool)
        ensures
            b == (self.bits & other.bits == other.bits),
    {
        self.bits & other.bits == other.bits
    }

    /// The bits set in both.
    pub fn intersection(self, other: Attr) -> (a: Attr)
        ensures
            a == (Attr { bits: self.bits & other.bits }),
    {
        Attr { bits: self.bits & other.bits }
    }

    /// The bits set in either.
    pub fn union(self, other: Attr) -> (a: Attr)
        ensures
            a == (Attr { bits: self.bits | other.bits }),
    {
        Attr { bits: self.bits | other.bits }
    }
}

/// One character position: a code point and its two colours.
#[derive(Debug, Clone, Copy, PartialEq, Eq, Hash, Structural)]
pub struct Cell {
    pub ch: u32,
    pub fg: Attr,
    pub bg: Attr,
}

/// A cell that shows a space in the given colours.
pub open spec fn blank(fg: Attr, bg: Attr) -> Cell {
    Cell { ch: 32, fg, bg }
}

} // verus!
