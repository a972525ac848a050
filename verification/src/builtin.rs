//! The capability tables built into the library, and their selection by the
//! name of the terminal.

use crate::terminfo::{Spec, SpecView};
use vstd::prelude::*;
use vstd::slice::slice_to_vec;
use vstd::string::StringSliceAdditionalSpecFns;

verus! {

/// The bytes of a text.
pub open spec fn text(s: &str) -> Seq<u8> {
    s.spec_bytes()
}

/// The bytes of a text, as a vector.
pub fn bytes(s: &str) -> (v: Vec<u8>)
    ensures
        v@ == text(s),
{
    slice_to_vec(s.as_bytes())
}

/// The key sequences of the rxvt family.
pub open spec fn rxvt_keys() -> Seq<Seq<u8>> {
    seq![
        text("\x1B[11~"),
        text("\x1B[12~"),
        text("\x1B[13~"),
        text("\x1B[14~"),
        text("\x1B[15~"),
        text("\x1B[17~"),
        text("\x1B[18~"),
        text("\x1B[19~"),
        text("\x1B[20~"),
        text("\x1B[21~"),
        text("\x1B[23~"),
        text("\x1B[24~"),
        text("\x1B[2~"),
        text("\x1B[3~"),
        text("\x1B[7~"),
        text("\x1B[8~"),
        text("\x1B[5~"),
        text("\x1B[6~"),
        text("\x1B[A"),
        text("\x1B[B"),
        text("\x1B[D"),
        text("\x1B[C"),
    ]
}

fn make_rxvt_keys() -> (r: [Vec<u8>; 22])
    ensures
        Seq::new(22, |i: int| r@[i]@) == rxvt_keys(),
{
    let r = [
        bytes("\x1B[11~"),
        bytes("\x1B[12~"),
        bytes("\x1B[13~"),
        bytes("\x1B[14~"),
        bytes("\x1B[15~"),
        bytes("\x1B[17~"),
        bytes("\x1B[18~"),
        bytes("\x1B[19~"),
        bytes("\x1B[20~"),
        bytes("\x1B[21~"),
        bytes("\x1B[23~"),
        bytes("\x1B[24~"),
        bytes("\x1B[2~"),
        bytes("\x1B[3~"),
        bytes("\x1B[7~"),
        bytes("\x1B[8~"),
        bytes("\x1B[5~"),
        bytes("\x1B[6~"),
        bytes("\x1B[A"),
        bytes("\x1B[B"),
        bytes("\x1B[D"),
        bytes("\x1B[C"),
    ];
    assert(Seq::new(22, |i: int| r@[i]@) =~= rxvt_keys());
    r
}

/// The key sequences of screen.
pub open spec fn screen_keys() -> Seq<Seq<u8>> {
    seq![
        text("\x1BOP"),
        text("\x1BOQ"),
        text("\x1BOR"),
        text("\x1BOS"),
        text("\x1B[15~"),
        text("\x1B[17~"),
        text("\x1B[18~"),
        text("\x1B[19~"),
        text("\x1B[20~"),
        text("\x1B[21~"),
        text("\x1B[23~"),
        text("\x1B[24~"),
        text("\x1B[2~"),
        text("\x1B[3~"),
        text("\x1B[1~"),
        text("\x1B[4~"),
        text("\x1B[5~"),
        text("\x1B[6~"),
        text("\x1BOA"),
        text("\x1BOB"),
        text("\x1BOD"),
        text("\x1BOC"),
    ]
}

fn make_screen_keys() -> (r: [Vec<u8>; 22])
    ensures
        Seq::new(22, |i: int| r@[i]@) == screen_keys(),
{
    let r = [
        bytes("\x1BOP"),
        bytes("\x1BOQ"),
        bytes("\x1BOR"),
        bytes("\x1BOS"),
        bytes("\x1B[15~"),
        bytes("\x1B[17~"),
        bytes("\x1B[18~"),
        bytes("\x1B[19~"),
        bytes("\x1B[20~"),
        bytes("\x1B[21~"),
        bytes("\x1B[23~"),
        bytes("\x1B[24~"),
        bytes("\x1B[2~"),
        bytes("\x1B[3~"),
        bytes("\x1B[1~"),
        bytes("\x1B[4~"),
        bytes("\x1B[5~"),
        bytes("\x1B[6~"),
        bytes("\x1BOA"),
        bytes("\x1BOB"),
        bytes("\x1BOD"),
        bytes("\x1BOC"),
    ];
    assert(Seq::new(22, |i: int| r@[i]@) =~= screen_keys());
    r
}

/// The key sequences of the Linux console.
pub open spec fn linux_keys() -> Seq<Seq<u8>> {
    seq![
        text("\x1B[[A"),
        text("\x1B[[B"),
        text("\x1B[[C"),
        text("\x1B[[D"),
        text("\x1B[[E"),
        text("\x1B[17~"),
        text("\x1B[18~"),
        text("\x1B[19~"),
        text("\x1B[20~"),
        text("\x1B[21~"),
        text("\x1B[23~"),
        text("\x1B[24~"),
        text("\x1B[2~"),
        text("\x1B[3~"),
        text("\x1B[1~"),
        text("\x1B[4~"),
        text("\x1B[5~"),
        text("\x1B[6~"),
        text("\x1B[A"),
        text("\x1B[B"),
        text("\x1B[D"),
        text("\x1B[C"),
    ]
}

fn make_linux_keys() -> (r: [Vec<u8>; 22])
    ensures
        Seq::new(22, |i: int| r@[i]@) == linux_keys(),
{
    let r = [
        bytes("\x1B[[A"),
        bytes("\x1B[[B"),
        bytes("\x1B[[C"),
        bytes("\x1B[[D"),
        bytes("\x1B[[E"),
        bytes("\x1B[17~"),
        bytes("\x1B[18~"),
        bytes("\x1B[19~"),
        bytes("\x1B[20~"),
        bytes("\x1B[21~"),
        bytes("\x1B[23~"),
        bytes("\x1B[24~"),
        bytes("\x1B[2~"),
        bytes("\x1B[3~"),
        bytes("\x1B[1~"),
        bytes("\x1B[4~"),
        bytes("\x1B[5~"),
        bytes("\x1B[6~"),
        bytes("\x1B[A"),
        bytes("\x1B[B"),
        bytes("\x1B[D"),
        bytes("\x1B[C"),
    ];
    assert(Seq::new(22, |i: int| r@[i]@) =~= linux_keys());
    r
}

/// The key sequences of xterm.
pub open spec fn xterm_keys() -> Seq<Seq<u8>> {
    seq![
        text("\x1BOP"),
        text("\x1BOQ"),
        text("\x1BOR"),
        text("\x1BOS"),
        text("\x1B[15~"),
        text("\x1B[17~"),
        text("\x1B[18~"),
        text("\x1B[19~"),
        text("\x1B[20~"),
        text("\x1B[21~"),
        text("\x1B[23~"),
        text("\x1B[24~"),
        text("\x1B[2~"),
        text("\x1B[3~"),
        text("\x1BOH"),
        text("\x1BOF"),
        text("\x1B[5~"),
        text("\x1B[6~"),
        text("\x1BOA"),
        text("\x1BOB"),
        text("\x1BOD"),
        text("\x1BOC"),
    ]
}

fn make_xterm_keys() -> (r: [Vec<u8>; 22])
    ensures
        Seq::new(22, |i: int| r@[i]@) == xterm_keys(),
{
    let r = [
        bytes("\x1BOP"),
        bytes("\x1BOQ"),
        bytes("\x1BOR"),
        bytes("\x1BOS"),
        bytes("\x1B[15~"),
        bytes("\x1B[17~"),
        bytes("\x1B[18~"),
        bytes("\x1B[19~"),
        bytes("\x1B[20~"),
        bytes("\x1B[21~"),
        bytes("\x1B[23~"),
        bytes("\x1B[24~"),
        bytes("\x1B[2~"),
        bytes("\x1B[3~"),
        bytes("\x1BOH"),
        bytes("\x1BOF"),
        bytes("\x1B[5~"),
        bytes("\x1B[6~"),
        bytes("\x1BOA"),
        bytes("\x1BOB"),
        bytes("\x1BOD"),
        bytes("\x1BOC"),
    ];
    assert(Seq::new(22, |i: int| r@[i]@) =~= xterm_keys());
    r
}

/// The control functions of rxvt-256color.
pub open spec fn rxvt_256color_funcs() -> Seq<Seq<u8>> {
    seq![
        text("\x1B7\x1B[?47h"),
        text("\x1B[2J\x1B[?47l\x1B8"),
        text("\x1B[?25h"),
        text("\x1B[?25l"),
        text("\x1B[H\x1B[2J"),
        text("\x1B[m"),
        text("\x1B[4m"),
        text("\x1B[1m"),
        text("\x1B[5m"),
        text("\x1B[7m"),
        text("\x1B="),
        text("\x1B>"),
    ]
}

fn make_rxvt_256color_funcs() -> (r: [Vec<u8>; 12])
    ensures
        Seq::new(12, |i: int| r@[i]@) == rxvt_256color_funcs(),
{
    let r = [
        bytes("\x1B7\x1B[?47h"),
        bytes("\x1B[2J\x1B[?47l\x1B8"),
        bytes("\x1B[?25h"),
        bytes("\x1B[?25l"),
        bytes("\x1B[H\x1B[2J"),
        bytes("\x1B[m"),
        bytes("\x1B[4m"),
        bytes("\x1B[1m"),
        bytes("\x1B[5m"),
        bytes("\x1B[7m"),
        bytes("\x1B="),
        bytes("\x1B>"),
    ];
    assert(Seq::new(12, |i: int| r@[i]@) =~= rxvt_256color_funcs());
    r
}

/// The control functions of Eterm.
pub open spec fn eterm_funcs() -> Seq<Seq<u8>> {
    seq![
        text("\x1B7\x1B[?47h"),
        text("\x1B[2J\x1B[?47l\x1B8"),
        text("\x1B[?25h"),
        text("\x1B[?25l"),
        text("\x1B[H\x1B[2J"),
        text("\x1B[m"),
        text("\x1B[4m"),
        text("\x1B[1m"),
        text("\x1B[5m"),
        text("\x1B[7m"),
        text(""),
        text(""),
    ]
}

fn make_eterm_funcs() -> (r: [Vec<u8>; 12])
    ensures
        Seq::new(12, |i: int| r@[i]@) == eterm_funcs(),
{
    let r = [
        bytes("\x1B7\x1B[?47h"),
        bytes("\x1B[2J\x1B[?47l\x1B8"),
        bytes("\x1B[?25h"),
        bytes("\x1B[?25l"),
        bytes("\x1B[H\x1B[2J"),
        bytes("\x1B[m"),
        bytes("\x1B[4m"),
        bytes("\x1B[1m"),
        bytes("\x1B[5m"),
        bytes("\x1B[7m"),
        bytes(""),
        bytes(""),
    ];
    assert(Seq::new(12, |i: int| r@[i]@) =~= eterm_funcs());
    r
}

/// The control functions of screen.
pub open spec fn screen_funcs() -> Seq<Seq<u8>> {
    seq![
        text("\x1B[?1049h"),
        text("\x1B[?1049l"),
        text("\x1B[34h\x1B[?25h"),
        text("\x1B[?25l"),
        text("\x1B[H\x1B[J"),
        text("\x1B[m"),
        text("\x1B[4m"),
        text("\x1B[1m"),
        text("\x1B[5m"),
        text("\x1B[7m"),
        text("\x1B[?1h\x1B="),
        text("\x1B[?1l\x1B>"),
    ]
}

fn make_screen_funcs() -> (r: [Vec<u8>; 12])
    ensures
        Seq::new(12, |i: int| r@[i]@) == screen_funcs(),
{
    let r = [
        bytes("\x1B[?1049h"),
        bytes("\x1B[?1049l"),
        bytes("\x1B[34h\x1B[?25h"),
        bytes("\x1B[?25l"),
        bytes("\x1B[H\x1B[J"),
        bytes("\x1B[m"),
        bytes("\x1B[4m"),
        bytes("\x1B[1m"),
        bytes("\x1B[5m"),
        bytes("\x1B[7m"),
        bytes("\x1B[?1h\x1B="),
        bytes("\x1B[?1l\x1B>"),
    ];
    assert(Seq::new(12, |i: int| r@[i]@) =~= screen_funcs());
    r
}

/// The control functions of rxvt-unicode.
pub open spec fn rxvt_unicode_funcs() -> Seq<Seq<u8>> {
    seq![
        text("\x1B[?1049h"),
        text("\x1B[r\x1B[?1049l"),
        text("\x1B[?25h"),
        text("\x1B[?25l"),
        text("\x1B[H\x1B[2J"),
        text("\x1B[m\x1B(B"),
        text("\x1B[4m"),
        text("\x1B[1m"),
        text("\x1B[5m"),
        text("\x1B[7m"),
        text("\x1B="),
        text("\x1B>"),
    ]
}

fn make_rxvt_unicode_funcs() -> (r: [Vec<u8>; 12])
    ensures
        Seq::new(12, |i: int| r@[i]@) == rxvt_unicode_funcs(),
{
    let r = [
        bytes("\x1B[?1049h"),
        bytes("\x1B[r\x1B[?1049l"),
        bytes("\x1B[?25h"),
        bytes("\x1B[?25l"),
        bytes("\x1B[H\x1B[2J"),
        bytes("\x1B[m\x1B(B"),
        bytes("\x1B[4m"),
        bytes("\x1B[1m"),
        bytes("\x1B[5m"),
        bytes("\x1B[7m"),
        bytes("\x1B="),
        bytes("\x1B>"),
    ];
    assert(Seq::new(12, |i: int| r@[i]@) =~= rxvt_unicode_funcs());
    r
}

/// The control functions of the Linux console.
pub open spec fn linux_funcs() -> Seq<Seq<u8>> {
    seq![
        text(""),
        text(""),
        text("\x1B[?25h\x1B[?0c"),
        text("\x1B[?25l\x1B[?1c"),
        text("\x1B[H\x1B[J"),
        text("\x1B[0;10m"),
        text("\x1B[4m"),
        text("\x1B[1m"),
        text("\x1B[5m"),
        text("\x1B[7m"),
        text(""),
        text(""),
    ]
}

fn make_linux_funcs() -> (r: [Vec<u8>; 12])
    ensures
        Seq::new(12, |i: int| r@[i]@) == linux_funcs(),
{
    let r = [
        bytes(""),
        bytes(""),
        bytes("\x1B[?25h\x1B[?0c"),
        bytes("\x1B[?25l\x1B[?1c"),
        bytes("\x1B[H\x1B[J"),
        bytes("\x1B[0;10m"),
        bytes("\x1B[4m"),
        bytes("\x1B[1m"),
        bytes("\x1B[5m"),
        bytes("\x1B[7m"),
        bytes(""),
        bytes(""),
    ];
    assert(Seq::new(12, |i: int| r@[i]@) =~= linux_funcs());
    r
}

/// The control functions of xterm.
pub open spec fn xterm_funcs() -> Seq<Seq<u8>> {
    seq![
        text("\x1B[?1049h"),
        text("\x1B[?1049l"),
        text("\x1B[?12l\x1B[?25h"),
        text("\x1B[?25l"),
        text("\x1B[H\x1B[2J"),
        text("\x1B(B\x1B[m"),
        text("\x1B[4m"),
        text("\x1B[1m"),
        text("\x1B[5m"),
        text("\x1B[7m"),
        text("\x1B[?1h\x1B="),
        text("\x1B[?1l\x1B>"),
    ]
}

fn make_xterm_funcs() -> (r: [Vec<u8>; 12])
    ensures
        Seq::new(12, |i: int| r@[i]@) == xterm_funcs(),
{
    let r = [
        bytes("\x1B[?1049h"),
        bytes("\x1B[?1049l"),
        bytes("\x1B[?12l\x1B[?25h"),
        bytes("\x1B[?25l"),
        bytes("\x1B[H\x1B[2J"),
        bytes("\x1B(B\x1B[m"),
        bytes("\x1B[4m"),
        bytes("\x1B[1m"),
        bytes("\x1B[5m"),
        bytes("\x1B[7m"),
        bytes("\x1B[?1h\x1B="),
        bytes("\x1B[?1l\x1B>"),
    ];
    assert(Seq::new(12, |i: int| r@[i]@) =~= xterm_funcs());
    r
}

/// The terminals that the library has a table for.
#[derive(Debug, Clone, Copy, PartialEq, Eq, Structural)]
pub enum Builtin {
    Rxvt256Color,
    Eterm,
    Screen,
    RxvtUnicode,
    Linux,
    Xterm,
}

impl Builtin {
    /// The capability strings of the terminal.
    pub open spec fn table(self) -> SpecView {
        match self {
            Builtin::Rxvt256Color => SpecView { keys: rxvt_keys(), funcs: rxvt_256color_funcs() },
            Builtin::Eterm => SpecView { keys: rxvt_keys(), funcs: eterm_funcs() },
            Builtin::Screen => SpecView { keys: screen_keys(), funcs: screen_funcs() },
            Builtin::RxvtUnicode => SpecView { keys: rxvt_keys(), funcs: rxvt_unicode_funcs() },
            Builtin::Linux => SpecView { keys: linux_keys(), funcs: linux_funcs() },
            Builtin::Xterm => SpecView { keys: xterm_keys(), funcs: xterm_funcs() },
        }
    }

    /// The capability strings of the terminal.
    pub fn spec(self) -> (r: Spec)
        ensures
            r@ == self.table(),
    {
        let r = match self {
            Builtin::Rxvt256Color => Spec {
                keys: make_rxvt_keys(),
                funcs: make_rxvt_256color_funcs(),
            },
            Builtin::Eterm => Spec { keys: make_rxvt_keys(), funcs: make_eterm_funcs() },
            Builtin::Screen => Spec { keys: make_screen_keys(), funcs: make_screen_funcs() },
            Builtin::RxvtUnicode => Spec {
                keys: make_rxvt_keys(),
                funcs: make_rxvt_unicode_funcs(),
            },
            Builtin::Linux => Spec { keys: make_linux_keys(), funcs: make_linux_funcs() },
            Builtin::Xterm => Spec { keys: make_xterm_keys(), funcs: make_xterm_funcs() },
        };
        r
    }
}

/// Whether `needle` stands in `hay` at index `i`.
pub open spec fn occurs_at(hay: Seq<u8>, needle: Seq<u8>, i: int) -> bool {
    0 <= i && i + needle.len() <= hay.len() && hay.subrange(i, i + needle.len()) == needle
}

/// Whether `needle` stands somewhere in `hay`.
pub open spec fn contains(hay: Seq<u8>, needle: Seq<u8>) -> bool {
    exists|i: int| occurs_at(hay, needle, i)
}

/// Index of the first place where `needle` stands in `hay`, as
/// `subslice::SubsliceExt::find` gives it: the least such index, and `None`
/// only when there is none. This contract is taken from the documentation
/// of that function and is not proved here.
#[verifier::external_body]
fn find(hay: &[u8], needle: &[u8]) -> (r: Option<usize>)
    ensures
        match r {
            Some(i) => occurs_at(hay@, needle@, i as int) && forall|j: int|
                0 <= j < i ==> !occurs_at(hay@, needle@, j),
            None => forall|j: int| !occurs_at(hay@, needle@, j),
        },
{
    subslice::SubsliceExt::find(hay, needle)
}

/// Whether two byte strings are the same.
pub fn same_bytes(a: &[u8], b: &[u8]) -> (r: bool)
    ensures
        r == (a@ == b@),
{
    let n = a.len();
    if n != b.len() {
        return false;
    }
    let mut k: usize = 0;
    while k < n
        invariant
            k <= n,
            n == a@.len(),
            n == b@.len(),
            forall|j: int| 0 <= j < k ==> a@[j] == b@[j],
        decreases n - k,
    {
        if a[k] != b[k] {
            return false;
        }
        k = k + 1;
    }
    assert(a@ =~= b@);
    true
}

/// The terminal whose name is exactly `term`: the first in the order
/// rxvt-256color, Eterm, screen, rxvt-unicode, linux, xterm.
pub open spec fn exact_match(term: Seq<u8>) -> Option<Builtin> {
    if term == text("rxvt-256color") {
        Some(Builtin::Rxvt256Color)
    } else if term == text("Eterm") {
        Some(Builtin::Eterm)
    } else if term == text("screen") {
        Some(Builtin::Screen)
    } else if term == text("rxvt-unicode") {
        Some(Builtin::RxvtUnicode)
    } else if term == text("linux") {
        Some(Builtin::Linux)
    } else if term == text("xterm") {
        Some(Builtin::Xterm)
    } else {
        None
    }
}

/// The terminal of the first family name that stands somewhere in `term`,
/// in the order xterm, rxvt, linux, Eterm, screen, cygwin; cygwin counts as
/// xterm.
pub open spec fn compat_match(term: Seq<u8>) -> Option<Builtin> {
    if contains(term, text("xterm")) {
        Some(Builtin::Xterm)
    } else if contains(term, text("rxvt")) {
        Some(Builtin::RxvtUnicode)
    } else if contains(term, text("linux")) {
        Some(Builtin::Linux)
    } else if contains(term, text("Eterm")) {
        Some(Builtin::Eterm)
    } else if contains(term, text("screen")) {
        Some(Builtin::Screen)
    } else if contains(term, text("cygwin")) {
        Some(Builtin::Xterm)
    } else {
        None
    }
}

/// The built-in terminal for a terminal name: by exact name if there is
/// one, else by family.
pub open spec fn builtin_match(term: Seq<u8>) -> Option<Builtin> {
    match exact_match(term) {
        Some(b) => Some(b),
        None => compat_match(term),
    }
}

/// The built-in terminal whose name is exactly `term`.
pub fn exact_builtin(term: &[u8]) -> (r: Option<Builtin>)
    ensures
        r == exact_match(term@),
{
    if same_bytes(term, "rxvt-256color".as_bytes()) {
        Some(Builtin::Rxvt256Color)
    } else if same_bytes(term, "Eterm".as_bytes()) {
        Some(Builtin::Eterm)
    } else if same_bytes(term, "screen".as_bytes()) {
        Some(Builtin::Screen)
    } else if same_bytes(term, "rxvt-unicode".as_bytes()) {
        Some(Builtin::RxvtUnicode)
    } else if same_bytes(term, "linux".as_bytes()) {
        Some(Builtin::Linux)
    } else if same_bytes(term, "xterm".as_bytes()) {
        Some(Builtin::Xterm)
    } else {
        None
    }
}

/// Whether the family name `family` stands somewhere in `term`.
fn in_family(family: &str, term: &[u8]) -> (r: bool)
    ensures
        r == contains(term@, text(family)),
{
    find(term, family.as_bytes()).is_some()
}

/// The built-in terminal of the first family name that stands in `term`.
pub fn compat_builtin(term: &[u8]) -> (r: Option<Builtin>)
    ensures
        r == compat_match(term@),
{
    if in_family("xterm", term) {
        Some(Builtin::Xterm)
    } else if in_family("rxvt", term) {
        Some(Builtin::RxvtUnicode)
    } else if in_family("linux", term) {
        Some(Builtin::Linux)
    } else if in_family("Eterm", term) {
        Some(Builtin::Eterm)
    } else if in_family("screen", term) {
        Some(Builtin::Screen)
    } else if in_family("cygwin", term) {
        Some(Builtin::Xterm)
    } else {
        None
    }
}

/// The capability strings built in for the terminal name `term`: those of
/// the terminal of that exact name, else those of the first family whose
/// name stands in it, else none.
pub fn init_builtin(term: &[u8]) -> (r: Option<Spec>)
    ensures
        r is Some <==> builtin_match(term@) is Some,
        r is Some ==> r.unwrap()@ == builtin_match(term@).unwrap().table(),
{
    match exact_builtin(term) {
        Some(b) => Some(b.spec()),
        None => match compat_builtin(term) {
            Some(b) => Some(b.spec()),
            None => None,
        },
    }
}

} // verus!
