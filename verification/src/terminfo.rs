//! The capability strings of a terminal: read from a compiled terminfo
//! entry, or taken from a table built into the library.
//!
//! A compiled entry starts with six numbers of two bytes each, low byte
//! first: a magic number, the size of the names, the count of booleans, the
//! count of numbers, the count of string offsets and the size of the string
//! table. The names, the booleans (padded to an even size) and the numbers
//! (two bytes each) follow, then the string offsets (two bytes each), then
//! the string table.

use crate::builtin::{builtin_match, bytes, init_builtin, text};
use crate::util::append;
use vstd::prelude::*;
use vstd::slice::{slice_subrange, slice_to_vec};

verus! {

/// Number of key sequences in a `Spec`.
pub const TB_KEYS_NUM: usize = 22;

/// Number of control functions in a `Spec`.
pub const T_FUNCS_NUM: usize = 12;

/// Size of the header of a compiled entry, in numbers of two bytes.
pub const TI_HEADER_LENGTH: usize = 6;

/// The offset that marks a string capability as absent.
pub const TI_ABSENT: u16 = 0xFFFF;

/// The key sequences and control functions of a terminal.
#[derive(Debug, Clone, PartialEq, Eq)]
pub struct Spec {
    pub keys: [Vec<u8>; 22],
    pub funcs: [Vec<u8>; 12],
}

/// The byte strings of a `Spec`.
pub struct SpecView {
    pub keys: Seq<Seq<u8>>,
    pub funcs: Seq<Seq<u8>>,
}

impl View for Spec {
    type V = SpecView;

    open spec fn view(&self) -> SpecView {
        SpecView {
            keys: Seq::new(22, |i: int| self.keys@[i]@),
            funcs: Seq::new(12, |i: int| self.funcs@[i]@),
        }
    }
}

fn empty_keys() -> (r: [Vec<u8>; 22])
    ensures
        forall|i: int| 0 <= i < 22 ==> (#[trigger] r@[i])@ == Seq::<u8>::empty(),
{
    [
        Vec::new(),
        Vec::new(),
        Vec::new(),
        Vec::new(),
        Vec::new(),
        Vec::new(),
        Vec::new(),
        Vec::new(),
        Vec::new(),
        Vec::new(),
        Vec::new(),
        Vec::new(),
        Vec::new(),
        Vec::new(),
        Vec::new(),
        Vec::new(),
        Vec::new(),
        Vec::new(),
        Vec::new(),
        Vec::new(),
        Vec::new(),
        Vec::new(),
    ]
}

fn empty_funcs() -> (r: [Vec<u8>; 12])
    ensures
        forall|i: int| 0 <= i < 12 ==> (#[trigger] r@[i])@ == Seq::<u8>::empty(),
{
    [
        Vec::new(),
        Vec::new(),
        Vec::new(),
        Vec::new(),
        Vec::new(),
        Vec::new(),
        Vec::new(),
        Vec::new(),
        Vec::new(),
        Vec::new(),
        Vec::new(),
        Vec::new(),
    ]
}

impl Spec {
    /// A `Spec` whose strings are all empty.
    pub fn empty() -> (r: Spec)
        ensures
            r@.keys == Seq::new(22, |i: int| Seq::<u8>::empty()),
            r@.funcs == Seq::new(12, |i: int| Seq::<u8>::empty()),
    {
        let r = Spec { keys: empty_keys(), funcs: empty_funcs() };
        assert(r@.keys =~= Seq::new(22, |i: int| Seq::<u8>::empty()));
        assert(r@.funcs =~= Seq::new(12, |i: int| Seq::<u8>::empty()));
        r
    }
}

/// Places of the key sequences among the string capabilities of an entry,
/// in the order of a key table.
pub open spec fn ti_keys() -> Seq<u16> {
    seq![66, 68, 69, 70, 71, 72, 73, 74, 75, 67, 216, 217, 77, 59, 76, 164, 82, 81, 87, 61, 79, 83]
}

/// Places of the control functions among the string capabilities of an
/// entry, in the order of a function table.
pub open spec fn ti_funcs() -> Seq<u16> {
    seq![28, 40, 16, 13, 5, 39, 36, 27, 26, 34, 89, 88]
}

fn ti_key(i: usize) -> (r: u16)
    requires
        i < TB_KEYS_NUM,
    ensures
        r == ti_keys()[i as int],
{
    let t: [u16; 22] = [
        66,
        68,
        69,
        70,
        71,
        72,
        73,
        74,
        75,
        67,
        216,
        217,
        77,
        59,
        76,
        164,
        82,
        81,
        87,
        61,
        79,
        83,
    ];
    t[i]
}

fn ti_func(i: usize) -> (r: u16)
    requires
        i < T_FUNCS_NUM,
    ensures
        r == ti_funcs()[i as int],
{
    let t: [u16; 12] = [28, 40, 16, 13, 5, 39, 36, 27, 26, 34, 89, 88];
    t[i]
}

/// The number that two bytes spell, low byte first.
pub fn u16_le(bs: [u8; 2]) -> (r: u16)
    ensures
        r == bs@[0] + 256 * bs@[1],
{
    let lo = bs[0];
    let hi = bs[1];
    assert((lo as u16) | ((hi as u16) << 8) == lo + 256 * hi) by (bit_vector);
    (lo as u16) | ((hi as u16) << 8)
}

/// The number spelled by the two bytes of `data` at `at`, low byte first.
pub open spec fn le16(data: Seq<u8>, at: int) -> nat {
    (data[at] + 256 * data[at + 1]) as nat
}

fn read16(data: &[u8], at: usize) -> (r: u16)
    requires
        at + 2 <= data@.len(),
    ensures
        r == le16(data@, at as int),
{
    u16_le([data[at], data[at + 1]])
}

/// `n` rounded up to an even number.
pub open spec fn pad_even(n: nat) -> nat {
    n + n % 2
}

/// Where the string offsets of an entry start.
pub open spec fn offsets_at(data: Seq<u8>) -> nat {
    12 + pad_even(le16(data, 2) + le16(data, 4)) + 2 * le16(data, 6)
}

/// Where the string table of an entry starts.
pub open spec fn strings_at(data: Seq<u8>) -> nat {
    offsets_at(data) + 2 * le16(data, 8)
}

/// Index of the last zero byte of `s`, or -1 when it has none.
pub open spec fn last_zero(s: Seq<u8>) -> int
    decreases s.len(),
{
    if s.len() == 0 {
        -1
    } else if s.last() == 0 {
        s.len() - 1
    } else {
        last_zero(s.drop_last())
    }
}

/// `last_zero` is the index of a zero byte after which no zero byte comes.
pub proof fn lemma_last_zero(s: Seq<u8>)
    ensures
        -1 <= last_zero(s) < s.len(),
        last_zero(s) >= 0 ==> s[last_zero(s)] == 0,
        forall|j: int| last_zero(s) < j < s.len() ==> s[j] != 0,
    decreases s.len(),
{
    if s.len() > 0 && s.last() != 0 {
        let front = s.drop_last();
        lemma_last_zero(front);
        assert forall|j: int| last_zero(s) < j < s.len() implies s[j] != 0 by {
            if j < s.len() - 1 {
                assert(s[j] == front[j]);
            }
        }
        if last_zero(s) >= 0 {
            assert(s[last_zero(s)] == front[last_zero(s)]);
        }
    }
}

/// The string table of an entry: the bytes after the string offsets, up to
/// and without the last zero byte.
pub open spec fn string_table(data: Seq<u8>) -> Option<Seq<u8>> {
    if data.len() < 12 || strings_at(data) > data.len() {
        None
    } else {
        let rest = data.subrange(strings_at(data) as int, data.len() as int);
        if last_zero(rest) < 0 {
            None
        } else {
            Some(rest.subrange(0, last_zero(rest)))
        }
    }
}

/// Number of bytes from `from` up to the next zero byte or the end.
pub open spec fn text_len(tab: Seq<u8>, from: int) -> nat
    decreases tab.len() - from,
{
    if from < 0 || from >= tab.len() || tab[from] == 0 {
        0
    } else {
        1 + text_len(tab, from + 1)
    }
}

/// The text of the string capability at place `cap`: the bytes of the string
/// table from the capability's offset up to the next zero byte. There is
/// none when the entry has no offset for that place, when the offset marks
/// the capability as absent, or when it points past the string table.
pub open spec fn capability(data: Seq<u8>, tab: Seq<u8>, cap: nat) -> Option<Seq<u8>> {
    if cap >= le16(data, 8) {
        None
    } else {
        let off = le16(data, (offsets_at(data) + 2 * cap) as int);
        if off == TI_ABSENT || off >= tab.len() {
            None
        } else {
            Some(tab.subrange(off as int, (off + text_len(tab, off as int)) as int))
        }
    }
}

/// What `parse` returns: the capabilities at the places of the key
/// sequences and of the control functions, if every one of them is there.
pub open spec fn spec_parse(data: Seq<u8>) -> Option<SpecView> {
    match string_table(data) {
        None => None,
        Some(tab) => if (forall|i: int|
            0 <= i < 22 ==> (#[trigger] capability(data, tab, ti_keys()[i] as nat)) is Some)
            && (forall|i: int|
            0 <= i < 12 ==> (#[trigger] capability(data, tab, ti_funcs()[i] as nat)) is Some) {
            Some(
                SpecView {
                    keys: Seq::new(22, |i: int| capability(data, tab, ti_keys()[i] as nat).unwrap()),
                    funcs: Seq::new(
                        12,
                        |i: int| capability(data, tab, ti_funcs()[i] as nat).unwrap(),
                    ),
                },
            )
        } else {
            None
        },
    }
}

/// The two parts of `s` before and from index `k`, as
/// `util::SliceExt::try_split_at` gives them: `None` when `k` is past the
/// end. This contract is taken from the source of that function and is not
/// proved here.
#[verifier::external_body]
fn try_split_at(s: &[u8], k: usize) -> (r: Option<(&[u8], &[u8])>)
    ensures
        r is Some <==> k <= s@.len(),
        r is Some ==> r.unwrap().0@ == s@.subrange(0, k as int) && r.unwrap().1@ == s@.subrange(
            k as int,
            s@.len() as int,
        ),
{
    ::util::SliceExt::try_split_at(s, k)
}

fn last_zero_index(s: &[u8]) -> (r: Option<usize>)
    ensures
        r is Some <==> last_zero(s@) >= 0,
        r is Some ==> r.unwrap() == last_zero(s@) && r.unwrap() < s@.len(),
{
    let mut i = s.len();
    while i > 0
        invariant
            i <= s@.len(),
            forall|j: int| i <= j < s@.len() ==> s@[j] != 0,
        decreases i,
    {
        i = i - 1;
        if s[i] == 0 {
            proof {
                lemma_last_zero(s@);
            }
            return Some(i);
        }
    }
    proof {
        lemma_last_zero(s@);
    }
    None
}

/// The text of the capability at place `cap`, read from the string offsets
/// `offs` and the string table `tab` of an entry.
fn read_capability(data: &[u8], offs: &[u8], tab: &[u8], cap: u16) -> (r: Option<Vec<u8>>)
    requires
        data@.len() >= 12,
        strings_at(data@) <= data@.len(),
        offs@ == data@.subrange(offsets_at(data@) as int, strings_at(data@) as int),
    ensures
        r is Some <==> capability(data@, tab@, cap as nat) is Some,
        r is Some ==> r.unwrap()@ == capability(data@, tab@, cap as nat).unwrap(),
{
    let count = offs.len() / 2;
    if cap as usize >= count {
        return None;
    }
    let at = 2 * (cap as usize);
    let off = read16(offs, at);
    assert(le16(offs@, at as int) == le16(data@, offsets_at(data@) + 2 * cap));
    let n = tab.len();
    if off == TI_ABSENT || off as usize >= n {
        return None;
    }
    let start = off as usize;
    let mut end = start;
    while end < n && tab[end] != 0
        invariant
            start <= end <= n,
            n == tab@.len(),
            text_len(tab@, start as int) == (end - start) + text_len(tab@, end as int),
        decreases n - end,
    {
        end = end + 1;
    }
    Some(slice_to_vec(slice_subrange(tab, start, end)))
}

/// Reads the key sequences and control functions from a compiled terminfo
/// entry. Fails when the entry is cut short, when its string table has no
/// end, or when one of the capabilities is absent or out of range.
pub fn parse(data: &[u8]) -> (r: Option<Spec>)
    ensures
        r is Some <==> spec_parse(data@) is Some,
        r is Some ==> r.unwrap()@ == spec_parse(data@).unwrap(),
{
    let n = data.len();
    if n < 2 * TI_HEADER_LENGTH {
        return None;
    }
    let names = read16(data, 2) as usize;
    let bools = read16(data, 4) as usize;
    let nums = read16(data, 6) as usize;
    let count = read16(data, 8) as usize;
    let offsets = 2 * TI_HEADER_LENGTH + (names + bools + (names + bools) % 2) + 2 * nums;
    if offsets > n {
        return None;
    }
    let rest = slice_subrange(data, offsets, n);
    let (offs, strings) = match try_split_at(rest, 2 * count) {
        Some(parts) => parts,
        None => {
            return None;
        },
    };
    assert(strings@ =~= data@.subrange(strings_at(data@) as int, n as int));
    assert(offs@ =~= data@.subrange(offsets_at(data@) as int, strings_at(data@) as int));
    let cut = match last_zero_index(strings) {
        Some(i) => i,
        None => {
            return None;
        },
    };
    let tab = slice_subrange(strings, 0, cut);
    assert(string_table(data@) == Some(tab@));
    let mut spec = Spec::empty();
    let mut i: usize = 0;
    while i < TB_KEYS_NUM
        invariant
            i <= TB_KEYS_NUM,
            n == data@.len(),
            n >= 12,
            strings_at(data@) <= n,
            string_table(data@) == Some(tab@),
            offs@ == data@.subrange(offsets_at(data@) as int, strings_at(data@) as int),
            forall|j: int|
                0 <= j < i ==> (#[trigger] capability(data@, tab@, ti_keys()[j] as nat)) is Some,
            forall|j: int|
                0 <= j < i ==> (#[trigger] spec.keys@[j])@ == capability(
                    data@,
                    tab@,
                    ti_keys()[j] as nat,
                ).unwrap(),
        decreases TB_KEYS_NUM - i,
    {
        match read_capability(data, offs, tab, ti_key(i)) {
            Some(v) => {
                spec.keys[i] = v;
            },
            None => {
                assert(!(capability(data@, tab@, ti_keys()[i as int] as nat) is Some));
                return None;
            },
        }
        i = i + 1;
    }
    let mut k: usize = 0;
    while k < T_FUNCS_NUM
        invariant
            k <= T_FUNCS_NUM,
            n == data@.len(),
            n >= 12,
            strings_at(data@) <= n,
            string_table(data@) == Some(tab@),
            offs@ == data@.subrange(offsets_at(data@) as int, strings_at(data@) as int),
            forall|j: int|
                0 <= j < 22 ==> (#[trigger] capability(data@, tab@, ti_keys()[j] as nat)) is Some,
            forall|j: int|
                0 <= j < 22 ==> (#[trigger] spec.keys@[j])@ == capability(
                    data@,
                    tab@,
                    ti_keys()[j] as nat,
                ).unwrap(),
            forall|j: int|
                0 <= j < k ==> (#[trigger] capability(data@, tab@, ti_funcs()[j] as nat)) is Some,
            forall|j: int|
                0 <= j < k ==> (#[trigger] spec.funcs@[j])@ == capability(
                    data@,
                    tab@,
                    ti_funcs()[j] as nat,
                ).unwrap(),
        decreases T_FUNCS_NUM - k,
    {
        match read_capability(data, offs, tab, ti_func(k)) {
            Some(v) => {
                spec.funcs[k] = v;
            },
            None => {
                assert(!(capability(data@, tab@, ti_funcs()[k as int] as nat) is Some));
                return None;
            },
        }
        k = k + 1;
    }
    assert(spec@.keys =~= spec_parse(data@).unwrap().keys);
    assert(spec@.funcs =~= spec_parse(data@).unwrap().funcs);
    Some(spec)
}

/// The capability strings for a terminal, from the terminal's name and the
/// compiled terminfo entry found for it, if one was found.
///
/// Without a name there are none. An entry that parses gives them; without
/// such an entry they come from the tables built into the library.
pub open spec fn spec_init(term: Option<Seq<u8>>, entry: Option<Seq<u8>>) -> Option<SpecView> {
    match term {
        None => None,
        Some(name) => if entry is Some && spec_parse(entry.unwrap()) is Some {
            spec_parse(entry.unwrap())
        } else {
            match builtin_match(name) {
                Some(b) => Some(b.table()),
                None => None,
            }
        },
    }
}

/// The capability strings for the terminal named `term`, given the compiled
/// terminfo entry that was found for it, if any.
pub fn init(term: Option<&[u8]>, entry: Option<&[u8]>) -> (r: Option<Spec>)
    ensures
        r is Some <==> spec_init(
            match term {
                Some(t) => Some(t@),
                None => None,
            },
            match entry {
                Some(e) => Some(e@),
                None => None,
            },
        ) is Some,
        r is Some ==> r.unwrap()@ == spec_init(
            match term {
                Some(t) => Some(t@),
                None => None,
            },
            match entry {
                Some(e) => Some(e@),
                None => None,
            },
        ).unwrap(),
{
    let name = match term {
        Some(t) => t,
        None => {
            return None;
        },
    };
    match entry {
        Some(e) => match parse(e) {
            Some(spec) => {
                return Some(spec);
            },
            None => {},
        },
        None => {},
    }
    init_builtin(name)
}

/// The directory that is searched when no other holds the entry.
pub open spec fn default_root() -> Seq<u8> {
    text("/usr/share/terminfo")
}

/// The directory of a user's own entries, below the home directory `home`.
pub open spec fn home_root(home: Seq<u8>) -> Seq<u8> {
    home + text("/.terminfo")
}

/// The directory that an entry of a list of directories names: an empty
/// entry names the default directory.
pub open spec fn dir_root(piece: Seq<u8>) -> Seq<u8> {
    if piece.len() == 0 {
        default_root()
    } else {
        piece
    }
}

/// The directories named by a list separated by colons, for the part of the
/// list from `start` on, of which the bytes before `at` are known to hold no
/// colon. A list of `n` colons names `n + 1` directories.
pub open spec fn dir_roots(dirs: Seq<u8>, start: int, at: int) -> Seq<Seq<u8>>
    decreases dirs.len() - at,
{
    if at < 0 || at >= dirs.len() {
        seq![dir_root(dirs.subrange(start, dirs.len() as int))]
    } else if dirs[at] == 0x3A {
        seq![dir_root(dirs.subrange(start, at))] + dir_roots(dirs, at + 1, at + 1)
    } else {
        dir_roots(dirs, start, at + 1)
    }
}

/// The byte strings of a list of vectors.
pub open spec fn views(v: Seq<Vec<u8>>) -> Seq<Seq<u8>> {
    Seq::new(v.len(), |i: int| v[i]@)
}

/// The present value, as a list of one or none.
pub open spec fn listed(v: Option<Seq<u8>>) -> Seq<Seq<u8>> {
    match v {
        Some(s) => seq![s],
        None => Seq::empty(),
    }
}

/// The directories to search, in order: the directory given as such, the
/// user's own below the home directory, those of the list of directories,
/// and the default directory.
pub open spec fn spec_roots(
    terminfo: Option<Seq<u8>>,
    home: Option<Seq<u8>>,
    dirs: Option<Seq<u8>>,
) -> Seq<Seq<u8>> {
    listed(terminfo) + listed(
        match home {
            Some(h) => Some(home_root(h)),
            None => None,
        },
    ) + (match dirs {
        Some(d) => dir_roots(d, 0, 0),
        None => Seq::empty(),
    }) + seq![default_root()]
}

/// The file of the terminal `name` below the directory `root`: in the
/// directory named by the first letter of the name.
pub open spec fn path_in(root: Seq<u8>, name: Seq<u8>) -> Seq<u8> {
    root + seq![0x2Fu8, name[0], 0x2Fu8] + name
}

/// The files to try for the terminal `name`, in order: its file below each
/// directory to search. A terminal without a name has none.
pub open spec fn spec_search_paths(
    name: Seq<u8>,
    terminfo: Option<Seq<u8>>,
    home: Option<Seq<u8>>,
    dirs: Option<Seq<u8>>,
) -> Seq<Seq<u8>> {
    if name.len() == 0 {
        Seq::empty()
    } else {
        let roots = spec_roots(terminfo, home, dirs);
        Seq::new(roots.len(), |i: int| path_in(roots[i], name))
    }
}

/// The file of the terminal `name` below the directory `root`, or `None`
/// for a terminal without a name.
pub fn try_terminfo_path(root: &[u8], name: &[u8]) -> (r: Option<Vec<u8>>)
    ensures
        r is Some <==> name@.len() > 0,
        r is Some ==> r.unwrap()@ == path_in(root@, name@),
{
    if name.len() == 0 {
        return None;
    }
    let mut path = slice_to_vec(root);
    path.push(0x2F);
    path.push(name[0]);
    path.push(0x2F);
    append(&mut path, name);
    assert(path@ =~= path_in(root@, name@));
    Some(path)
}

/// The view of an optional byte string.
pub open spec fn opt_view(v: Option<&[u8]>) -> Option<Seq<u8>> {
    match v {
        Some(s) => Some(s@),
        None => None,
    }
}

/// The directories named by the list `dirs`, appended to `roots`.
fn push_dir_roots(roots: &mut Vec<Vec<u8>>, dirs: &[u8])
    ensures
        views(final(roots)@) == views(old(roots)@) + dir_roots(dirs@, 0, 0),
{
    let n = dirs.len();
    let mut from: usize = 0;
    assert(views(roots@) + dir_roots(dirs@, 0, 0) =~= views(old(roots)@) + dir_roots(dirs@, 0, 0));
    loop
        invariant_except_break
            from <= n,
            n == dirs@.len(),
            views(roots@) + dir_roots(dirs@, from as int, from as int) == views(old(roots)@)
                + dir_roots(dirs@, 0, 0),
        ensures
            views(roots@) == views(old(roots)@) + dir_roots(dirs@, 0, 0),
        decreases n - from,
    {
        let mut i = from;
        while i < n && dirs[i] != 0x3A
            invariant
                from <= i <= n,
                n == dirs@.len(),
                dir_roots(dirs@, from as int, from as int) == dir_roots(dirs@, from as int, i as int),
            decreases n - i,
        {
            i = i + 1;
        }
        let piece = slice_subrange(dirs, from, i);
        let root = if piece.len() == 0 {
            bytes("/usr/share/terminfo")
        } else {
            slice_to_vec(piece)
        };
        let ghost before = views(roots@);
        let ghost rest = dir_roots(dirs@, from as int, from as int);
        roots.push(root);
        assert(views(roots@) =~= before + seq![dir_root(piece@)]);
        if i >= n {
            assert(rest =~= seq![dir_root(piece@)]);
            break ;
        }
        assert(rest =~= seq![dir_root(piece@)] + dir_roots(dirs@, i + 1, i + 1));
        assert(before + rest =~= views(roots@) + dir_roots(dirs@, i + 1, i + 1));
        from = i + 1;
    }
}

/// The directories to search for a compiled entry, in order, from the
/// values of `TERMINFO`, `HOME` and `TERMINFO_DIRS`, where they are set.
pub fn search_roots(terminfo: Option<&[u8]>, home: Option<&[u8]>, dirs: Option<&[u8]>) -> (r: Vec<
    Vec<u8>,
>)
    ensures
        views(r@) == spec_roots(opt_view(terminfo), opt_view(home), opt_view(dirs)),
{
    let mut roots: Vec<Vec<u8>> = Vec::new();
    assert(views(roots@) =~= Seq::<Seq<u8>>::empty());
    match terminfo {
        Some(t) => {
            let ghost before = views(roots@);
            roots.push(slice_to_vec(t));
            assert(views(roots@) =~= before + seq![t@]);
        },
        None => {},
    }
    assert(views(roots@) =~= listed(opt_view(terminfo)));
    match home {
        Some(h) => {
            let mut root = slice_to_vec(h);
            append(&mut root, "/.terminfo".as_bytes());
            let ghost before = views(roots@);
            roots.push(root);
            assert(views(roots@) =~= before + seq![home_root(h@)]);
        },
        None => {},
    }
    let ghost two = views(roots@);
    assert(two =~= listed(opt_view(terminfo)) + listed(
        match opt_view(home) {
            Some(h) => Some(home_root(h)),
            None => None,
        },
    ));
    match dirs {
        Some(d) => {
            push_dir_roots(&mut roots, d);
        },
        None => {
            assert(views(roots@) =~= two + Seq::<Seq<u8>>::empty());
        },
    }
    let ghost three = views(roots@);
    roots.push(bytes("/usr/share/terminfo"));
    assert(views(roots@) =~= three + seq![default_root()]);
    roots
}

/// The files to try for a compiled entry of the terminal `name`, in order.
/// The first that can be read is the entry of the terminal.
pub fn search_paths(
    name: &[u8],
    terminfo: Option<&[u8]>,
    home: Option<&[u8]>,
    dirs: Option<&[u8]>,
) -> (r: Vec<Vec<u8>>)
    ensures
        views(r@) == spec_search_paths(
            name@,
            opt_view(terminfo),
            opt_view(home),
            opt_view(dirs),
        ),
{
    let mut paths: Vec<Vec<u8>> = Vec::new();
    if name.len() == 0 {
        assert(views(paths@) =~= Seq::<Seq<u8>>::empty());
        return paths;
    }
    let roots = search_roots(terminfo, home, dirs);
    let ghost all = spec_roots(opt_view(terminfo), opt_view(home), opt_view(dirs));
    let n = roots.len();
    let mut i: usize = 0;
    while i < n
        invariant
            i <= n,
            n == roots@.len(),
            name@.len() > 0,
            views(roots@) == all,
            paths@.len() == i,
            forall|j: int| 0 <= j < i ==> (#[trigger] paths@[j])@ == path_in(all[j], name@),
        decreases n - i,
    {
        match try_terminfo_path(roots[i].as_slice(), name) {
            Some(p) => {
                paths.push(p);
            },
            None => {},
        }
        i = i + 1;
    }
    assert(views(paths@) =~= Seq::new(all.len(), |i: int| path_in(all[i], name@)));
    paths
}

} // verus!
