use cursebox::builtin::{
    bytes, compat_builtin, exact_builtin, init_builtin, same_bytes, Builtin,
};
use cursebox::terminfo::{
    init, parse, search_paths, search_roots, try_terminfo_path, u16_le, Spec,
};

const KEY_PLACES: [usize; 22] = [
    66, 68, 69, 70, 71, 72, 73, 74, 75, 67, 216, 217, 77, 59, 76, 164, 82, 81, 87, 61, 79, 83,
];
const FUNC_PLACES: [usize; 12] = [28, 40, 16, 13, 5, 39, 36, 27, 26, 34, 89, 88];

fn put16(out: &mut Vec<u8>, n: usize) {
    out.push((n % 256) as u8);
    out.push((n / 256) as u8);
}

// The text of the capability at a place of the entry made below.
fn text_of(place: usize) -> Vec<u8> {
    format!("\x1B<{}>", place).into_bytes()
}

// A compiled entry with `count` string offsets, all of them taken by a text
// of their own, and with the given sizes of the sections before them.
fn entry(names: &[u8], bools: usize, nums: usize, count: usize) -> Vec<u8> {
    let mut table = Vec::new();
    let mut offsets = Vec::new();
    for place in 0..count {
        offsets.push(table.len());
        table.extend_from_slice(&text_of(place));
        table.push(0);
    }
    let mut out = Vec::new();
    put16(&mut out, 0o432);
    put16(&mut out, names.len());
    put16(&mut out, bools);
    put16(&mut out, nums);
    put16(&mut out, count);
    put16(&mut out, table.len());
    out.extend_from_slice(names);
    out.extend(std::iter::repeat(1u8).take(bools));
    if (names.len() + bools) % 2 == 1 {
        out.push(0);
    }
    for k in 0..nums {
        put16(&mut out, k);
    }
    for o in offsets {
        put16(&mut out, o);
    }
    out.extend_from_slice(&table);
    out
}

// Where the offset of the capability at `place` stands in such an entry.
fn offset_at(names: &[u8], bools: usize, nums: usize, place: usize) -> usize {
    let before = names.len() + bools;
    12 + before + before % 2 + 2 * nums + 2 * place
}

fn expected_spec() -> Spec {
    let mut spec = Spec::empty();
    for i in 0..22 {
        spec.keys[i] = text_of(KEY_PLACES[i]);
    }
    for i in 0..12 {
        spec.funcs[i] = text_of(FUNC_PLACES[i]);
    }
    spec
}

#[test]
fn two_bytes_low_byte_first() {
    assert_eq!(u16_le([0x34, 0x12]), 0x1234);
    assert_eq!(u16_le([0xFF, 0xFF]), 0xFFFF);
    assert_eq!(u16_le([0x1A, 0x01]), 0o432);
    assert_eq!(u16_le([0, 0]), 0);
}

#[test]
fn empty_spec_has_empty_strings() {
    let spec = Spec::empty();
    assert!(spec.keys.iter().all(|k| k.is_empty()));
    assert!(spec.funcs.iter().all(|f| f.is_empty()));
}

#[test]
fn parse_reads_every_capability() {
    let data = entry(b"vt|test\0", 5, 3, 220);
    assert_eq!(parse(&data), Some(expected_spec()));
}

#[test]
fn parse_pads_names_and_booleans_to_an_even_size() {
    let odd = entry(b"vt\0", 2, 1, 218);
    assert_eq!(parse(&odd), Some(expected_spec()));
    let even = entry(b"vt\0", 3, 0, 218);
    assert_eq!(parse(&even), Some(expected_spec()));
}

#[test]
fn parse_needs_the_whole_header() {
    let data = entry(b"vt\0", 1, 1, 218);
    assert_eq!(parse(&data[..11]), None);
    assert_eq!(parse(&[]), None);
}

#[test]
fn parse_needs_all_offsets() {
    let data = entry(b"vt\0", 1, 1, 218);
    let cut = offset_at(b"vt\0", 1, 1, 218) - 1;
    assert_eq!(parse(&data[..cut]), None);
    assert_eq!(parse(&data[..offset_at(b"vt\0", 1, 1, 0) - 1]), None);
}

#[test]
fn parse_needs_an_offset_for_every_capability() {
    let data = entry(b"vt\0", 1, 1, 217);
    assert_eq!(parse(&data), None);
}

#[test]
fn parse_needs_the_end_of_the_string_table() {
    let mut data = entry(b"vt\0", 1, 1, 218);
    let start = offset_at(b"vt\0", 1, 1, 218);
    for b in data[start..].iter_mut() {
        if *b == 0 {
            *b = b'.';
        }
    }
    assert_eq!(parse(&data), None);
}

#[test]
fn parse_refuses_an_absent_capability() {
    let mut data = entry(b"vt\0", 1, 1, 218);
    let at = offset_at(b"vt\0", 1, 1, 66);
    data[at] = 0xFF;
    data[at + 1] = 0xFF;
    assert_eq!(parse(&data), None);
}

#[test]
fn parse_refuses_an_offset_past_the_table() {
    let mut data = entry(b"vt\0", 1, 1, 218);
    let table_len = data.len() - offset_at(b"vt\0", 1, 1, 218);
    let at = offset_at(b"vt\0", 1, 1, 88);
    data[at] = ((table_len - 1) % 256) as u8;
    data[at + 1] = ((table_len - 1) / 256) as u8;
    assert_eq!(parse(&data), None);
    data[at] = ((table_len - 2) % 256) as u8;
    data[at + 1] = ((table_len - 2) / 256) as u8;
    let mut expected = expected_spec();
    expected.funcs[11] = b">".to_vec();
    assert_eq!(parse(&data), Some(expected));
}

#[test]
fn parse_ignores_capabilities_it_does_not_use() {
    let mut data = entry(b"vt\0", 1, 1, 218);
    let at = offset_at(b"vt\0", 1, 1, 0);
    data[at] = 0xFF;
    data[at + 1] = 0xFF;
    assert_eq!(parse(&data), Some(expected_spec()));
}

#[test]
fn text_at_the_end_of_the_table_goes_up_to_the_cut() {
    let mut data = entry(b"vt\0", 1, 1, 218);
    data.extend_from_slice(b"tail\0junk");
    let parsed = parse(&data).unwrap();
    assert_eq!(parsed, expected_spec());
    let table_start = offset_at(b"vt\0", 1, 1, 218);
    let tail = data.len() - table_start - 9;
    let at = offset_at(b"vt\0", 1, 1, 83);
    data[at] = (tail % 256) as u8;
    data[at + 1] = (tail / 256) as u8;
    let parsed = parse(&data).unwrap();
    assert_eq!(parsed.keys[21], b"tail".to_vec());
}

#[test]
fn xterm_is_found_by_its_exact_name() {
    assert_eq!(exact_builtin(b"xterm"), Some(Builtin::Xterm));
    assert_eq!(init_builtin(b"xterm"), Some(Builtin::Xterm.spec()));
    let spec = init_builtin(b"xterm").unwrap();
    assert_eq!(spec.keys[0], b"\x1BOP".to_vec());
    assert_eq!(spec.keys[14], b"\x1BOH".to_vec());
    assert_eq!(spec.keys[21], b"\x1BOC".to_vec());
    assert_eq!(spec.funcs[0], b"\x1B[?1049h".to_vec());
    assert_eq!(spec.funcs[5], b"\x1B(B\x1B[m".to_vec());
    assert_eq!(spec.funcs[11], b"\x1B[?1l\x1B>".to_vec());
}

#[test]
fn exact_names() {
    assert_eq!(exact_builtin(b"rxvt-256color"), Some(Builtin::Rxvt256Color));
    assert_eq!(exact_builtin(b"Eterm"), Some(Builtin::Eterm));
    assert_eq!(exact_builtin(b"screen"), Some(Builtin::Screen));
    assert_eq!(exact_builtin(b"rxvt-unicode"), Some(Builtin::RxvtUnicode));
    assert_eq!(exact_builtin(b"linux"), Some(Builtin::Linux));
    assert_eq!(exact_builtin(b"xterm-256color"), None);
    assert_eq!(exact_builtin(b"xter"), None);
    assert_eq!(exact_builtin(b""), None);
}

#[test]
fn family_names_that_stand_in_the_terminal_name() {
    assert_eq!(compat_builtin(b"xterm-256color"), Some(Builtin::Xterm));
    assert_eq!(compat_builtin(b"xterm"), Some(Builtin::Xterm));
    assert_eq!(compat_builtin(b"rxvt"), Some(Builtin::RxvtUnicode));
    assert_eq!(compat_builtin(b"rxvt-unicode-256color"), Some(Builtin::RxvtUnicode));
    assert_eq!(compat_builtin(b"linux-16color"), Some(Builtin::Linux));
    assert_eq!(compat_builtin(b"Eterm-88color"), Some(Builtin::Eterm));
    assert_eq!(compat_builtin(b"screen-256color"), Some(Builtin::Screen));
    assert_eq!(compat_builtin(b"cygwin"), Some(Builtin::Xterm));
    assert_eq!(compat_builtin(b"my-cygwin-term"), Some(Builtin::Xterm));
    assert_eq!(compat_builtin(b"screen.xterm-256color"), Some(Builtin::Xterm));
    assert_eq!(compat_builtin(b"screen.linux"), Some(Builtin::Linux));
    assert_eq!(compat_builtin(b"vt100"), None);
    assert_eq!(compat_builtin(b"rxv"), None);
    assert_eq!(compat_builtin(b"term"), None);
    assert_eq!(compat_builtin(b"eterm"), None);
    assert_eq!(compat_builtin(b""), None);
}

#[test]
fn builtin_lookup_prefers_the_exact_name() {
    assert_eq!(init_builtin(b"linux"), Some(Builtin::Linux.spec()));
    assert_eq!(init_builtin(b"rxvt-256color"), Some(Builtin::Rxvt256Color.spec()));
    assert_eq!(init_builtin(b"Eterm"), Some(Builtin::Eterm.spec()));
    assert_eq!(init_builtin(b"screen"), Some(Builtin::Screen.spec()));
    assert_eq!(init_builtin(b"rxvt"), Some(Builtin::RxvtUnicode.spec()));
    assert_eq!(init_builtin(b"rxvt-88color"), Some(Builtin::RxvtUnicode.spec()));
    assert_eq!(init_builtin(b"cygwin"), Some(Builtin::Xterm.spec()));
    assert_eq!(init_builtin(b"xterm-256color"), Some(Builtin::Xterm.spec()));
    assert_eq!(init_builtin(b"vt100"), None);
    assert_eq!(init_builtin(b""), None);
}

#[test]
fn builtin_tables_differ_where_they_should() {
    assert_eq!(Builtin::Linux.spec().keys[0], b"\x1B[[A".to_vec());
    assert_eq!(Builtin::Linux.spec().funcs[0], Vec::<u8>::new());
    assert_eq!(Builtin::Linux.spec().funcs[5], b"\x1B[0;10m".to_vec());
    assert_eq!(Builtin::Screen.spec().keys[14], b"\x1B[1~".to_vec());
    assert_eq!(Builtin::Screen.spec().funcs[2], b"\x1B[34h\x1B[?25h".to_vec());
    assert_eq!(Builtin::Eterm.spec().funcs[10], Vec::<u8>::new());
    assert_eq!(Builtin::Rxvt256Color.spec().funcs[0], b"\x1B7\x1B[?47h".to_vec());
    assert_eq!(Builtin::Rxvt256Color.spec().funcs[10], b"\x1B=".to_vec());
    assert_eq!(Builtin::RxvtUnicode.spec().funcs[1], b"\x1B[r\x1B[?1049l".to_vec());
    assert_eq!(Builtin::RxvtUnicode.spec().keys, Builtin::Eterm.spec().keys);
    assert_eq!(Builtin::RxvtUnicode.spec().keys[14], b"\x1B[7~".to_vec());
}

#[test]
fn byte_helpers() {
    assert_eq!(bytes("a\x1B"), vec![b'a', 0x1B]);
    assert!(same_bytes(b"abc", b"abc"));
    assert!(!same_bytes(b"abc", b"abd"));
    assert!(!same_bytes(b"abc", b"ab"));
    assert!(same_bytes(b"", b""));
}

#[test]
fn file_of_a_terminal() {
    assert_eq!(
        try_terminfo_path(b"/usr/share/terminfo", b"xterm"),
        Some(b"/usr/share/terminfo/x/xterm".to_vec())
    );
    assert_eq!(try_terminfo_path(b"", b"a"), Some(b"/a/a".to_vec()));
    assert_eq!(try_terminfo_path(b"/usr/share/terminfo", b""), None);
}

#[test]
fn search_order() {
    let roots = search_roots(Some(b"/ti"), Some(b"/home/me"), Some(b"/a:/b"));
    assert_eq!(
        roots,
        vec![
            b"/ti".to_vec(),
            b"/home/me/.terminfo".to_vec(),
            b"/a".to_vec(),
            b"/b".to_vec(),
            b"/usr/share/terminfo".to_vec(),
        ]
    );
    assert_eq!(search_roots(None, None, None), vec![b"/usr/share/terminfo".to_vec()]);
    assert_eq!(
        search_roots(None, Some(b""), None),
        vec![b"/.terminfo".to_vec(), b"/usr/share/terminfo".to_vec()]
    );
}

#[test]
fn empty_entries_of_the_directory_list() {
    let default = b"/usr/share/terminfo".to_vec();
    assert_eq!(search_roots(None, None, Some(b"")), vec![default.clone(), default.clone()]);
    assert_eq!(
        search_roots(None, None, Some(b":/a::/b:")),
        vec![
            default.clone(),
            b"/a".to_vec(),
            default.clone(),
            b"/b".to_vec(),
            default.clone(),
            default.clone(),
        ]
    );
}

#[test]
fn files_to_try() {
    assert_eq!(
        search_paths(b"vt100", Some(b"/ti"), None, Some(b"/a:")),
        vec![
            b"/ti/v/vt100".to_vec(),
            b"/a/v/vt100".to_vec(),
            b"/usr/share/terminfo/v/vt100".to_vec(),
            b"/usr/share/terminfo/v/vt100".to_vec(),
        ]
    );
    assert_eq!(search_paths(b"", Some(b"/ti"), None, None), Vec::<Vec<u8>>::new());
}

#[test]
fn init_takes_the_entry_that_parses() {
    let data = entry(b"vt\0", 1, 1, 218);
    assert_eq!(init(Some(b"xterm"), Some(&data)), Some(expected_spec()));
    assert_eq!(init(Some(b"no-such-terminal"), Some(&data)), Some(expected_spec()));
}

#[test]
fn init_falls_back_to_the_builtin_tables() {
    let data = entry(b"vt\0", 1, 1, 218);
    assert_eq!(init(Some(b"xterm"), None), Some(Builtin::Xterm.spec()));
    assert_eq!(init(Some(b"xterm"), Some(&data[..40])), Some(Builtin::Xterm.spec()));
    assert_eq!(init(Some(b"linux"), Some(b"")), Some(Builtin::Linux.spec()));
    assert_eq!(init(Some(b"vt100"), None), None);
    assert_eq!(init(Some(b"vt100"), Some(&data[..40])), None);
}

#[test]
fn init_needs_a_terminal_name() {
    let data = entry(b"vt\0", 1, 1, 218);
    assert_eq!(init(None, Some(&data)), None);
    assert_eq!(init(None, None), None);
}
