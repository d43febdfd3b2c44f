use folder_text::{
    append_block, display_path, escape_quotes, is_utf8, process_folder, relative_path, Entry,
    EntryKind, WalkOptions,
};

fn parts(p: &str) -> Vec<String> {
    if p.is_empty() {
        return Vec::new();
    }
    p.split('/').map(|s| s.to_string()).collect()
}

fn file(path: &str, bytes: &[u8]) -> Entry {
    Entry { path: parts(path), kind: EntryKind::File, content: Some(bytes.to_vec()) }
}

fn bundle(entries: &Vec<Entry>, root: &str) -> String {
    let mut out = String::new();
    process_folder(entries, &parts(root), &mut out);
    out
}

#[test]
fn utf8_accepts_text() {
    assert!(is_utf8(b""));
    assert!(is_utf8(b"plain ascii\n"));
    assert!(is_utf8("h\u{e9}llo \u{2713} \u{1f600}".as_bytes()));
    assert!(is_utf8(&[0xf4, 0x8f, 0xbf, 0xbf]));
}

#[test]
fn utf8_rejects_malformed() {
    assert!(!is_utf8(&[0xff]));
    assert!(!is_utf8(&[b'a', 0xff, b'b']));
    assert!(!is_utf8(&[0xc0, 0x80]));
    assert!(!is_utf8(&[0xe0, 0x80, 0x80]));
    assert!(!is_utf8(&[0xed, 0xa0, 0x80]));
    assert!(!is_utf8(&[0xf4, 0x90, 0x80, 0x80]));
    assert!(!is_utf8(&[0xe2, 0x82]));
    assert!(!is_utf8(&[0x80]));
}

#[test]
fn escape_only_quotes() {
    assert_eq!(escape_quotes("He said \"hi\""), "He said \\\"hi\\\"");
    assert_eq!(escape_quotes("a\\b\n\t"), "a\\b\n\t");
    assert_eq!(escape_quotes("\\\""), "\\\\\"");
    assert_eq!(escape_quotes(""), "");
}

#[test]
fn quote_escaping_round_trip() {
    let entries = vec![file("/r/q.txt", b"He said \"hi\"")];
    let out = bundle(&entries, "/r");
    assert_eq!(out, "\"q.txt\"\n\"\"\"\nHe said \\\"hi\\\"\n\"\"\"\n\n");
    let lines: Vec<&str> = out.lines().collect();
    assert_eq!(lines[1], "\"\"\"");
    assert_eq!(lines[2], "He said \\\"hi\\\"");
    assert_eq!(lines[3], "\"\"\"");
    assert_eq!(lines[2].replace("\\\"", "\""), "He said \"hi\"");
}

#[test]
fn relative_path_under_root() {
    let entries = vec![file("/tmp/proj/src/main.txt", b"fn main")];
    let out = bundle(&entries, "/tmp/proj");
    assert_eq!(out, "\"src/main.txt\"\n\"\"\"\nfn main\n\"\"\"\n\n");
    assert!(!out.contains("/tmp/proj"));
}

#[test]
fn relative_path_outside_root_is_kept() {
    let rel = relative_path(&parts("/other/x.txt"), &parts("/tmp/proj"));
    assert_eq!(rel, parts("/other/x.txt"));
    assert_eq!(display_path(&rel), "/other/x.txt");
    let rel2 = relative_path(&parts("/tmp/projx/a"), &parts("/tmp/proj"));
    assert_eq!(display_path(&rel2), "/tmp/projx/a");
}

#[test]
fn relative_path_strips_components() {
    let rel = relative_path(&parts("./a/b/c.txt"), &parts("."));
    assert_eq!(rel, parts("a/b/c.txt"));
    assert_eq!(display_path(&rel), "a/b/c.txt");
    assert_eq!(display_path(&Vec::new()), "");
    assert_eq!(display_path(&parts("one")), "one");
}

#[test]
fn binary_file_is_skipped() {
    let entries = vec![
        file("/r/a.txt", b"A"),
        file("/r/bin.dat", &[0xff]),
        file("/r/b.txt", b"B"),
    ];
    let out = bundle(&entries, "/r");
    assert_eq!(out, "\"a.txt\"\n\"\"\"\nA\n\"\"\"\n\n\"b.txt\"\n\"\"\"\nB\n\"\"\"\n\n");
}

#[test]
fn unreadable_and_non_file_entries_are_skipped() {
    let entries = vec![
        Entry { path: parts("/r/dir"), kind: EntryKind::Directory, content: None },
        Entry { path: parts("/r/gone.txt"), kind: EntryKind::File, content: None },
        Entry { path: parts("/r/link"), kind: EntryKind::Other, content: Some(b"x".to_vec()) },
        file("/r/dir/ok.txt", b"ok"),
    ];
    let out = bundle(&entries, "/r");
    assert_eq!(out, "\"dir/ok.txt\"\n\"\"\"\nok\n\"\"\"\n\n");
}

#[test]
fn empty_directory_gives_empty_output() {
    assert_eq!(bundle(&Vec::new(), "/r"), "");
    let only_dirs = vec![
        Entry { path: parts("/r"), kind: EntryKind::Directory, content: None },
        Entry { path: parts("/r/sub"), kind: EntryKind::Directory, content: None },
    ];
    assert_eq!(bundle(&only_dirs, "/r"), "");
}

#[test]
fn same_entries_give_same_output() {
    let make = || {
        vec![
            file("/r/x.txt", b"x \"1\""),
            file("/r/y/z.txt", "\u{e9}t\u{e9}".as_bytes()),
        ]
    };
    assert_eq!(bundle(&make(), "/r"), bundle(&make(), "/r"));
}

#[test]
fn multibyte_text_is_kept() {
    let entries = vec![file("/r/u.txt", "h\u{e9}llo \u{2713}".as_bytes())];
    assert_eq!(bundle(&entries, "/r"), "\"u.txt\"\n\"\"\"\nh\u{e9}llo \u{2713}\n\"\"\"\n\n");
}

#[test]
fn output_is_appended() {
    let mut out = String::from("head\n");
    process_folder(&vec![file("/r/a", b"1")], &parts("/r"), &mut out);
    assert_eq!(out, "head\n\"a\"\n\"\"\"\n1\n\"\"\"\n\n");
    let mut s = String::from(">");
    append_block(&mut s, "p", "c\"");
    assert_eq!(s, ">\"p\"\n\"\"\"\nc\\\"\n\"\"\"\n\n");
}

#[test]
fn walk_options_defaults() {
    let o = WalkOptions::default();
    assert!(!o.include_hidden);
    assert!(o.respect_ignore_rules);
}
