use llaunchpad::text::{
    contains_str, ends_with, escape_applescript, lines, non_empty_fields, starts_with, str_eq,
    trim_end, is_whitespace,
};

const SAMPLES: [&str; 14] = [
    "",
    "a",
    "a\n",
    "a\r\n",
    "a\r",
    "\n",
    "\n\n",
    "a\nb",
    "a\r\nb\r",
    "a\r\r\nb\n\n",
    "  profile = \"x\"\r\nmodel = y \n",
    "\u{3000}x\u{3000}\n",
    "\r\n\r\n",
    "x\ry\nz",
];

#[test]
fn lines_agree_with_std() {
    for s in SAMPLES {
        let mine: Vec<String> = lines(s).into_iter().map(|l| l.into_iter().collect()).collect();
        let std_lines: Vec<String> = s.lines().map(|l| l.to_string()).collect();
        assert_eq!(mine, std_lines, "{s:?}");
    }
}

#[test]
fn trim_end_agrees_with_std() {
    for s in SAMPLES {
        assert_eq!(trim_end(s), s.trim_end());
    }
}

#[test]
fn string_equality() {
    for a in SAMPLES {
        for b in SAMPLES {
            assert_eq!(str_eq(a, b), a == b);
        }
    }
    assert!(!str_eq("kitty", "xterm"));
    assert!(str_eq("\u{e9}", "\u{e9}"));
}

#[test]
fn whitespace_agrees_with_std() {
    for v in 0u32..0x3100 {
        if let Some(c) = char::from_u32(v) {
            assert_eq!(is_whitespace(c), c.is_whitespace(), "{v:#x}");
        }
    }
    for v in [0x10000u32, 0x1F600, 0xFEFF, 0x200B] {
        let c = char::from_u32(v).unwrap();
        assert_eq!(is_whitespace(c), c.is_whitespace());
    }
}

#[test]
fn fields_are_split_at_the_separator() {
    assert_eq!(non_empty_fields("/usr/bin::/bin:", ':'), vec!["/usr/bin", "/bin"]);
    assert_eq!(non_empty_fields(":::", ':'), Vec::<String>::new());
    assert_eq!(non_empty_fields("abc", ':'), vec!["abc"]);
}

#[test]
fn applescript_escaping() {
    assert_eq!(escape_applescript(r#"say "hi" \ bye"#), r#"say \"hi\" \\ bye"#);
    assert_eq!(escape_applescript(""), "");
    let cmd = r#"a\"b"#;
    assert_eq!(escape_applescript(cmd), cmd.replace('\\', "\\\\").replace('"', "\\\""));
}

#[test]
fn searching() {
    assert!(contains_str("/Applications/Codex.app/Contents/MacOS/Codex", "Codex.app/Contents/MacOS/"));
    assert!(!contains_str("/Applications/Codex.app/Contents/Resources/codex", "Codex.app/Contents/MacOS/"));
    assert!(contains_str("abc", ""));
    assert!(!contains_str("", "a"));
    assert!(ends_with("x-cloud", "-cloud"));
    assert!(!ends_with("cloud", "-cloud"));
    assert!(starts_with("profile = 1", "profile ="));
    assert!(!starts_with("profile", "profile ="));
}
