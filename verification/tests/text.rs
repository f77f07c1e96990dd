use collab_mode::assoc::TextMap;
use collab_mode::number::{
    be_bytes_of, be_value_of, decimal_list_text, decimal_text, hex_text, read_signed,
    read_unsigned, signed_decimal_text, wide_decimal_text, NumberError,
};
use collab_mode::split::{join_texts, lines_of, split_text, splitn_chars};
use collab_mode::text::{
    find_chars, replace_chars, split_once_chars, text_less, to_chars, trim_chars, CharClass,
};
use collab_mode::transcript_runner::{
    display_transcript, failure_summary, get_transcripts_dir, is_asked_for, is_script_name,
    join_path, list_transcripts, missing_message, transcript_filename,
};

fn chars(s: &str) -> Vec<char> {
    s.chars().collect()
}

fn texts(v: &[&str]) -> Vec<String> {
    v.iter().map(|s| s.to_string()).collect()
}

#[test]
fn numbers_are_written() {
    for n in [0, 7, 10, 99, 100, 12345678901234567890u64, u64::MAX] {
        assert_eq!(decimal_text(n), n.to_string());
    }
    assert_eq!(wide_decimal_text(u64::MAX as u128 + 1), "18446744073709551616");
    for n in [0, -1, 1, i64::MIN, i64::MAX] {
        assert_eq!(signed_decimal_text(n), n.to_string());
    }
    assert_eq!(decimal_list_text(&[1, 20, 3]), "[1, 20, 3]");
    assert_eq!(decimal_list_text(&[]), "[]");
    assert_eq!(hex_text(0).to_lowercase(), "00");
    assert_eq!(hex_text(0xaf).to_lowercase(), "af");
}

#[test]
fn numbers_are_read() {
    assert_eq!(read_unsigned(&chars("+007"), 10), Ok(7));
    assert_eq!(read_unsigned(&chars("11"), 10), Err(NumberError::TooLarge));
    assert_eq!(read_unsigned(&chars("-1"), 10), Err(NumberError::InvalidDigit));
    assert_eq!(read_unsigned(&chars("+"), 10), Err(NumberError::InvalidDigit));
    assert_eq!(read_unsigned(&chars(""), 10), Err(NumberError::Empty));
    assert_eq!(read_signed(&chars("-9223372036854775808")), Ok(i64::MIN));
    assert_eq!(read_signed(&chars("-")), Err(NumberError::InvalidDigit));
    assert_eq!(be_bytes_of(0x0102030405060708), vec![1, 2, 3, 4, 5, 6, 7, 8]);
    assert_eq!(be_value_of(&[1, 2, 3, 4, 5, 6, 7, 8]), 0x0102030405060708);
}

#[test]
fn texts_are_split() {
    assert_eq!(split_text("a,,b", ','), texts(&["a", "", "b"]));
    assert_eq!(split_text("", ','), texts(&[""]));
    assert_eq!(join_texts(&texts(&["a", "", "b"]), ','), "a,,b");
    for s in ["a\nb\r\nc", "a\n", "\n\n", "", "a\r", "x\ny\n\n"] {
        let expected: Vec<Vec<char>> = s.lines().map(|l| l.chars().collect()).collect();
        assert_eq!(lines_of(&chars(s)), expected);
    }
    for s in ["a b c d", "a", "a ", " a", "a  b"] {
        let expected: Vec<Vec<char>> = s.splitn(3, ' ').map(|l| l.chars().collect()).collect();
        assert_eq!(splitn_chars(&chars(s), 3, ' '), expected);
    }
}

#[test]
fn texts_are_searched() {
    assert_eq!(find_chars(&chars("xabab"), &chars("ab")), Some(1));
    assert_eq!(find_chars(&chars("xa"), &chars("ab")), None);
    assert_eq!(
        split_once_chars(&chars("k: v: w"), ':'),
        Some((chars("k"), chars(" v: w")))
    );
    assert_eq!(split_once_chars(&chars("kv"), ':'), None);
    for s in ["aXbXX", "X", "", "abc"] {
        let expected = chars(&s.replace("X", "--"));
        assert_eq!(replace_chars(&chars(s), &['X'], &['-', '-']), expected);
    }
    for s in [" \t a b\u{2003}\n", "\u{85}x", "", "   "] {
        assert_eq!(trim_chars(&to_chars(s), CharClass::White), chars(s.trim()));
    }
    assert_eq!(trim_chars(&chars("--a-"), CharClass::Only('-')), chars("a"));
    for (a, b) in [("a", "b"), ("b", "a"), ("a", "a"), ("a", "aa"), ("é", "z"), ("", "a")] {
        assert_eq!(text_less(a, b), a < b);
    }
}

#[test]
fn maps_keep_one_value_for_each_key() {
    let mut m: TextMap<u8> = TextMap::new();
    m.insert("a".to_string(), 1);
    m.insert("b".to_string(), 2);
    m.insert("a".to_string(), 3);
    assert_eq!(m.len(), 2);
    assert_eq!(m.entry(0), ("a", &3));
    assert_eq!(m.get("b"), Some(&2));
    assert_eq!(m.remove("a"), Some(3));
    assert_eq!(m.remove("a"), None);
    assert_eq!(m.len(), 1);
}

#[test]
fn scripts_are_found() {
    assert_eq!(get_transcripts_dir("/crate"), "/crate/src/server/transcripts");
    assert_eq!(join_path("/a/", "b"), "/a/b");
    assert_eq!(transcript_filename("x"), "x.txt");
    assert_eq!(transcript_filename("x.txt"), "x.txt");
    assert_eq!(
        list_transcripts(&texts(&["b.txt", "a.txt", "c.md", ".txt", "d.txt.bak"])),
        texts(&["a.txt", "b.txt"])
    );
    assert!(is_script_name("a.txt"));
    assert!(!is_script_name(".txt"));
    assert!(is_asked_for("a.txt", None));
    assert!(is_asked_for("a.txt", Some("a")));
    assert!(is_asked_for("a.txt", Some("a.txt")));
    assert!(!is_asked_for("a.txt", Some("b")));
    assert_eq!(missing_message("a.txt"), "Transcript file not found: a.txt");
}

#[test]
fn script_is_shown() {
    let rule = "-".repeat(60);
    assert_eq!(
        display_transcript("a.txt", "Name: N\n\nE1 SEND"),
        format!(
            "\nTranscript: N\nFile: a.txt\n\n{r}\nName: N\n\nE1 SEND\n{r}\n",
            r = rule
        )
    );
    assert_eq!(
        failure_summary(&[
            ("a".to_string(), "x".to_string()),
            ("b".to_string(), "y".to_string())
        ]),
        "2 transcript test(s) failed:\n  - a: x\n  - b: y"
    );
}
