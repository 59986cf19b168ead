use fibs::display::{split_crlf, Display};
use fibs::session::Update;

fn text(v: &[char]) -> String {
    v.iter().collect()
}

fn lines(d: &Display) -> Vec<String> {
    d.lines().iter().map(|l| text(l)).collect()
}

fn chars(s: &str) -> Vec<char> {
    s.chars().collect()
}

#[test]
fn chars_append_in_order() {
    let mut d = Display::new();
    d.apply(Update::AppendLine(chars("first")));
    d.apply(Update::AppendChars(vec!['a']));
    d.apply(Update::AppendChars(vec!['b']));
    assert_eq!(lines(&d), vec!["firstab"]);
}

#[test]
fn chars_start_a_line_in_empty_buffer() {
    let mut d = Display::new();
    d.apply(Update::AppendChars(vec!['a']));
    d.apply(Update::AppendChars(vec!['b']));
    assert_eq!(lines(&d), vec!["ab"]);
}

#[test]
fn lines_and_chars_interleave() {
    let mut d = Display::new();
    d.apply(Update::Banner(b"one\r\ntwo".to_vec()));
    d.apply(Update::AppendChars(chars("x")));
    d.apply(Update::AppendLine(chars("three")));
    d.apply(Update::AppendChars(chars("y")));
    assert_eq!(lines(&d), vec!["one", "twox", "threey"]);
}

#[test]
fn banner_splits_on_crlf() {
    let mut d = Display::new();
    d.apply(Update::Banner(b"Welcome to Foo.\r\n\r\n".to_vec()));
    assert_eq!(lines(&d), vec!["Welcome to Foo.", "", ""]);
}

#[test]
fn banner_decodes_lossily() {
    let mut d = Display::new();
    d.apply(Update::Banner(vec![b'a', 0xff, b'b']));
    assert_eq!(lines(&d), vec!["a\u{fffd}b"]);
}

#[test]
fn split_crlf_pieces() {
    let pieces = split_crlf(b"a\r\nb\r\r\n\r\nc\n");
    let want: Vec<&[u8]> = vec![b"a", b"b\r", b"", b"c\n"];
    assert_eq!(pieces.len(), want.len());
    for (p, w) in pieces.iter().zip(want) {
        assert_eq!(p.as_slice(), w);
    }
    assert_eq!(split_crlf(b"").len(), 1);
}

#[test]
fn render_draws_frame_and_lines() {
    let mut d = Display::new();
    let out = text(&d.apply(Update::Banner(b"Hi\r\nthere".to_vec())));
    assert!(out.starts_with("\x1b[2J\x1b[3;1H\u{2554}\u{2550}FIBS"));
    assert!(out.contains("\x1b[28;1H\u{2551} > "));
    assert!(out.ends_with("\x1b[4;2H\x1b[5;3HHi\x1b[6;3Hthere"));
    let top: String = std::iter::repeat('\u{2550}').take(68).collect();
    assert!(out.contains(&format!("FIBS{}\u{2557}", top)));
    assert_eq!(out, text(&d.render()));
}

#[test]
fn short_buffer_is_shown_whole() {
    let mut d = Display::new();
    d.apply(Update::Banner(b"a\r\nb".to_vec()));
    let out = text(&d.apply(Update::AppendLine(chars("c"))));
    assert!(out.ends_with("\x1b[4;2H\x1b[5;3Ha\x1b[6;3Hb\x1b[7;3Hc"));
}

#[test]
fn window_shows_last_twenty_two_lines() {
    let mut d = Display::new();
    let banner: Vec<String> = (0..30).map(|i| format!("l{}", i)).collect();
    let out = text(&d.apply(Update::Banner(banner.join("\r\n").into_bytes())));
    assert!(out.contains("\x1b[5;3Hl8\x1b[6;3Hl9"));
    assert!(out.ends_with("\x1b[26;3Hl29"));
    assert!(!out.contains("l7"));
    let out = text(&d.apply(Update::AppendChars(chars("x"))));
    assert!(out.ends_with("\x1b[26;3Hl29x"));
    let out = text(&d.apply(Update::AppendLine(chars("new"))));
    assert!(out.contains("\x1b[5;3Hl9\x1b[6;3Hl10"));
    assert!(out.ends_with("\x1b[25;3Hl29x\x1b[26;3Hnew"));
}

#[test]
fn input_echo_moves_column() {
    let mut d = Display::new();
    assert_eq!(d.input_col(), 5);
    let out = text(&d.apply(Update::Input(vec!['b'])));
    assert_eq!(out, "\x1b[28;5Hb");
    let out = text(&d.apply(Update::Input(chars("ob"))));
    assert_eq!(out, "\x1b[28;6Hob");
    assert_eq!(d.input_col(), 8);
    assert!(lines(&d).is_empty());
}
