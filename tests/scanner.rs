use fibs::scanner::{Row, Table};

fn step_by_step(t: &Table, s: u8, bytes: &[u8]) -> (u8, Vec<bool>) {
    let mut state = s;
    let mut flags = Vec::new();
    for &b in bytes {
        let (n, m) = t.advance(state, b);
        state = n;
        flags.push(m);
    }
    (state, flags)
}

#[test]
fn feeding_whole_matches_byte_at_a_time() {
    let inputs: Vec<&[u8]> = vec![
        b"",
        b"\r\nWelcome\r\nlogin: ",
        b"\r\nlogin: password: ",
        b"\r\r\nlogin: ",
        b"garbage\n\nlogin: xpassword: ",
    ];
    for t in [Table::banner(), Table::password()] {
        for input in &inputs {
            for start in [0u8, 2, 10, 25] {
                assert_eq!(t.feed(start, input), step_by_step(&t, start, input));
            }
        }
    }
}

#[test]
fn feeding_in_two_chunks_matches_one_pass() {
    let t = Table::banner();
    let input: &[u8] = b"\r\nMOTD line\r\nlogin: ";
    let (whole, whole_flags) = t.feed(0, input);
    for cut in 0..=input.len() {
        let (mid, mut flags) = t.feed(0, &input[..cut]);
        let (end, rest) = t.feed(mid, &input[cut..]);
        flags.extend(rest);
        assert_eq!(end, whole);
        assert_eq!(flags, whole_flags);
    }
}

#[test]
fn leading_crlf_is_skipped() {
    let t = Table::banner();
    assert_eq!(t.feed(0, b"\r").0, 1);
    assert_eq!(t.feed(0, b"\r\n").0, 2);
    assert_eq!(t.feed(0, b"xx\r\n").0, 2);
    // a second CR in the skip restarts it rather than being kept as a partial match
    assert_eq!(t.feed(0, b"\r\r\n").0, 0);
}

#[test]
fn login_marker_reaches_target() {
    let t = Table::banner();
    let (s, flags) = t.feed(0, b"\r\nhello\nlogin: ");
    assert_eq!(s, 10);
    assert_eq!(flags.iter().filter(|m| **m).count(), 1);
    assert!(*flags.last().unwrap());
}

#[test]
fn broken_partial_match_restarts_from_content_state() {
    let t = Table::banner();
    // "\nlog\nlogin: " : the break at the second LF falls back to state 2,
    // so the LF itself does not start a new match
    let (s, _) = t.feed(0, b"\r\n\nlog\nlogin: ");
    assert_eq!(s, 2);
    let (s, _) = t.feed(0, b"\r\n\nlogx\nlogin: ");
    assert_eq!(s, 10);
}

#[test]
fn password_table_matches_marker_anywhere() {
    let t = Table::password();
    let (s, flags) = t.feed(0, b"password: ");
    assert_eq!(s, 10);
    assert!(*flags.last().unwrap());
    assert_eq!(t.feed(0, b"bob\r\nx password: ").0, 10);
    // a broken partial match restarts at state 0 without rereading the byte
    assert_eq!(t.feed(0, b"ppassword: ").0, 0);
    assert_eq!(t.feed(0, b"pass password: ").0, 10);
    // past the last state nothing is mapped: back to 0
    assert_eq!(t.advance(10, b'x'), (0, false));
    assert_eq!(t.advance(200, b'p'), (0, false));
}

#[test]
fn banner_table_stops_at_login_marker() {
    let t = Table::banner();
    assert_eq!(t.feed(0, b"\r\nhi\nlogin: password: ").0, 0);
    assert_eq!(t.advance(10, b'p'), (0, false));
}

#[test]
fn custom_row_uses_first_edge_and_fallback() {
    let mut edges = Vec::new();
    edges.push((b'a', 5));
    edges.push((b'a', 6));
    edges.push((b'b', 7));
    let row = Row { fallback: 3, edges };
    assert_eq!(row.step(b'a'), 5);
    assert_eq!(row.step(b'b'), 7);
    assert_eq!(row.step(b'z'), 3);
    let single = Row::single(1, b'q', 9);
    assert_eq!(single.step(b'q'), 9);
    assert_eq!(single.step(b'r'), 1);
    let t = Table { rows: vec![row, single], target: 9 };
    assert_eq!(t.advance(1, b'q'), (9, true));
    assert_eq!(t.advance(0, b'a'), (5, false));
    assert_eq!(t.advance(2, b'a'), (0, false));
}
