use fibs::input::LineEditor;
use fibs::session::Update;

#[test]
fn typed_line_is_sent_with_carriage_return() {
    let mut ed = LineEditor::new();
    for c in "bob".chars() {
        let r = ed.key(c);
        assert!(r.send.is_empty());
        assert_eq!(r.updates.len(), 2);
        match (&r.updates[0], &r.updates[1]) {
            (Update::AppendChars(a), Update::Input(b)) => {
                assert_eq!(a, &vec![c]);
                assert_eq!(b, &vec![c]);
            }
            other => panic!("unexpected {:?}", other),
        }
    }
    assert_eq!(ed.pending().iter().collect::<String>(), "bob");
    let r = ed.key('\n');
    assert_eq!(r.send.iter().collect::<String>().into_bytes(), b"bob\r".to_vec());
    assert!(r.updates.is_empty());
    assert!(ed.pending().is_empty());
}

#[test]
fn empty_line_sends_carriage_return() {
    let mut ed = LineEditor::new();
    let r = ed.key('\n');
    assert_eq!(r.send, vec!['\r']);
}
