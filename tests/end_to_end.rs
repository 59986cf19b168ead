use fibs::display::Display;
use fibs::input::LineEditor;
use fibs::session::{Action, Event, Phase, Session};

#[test]
fn login_scenario() {
    let mut session = Session::new();
    let mut display = Display::new();
    let mut screen = String::new();
    for &b in b"\r\nWelcome to Foo.\r\n\r\nlogin: " {
        if let Action::Show(u) = session.handle(Event::Byte(b)) {
            screen = display.apply(u).iter().collect();
        }
    }
    assert_eq!(session.phase(), Phase::AwaitingLogin);
    let shown: Vec<String> = display.lines().iter().map(|l| l.iter().collect()).collect();
    assert_eq!(shown, vec!["Welcome to Foo.", "", ""]);
    assert!(screen.contains("\x1b[5;3HWelcome to Foo.\x1b[6;3H\x1b[7;3H"));

    let mut editor = LineEditor::new();
    let mut sent: Vec<u8> = Vec::new();
    for c in "bob\n".chars() {
        let r = editor.key(c);
        sent.extend(r.send.iter().collect::<String>().into_bytes());
        for u in r.updates {
            display.apply(u);
        }
    }
    assert_eq!(sent, b"bob\r".to_vec());

    for &b in b"password: " {
        if let Action::Show(u) = session.handle(Event::Byte(b)) {
            display.apply(u);
        }
    }
    assert_eq!(session.phase(), Phase::AwaitingPassword);
    let shown: Vec<String> = display.lines().iter().map(|l| l.iter().collect()).collect();
    assert_eq!(shown.last().unwrap(), "password: ");
}
