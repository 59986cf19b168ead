use fibs::error::{Channel, Error};
use fibs::session::{Action, Event, Phase, Session, Update};
use fibs::shutdown::{outcome, WorkerExit};

fn feed(s: &mut Session, bytes: &[u8]) -> Vec<Action> {
    let mut shown = Vec::new();
    for &b in bytes {
        let a = s.handle(Event::Byte(b));
        if !matches!(a, Action::Wait) {
            shown.push(a);
        }
    }
    shown
}

#[test]
fn banner_is_shown_once_without_skip_or_marker() {
    let mut s = Session::new();
    let shown = feed(&mut s, b"\r\nWelcome to Foo.\r\n\r\nlogin: ");
    assert_eq!(shown.len(), 1);
    match &shown[0] {
        Action::Show(Update::Banner(b)) => assert_eq!(b.as_slice(), b"Welcome to Foo.\r\n\r\n"),
        other => panic!("unexpected {:?}", other),
    }
    assert_eq!(s.phase(), Phase::AwaitingLogin);
}

#[test]
fn bytes_before_first_crlf_are_skipped() {
    let mut s = Session::new();
    let shown = feed(&mut s, b"noise\r\nHi\nlogin: ");
    assert_eq!(shown.len(), 1);
    match &shown[0] {
        Action::Show(Update::Banner(b)) => assert_eq!(b.as_slice(), b"Hi\n"),
        other => panic!("unexpected {:?}", other),
    }
}

#[test]
fn password_in_banner_does_not_match() {
    let mut s = Session::new();
    let shown = feed(&mut s, b"\r\nForgot your password: ask\r\npassword: \r\n");
    assert!(shown.is_empty());
    assert_eq!(s.phase(), Phase::CollectingBanner);
    let shown = feed(&mut s, b"login: ");
    assert_eq!(shown.len(), 1);
    assert_eq!(s.phase(), Phase::AwaitingLogin);
}

#[test]
fn password_prompt_is_announced_once() {
    let mut s = Session::new();
    feed(&mut s, b"\r\nWelcome\r\nlogin: ");
    let shown = feed(&mut s, b"password: ");
    assert_eq!(shown.len(), 1);
    match &shown[0] {
        Action::Show(Update::AppendLine(l)) => {
            assert_eq!(l.iter().collect::<String>(), "password: ")
        }
        other => panic!("unexpected {:?}", other),
    }
    assert_eq!(s.phase(), Phase::AwaitingPassword);
    assert!(matches!(s.handle(Event::Byte(b'p')), Action::Finish));
    assert!(s.is_done());
    assert!(matches!(s.handle(Event::Byte(b'x')), Action::Finish));
}

#[test]
fn password_prompt_after_echoed_login_name() {
    let mut s = Session::new();
    feed(&mut s, b"\r\nWelcome\r\nlogin: ");
    let shown = feed(&mut s, b"bob\r\npassword: ");
    assert_eq!(shown.len(), 1);
    assert!(matches!(&shown[0], Action::Show(Update::AppendLine(_))));
    assert_eq!(s.phase(), Phase::AwaitingPassword);
}

#[test]
fn password_prompt_after_other_text() {
    let mut s = Session::new();
    feed(&mut s, b"\r\nWelcome\r\nlogin: ");
    assert!(feed(&mut s, b"x").is_empty());
    assert_eq!(s.phase(), Phase::AwaitingLogin);
    let shown = feed(&mut s, b"password: ");
    assert_eq!(shown.len(), 1);
    assert_eq!(s.phase(), Phase::AwaitingPassword);
}

#[test]
fn second_login_marker_shows_nothing() {
    let mut s = Session::new();
    let shown = feed(&mut s, b"\r\nWelcome\r\nlogin: \r\nlogin: ");
    assert_eq!(shown.len(), 1);
    assert!(matches!(&shown[0], Action::Show(Update::Banner(_))));
    assert_eq!(s.phase(), Phase::AwaitingLogin);
}

#[test]
fn disconnect_mid_banner_fails_the_session() {
    let mut s = Session::new();
    feed(&mut s, b"\r\nWelcome to");
    let a = s.handle(Event::Disconnected);
    let err = match a {
        Action::Fail(e) => e,
        other => panic!("unexpected {:?}", other),
    };
    assert!(matches!(err, Error::ChannelDisconnected(Channel::Bytes)));
    assert!(s.is_done());
    let workers = vec![
        WorkerExit::Failed(Error::IOError(String::from("connection reset"))),
        WorkerExit::Finished,
        WorkerExit::Panicked,
    ];
    let r = outcome(Some(err), workers);
    assert!(matches!(r, Err(Error::ChannelDisconnected(Channel::Bytes))));
}

#[test]
fn outcome_takes_first_worker_error() {
    let workers = vec![
        WorkerExit::Finished,
        WorkerExit::Panicked,
        WorkerExit::Failed(Error::IOError(String::from("first"))),
        WorkerExit::Failed(Error::IOError(String::from("second"))),
    ];
    match outcome(None, workers) {
        Err(Error::IOError(m)) => assert_eq!(m, "first"),
        other => panic!("unexpected {:?}", other),
    }
}

#[test]
fn outcome_succeeds_despite_panics() {
    let workers = vec![WorkerExit::Finished, WorkerExit::Panicked, WorkerExit::Finished];
    assert!(outcome(None, workers).is_ok());
    assert!(outcome(None, Vec::new()).is_ok());
}
