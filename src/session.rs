use vstd::prelude::*;

use crate::error::{Channel, Error};
use crate::scanner::{
    banner_next, login_marker, password_marker, password_next, Table, BANNER_TARGET, LOGIN_MARKER_LEN,
    PASSWORD_TARGET,
};

verus! {

/// The protocol phase of a session; phases are only ever left for later ones.
#[derive(Clone, Copy, Debug, PartialEq, Eq, Structural)]
pub enum Phase {
    CollectingBanner,
    AwaitingLogin,
    AwaitingPassword,
    Done,
}

/// One renderable change, sent to the display.
#[derive(Clone, Debug)]
pub enum Update {
    /// The whole banner, as received (lines separated by CR LF).
    Banner(Vec<u8>),
    /// Characters to append to the current line.
    AppendChars(Vec<char>),
    /// A new line to append below the others.
    AppendLine(Vec<char>),
    /// Characters to echo in the input panel.
    Input(Vec<char>),
}

/// What the coordinator's byte channel delivered.
#[derive(Clone, Copy, Debug, PartialEq, Eq, Structural)]
pub enum Event {
    Byte(u8),
    Disconnected,
}

/// What the coordinator does after an event.
#[derive(Clone, Debug)]
pub enum Action {
    /// Nothing to do; wait for the next byte.
    Wait,
    /// Send this update to the display.
    Show(Update),
    /// The in-scope phases are over: shut down.
    Finish,
    /// The session failed: shut down and report this error.
    Fail(Error),
}

/// The mathematical form of an update.
pub enum UpdateView {
    Banner(Seq<u8>),
    AppendChars(Seq<char>),
    AppendLine(Seq<char>),
    Input(Seq<char>),
}

/// The mathematical form of an action.
pub enum ActionView {
    Wait,
    Show(UpdateView),
    Finish,
    Fail(Error),
}

impl View for Update {
    type V = UpdateView;

    open spec fn view(&self) -> UpdateView {
        match self {
            Update::Banner(b) => UpdateView::Banner(b@),
            Update::AppendChars(c) => UpdateView::AppendChars(c@),
            Update::AppendLine(c) => UpdateView::AppendLine(c@),
            Update::Input(c) => UpdateView::Input(c@),
        }
    }
}

impl View for Action {
    type V = ActionView;

    open spec fn view(&self) -> ActionView {
        match self {
            Action::Wait => ActionView::Wait,
            Action::Show(u) => ActionView::Show(u@),
            Action::Finish => ActionView::Finish,
            Action::Fail(e) => ActionView::Fail(*e),
        }
    }
}

/// The state of a session: its phase, the scanner state, and the banner
/// bytes collected so far.
pub struct SessionView {
    pub phase: Phase,
    pub state: u8,
    pub banner: Seq<u8>,
}

/// The line appended when the password prompt arrives.
pub open spec fn password_line() -> Seq<char> {
    seq!['p', 'a', 's', 's', 'w', 'o', 'r', 'd', ':', ' ']
}

/// The order of the phases.
pub open spec fn rank(p: Phase) -> int {
    match p {
        Phase::CollectingBanner => 0,
        Phase::AwaitingLogin => 1,
        Phase::AwaitingPassword => 2,
        Phase::Done => 3,
    }
}

/// The session in which nothing has been received.
pub open spec fn initial() -> SessionView {
    SessionView { phase: Phase::CollectingBanner, state: 0, banner: seq![] }
}

/// The next session state and the action for one event.
///
/// While the banner is collected, each byte read once the scanner has left
/// the leading CR LF skip (states 0 and 1) is kept; when the login marker
/// completes, the kept bytes without the marker are shown. Then the password
/// table scans from its start state, and when the password marker completes
/// a line announces it. Any byte after that ends the
/// session, as does a lost channel, which fails it.
pub open spec fn session_next(v: SessionView, ev: Event) -> (SessionView, ActionView) {
    match ev {
        Event::Disconnected => (
            SessionView { phase: Phase::Done, banner: seq![], ..v },
            ActionView::Fail(Error::ChannelDisconnected(Channel::Bytes)),
        ),
        Event::Byte(b) => match v.phase {
            Phase::CollectingBanner => {
                let kept = if v.state > 1 { v.banner.push(b) } else { v.banner };
                let n = banner_next(v.state, b);
                if n == BANNER_TARGET {
                    (
                        SessionView { phase: Phase::AwaitingLogin, state: 0, banner: seq![] },
                        ActionView::Show(
                            UpdateView::Banner(kept.take(kept.len() - LOGIN_MARKER_LEN)),
                        ),
                    )
                } else {
                    (SessionView { phase: Phase::CollectingBanner, state: n, banner: kept }, ActionView::Wait)
                }
            },
            Phase::AwaitingLogin => {
                let n = password_next(v.state, b);
                if n == PASSWORD_TARGET {
                    (
                        SessionView { phase: Phase::AwaitingPassword, state: n, banner: v.banner },
                        ActionView::Show(UpdateView::AppendLine(password_line())),
                    )
                } else {
                    (SessionView { state: n, ..v }, ActionView::Wait)
                }
            },
            Phase::AwaitingPassword => (SessionView { phase: Phase::Done, ..v }, ActionView::Finish),
            Phase::Done => (v, ActionView::Finish),
        },
    }
}

/// What holds of every reachable session state: while the banner is
/// collected, the scanner is short of the login state, and in states 3 to 9
/// the banner ends with a LF and the part of the login marker matched so far;
/// in the other phases no banner is held.
pub open spec fn reachable(v: SessionView) -> bool {
    if v.phase == Phase::CollectingBanner {
        &&& v.state < BANNER_TARGET
        &&& v.state >= 3 ==> {
            let m = v.state - 3;
            &&& v.banner.len() >= m + 1
            &&& v.banner[v.banner.len() - m - 1] == 10u8
            &&& v.banner.subrange(v.banner.len() - m, v.banner.len() as int)
                == login_marker().take(m)
        }
    } else {
        v.banner.len() == 0
    }
}

/// Every event keeps a session state reachable. When the login marker
/// completes, the kept bytes end with a LF and the whole marker.
pub proof fn lemma_next_reachable(v: SessionView, ev: Event)
    requires
        reachable(v),
    ensures
        reachable(session_next(v, ev).0),
        v.phase == Phase::CollectingBanner && session_next(v, ev).0.phase == Phase::AwaitingLogin
            ==> {
            let kept = v.banner.push(ev->Byte_0);
            &&& ev is Byte
            &&& v.state == 9
            &&& kept.len() >= 8
            &&& kept[kept.len() - 8] == 10u8
            &&& kept.subrange(kept.len() - 7, kept.len() as int) == login_marker().take(7)
        },
{
    if let Event::Byte(b) = ev {
        if v.phase == Phase::CollectingBanner {
            let n = banner_next(v.state, b);
            let ob = v.banner;
            let nb = if v.state > 1 { ob.push(b) } else { ob };
            if n == BANNER_TARGET {
                assert(v.state == 9);
                let len = nb.len();
                assert(ob.subrange(ob.len() - 6, ob.len() as int) == login_marker().take(6));
                assert(nb[len - 8] == ob[ob.len() - 7]);
                assert forall|i: int| 0 <= i < 7 implies nb.subrange(len - 7, len as int)[i]
                    == login_marker().take(7)[i] by {
                    if i < 6 {
                        assert(ob.subrange(ob.len() - 6, ob.len() as int)[i] == login_marker().take(6)[i]);
                    }
                }
                assert(nb.subrange(len - 7, len as int) =~= login_marker().take(7));
            } else if n >= 3 {
                let m = n - 3;
                if m > 0 {
                    assert forall|i: int| 0 <= i < m implies nb.subrange(nb.len() - m, nb.len() as int)[i]
                        == login_marker().take(m as int)[i] by {
                        if i < m - 1 {
                            assert(ob.subrange(ob.len() - (m - 1), ob.len() as int)[i]
                                == login_marker().take(m - 1)[i]);
                        }
                    }
                    assert(nb.subrange(nb.len() - m, nb.len() as int) =~= login_marker().take(m as int));
                } else {
                    assert(nb.subrange(nb.len() - m, nb.len() as int) =~= login_marker().take(m as int));
                }
            }
        }
    }
}

/// The session state after the bytes are read in order from `v`.
pub open spec fn feed_session(v: SessionView, bytes: Seq<u8>) -> SessionView
    decreases bytes.len(),
{
    if bytes.len() == 0 {
        v
    } else {
        session_next(feed_session(v, bytes.drop_last()), Event::Byte(bytes.last())).0
    }
}

/// The updates shown while the bytes are read in order from `v`.
pub open spec fn shown_updates(v: SessionView, bytes: Seq<u8>) -> Seq<UpdateView>
    decreases bytes.len(),
{
    if bytes.len() == 0 {
        seq![]
    } else {
        let prev = shown_updates(v, bytes.drop_last());
        match session_next(feed_session(v, bytes.drop_last()), Event::Byte(bytes.last())).1 {
            ActionView::Show(u) => prev.push(u),
            _ => prev,
        }
    }
}

/// The banner table's state after reading the bytes from state 0.
pub open spec fn banner_run(bytes: Seq<u8>) -> u8
    decreases bytes.len(),
{
    if bytes.len() == 0 {
        0
    } else {
        banner_next(banner_run(bytes.drop_last()), bytes.last())
    }
}

/// The bytes read once the banner table has left the CR LF skip (states 0 and 1).
pub open spec fn past_skip(bytes: Seq<u8>) -> Seq<u8>
    decreases bytes.len(),
{
    if bytes.len() == 0 {
        seq![]
    } else {
        let prev = past_skip(bytes.drop_last());
        if banner_run(bytes.drop_last()) > 1 {
            prev.push(bytes.last())
        } else {
            prev
        }
    }
}

proof fn lemma_past_skip_len(bytes: Seq<u8>)
    ensures
        past_skip(bytes).len() <= bytes.len(),
    decreases bytes.len(),
{
    if bytes.len() > 0 {
        lemma_past_skip_len(bytes.drop_last());
    }
}

/// No event moves a session to an earlier phase, and no byte moves it on by
/// more than one phase: the password phase is entered only from the login
/// phase, so password text inside the banner cannot reach it.
pub proof fn lemma_phase_order(v: SessionView, ev: Event)
    ensures
        rank(session_next(v, ev).0.phase) >= rank(v.phase),
        ev is Byte ==> rank(session_next(v, ev).0.phase) <= rank(v.phase) + 1,
        session_next(v, ev).0.phase == Phase::AwaitingPassword && v.phase != Phase::AwaitingPassword
            ==> v.phase == Phase::AwaitingLogin,
{
}

/// Reading bytes keeps a session state reachable.
pub proof fn lemma_feed_reachable(v: SessionView, bytes: Seq<u8>)
    requires
        reachable(v),
    ensures
        reachable(feed_session(v, bytes)),
    decreases bytes.len(),
{
    if bytes.len() > 0 {
        lemma_feed_reachable(v, bytes.drop_last());
        lemma_next_reachable(feed_session(v, bytes.drop_last()), Event::Byte(bytes.last()));
    }
}

/// While the banner is collected from the start, the session's scanner state
/// is the banner table's, its banner holds the bytes read past the skip,
/// which are what the skip leaves of the input, and nothing has been shown.
proof fn lemma_collecting(bytes: Seq<u8>)
    requires
        feed_session(initial(), bytes).phase == Phase::CollectingBanner,
    ensures
        feed_session(initial(), bytes).state == banner_run(bytes),
        feed_session(initial(), bytes).banner == past_skip(bytes),
        shown_updates(initial(), bytes) == Seq::<UpdateView>::empty(),
        past_skip(bytes) == bytes.subrange(bytes.len() - past_skip(bytes).len(), bytes.len() as int),
        past_skip(bytes).len() > 0 ==> banner_run(bytes) > 1,
    decreases bytes.len(),
{
    if bytes.len() > 0 {
        let prev = bytes.drop_last();
        lemma_phase_order(feed_session(initial(), prev), Event::Byte(bytes.last()));
        lemma_collecting(prev);
        lemma_feed_reachable(initial(), prev);
        let k = past_skip(prev);
        lemma_past_skip_len(prev);
        if banner_run(prev) > 1 {
            assert(past_skip(bytes) == k.push(bytes.last()));
            assert(k == prev.subrange(prev.len() - k.len(), prev.len() as int));
            assert(past_skip(bytes) =~= bytes.subrange(
                bytes.len() - past_skip(bytes).len(),
                bytes.len() as int,
            ));
        } else {
            assert(k.len() == 0);
            assert(past_skip(bytes) =~= bytes.subrange(bytes.len() as int, bytes.len() as int));
        }
    } else {
        assert(bytes.subrange(0, 0) =~= Seq::<u8>::empty());
    }
}

/// Banner bytes whose last byte completes the login marker move the session
/// to awaiting the login, with one banner update shown: all the bytes read
/// after the leading CR LF skip, which are the input without a leading part,
/// less the marker `"login: "` they end with.
pub proof fn lemma_banner_shown_once(bytes: Seq<u8>)
    requires
        bytes.len() > 0,
        feed_session(initial(), bytes.drop_last()).phase == Phase::CollectingBanner,
        feed_session(initial(), bytes).phase == Phase::AwaitingLogin,
    ensures
        ({
            let kept = past_skip(bytes);
            &&& kept == bytes.subrange(bytes.len() - kept.len(), bytes.len() as int)
            &&& kept.len() >= 8
            &&& kept.subrange(kept.len() - 7, kept.len() as int) == login_marker().take(7)
            &&& shown_updates(initial(), bytes) == seq![UpdateView::Banner(kept.take(kept.len() - 7))]
        }),
{
    let prev = bytes.drop_last();
    lemma_collecting(prev);
    lemma_feed_reachable(initial(), prev);
    lemma_next_reachable(feed_session(initial(), prev), Event::Byte(bytes.last()));
    let kept = past_skip(bytes);
    assert(banner_run(prev) == 9);
    assert(kept == past_skip(prev).push(bytes.last()));
    lemma_past_skip_len(prev);
    assert(kept =~= bytes.subrange(bytes.len() - kept.len(), bytes.len() as int));
    assert(shown_updates(initial(), bytes) =~= seq![UpdateView::Banner(kept.take(kept.len() - 7))]);
}

/// From the login phase, reading bytes shows nothing while the phase lasts,
/// and once it is over exactly one update, the password line: the password
/// prompt is announced once and never again.
pub proof fn lemma_password_once(v: SessionView, bytes: Seq<u8>)
    requires
        v.phase == Phase::AwaitingLogin,
    ensures
        feed_session(v, bytes).phase == Phase::AwaitingLogin ==> shown_updates(v, bytes)
            == Seq::<UpdateView>::empty(),
        feed_session(v, bytes).phase != Phase::AwaitingLogin ==> shown_updates(v, bytes)
            == seq![UpdateView::AppendLine(password_line())],
        feed_session(v, bytes).phase != Phase::CollectingBanner,
    decreases bytes.len(),
{
    if bytes.len() > 0 {
        let prev = bytes.drop_last();
        lemma_password_once(v, prev);
        lemma_phase_order(feed_session(v, prev), Event::Byte(bytes.last()));
        if feed_session(v, prev).phase == Phase::AwaitingLogin
            && feed_session(v, bytes).phase != Phase::AwaitingLogin {
            assert(shown_updates(v, bytes) =~= seq![UpdateView::AppendLine(password_line())]);
        }
    }
}

/// Reading `a` and then `b` is reading `a + b`: the same final state, and
/// the updates of the two parts in order.
pub proof fn lemma_feed_session_split(v: SessionView, a: Seq<u8>, b: Seq<u8>)
    ensures
        feed_session(v, a + b) == feed_session(feed_session(v, a), b),
        shown_updates(v, a + b) == shown_updates(v, a) + shown_updates(feed_session(v, a), b),
    decreases b.len(),
{
    if b.len() == 0 {
        assert(a + b =~= a);
        assert(shown_updates(v, a) + shown_updates(feed_session(v, a), b) =~= shown_updates(v, a));
    } else {
        lemma_feed_session_split(v, a, b.drop_last());
        assert((a + b).drop_last() =~= a + b.drop_last());
        assert((a + b).last() == b.last());
        let mid = feed_session(v, a);
        match session_next(feed_session(mid, b.drop_last()), Event::Byte(b.last())).1 {
            ActionView::Show(u) => {
                assert(shown_updates(v, a) + shown_updates(mid, b) =~= (shown_updates(v, a)
                    + shown_updates(mid, b.drop_last())).push(u));
            },
            _ => {},
        }
    }
}

/// From the login phase with the password table at its start state, the
/// first `k` bytes of the password marker move the table to state `k` and
/// show nothing.
proof fn lemma_marker_prefix(v: SessionView, k: int)
    requires
        v.phase == Phase::AwaitingLogin,
        v.state == 0,
        0 <= k < 10,
    ensures
        feed_session(v, password_marker().take(k)).phase == Phase::AwaitingLogin,
        feed_session(v, password_marker().take(k)).state == k,
        shown_updates(v, password_marker().take(k)) == Seq::<UpdateView>::empty(),
    decreases k,
{
    if k > 0 {
        lemma_marker_prefix(v, k - 1);
        assert(password_marker().take(k).drop_last() =~= password_marker().take(k - 1));
    } else {
        assert(password_marker().take(0) =~= Seq::<u8>::empty());
    }
}

/// In the login phase, once the password table is at its start state (as it
/// is when the phase begins, and after any byte that leaves a partial match),
/// the password marker moves the session to awaiting the password, and over
/// the whole phase the password line is shown exactly once. Bytes read
/// before, such as an echoed login name, change nothing of this.
pub proof fn lemma_password_prompt_found(v: SessionView, bytes: Seq<u8>)
    requires
        v.phase == Phase::AwaitingLogin,
        feed_session(v, bytes).phase == Phase::AwaitingLogin,
        feed_session(v, bytes).state == 0,
    ensures
        feed_session(v, bytes + password_marker()).phase == Phase::AwaitingPassword,
        shown_updates(v, bytes + password_marker()) == seq![UpdateView::AppendLine(password_line())],
{
    let mid = feed_session(v, bytes);
    let m = password_marker();
    lemma_feed_session_split(v, bytes, m);
    lemma_password_once(v, bytes);
    lemma_marker_prefix(mid, 9);
    assert(m.drop_last() =~= m.take(9));
    assert(feed_session(mid, m).phase == Phase::AwaitingPassword);
    assert(shown_updates(mid, m) =~= seq![UpdateView::AppendLine(password_line())]);
    assert(shown_updates(v, bytes) + shown_updates(mid, m) =~= seq![UpdateView::AppendLine(password_line())]);
}

/// The banner update for input whose last byte completes the login marker:
/// the bytes past the skip, less the marker.
pub open spec fn banner_update(bytes: Seq<u8>) -> UpdateView {
    let kept = past_skip(bytes);
    UpdateView::Banner(kept.take(kept.len() - LOGIN_MARKER_LEN))
}

/// The login marker completes at the last of these bytes, read from the start.
pub open spec fn ends_banner(bytes: Seq<u8>) -> bool {
    &&& bytes.len() > 0
    &&& feed_session(initial(), bytes.drop_last()).phase == Phase::CollectingBanner
    &&& feed_session(initial(), bytes).phase == Phase::AwaitingLogin
}

/// Over any run from the start, nothing is shown while the banner is
/// collected; once it is over, the first update shown is the banner, taken
/// where the login marker completed, and it is the only one until the
/// password line, which comes second and last.
pub proof fn lemma_run_shows_banner_first(bytes: Seq<u8>)
    ensures
        feed_session(initial(), bytes).phase == Phase::CollectingBanner ==> shown_updates(
            initial(),
            bytes,
        ) == Seq::<UpdateView>::empty(),
        feed_session(initial(), bytes).phase != Phase::CollectingBanner ==> exists|k: int|
            0 < k <= bytes.len() && ends_banner(#[trigger] bytes.take(k)) && shown_updates(
                initial(),
                bytes,
            ).len() > 0 && shown_updates(initial(), bytes)[0] == banner_update(bytes.take(k)),
        feed_session(initial(), bytes).phase == Phase::AwaitingLogin ==> shown_updates(
            initial(),
            bytes,
        ).len() == 1,
        feed_session(initial(), bytes).phase == Phase::AwaitingPassword || feed_session(
            initial(),
            bytes,
        ).phase == Phase::Done ==> {
            &&& shown_updates(initial(), bytes).len() == 2
            &&& shown_updates(initial(), bytes)[1] == UpdateView::AppendLine(password_line())
        },
    decreases bytes.len(),
{
    if bytes.len() > 0 {
        let prev = bytes.drop_last();
        let x = bytes.last();
        lemma_run_shows_banner_first(prev);
        let pv = feed_session(initial(), prev);
        let nv = feed_session(initial(), bytes);
        lemma_phase_order(pv, Event::Byte(x));
        if pv.phase == Phase::CollectingBanner {
            if nv.phase != Phase::CollectingBanner {
                lemma_banner_shown_once(bytes);
                assert(bytes.take(bytes.len() as int) =~= bytes);
                assert(ends_banner(bytes.take(bytes.len() as int)));
            }
        } else {
            let k = choose|k: int|
                0 < k <= prev.len() && ends_banner(#[trigger] prev.take(k)) && shown_updates(
                    initial(),
                    prev,
                ).len() > 0 && shown_updates(initial(), prev)[0] == banner_update(prev.take(k));
            assert(bytes.take(k) =~= prev.take(k));
            assert(ends_banner(bytes.take(k)));
        }
    }
}

/// The session state machine: the phase, the scanner state and the banner
/// collected so far, with the tables that scan for the two markers.
pub struct Session {
    phase: Phase,
    state: u8,
    banner: Vec<u8>,
    banner_table: Table,
    login_table: Table,
}

impl View for Session {
    type V = SessionView;

    closed spec fn view(&self) -> SessionView {
        SessionView { phase: self.phase, state: self.state, banner: self.banner@ }
    }
}

impl Session {
    /// The state is reachable, and the two tables are the banner table and
    /// the password table.
    pub closed spec fn wf(&self) -> bool {
        &&& reachable(self@)
        &&& self.banner_table.target == BANNER_TARGET
        &&& self.login_table.target == PASSWORD_TARGET
        &&& forall|s: u8, b: u8| #[trigger] self.banner_table.next(s, b) == banner_next(s, b)
        &&& forall|s: u8, b: u8| #[trigger] self.login_table.next(s, b) == password_next(s, b)
    }

    /// A session in which nothing has been received.
    pub fn new() -> (r: Session)
        ensures
            r.wf(),
            r@ == initial(),
    {
        let r = Session {
            phase: Phase::CollectingBanner,
            state: 0,
            banner: Vec::new(),
            banner_table: Table::banner(),
            login_table: Table::password(),
        };
        assert(r@.banner =~= seq![]);
        r
    }

    /// The current phase.
    pub fn phase(&self) -> (r: Phase)
        ensures
            r == self@.phase,
    {
        self.phase
    }

    /// Whether the session has reached its last phase.
    pub fn is_done(&self) -> (r: bool)
        ensures
            r == (self@.phase == Phase::Done),
    {
        self.phase == Phase::Done
    }

    /// Handles one event of the byte channel.
    pub fn handle(&mut self, ev: Event) -> (r: Action)
        requires
            old(self).wf(),
        ensures
            final(self).wf(),
            (final(self)@, r@) == session_next(old(self)@, ev),
    {
        match ev {
            Event::Disconnected => {
                self.phase = Phase::Done;
                self.banner.clear();
                Action::Fail(Error::ChannelDisconnected(Channel::Bytes))
            },
            Event::Byte(b) => match self.phase {
                Phase::CollectingBanner => {
                    let ghost v = self@;
                    proof {
                        lemma_next_reachable(v, ev);
                    }
                    if self.state > 1 {
                        self.banner.push(b);
                    }
                    let (n, matched) = self.banner_table.advance(self.state, b);
                    self.state = n;
                    if matched {
                        let keep = self.banner.len() - LOGIN_MARKER_LEN;
                        let mut shown: Vec<u8> = Vec::new();
                        core::mem::swap(&mut shown, &mut self.banner);
                        shown.truncate(keep);
                        self.phase = Phase::AwaitingLogin;
                        self.state = 0;
                        proof {
                            assert(shown@ =~= v.banner.push(b).take(v.banner.push(b).len() - 7));
                            assert(self.banner@ =~= seq![]);
                        }
                        Action::Show(Update::Banner(shown))
                    } else {
                        Action::Wait
                    }
                },
                Phase::AwaitingLogin => {
                    let (n, matched) = self.login_table.advance(self.state, b);
                    self.state = n;
                    if matched {
                        self.phase = Phase::AwaitingPassword;
                        let line = vec!['p', 'a', 's', 's', 'w', 'o', 'r', 'd', ':', ' '];
                        assert(line@ =~= password_line());
                        Action::Show(Update::AppendLine(line))
                    } else {
                        Action::Wait
                    }
                },
                Phase::AwaitingPassword => {
                    self.phase = Phase::Done;
                    Action::Finish
                },
                Phase::Done => Action::Finish,
            },
        }
    }
}

} // verus!
