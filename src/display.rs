use vstd::prelude::*;

use crate::session::{
    ends_banner, initial, lemma_banner_shown_once, past_skip, shown_updates, Update, UpdateView,
};
use crate::scanner::login_marker;
use crate::terminal::{clear_all, clear_text, decode_lossy, goto, goto_text, lossy_text};

verus! {

/// Inner width of both panels, in columns.
pub const PANEL_WIDTH: usize = 73;

/// How many buffer lines the content panel shows at once.
pub const WINDOW_LINES: usize = 22;

/// Row of the input panel's prompt line.
pub const INPUT_ROW: u16 = 28;

/// Column where echoed input starts.
pub const INPUT_START_COL: u16 = 5;

/// `n` copies of `c`.
pub open spec fn repeated(c: char, n: nat) -> Seq<char> {
    Seq::new(n, |_i: int| c)
}

/// `b` split at each CR LF, as `str::split("\r\n")` splits: the pieces
/// between separators, an empty one where two are adjacent or at either end.
pub open spec fn split_lines(b: Seq<u8>) -> Seq<Seq<u8>>
    decreases b.len(),
{
    if b.len() == 0 {
        seq![seq![]]
    } else {
        let p = split_lines(b.drop_last());
        let cur = p.last();
        if b.last() == 10 && cur.len() > 0 && cur.last() == 13 {
            p.drop_last().push(cur.drop_last()).push(seq![])
        } else {
            p.drop_last().push(cur.push(b.last()))
        }
    }
}

/// The lines of a banner: its CR LF separated pieces, each decoded lossily.
pub open spec fn banner_lines(b: Seq<u8>) -> Seq<Seq<char>> {
    split_lines(b).map_values(|l: Seq<u8>| lossy_text(l))
}

/// The display buffer: its lines, and the column where the next echoed
/// input character goes.
pub struct DisplayView {
    pub lines: Seq<Seq<char>>,
    pub input_col: u16,
}

/// The first line of the visible window over `n` lines: the window is
/// scrolled so that it ends at the last line.
pub open spec fn window_start(n: int) -> int {
    if n > WINDOW_LINES { n - WINDOW_LINES } else { 0 }
}

/// The lines in the visible window: the last `WINDOW_LINES` of the buffer,
/// or all of them where there are fewer.
pub open spec fn window(v: DisplayView) -> Seq<Seq<char>> {
    v.lines.subrange(window_start(v.lines.len() as int), v.lines.len() as int)
}

/// The buffer after one update.
///
/// A banner replaces the buffer with its lines. Characters are appended to
/// the last line (which they start, in an empty buffer). A new line goes
/// below the others. Input only moves the echo column on, stopping at the
/// last column. The window follows the buffer (see `window`), so a line
/// that is added or grows is always in view.
pub open spec fn display_next(v: DisplayView, u: UpdateView) -> DisplayView {
    match u {
        UpdateView::Banner(b) => DisplayView { lines: banner_lines(b), ..v },
        UpdateView::AppendChars(s) => if v.lines.len() == 0 {
            DisplayView { lines: seq![s], ..v }
        } else {
            DisplayView { lines: v.lines.update(v.lines.len() - 1, v.lines.last() + s), ..v }
        },
        UpdateView::AppendLine(s) => DisplayView { lines: v.lines.push(s), ..v },
        UpdateView::Input(s) => DisplayView {
            input_col: if v.input_col + s.len() > 0xffff {
                0xffff
            } else {
                (v.input_col + s.len()) as u16
            },
            ..v
        },
    }
}

/// The left and right border of one content row, at screen row `row`.
pub open spec fn side_row(row: u16) -> Seq<char> {
    goto_text(1, row) + seq!['║'] + repeated(' ', PANEL_WIDTH as nat) + seq!['║']
}

/// The bordered rows from screen row `from` up to, not including, `to`.
pub open spec fn side_rows(from: u16, to: u16) -> Seq<char>
    decreases to - from,
{
    if to <= from {
        seq![]
    } else {
        side_rows(from, (to - 1) as u16) + side_row((to - 1) as u16)
    }
}

/// A bottom border at screen row `row`.
pub open spec fn bottom_row(row: u16) -> Seq<char> {
    goto_text(1, row) + seq!['╚'] + repeated('═', PANEL_WIDTH as nat) + seq!['╝']
}

/// The cleared screen with the content panel (rows 3 to 26) and the input
/// panel (rows 27 to 29), the cursor left at the panel's first inner cell.
pub open spec fn frame() -> Seq<char> {
    clear_text() + goto_text(1, 3) + seq!['╔', '═', 'F', 'I', 'B', 'S'] + repeated(
        '═',
        (PANEL_WIDTH - 5) as nat,
    ) + seq!['╗'] + side_rows(4, 26) + bottom_row(26) + goto_text(1, 27) + seq![
        '╔',
        '═',
        'I',
        'N',
        'P',
        'U',
        'T',
    ] + repeated('═', (PANEL_WIDTH - 6) as nat) + seq!['╗'] + goto_text(1, INPUT_ROW) + seq![
        '║',
        ' ',
        '>',
        ' ',
    ] + repeated(' ', (PANEL_WIDTH - 3) as nat) + seq!['║'] + bottom_row(29) + goto_text(2, 4)
}

/// The lines drawn in the content panel, the `i`-th at column 3 of row 5 + `i`.
pub open spec fn content(lines: Seq<Seq<char>>) -> Seq<char>
    decreases lines.len(),
{
    if lines.len() == 0 {
        seq![]
    } else {
        content(lines.drop_last()) + goto_text(3, (5 + lines.len() - 1) as u16) + lines.last()
    }
}

/// The full redraw of a buffer: the frame, then the window's lines.
pub open spec fn screen(v: DisplayView) -> Seq<char> {
    frame() + content(window(v))
}

/// What is written to the terminal for one update: echoed input at the echo
/// column of the input row, anything else as a full redraw of the new buffer.
pub open spec fn display_output(v: DisplayView, u: UpdateView) -> Seq<char> {
    match u {
        UpdateView::Input(s) => goto_text(v.input_col, INPUT_ROW) + s,
        _ => screen(display_next(v, u)),
    }
}

/// Appending characters `a` and then `b` to the current line leaves the
/// buffer that appending `a + b` at once leaves: within a line, characters
/// keep the order they came in, and none is lost. Lines other than the last
/// are untouched.
pub proof fn lemma_append_chars_ordered(v: DisplayView, a: Seq<char>, b: Seq<char>)
    ensures
        display_next(display_next(v, UpdateView::AppendChars(a)), UpdateView::AppendChars(b))
            == display_next(v, UpdateView::AppendChars(a + b)),
        display_next(v, UpdateView::AppendChars(a + b)).lines.last() == if v.lines.len() == 0 {
            a + b
        } else {
            v.lines.last() + a + b
        },
        forall|i: int|
            0 <= i < v.lines.len() - 1 ==> #[trigger] display_next(
                v,
                UpdateView::AppendChars(a + b),
            ).lines[i] == v.lines[i],
{
    let once = display_next(v, UpdateView::AppendChars(a + b));
    let twice = display_next(display_next(v, UpdateView::AppendChars(a)), UpdateView::AppendChars(b));
    if v.lines.len() == 0 {
        assert(twice.lines =~= once.lines);
    } else {
        assert(v.lines.last() + a + b =~= v.lines.last() + (a + b));
        assert(twice.lines =~= once.lines);
    }
}

/// The window ends at the last line of the buffer and holds as many lines
/// as the panel has room for, or all of them where there are fewer: after
/// any update, the line that was added or grew is in view.
pub proof fn lemma_window_follows_last(v: DisplayView)
    requires
        v.lines.len() > 0,
    ensures
        window(v).len() == if v.lines.len() > WINDOW_LINES { WINDOW_LINES as int } else { v.lines.len() as int },
        window(v).last() == v.lines.last(),
        forall|i: int| 0 <= i < window(v).len() ==> #[trigger] window(v)[i]
            == v.lines[window_start(v.lines.len() as int) + i],
{
}

/// All the characters of the lines, in order.
pub open spec fn flatten(lines: Seq<Seq<char>>) -> Seq<char>
    decreases lines.len(),
{
    if lines.len() == 0 {
        seq![]
    } else {
        flatten(lines.drop_last()) + lines.last()
    }
}

/// The buffer after the updates, applied in order.
pub open spec fn apply_all(v: DisplayView, us: Seq<UpdateView>) -> DisplayView
    decreases us.len(),
{
    if us.len() == 0 {
        v
    } else {
        display_next(apply_all(v, us.drop_last()), us.last())
    }
}

/// An update that adds characters to the buffer's text.
pub open spec fn is_append(u: UpdateView) -> bool {
    u is AppendChars || u is AppendLine
}

/// The characters that the appends carry, in order.
pub open spec fn appended(us: Seq<UpdateView>) -> Seq<char>
    decreases us.len(),
{
    if us.len() == 0 {
        seq![]
    } else {
        appended(us.drop_last()) + match us.last() {
            UpdateView::AppendChars(s) => s,
            UpdateView::AppendLine(s) => s,
            _ => seq![],
        }
    }
}

/// How many of the updates add a line.
pub open spec fn added_lines(us: Seq<UpdateView>) -> int
    decreases us.len(),
{
    if us.len() == 0 {
        0
    } else {
        added_lines(us.drop_last()) + if us.last() is AppendLine { 1int } else { 0 }
    }
}

/// Any mix of character and line appends on a buffer that has a line adds
/// their characters to its text in the order they came, none lost or
/// repeated; adds one line for each line append; and leaves the lines before
/// the last one as they were.
pub proof fn lemma_appends_concatenate(v: DisplayView, us: Seq<UpdateView>)
    requires
        v.lines.len() > 0,
        forall|i: int| 0 <= i < us.len() ==> is_append(#[trigger] us[i]),
    ensures
        flatten(apply_all(v, us).lines) == flatten(v.lines) + appended(us),
        apply_all(v, us).lines.len() == v.lines.len() + added_lines(us),
        added_lines(us) >= 0,
        forall|i: int| 0 <= i < v.lines.len() - 1 ==> #[trigger] apply_all(v, us).lines[i] == v.lines[i],
    decreases us.len(),
{
    if us.len() == 0 {
        assert(flatten(v.lines) + appended(us) =~= flatten(v.lines));
    } else {
        let prev = us.drop_last();
        assert forall|i: int| 0 <= i < prev.len() implies is_append(#[trigger] prev[i]) by {
            assert(prev[i] == us[i]);
        }
        lemma_appends_concatenate(v, prev);
        let w = apply_all(v, prev);
        assert(w.lines.len() > 0);
        assert(is_append(us[us.len() - 1]));
        match us.last() {
            UpdateView::AppendChars(s) => {
                let nl = w.lines.update(w.lines.len() - 1, w.lines.last() + s);
                assert(nl.drop_last() =~= w.lines.drop_last());
                assert(flatten(w.lines) == flatten(w.lines.drop_last()) + w.lines.last());
                assert(flatten(nl) == flatten(w.lines.drop_last()) + (w.lines.last() + s));
                assert(appended(us) == appended(prev) + s);
                assert(flatten(w.lines.drop_last()) + (w.lines.last() + s) =~= (flatten(
                    w.lines.drop_last(),
                ) + w.lines.last()) + s);
                assert(flatten(nl) == flatten(w.lines) + s);
                assert((flatten(v.lines) + appended(prev)) + s =~= flatten(v.lines) + (appended(prev) + s));
                assert forall|i: int| 0 <= i < v.lines.len() - 1 implies #[trigger] nl[i] == v.lines[i] by {
                    assert(nl[i] == w.lines[i]);
                }
            },
            UpdateView::AppendLine(s) => {
                let nl = w.lines.push(s);
                assert(nl.drop_last() =~= w.lines);
                assert(appended(us) == appended(prev) + s);
                assert(flatten(nl) =~= flatten(v.lines) + appended(us));
                assert forall|i: int| 0 <= i < v.lines.len() - 1 implies #[trigger] nl[i] == v.lines[i] by {
                    assert(nl[i] == w.lines[i]);
                }
            },
            _ => {},
        }
    }
}

/// When the login marker completes, the banner update shown puts in the
/// buffer the CR LF separated lines of the bytes read after the leading skip
/// (a prefix of the input), less the marker, each decoded lossily.
pub proof fn lemma_banner_displayed(v: DisplayView, bytes: Seq<u8>)
    requires
        ends_banner(bytes),
    ensures
        ({
            let kept = past_skip(bytes);
            &&& kept == bytes.subrange(bytes.len() - kept.len(), bytes.len() as int)
            &&& kept.len() >= 7
            &&& kept.subrange(kept.len() - 7, kept.len() as int) == login_marker()
            &&& display_next(v, shown_updates(initial(), bytes)[0]).lines == banner_lines(
                kept.take(kept.len() - 7),
            )
        }),
{
    lemma_banner_shown_once(bytes);
    assert(login_marker().take(7) =~= login_marker());
}

/// The display buffer, owned by the renderer.
pub struct Display {
    lines: Vec<Vec<char>>,
    input_col: u16,
}

impl View for Display {
    type V = DisplayView;

    closed spec fn view(&self) -> DisplayView {
        DisplayView {
            lines: self.lines@.map_values(|l: Vec<char>| l@),
            input_col: self.input_col,
        }
    }
}

/// Appends `n` copies of `c` to `out`.
fn push_repeated(out: &mut Vec<char>, c: char, n: usize)
    ensures
        final(out)@ == old(out)@ + repeated(c, n as nat),
{
    let ghost start = out@;
    let mut i: usize = 0;
    while i < n
        invariant
            0 <= i <= n,
            out@ == start + repeated(c, i as nat),
        decreases n - i,
    {
        out.push(c);
        i = i + 1;
        assert(out@ =~= start + repeated(c, i as nat));
    }
}

/// Appends the whole of `more` to `out`.
fn push_all(out: &mut Vec<char>, more: &[char])
    ensures
        final(out)@ == old(out)@ + more@,
{
    let ghost start = out@;
    let mut i: usize = 0;
    while i < more.len()
        invariant
            0 <= i <= more@.len(),
            out@ == start + more@.take(i as int),
        decreases more@.len() - i,
    {
        out.push(more[i]);
        i = i + 1;
        assert(out@ =~= start + more@.take(i as int));
    }
    assert(more@.take(more@.len() as int) =~= more@);
}

/// The cleared screen with both panels drawn.
#[verifier::rlimit(50)]
fn draw_frame() -> (r: Vec<char>)
    ensures
        r@ == frame(),
{
    let mut out = clear_all();
    let mut g = goto(1, 3);
    out.append(&mut g);
    let mut t = vec!['╔', '═', 'F', 'I', 'B', 'S'];
    out.append(&mut t);
    push_repeated(&mut out, '═', PANEL_WIDTH - 5);
    out.push('╗');
    let ghost head = out@;
    let mut row: u16 = 4;
    while row < 26
        invariant
            4 <= row <= 26,
            out@ == head + side_rows(4, row),
        decreases 26 - row,
    {
        let mut g = goto(1, row);
        out.append(&mut g);
        out.push('║');
        push_repeated(&mut out, ' ', PANEL_WIDTH);
        out.push('║');
        row = row + 1;
        assert(out@ =~= head + side_rows(4, row));
    }
    let mut g = goto(1, 26);
    out.append(&mut g);
    out.push('╚');
    push_repeated(&mut out, '═', PANEL_WIDTH);
    out.push('╝');
    let mut g = goto(1, 27);
    out.append(&mut g);
    let mut t = vec!['╔', '═', 'I', 'N', 'P', 'U', 'T'];
    out.append(&mut t);
    push_repeated(&mut out, '═', PANEL_WIDTH - 6);
    out.push('╗');
    let mut g = goto(1, INPUT_ROW);
    out.append(&mut g);
    let mut t = vec!['║', ' ', '>', ' '];
    out.append(&mut t);
    push_repeated(&mut out, ' ', PANEL_WIDTH - 3);
    out.push('║');
    let mut g = goto(1, 29);
    out.append(&mut g);
    out.push('╚');
    push_repeated(&mut out, '═', PANEL_WIDTH);
    out.push('╝');
    let mut g = goto(2, 4);
    out.append(&mut g);
    assert(out@ =~= frame());
    out
}

/// Splits `b` at each CR LF.
pub fn split_crlf(b: &[u8]) -> (r: Vec<Vec<u8>>)
    ensures
        r@.map_values(|l: Vec<u8>| l@) == split_lines(b@),
{
    let mut done: Vec<Vec<u8>> = Vec::new();
    let mut cur: Vec<u8> = Vec::new();
    let mut i: usize = 0;
    while i < b.len()
        invariant
            0 <= i <= b@.len(),
            done@.map_values(|l: Vec<u8>| l@).push(cur@) == split_lines(b@.take(i as int)),
        decreases b@.len() - i,
    {
        let ghost p = split_lines(b@.take(i as int));
        proof {
            assert(b@.take(i + 1).drop_last() =~= b@.take(i as int));
            assert(p.drop_last() =~= done@.map_values(|l: Vec<u8>| l@));
        }
        let x = b[i];
        let n = cur.len();
        if x == 10 && n > 0 && cur[n - 1] == 13 {
            cur.pop();
            done.push(cur);
            cur = Vec::new();
            proof {
                assert(done@.map_values(|l: Vec<u8>| l@).push(cur@) =~= split_lines(
                    b@.take(i + 1),
                ));
            }
        } else {
            cur.push(x);
            proof {
                assert(done@.map_values(|l: Vec<u8>| l@).push(cur@) =~= split_lines(
                    b@.take(i + 1),
                ));
            }
        }
        i = i + 1;
    }
    assert(b@.take(b@.len() as int) =~= b@);
    done.push(cur);
    done
}

impl Display {
    /// An empty buffer, with the echo column at the start of the input line.
    pub fn new() -> (r: Display)
        ensures
            r@ == (DisplayView { lines: seq![], input_col: INPUT_START_COL }),
    {
        let r = Display { lines: Vec::new(), input_col: INPUT_START_COL };
        assert(r@.lines =~= seq![]);
        r
    }

    /// The lines of the buffer, in order.
    pub fn lines(&self) -> (r: &Vec<Vec<char>>)
        ensures
            r@.map_values(|l: Vec<char>| l@) == self@.lines,
    {
        &self.lines
    }

    /// The column where the next echoed input character goes.
    pub fn input_col(&self) -> (r: u16)
        ensures
            r == self@.input_col,
    {
        self.input_col
    }

    /// The full redraw of the buffer as it stands.
    pub fn render(&self) -> (r: Vec<char>)
        ensures
            r@ == screen(self@),
    {
        let mut out = draw_frame();
        let n = self.lines.len();
        let lo = if n > WINDOW_LINES { n - WINDOW_LINES } else { 0 };
        let hi = n;
        let ghost shown = self@.lines.subrange(lo as int, hi as int);
        assert(shown == window(self@));
        let mut i: usize = lo;
        while i < hi
            invariant
                lo <= i <= hi,
                hi <= n == self.lines@.len(),
                hi - lo <= WINDOW_LINES,
                shown == self@.lines.subrange(lo as int, hi as int),
                out@ == frame() + content(shown.take(i - lo)),
            decreases hi - i,
        {
            let mut g = goto(3, (5 + (i - lo)) as u16);
            out.append(&mut g);
            push_all(&mut out, self.lines[i].as_slice());
            i = i + 1;
            proof {
                let s = shown.take(i - lo);
                assert(s.drop_last() =~= shown.take(i - 1 - lo));
                assert(s.last() == self.lines@[i - 1]@);
            }
        }
        assert(shown.take(hi - lo) =~= shown);
        out
    }

    /// Applies one update, returning what is to be written to the terminal.
    pub fn apply(&mut self, u: Update) -> (out: Vec<char>)
        ensures
            final(self)@ == display_next(old(self)@, u@),
            out@ == display_output(old(self)@, u@),
    {
        let ghost v = self@;
        match u {
            Update::Banner(b) => {
                let pieces = split_crlf(b.as_slice());
                let mut lines: Vec<Vec<char>> = Vec::new();
                let mut i: usize = 0;
                while i < pieces.len()
                    invariant
                        0 <= i <= pieces@.len(),
                        pieces@.map_values(|l: Vec<u8>| l@) == split_lines(b@),
                        lines@.map_values(|l: Vec<char>| l@) == banner_lines(b@).take(i as int),
                    decreases pieces@.len() - i,
                {
                    let l = decode_lossy(pieces[i].as_slice());
                    proof {
                        assert(pieces@.map_values(|l: Vec<u8>| l@)[i as int] == pieces@[i as int]@);
                        assert(l@ == banner_lines(b@)[i as int]);
                    }
                    let ghost before = lines@;
                    lines.push(l);
                    proof {
                        assert(lines@.map_values(|l: Vec<char>| l@) =~= before.map_values(
                            |l: Vec<char>| l@,
                        ).push(l@));
                        assert(banner_lines(b@).take(i + 1) =~= banner_lines(b@).take(i as int).push(
                            banner_lines(b@)[i as int],
                        ));
                    }
                    i = i + 1;
                    assert(lines@.map_values(|l: Vec<char>| l@) =~= banner_lines(b@).take(i as int));
                }
                assert(banner_lines(b@).take(i as int) =~= banner_lines(b@));
                self.lines = lines;
                assert(self@ == display_next(v, u@));
                self.render()
            },
            Update::AppendChars(s) => {
                let mut s = s;
                match self.lines.pop() {
                    Some(last) => {
                        let mut last = last;
                        last.append(&mut s);
                        self.lines.push(last);
                        assert(self@.lines =~= v.lines.update(v.lines.len() - 1, v.lines.last() + u@->AppendChars_0));
                    },
                    None => {
                        self.lines.push(s);
                        assert(self@.lines =~= seq![u@->AppendChars_0]);
                    },
                }
                self.render()
            },
            Update::AppendLine(s) => {
                self.lines.push(s);
                assert(self@.lines =~= v.lines.push(u@->AppendLine_0));
                self.render()
            },
            Update::Input(s) => {
                let mut out = goto(self.input_col, INPUT_ROW);
                push_all(&mut out, s.as_slice());
                let room = (0xffff - self.input_col) as usize;
                if s.len() > room {
                    self.input_col = 0xffff;
                } else {
                    self.input_col = self.input_col + s.len() as u16;
                }
                out
            },
        }
    }
}

} // verus!
