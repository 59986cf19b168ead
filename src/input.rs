use vstd::prelude::*;

use crate::session::{Update, UpdateView};

verus! {

/// What the input relay does for one keystroke: the characters to write to
/// the socket (none if empty), and the updates to send to the display.
pub struct Relay {
    pub send: Vec<char>,
    pub updates: Vec<Update>,
}

/// The line typed so far, not yet sent.
pub struct LineEditor {
    pending: Vec<char>,
}

impl View for LineEditor {
    type V = Seq<char>;

    closed spec fn view(&self) -> Seq<char> {
        self.pending@
    }
}

impl LineEditor {
    /// An editor with nothing typed.
    pub fn new() -> (r: LineEditor)
        ensures
            r@ == Seq::<char>::empty(),
    {
        LineEditor { pending: Vec::new() }
    }

    /// The characters typed since the last line was sent.
    pub fn pending(&self) -> (r: &Vec<char>)
        ensures
            r@ == self@,
    {
        &self.pending
    }

    /// Handles one typed character. A newline sends the pending line followed
    /// by a carriage return and starts a new one; any other character joins
    /// the line and is echoed, both in the content panel and in the input panel.
    pub fn key(&mut self, c: char) -> (r: Relay)
        ensures
            c == '\n' ==> {
                &&& r.send@ == old(self)@.push('\r')
                &&& r.updates@.len() == 0
                &&& final(self)@ == Seq::<char>::empty()
            },
            c != '\n' ==> {
                &&& r.send@.len() == 0
                &&& r.updates@.len() == 2
                &&& r.updates@[0]@ == UpdateView::AppendChars(seq![c])
                &&& r.updates@[1]@ == UpdateView::Input(seq![c])
                &&& final(self)@ == old(self)@.push(c)
            },
    {
        if c == '\n' {
            let mut line: Vec<char> = Vec::new();
            core::mem::swap(&mut line, &mut self.pending);
            line.push('\r');
            Relay { send: line, updates: Vec::new() }
        } else {
            let mut updates: Vec<Update> = Vec::new();
            updates.push(Update::AppendChars(vec![c]));
            updates.push(Update::Input(vec![c]));
            self.pending.push(c);
            assert(updates@[0]@->AppendChars_0 =~= seq![c]);
            assert(updates@[1]@->Input_0 =~= seq![c]);
            Relay { send: Vec::new(), updates }
        }
    }
}

} // verus!
