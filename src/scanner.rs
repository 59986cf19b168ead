use vstd::prelude::*;

verus! {

/// One state of a transition table: the state that an unmapped byte leads to,
/// and the bytes that lead elsewhere.
pub struct Row {
    pub fallback: u8,
    pub edges: Vec<(u8, u8)>,
}

/// A prompt scanner's transition table. State 0 is the initial state; a byte
/// read in a state that has no row leads back to 0. Reaching `target` is a match.
pub struct Table {
    pub rows: Vec<Row>,
    pub target: u8,
}

/// `j` is the first edge of `edges` that maps byte `b`.
pub open spec fn first_edge(edges: Seq<(u8, u8)>, b: u8, j: int) -> bool {
    &&& 0 <= j < edges.len()
    &&& edges[j].0 == b
    &&& forall|k: int| 0 <= k < j ==> edges[k].0 != b
}

/// The state that byte `b` leads to from a row with this fallback and these edges.
pub open spec fn row_next(fallback: u8, edges: Seq<(u8, u8)>, b: u8) -> u8 {
    if exists|j: int| first_edge(edges, b, j) {
        edges[choose|j: int| first_edge(edges, b, j)].1
    } else {
        fallback
    }
}

impl Row {
    pub open spec fn next(&self, b: u8) -> u8 {
        row_next(self.fallback, self.edges@, b)
    }

    /// A row with a single mapped byte.
    pub fn single(fallback: u8, key: u8, to: u8) -> (r: Row)
        ensures
            r.fallback == fallback,
            r.edges@ == seq![(key, to)],
    {
        let mut edges: Vec<(u8, u8)> = Vec::new();
        edges.push((key, to));
        Row { fallback, edges }
    }

    /// The state that byte `b` leads to from this row.
    pub fn step(&self, b: u8) -> (r: u8)
        ensures
            r == self.next(b),
    {
        let mut i: usize = 0;
        while i < self.edges.len()
            invariant
                0 <= i <= self.edges@.len(),
                forall|k: int| 0 <= k < i ==> self.edges@[k].0 != b,
            decreases self.edges@.len() - i,
        {
            if self.edges[i].0 == b {
                proof {
                    assert(first_edge(self.edges@, b, i as int));
                    let j = choose|j: int| first_edge(self.edges@, b, j);
                    assert(j == i as int) by {
                        if j < i as int {
                        } else if j > i as int {
                            assert(self.edges@[i as int].0 == b);
                        }
                    }
                }
                return self.edges[i].1;
            }
            i = i + 1;
        }
        self.fallback
    }
}

impl Table {
    /// The state that byte `b` leads to from state `s`.
    pub open spec fn next(&self, s: u8, b: u8) -> u8 {
        if (s as int) < self.rows@.len() {
            self.rows@[s as int].next(b)
        } else {
            0
        }
    }

    /// The state reached from `s` after reading `bytes` in order.
    pub open spec fn run(&self, s: u8, bytes: Seq<u8>) -> u8
        decreases bytes.len(),
    {
        if bytes.len() == 0 {
            s
        } else {
            self.next(self.run(s, bytes.drop_last()), bytes.last())
        }
    }

    /// For each byte of `bytes`, read in order from `s`, whether it completed a match.
    pub open spec fn flags(&self, s: u8, bytes: Seq<u8>) -> Seq<bool>
        decreases bytes.len(),
    {
        if bytes.len() == 0 {
            seq![]
        } else {
            self.flags(s, bytes.drop_last()).push(self.run(s, bytes) == self.target)
        }
    }

    /// Reads one byte: the next state, and whether it is the target.
    pub fn advance(&self, s: u8, b: u8) -> (r: (u8, bool))
        ensures
            r.0 == self.next(s, b),
            r.1 == (r.0 == self.target),
    {
        let n = if (s as usize) < self.rows.len() {
            self.rows[s as usize].step(b)
        } else {
            0
        };
        (n, n == self.target)
    }

    /// Reads `bytes` in one pass from `s`: the final state, and a match flag per byte.
    pub fn feed(&self, s: u8, bytes: &[u8]) -> (r: (u8, Vec<bool>))
        ensures
            r.0 == self.run(s, bytes@),
            r.1@ == self.flags(s, bytes@),
    {
        let mut state = s;
        let mut matched: Vec<bool> = Vec::new();
        let mut i: usize = 0;
        while i < bytes.len()
            invariant
                0 <= i <= bytes@.len(),
                state == self.run(s, bytes@.take(i as int)),
                matched@ == self.flags(s, bytes@.take(i as int)),
            decreases bytes@.len() - i,
        {
            let (n, m) = self.advance(state, bytes[i]);
            proof {
                let next = bytes@.take(i + 1);
                assert(next.drop_last() =~= bytes@.take(i as int));
                assert(next.last() == bytes@[i as int]);
            }
            state = n;
            matched.push(m);
            i = i + 1;
        }
        proof {
            assert(bytes@.take(bytes@.len() as int) =~= bytes@);
        }
        (state, matched)
    }
}

/// The bytes of the login marker `"login: "`.
pub open spec fn login_marker() -> Seq<u8> {
    seq![108u8, 111u8, 103u8, 105u8, 110u8, 58u8, 32u8]
}

/// The bytes of the password marker `"password: "`.
pub open spec fn password_marker() -> Seq<u8> {
    seq![112u8, 97u8, 115u8, 115u8, 119u8, 111u8, 114u8, 100u8, 58u8, 32u8]
}

/// Length of the login marker.
pub const LOGIN_MARKER_LEN: usize = 7;

/// The state where the banner table completes the login marker.
pub const BANNER_TARGET: u8 = 10;

/// The state where the password table completes the password marker.
pub const PASSWORD_TARGET: u8 = 10;

/// The banner table: states 0 and 1 skip to the first CR LF; state 2 reads
/// content until a LF; states 3 to 9 match `"login: "`, falling back to
/// state 2 on any other byte. State 10 and beyond have no row.
pub open spec fn banner_next(s: u8, b: u8) -> u8 {
    if s == 0 {
        if b == 13 { 1 } else { 0 }
    } else if s == 1 {
        if b == 10 { 2 } else { 0 }
    } else if s == 2 {
        if b == 10 { 3 } else { 2 }
    } else if s < 10 {
        if b == login_marker()[s - 3] { (s + 1) as u8 } else { 2 }
    } else {
        0
    }
}

/// The password table: state 0 reads content, states 0 to 9 match
/// `"password: "`, falling back to state 0 on any other byte. State 10 and
/// beyond have no row.
pub open spec fn password_next(s: u8, b: u8) -> u8 {
    if s < 10 {
        if b == password_marker()[s as int] { (s + 1) as u8 } else { 0 }
    } else {
        0
    }
}

impl Table {
    /// The table that finds the end of the banner.
    pub fn banner() -> (r: Table)
        ensures
            r.target == BANNER_TARGET,
            forall|s: u8, b: u8| #[trigger] r.next(s, b) == banner_next(s, b),
    {
        let mut rows: Vec<Row> = Vec::new();
        rows.push(Row::single(0, 13, 1));
        rows.push(Row::single(0, 10, 2));
        rows.push(Row::single(2, 10, 3));
        rows.push(Row::single(2, 108, 4));
        rows.push(Row::single(2, 111, 5));
        rows.push(Row::single(2, 103, 6));
        rows.push(Row::single(2, 105, 7));
        rows.push(Row::single(2, 110, 8));
        rows.push(Row::single(2, 58, 9));
        rows.push(Row::single(2, 32, 10));
        let r = Table { rows, target: BANNER_TARGET };
        assert forall|s: u8, b: u8| #[trigger] r.next(s, b) == banner_next(s, b) by {
            if (s as int) < r.rows@.len() {
                let edges = r.rows@[s as int].edges@;
                if exists|j: int| first_edge(edges, b, j) {
                    let j = choose|j: int| first_edge(edges, b, j);
                    assert(j == 0);
                } else {
                    assert(!first_edge(edges, b, 0));
                }
            }
        }
        r
    }

    /// The table that finds the password prompt.
    pub fn password() -> (r: Table)
        ensures
            r.target == PASSWORD_TARGET,
            forall|s: u8, b: u8| #[trigger] r.next(s, b) == password_next(s, b),
    {
        let mut rows: Vec<Row> = Vec::new();
        rows.push(Row::single(0, 112, 1));
        rows.push(Row::single(0, 97, 2));
        rows.push(Row::single(0, 115, 3));
        rows.push(Row::single(0, 115, 4));
        rows.push(Row::single(0, 119, 5));
        rows.push(Row::single(0, 111, 6));
        rows.push(Row::single(0, 114, 7));
        rows.push(Row::single(0, 100, 8));
        rows.push(Row::single(0, 58, 9));
        rows.push(Row::single(0, 32, 10));
        let r = Table { rows, target: PASSWORD_TARGET };
        assert forall|s: u8, b: u8| #[trigger] r.next(s, b) == password_next(s, b) by {
            if (s as int) < r.rows@.len() {
                let edges = r.rows@[s as int].edges@;
                if exists|j: int| first_edge(edges, b, j) {
                    let j = choose|j: int| first_edge(edges, b, j);
                    assert(j == 0);
                } else {
                    assert(!first_edge(edges, b, 0));
                }
            }
        }
        r
    }
}

/// Reading `a` and then `b` ends in the same state, with the same match flags,
/// as reading `a + b` in one pass: the scanner holds nothing between bytes
/// beyond its state.
pub proof fn lemma_feed_split(t: Table, s: u8, a: Seq<u8>, b: Seq<u8>)
    ensures
        t.run(s, a + b) == t.run(t.run(s, a), b),
        t.flags(s, a + b) == t.flags(s, a) + t.flags(t.run(s, a), b),
    decreases b.len(),
{
    if b.len() == 0 {
        assert(a + b =~= a);
        assert(t.flags(s, a) + t.flags(t.run(s, a), b) =~= t.flags(s, a));
    } else {
        lemma_feed_split(t, s, a, b.drop_last());
        assert((a + b).drop_last() =~= a + b.drop_last());
        assert((a + b).last() == b.last());
        assert(t.flags(s, a) + t.flags(t.run(s, a), b) =~= (t.flags(s, a) + t.flags(
            t.run(s, a),
            b.drop_last(),
        )).push(t.run(t.run(s, a), b) == t.target));
    }
}

/// Reading a single byte in a pass is one step of `advance`: together with
/// the split above, a pass over any bytes agrees with reading them one at a time.
pub proof fn lemma_feed_single(t: Table, s: u8, b: u8)
    ensures
        t.run(s, seq![b]) == t.next(s, b),
        t.flags(s, seq![b]) == seq![t.next(s, b) == t.target],
{
    let none = Seq::<u8>::empty();
    assert(seq![b].drop_last() =~= none);
    assert(seq![b].last() == b);
    assert(t.run(s, none) == s);
    assert(t.flags(s, none) == Seq::<bool>::empty());
    assert(t.flags(s, seq![b]) =~= seq![t.next(s, b) == t.target]);
}

} // verus!
