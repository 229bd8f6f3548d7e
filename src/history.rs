//! The bounded replay history: the most recent broadcast lines, oldest first.

use std::collections::VecDeque;

use vstd::prelude::*;

verus! {

/// How many lines the history keeps.
pub const HISTORY_CAP: usize = 50;

/// The views of a sequence of strings.
pub open spec fn texts(v: Seq<String>) -> Seq<Seq<char>> {
    v.map_values(|s: String| s@)
}

/// The history after one more line: the line goes to the back, and the oldest
/// line leaves when the history was already full.
pub open spec fn appended(h: Seq<Seq<char>>, line: Seq<char>) -> Seq<Seq<char>> {
    if h.len() >= HISTORY_CAP {
        h.drop_first().push(line)
    } else {
        h.push(line)
    }
}

/// The history after `lines` are appended one by one.
pub open spec fn appended_all(h: Seq<Seq<char>>, lines: Seq<Seq<char>>) -> Seq<Seq<char>>
    decreases lines.len(),
{
    if lines.len() == 0 {
        h
    } else {
        appended(appended_all(h, lines.drop_last()), lines.last())
    }
}

/// The last `n` elements of `s` (all of them when there are fewer).
pub open spec fn last_n<A>(s: Seq<A>, n: nat) -> Seq<A> {
    if s.len() <= n {
        s
    } else {
        s.subrange(s.len() - n, s.len() as int)
    }
}

/// A bounded FIFO of recent broadcast lines.
pub struct History {
    lines: VecDeque<String>,
}

impl View for History {
    type V = Seq<Seq<char>>;

    closed spec fn view(&self) -> Seq<Seq<char>> {
        texts(self.lines@)
    }
}

impl History {
    /// The history holds at most `HISTORY_CAP` lines.
    pub open spec fn wf(&self) -> bool {
        self@.len() <= HISTORY_CAP
    }

    /// An empty history.
    pub fn new() -> (r: History)
        ensures
            r@ == Seq::<Seq<char>>::empty(),
    {
        let r = History { lines: VecDeque::new() };
        assert(r@ =~= Seq::<Seq<char>>::empty());
        r
    }

    /// The number of lines held.
    pub fn len(&self) -> (r: usize)
        ensures
            r == self@.len(),
    {
        self.lines.len()
    }

    /// Appends `line`, evicting the oldest line first when the history is full.
    pub fn append(&mut self, line: String)
        requires
            old(self).wf(),
        ensures
            final(self)@ == appended(old(self)@, line@),
            final(self).wf(),
    {
        if self.lines.len() == HISTORY_CAP {
            self.lines.pop_front();
        }
        self.lines.push_back(line);
        proof {
            assert(self@ =~= appended(old(self)@, line@));
        }
    }

    /// All held lines, oldest first.
    pub fn snapshot(&self) -> (r: Vec<String>)
        ensures
            texts(r@) == self@,
    {
        let mut r: Vec<String> = Vec::new();
        let mut i: usize = 0;
        let n = self.lines.len();
        while i < n
            invariant
                n == self.lines@.len(),
                i <= n,
                r@ =~= self.lines@.subrange(0, i as int),
            decreases n - i,
        {
            r.push(self.lines[i].clone());
            i = i + 1;
        }
        assert(self.lines@.subrange(0, n as int) =~= self.lines@);
        r
    }
}

/// Appending to a history that holds at most `HISTORY_CAP` lines keeps exactly
/// the last `HISTORY_CAP` lines of everything, in order; so the history never
/// grows beyond `HISTORY_CAP`.
pub proof fn lemma_history_keeps_last(h: Seq<Seq<char>>, lines: Seq<Seq<char>>)
    requires
        h.len() <= HISTORY_CAP,
    ensures
        appended_all(h, lines) == last_n(h + lines, HISTORY_CAP as nat),
        appended_all(h, lines).len() <= HISTORY_CAP,
    decreases lines.len(),
{
    if lines.len() > 0 {
        let init = lines.drop_last();
        let x = lines.last();
        lemma_history_keeps_last(h, init);
        let s = h + init;
        assert(h + lines =~= s.push(x));
        let prev = last_n(s, HISTORY_CAP as nat);
        if s.len() < HISTORY_CAP {
            assert(appended(prev, x) =~= s.push(x));
        } else {
            assert(appended(prev, x) =~= s.push(x).subrange(
                s.len() + 1 - HISTORY_CAP,
                s.len() + 1 as int,
            ));
        }
    } else {
        assert(h + lines =~= h);
    }
}

} // verus!
