use vstd::prelude::*;

use std::collections::VecDeque;

verus! {

/// The lines entered so far, newest first, with a cursor for scrolling.
pub struct InputHistory {
    looking_at_index: usize,
    max_cap: usize,
    elements: usize,
    history: VecDeque<String>,
}

impl InputHistory {
    /// The stored lines, newest first.
    pub closed spec fn lines(&self) -> Seq<Seq<char>> {
        self.history@.map_values(|s: String| s@)
    }

    /// How many lines back the scroll cursor stands.
    pub closed spec fn cursor(&self) -> nat {
        self.looking_at_index as nat
    }

    pub closed spec fn capacity(&self) -> nat {
        self.max_cap as nat
    }

    pub closed spec fn wf(&self) -> bool {
        &&& self.elements == self.history@.len()
        &&& self.looking_at_index <= self.history@.len()
        &&& (self.history@.len() == 0 || self.history@.len() < self.max_cap)
    }

    pub fn make(max_capacity: usize) -> (r: InputHistory)
        ensures
            r.wf(),
            r.lines() == Seq::<Seq<char>>::empty(),
            r.cursor() == 0,
            r.capacity() == max_capacity,
    {
        let r = InputHistory { looking_at_index: 0, max_cap: max_capacity, elements: 0, history: VecDeque::new() };
        assert(r.lines() =~= Seq::<Seq<char>>::empty());
        r
    }

    /// Stores a line as the newest one and moves the cursor back to the start.
    /// When the history is full, the oldest line is dropped first, so that it
    /// never holds as many lines as its capacity.
    pub fn store(&mut self, input: String)
        requires
            old(self).wf(),
            old(self).capacity() >= 2,
        ensures
            final(self).wf(),
            final(self).capacity() == old(self).capacity(),
            final(self).cursor() == 0,
            final(self).lines() == seq![input@] + (if old(self).lines().len() + 1 >= old(self).capacity() {
                old(self).lines().drop_last()
            } else {
                old(self).lines()
            }),
    {
        self.looking_at_index = 0;
        let ghost before = self.history@;
        if self.elements + 1 >= self.max_cap {
            self.history.pop_back();
            self.elements -= 1;
        }
        let ghost mid = self.history@;
        self.history.push_front(input);
        self.elements += 1;
        assert(self.history@ == seq![input] + mid);
        assert(self.lines() =~= seq![input@] + mid.map_values(|s: String| s@));
        proof {
            if before.len() + 1 >= old(self).max_cap {
                assert(mid.map_values(|s: String| s@) =~= old(self).lines().drop_last());
            }
        }
    }

    /// Moves one line further back and returns it; `None` once the oldest line
    /// has been shown.
    pub fn scroll_up(&mut self) -> (r: Option<&String>)
        requires
            old(self).wf(),
        ensures
            final(self).wf(),
            final(self).lines() == old(self).lines(),
            final(self).capacity() == old(self).capacity(),
            old(self).cursor() >= old(self).lines().len() ==> r.is_none() && final(self).cursor()
                == old(self).cursor(),
            old(self).cursor() < old(self).lines().len() ==> r.is_some() && r.unwrap()@ == old(
                self,
            ).lines()[old(self).cursor() as int] && final(self).cursor() == old(self).cursor() + 1,
    {
        if self.looking_at_index >= self.history.len() {
            return None;
        }
        self.looking_at_index += 1;
        Some(&self.history[self.looking_at_index - 1])
    }

    /// Moves one line forward and returns the line the cursor stood on before;
    /// `None` at the start, or when the cursor stood past the oldest line.
    pub fn scroll_down(&mut self) -> (r: Option<&String>)
        requires
            old(self).wf(),
        ensures
            final(self).wf(),
            final(self).lines() == old(self).lines(),
            final(self).capacity() == old(self).capacity(),
            old(self).cursor() == 0 ==> r.is_none() && final(self).cursor() == 0,
            old(self).cursor() > 0 ==> final(self).cursor() == old(self).cursor() - 1,
            old(self).cursor() > 0 && old(self).cursor() < old(self).lines().len() ==> r.is_some()
                && r.unwrap()@ == old(self).lines()[old(self).cursor() as int],
            old(self).cursor() >= old(self).lines().len() ==> r.is_none(),
    {
        if self.looking_at_index == 0 {
            return None;
        }
        self.looking_at_index -= 1;
        let idx = self.looking_at_index + 1;
        if idx < self.history.len() {
            Some(&self.history[idx])
        } else {
            None
        }
    }
}

} // verus!
