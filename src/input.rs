use vstd::prelude::*;

use crate::dirextory_prefix_tree::{extends, total_len, walk, DirPrefixTree};
use crate::history::InputHistory;
use crate::input_state_handler::{next_state, InputState, InputStateHandler};
use crate::text::{pop_char, push_char};

verus! {

/// How many lines the history keeps, less one.
pub const HISTORY_CAPACITY: usize = 50;

/// What the terminal is sent to wipe `k` characters: backspace, space, backspace
/// for each.
pub open spec fn erase_echo(k: nat) -> Seq<char>
    decreases k,
{
    if k == 0 {
        seq![]
    } else {
        erase_echo((k - 1) as nat) + seq!['\u{8}', ' ', '\u{8}']
    }
}

/// What the up arrow does: the line one step further back in the history
/// replaces the typed one, if there is such a line.
pub open spec fn arrow_up_post(before: Input, after: Input, echo: Seq<char>) -> bool {
    let h = before.history();
    if h.cursor() < h.lines().len() {
        &&& after.buffer() == h.lines()[h.cursor() as int]
        &&& echo == erase_echo(before.buffer().len()) + h.lines()[h.cursor() as int]
        &&& after.history().cursor() == h.cursor() + 1
    } else {
        &&& after.buffer() == before.buffer()
        &&& echo == Seq::<char>::empty()
        &&& after.history().cursor() == h.cursor()
    }
}

/// What the down arrow does: the cursor steps forward, and the line it stood on
/// replaces the typed one; at the start, or past the oldest line, the line is
/// emptied.
pub open spec fn arrow_down_post(before: Input, after: Input, echo: Seq<char>) -> bool {
    let h = before.history();
    let shown = if 0 < h.cursor() < h.lines().len() {
        h.lines()[h.cursor() as int]
    } else {
        Seq::<char>::empty()
    };
    &&& after.buffer() == shown
    &&& echo == erase_echo(before.buffer().len()) + shown
    &&& after.history().cursor() == if h.cursor() > 0 {
        (h.cursor() - 1) as nat
    } else {
        0
    }
}

/// The line being typed at the prompt, with the history, the escape-sequence
/// state and the file-name tree. Each method returns the text to echo.
pub struct Input {
    input_buf: String,
    input_buf_index: usize,
    buf_len: usize,
    input_state: InputStateHandler,
    history: InputHistory,
    prefix_tree: DirPrefixTree,
}

impl Input {
    /// The characters typed so far.
    pub closed spec fn buffer(&self) -> Seq<char> {
        self.input_buf@
    }

    pub closed spec fn state(&self) -> InputState {
        self.input_state.state()
    }

    pub closed spec fn history(&self) -> InputHistory {
        self.history
    }

    pub closed spec fn prefix_tree(&self) -> DirPrefixTree {
        self.prefix_tree
    }

    pub closed spec fn wf(&self) -> bool {
        &&& self.buf_len == self.input_buf@.len()
        &&& self.input_buf_index == self.input_buf@.len()
        &&& self.history.wf()
        &&& self.history.capacity() == HISTORY_CAPACITY
        &&& self.prefix_tree.wf()
    }

    pub fn make(prefix_tree: DirPrefixTree) -> (r: Input)
        requires
            prefix_tree.wf(),
        ensures
            r.wf(),
            r.buffer() == Seq::<char>::empty(),
            r.state() == InputState::ANY,
            r.history().lines() == Seq::<Seq<char>>::empty(),
            r.history().cursor() == 0,
            r.prefix_tree() == prefix_tree,
    {
        Input {
            input_buf: String::new(),
            input_buf_index: 0,
            buf_len: 0,
            input_state: InputStateHandler::make(),
            history: InputHistory::make(HISTORY_CAPACITY),
            prefix_tree,
        }
    }

    /// Wipes the whole line.
    fn clear_input(&mut self) -> (r: String)
        requires
            old(self).wf(),
        ensures
            final(self).wf(),
            final(self).buffer() == Seq::<char>::empty(),
            r@ == erase_echo(old(self).buffer().len()),
            final(self).state() == old(self).state(),
            final(self).history() == old(self).history(),
            final(self).prefix_tree() == old(self).prefix_tree(),
    {
        let ln = self.buf_len;
        let r = self.erase_chars(ln);
        assert(self.input_buf@ =~= Seq::<char>::empty());
        r
    }

    /// Replaces the line by `replace`.
    fn replace_buf(&mut self, replace: String) -> (r: String)
        requires
            old(self).wf(),
        ensures
            final(self).wf(),
            final(self).buffer() == replace@,
            r@ == erase_echo(old(self).buffer().len()) + replace@,
            final(self).state() == old(self).state(),
            final(self).history() == old(self).history(),
            final(self).prefix_tree() == old(self).prefix_tree(),
    {
        let mut echo = self.clear_input();
        let n = replace.as_str().unicode_len();
        let ghost e0 = echo@;
        let mut i: usize = 0;
        while i < n
            invariant
                n == replace@.len(),
                i <= n,
                echo@ == e0 + replace@.take(i as int),
            decreases n - i,
        {
            push_char(&mut echo, replace.as_str().get_char(i));
            assert(e0 + replace@.take(i + 1) =~= (e0 + replace@.take(i as int)).push(replace@[i as int]));
            i = i + 1;
        }
        assert(replace@.take(n as int) =~= replace@);
        self.buf_len = n;
        self.input_buf_index = n;
        self.input_buf = replace;
        echo
    }

    /// Shows the line before the one shown, if the history has one.
    pub fn arrow_up(&mut self) -> (r: String)
        requires
            old(self).wf(),
        ensures
            final(self).wf(),
            final(self).state() == old(self).state(),
            final(self).prefix_tree() == old(self).prefix_tree(),
            final(self).history().lines() == old(self).history().lines(),
            arrow_up_post(*old(self), *final(self), r@),
    {
        let found = match self.history.scroll_up() {
            Some(from_history) => Some(from_history.clone()),
            None => None,
        };
        match found {
            Some(s) => self.replace_buf(s),
            None => String::new(),
        }
    }

    /// Shows the line after the one shown, or an empty line at the newest end.
    pub fn arrow_down(&mut self) -> (r: String)
        requires
            old(self).wf(),
        ensures
            final(self).wf(),
            final(self).state() == old(self).state(),
            final(self).prefix_tree() == old(self).prefix_tree(),
            final(self).history().lines() == old(self).history().lines(),
            arrow_down_post(*old(self), *final(self), r@),
    {
        let found = match self.history.scroll_down() {
            Some(from_history) => Some(from_history.clone()),
            None => None,
        };
        match found {
            Some(s) => self.replace_buf(s),
            None => self.replace_buf(String::new()),
        }
    }

    /// Moving the cursor forward is not supported: nothing happens.
    pub fn arrow_forward(&self) -> (r: String)
        ensures
            r@ == Seq::<char>::empty(),
    {
        String::new()
    }

    /// Moving the cursor backward is not supported: nothing happens.
    pub fn arrow_backward(&mut self) -> (r: String)
        ensures
            *final(self) == *old(self),
            r@ == Seq::<char>::empty(),
    {
        String::new()
    }

    /// Runs the arrow key `c` ends and returns the machine to `ANY`.
    pub fn call_func(&mut self, c: char) -> (r: String)
        requires
            old(self).wf(),
        ensures
            final(self).wf(),
            final(self).state() == InputState::ANY,
            final(self).prefix_tree() == old(self).prefix_tree(),
            final(self).history().lines() == old(self).history().lines(),
            c != 'A' && c != 'B' ==> final(self).buffer() == old(self).buffer() && r@ == Seq::<char>::empty()
                && final(self).history() == old(self).history(),
            c == 'A' ==> arrow_up_post(*old(self), *final(self), r@),
            c == 'B' ==> arrow_down_post(*old(self), *final(self), r@),
    {
        let r = match c {
            '\x41' => self.arrow_up(),
            '\x42' => self.arrow_down(),
            '\x43' => self.arrow_forward(),
            '\x44' => self.arrow_backward(),
            _ => String::new(),
        };
        self.input_state.reset_to_any();
        r
    }

    /// Appends a typed character; a line as long as `usize::MAX` takes no more.
    fn add_to_buf(&mut self, c: char) -> (r: String)
        requires
            old(self).wf(),
        ensures
            final(self).wf(),
            final(self).state() == old(self).state(),
            final(self).history() == old(self).history(),
            final(self).prefix_tree() == old(self).prefix_tree(),
            old(self).buffer().len() < usize::MAX ==> final(self).buffer() == old(self).buffer().push(c)
                && r@ == seq![c],
            old(self).buffer().len() == usize::MAX ==> final(self).buffer() == old(self).buffer() && r@
                == Seq::<char>::empty(),
    {
        let mut echo = String::new();
        if self.buf_len == usize::MAX {
            return echo;
        }
        push_char(&mut echo, c);
        assert(echo@ =~= seq![c]);
        push_char(&mut self.input_buf, c);
        self.buf_len += 1;
        self.input_buf_index += 1;
        echo
    }

    /// Removes up to `amount` characters from the end of the line.
    fn erase_chars(&mut self, amount: usize) -> (r: String)
        requires
            old(self).wf(),
        ensures
            final(self).wf(),
            ({
                let k = if amount < old(self).buffer().len() {
                    amount as int
                } else {
                    old(self).buffer().len() as int
                };
                &&& final(self).buffer() == old(self).buffer().take(old(self).buffer().len() - k)
                &&& r@ == erase_echo(k as nat)
            }),
            final(self).state() == old(self).state(),
            final(self).history() == old(self).history(),
            final(self).prefix_tree() == old(self).prefix_tree(),
    {
        let amnt = if amount < self.buf_len {
            amount
        } else {
            self.buf_len
        };
        let ghost start = self.input_buf@;
        let mut echo = String::new();
        let mut i: usize = 0;
        assert(start.take(start.len() as int) =~= start);
        while i < amnt
            invariant
                i <= amnt <= start.len(),
                self.wf(),
                self.input_buf@ == start.take(start.len() - i),
                echo@ == erase_echo(i as nat),
                self.state() == old(self).state(),
                self.history() == old(self).history(),
                self.prefix_tree() == old(self).prefix_tree(),
            decreases amnt - i,
        {
            push_char(&mut echo, '\u{8}');
            push_char(&mut echo, ' ');
            push_char(&mut echo, '\u{8}');
            assert(echo@ =~= erase_echo((i + 1) as nat));
            pop_char(&mut self.input_buf);
            assert(self.input_buf@ =~= start.take(start.len() - (i + 1)));
            self.buf_len -= 1;
            self.input_buf_index -= 1;
            i = i + 1;
        }
        echo
    }

    pub fn store_to_history(&mut self, buf: String)
        requires
            old(self).wf(),
        ensures
            final(self).wf(),
            final(self).buffer() == old(self).buffer(),
            final(self).state() == old(self).state(),
            final(self).prefix_tree() == old(self).prefix_tree(),
            final(self).history().cursor() == 0,
            final(self).history().lines() == seq![buf@] + (if old(self).history().lines().len() + 1
                >= HISTORY_CAPACITY {
                old(self).history().lines().drop_last()
            } else {
                old(self).history().lines()
            }),
    {
        self.history.store(buf);
    }

    /// Completion of the typed word is not supported: nothing happens.
    pub fn autocomplete_input_buf(&mut self) -> (r: String)
        ensures
            *final(self) == *old(self),
            r@ == Seq::<char>::empty(),
    {
        String::new()
    }

    /// Adds the names of the files of the working directory to the tree.
    pub fn update_prefix_tree(&mut self, file_names: &Vec<String>)
        requires
            old(self).wf(),
        ensures
            final(self).wf(),
            extends(old(self).prefix_tree().tree(), final(self).prefix_tree().tree()),
            old(self).prefix_tree().tree().len() + total_len(file_names@) < usize::MAX ==> forall|j: int|
                0 <= j < file_names@.len() ==> walk(final(self).prefix_tree().tree(), #[trigger] file_names@[j]@).0
                    == file_names@[j]@,
            final(self).buffer() == old(self).buffer(),
            final(self).state() == old(self).state(),
            final(self).history() == old(self).history(),
    {
        self.prefix_tree.update_to_current_dir(file_names);
    }

    /// Handles one typed character: a tab is ignored; otherwise the escape
    /// machine advances, and then a plain character is appended, a backspace
    /// erases one, and the last byte of an arrow sequence runs that arrow key.
    pub fn handle_char(&mut self, c: char) -> (r: String)
        requires
            old(self).wf(),
        ensures
            final(self).wf(),
            final(self).prefix_tree() == old(self).prefix_tree(),
            final(self).history().lines() == old(self).history().lines(),
            c == '\t' ==> *final(self) == *old(self) && r@ == Seq::<char>::empty(),
            c != '\t' && next_state(old(self).state(), c) == InputState::ANY ==> {
                &&& final(self).state() == InputState::ANY
                &&& final(self).history() == old(self).history()
                &&& old(self).buffer().len() < usize::MAX ==> final(self).buffer() == old(self).buffer().push(c)
                    && r@ == seq![c]
                &&& old(self).buffer().len() == usize::MAX ==> final(self).buffer() == old(self).buffer() && r@
                    == Seq::<char>::empty()
            },
            c != '\t' && next_state(old(self).state(), c) == InputState::BACKSPACE ==> {
                &&& final(self).state() == InputState::BACKSPACE
                &&& final(self).history() == old(self).history()
                &&& old(self).buffer().len() > 0 ==> final(self).buffer() == old(self).buffer().drop_last()
                    && r@ == erase_echo(1)
                &&& old(self).buffer().len() == 0 ==> final(self).buffer() == old(self).buffer() && r@
                    == Seq::<char>::empty()
            },
            c != '\t' && (next_state(old(self).state(), c) == InputState::ESC || next_state(
                old(self).state(),
                c,
            ) == InputState::BRACK) ==> {
                &&& final(self).state() == next_state(old(self).state(), c)
                &&& final(self).history() == old(self).history()
                &&& final(self).buffer() == old(self).buffer()
                &&& r@ == Seq::<char>::empty()
            },
            c != '\t' && next_state(old(self).state(), c) == InputState::FUNC ==> final(self).state()
                == InputState::ANY,
            c != '\t' && next_state(old(self).state(), c) == InputState::FUNC ==> {
                &&& c == 'A' ==> arrow_up_post(*old(self), *final(self), r@)
                &&& c == 'B' ==> arrow_down_post(*old(self), *final(self), r@)
                &&& c != 'A' && c != 'B' ==> final(self).buffer() == old(self).buffer() && r@ == Seq::<
                    char,
                >::empty()
            },
    {
        if c == '\t' {
            return String::new();
        }
        self.input_state.advance_state(c);
        match self.input_state.current_state() {
            InputState::ANY => self.add_to_buf(c),
            InputState::FUNC => self.call_func(c),
            InputState::BACKSPACE => {
                let r = self.erase_chars(1);
                proof {
                    if old(self).buffer().len() > 0 {
                        assert(old(self).buffer().take(old(self).buffer().len() - 1) =~= old(self).buffer().drop_last());
                        assert(erase_echo(1) == erase_echo(0) + seq!['\u{8}', ' ', '\u{8}']);
                    } else {
                        assert(old(self).buffer().take(0) =~= old(self).buffer());
                    }
                }
                r
            },
            _ => String::new(),
        }
    }

    /// Empties the line.
    pub fn reset(&mut self)
        requires
            old(self).wf(),
        ensures
            final(self).wf(),
            final(self).buffer() == Seq::<char>::empty(),
            final(self).state() == old(self).state(),
            final(self).history() == old(self).history(),
            final(self).prefix_tree() == old(self).prefix_tree(),
    {
        self.input_buf = String::new();
        self.buf_len = 0;
        self.input_buf_index = 0;
    }

    /// Ends the line at a newline: it is stored as the newest history entry and
    /// returned, and the line starts over empty.
    pub fn finish_line(&mut self) -> (r: String)
        requires
            old(self).wf(),
        ensures
            final(self).wf(),
            r@ == old(self).buffer(),
            final(self).buffer() == Seq::<char>::empty(),
            final(self).state() == old(self).state(),
            final(self).prefix_tree() == old(self).prefix_tree(),
            final(self).history().cursor() == 0,
            final(self).history().lines() == seq![old(self).buffer()] + (if old(self).history().lines().len()
                + 1 >= HISTORY_CAPACITY {
                old(self).history().lines().drop_last()
            } else {
                old(self).history().lines()
            }),
    {
        let s = self.input_buf.clone();
        self.store_to_history(s);
        let line = self.input_buf.clone();
        self.reset();
        line
    }
}

} // verus!
