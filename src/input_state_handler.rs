use vstd::prelude::*;

verus! {

/// The states of the escape-sequence recogniser that classifies typed bytes.
#[derive(Clone, Copy, Debug, PartialEq, Eq, Structural)]
pub enum InputState {
    ESC,
    BRACK,
    FUNC,
    BACKSPACE,
    ANY,
}

/// Escape byte that starts an arrow-key sequence.
pub const ESCAPE: char = '\x1b';

/// Byte sent by the backspace key.
pub const DELETE: char = '\u{7f}';

/// The `[` that follows an escape byte in an arrow-key sequence.
pub const BRACKET: char = '\x5b';

/// Whether `c` is one of the final bytes of an arrow-key sequence (`A` to `D`).
pub open spec fn is_arrow_key(c: char) -> bool {
    c == 'A' || c == 'B' || c == 'C' || c == 'D'
}

/// The state reached from `s` on reading `c`.
pub open spec fn next_state(s: InputState, c: char) -> InputState {
    match s {
        InputState::ANY => if c == ESCAPE {
            InputState::ESC
        } else if c == DELETE {
            InputState::BACKSPACE
        } else {
            InputState::ANY
        },
        InputState::BACKSPACE => if c == ESCAPE {
            InputState::ESC
        } else if c == DELETE {
            InputState::BACKSPACE
        } else {
            InputState::ANY
        },
        InputState::ESC => if c == BRACKET {
            InputState::BRACK
        } else if c == DELETE {
            InputState::BACKSPACE
        } else {
            InputState::ANY
        },
        InputState::BRACK => if is_arrow_key(c) {
            InputState::FUNC
        } else if c == DELETE {
            InputState::BACKSPACE
        } else {
            InputState::ANY
        },
        InputState::FUNC => InputState::ANY,
    }
}

/// A state machine over the bytes typed at the prompt.
pub struct InputStateHandler {
    state: InputState,
}

impl InputStateHandler {
    pub closed spec fn state(&self) -> InputState {
        self.state
    }

    pub fn current_state(&self) -> (r: &InputState)
        ensures
            *r == self.state(),
    {
        &self.state
    }

    pub fn reset_to_any(&mut self)
        ensures
            final(self).state() == InputState::ANY,
    {
        self.state = InputState::ANY;
    }

    pub fn make() -> (r: InputStateHandler)
        ensures
            r.state() == InputState::ANY,
    {
        InputStateHandler { state: InputState::ANY }
    }

    fn advance_any(&mut self, c: char)
        requires
            old(self).state() == InputState::ANY,
        ensures
            final(self).state() == next_state(old(self).state(), c),
    {
        match c {
            '\x1b' => self.state = InputState::ESC,
            '\u{7f}' => self.state = InputState::BACKSPACE,
            _ => (),
        }
    }

    fn advance_backspace(&mut self, c: char)
        requires
            old(self).state() == InputState::BACKSPACE,
        ensures
            final(self).state() == next_state(old(self).state(), c),
    {
        match c {
            '\x1b' => self.state = InputState::ESC,
            '\u{7f}' => self.state = InputState::BACKSPACE,
            _ => self.state = InputState::ANY,
        }
    }

    fn advance_esc(&mut self, c: char)
        requires
            old(self).state() == InputState::ESC,
        ensures
            final(self).state() == next_state(old(self).state(), c),
    {
        match c {
            '\x5b' => self.state = InputState::BRACK,
            '\u{7f}' => self.state = InputState::BACKSPACE,
            _ => self.state = InputState::ANY,
        }
    }

    fn advance_brack(&mut self, c: char)
        requires
            old(self).state() == InputState::BRACK,
        ensures
            final(self).state() == next_state(old(self).state(), c),
    {
        match c {
            '\x41' | '\x42' | '\x43' | '\x44' => self.state = InputState::FUNC,
            '\u{7f}' => self.state = InputState::BACKSPACE,
            _ => self.state = InputState::ANY,
        }
    }

    /// Feeds one typed character to the machine.
    pub fn advance_state(&mut self, c: char)
        ensures
            final(self).state() == next_state(old(self).state(), c),
    {
        match self.state {
            InputState::ANY => self.advance_any(c),
            InputState::BACKSPACE => self.advance_backspace(c),
            InputState::ESC => self.advance_esc(c),
            InputState::BRACK => self.advance_brack(c),
            _ => self.state = InputState::ANY,
        }
    }
}

} // verus!
