use vstd::prelude::*;

use crate::commands::opt_view;
use crate::text::{same_text, split_by_ascii_whitespace, words};

verus! {

/// What a line means to the interpreter before it reaches the command builder.
#[derive(Clone, Copy, Debug, PartialEq, Eq, Structural)]
pub enum BUILTINS {
    NONE,
    CD,
    EXIT,
}

/// The directory that a `cd <path> ...` line asks for: the second word, when
/// the first is `cd`.
pub open spec fn cd_path(input: Seq<char>) -> Option<Seq<char>> {
    let w = words(input, true);
    if w.len() >= 2 && w[0] == seq!['c', 'd'] {
        Some(w[1])
    } else {
        None
    }
}

/// The built-in that a line names, given whether changing the directory
/// succeeded when the line asked for it.
pub open spec fn builtin_of(input: Seq<char>, cd_succeeded: bool) -> BUILTINS {
    if input == seq!['e', 'x', 'i', 't'] {
        BUILTINS::EXIT
    } else if cd_path(input) is Some && cd_succeeded {
        BUILTINS::CD
    } else {
        BUILTINS::NONE
    }
}

/// The target of a `cd` line, if the line is one.
pub fn cd_target(input: &str) -> (r: Option<String>)
    ensures
        opt_view(r) == cd_path(input@),
{
    let parts = split_by_ascii_whitespace(input);
    proof {
        reveal_strlit("cd");
    }
    if parts.len() >= 2 {
        let first_is_cd = same_text(parts[0].as_str(), "cd");
        assert(parts@[0]@ == words(input@, true)[0]);
        assert(parts@[1]@ == words(input@, true)[1]);
        assert("cd"@ =~= seq!['c', 'd']);
        if first_is_cd {
            return Some(parts[1].clone());
        }
    }
    None
}

/// Classifies a line. `cd_succeeded` is whether the directory change that
/// `cd_target` asked for went through; it matters only for a `cd` line.
pub fn check_builtin(input: &str, cd_succeeded: bool) -> (r: BUILTINS)
    ensures
        r == builtin_of(input@, cd_succeeded),
{
    proof {
        reveal_strlit("exit");
    }
    assert("exit"@ =~= seq!['e', 'x', 'i', 't']);
    if same_text(input, "exit") {
        return BUILTINS::EXIT;
    }
    if cd_target(input).is_some() && cd_succeeded {
        return BUILTINS::CD;
    }
    BUILTINS::NONE
}

} // verus!
