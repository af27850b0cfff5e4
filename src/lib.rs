use vstd::prelude::*;

pub mod builtin_commands;
pub mod commands;
pub mod dirextory_prefix_tree;
pub mod execution;
pub mod flatten;
pub mod history;
pub mod input;
pub mod input_state_handler;
pub mod text;

verus! {

} // verus!
