use minishell::dirextory_prefix_tree::{DirPrefixTree, TreeNode};
use minishell::input::Input;

fn typed(inp: &mut Input, s: &str) -> String {
    let mut echo = String::new();
    for c in s.chars() {
        echo.push_str(&inp.handle_char(c));
    }
    echo
}

#[test]
fn typing_echoes_and_finishes_line() {
    let mut inp = Input::make(DirPrefixTree::make());
    assert_eq!(typed(&mut inp, "ls\t"), "ls");
    assert_eq!(inp.finish_line(), "ls");
    assert_eq!(inp.finish_line(), "");
}

#[test]
fn backspace_erases_one() {
    let mut inp = Input::make(DirPrefixTree::make());
    typed(&mut inp, "abc");
    assert_eq!(inp.handle_char('\u{7f}'), "\u{8} \u{8}");
    assert_eq!(inp.finish_line(), "ab");
    assert_eq!(inp.handle_char('\u{7f}'), "");
}

#[test]
fn arrows_walk_history() {
    let mut inp = Input::make(DirPrefixTree::make());
    typed(&mut inp, "one");
    inp.finish_line();
    typed(&mut inp, "two");
    inp.finish_line();
    typed(&mut inp, "x");
    assert_eq!(typed(&mut inp, "\x1b[A"), "\u{8} \u{8}two");
    assert_eq!(typed(&mut inp, "\x1b[A"), "\u{8} \u{8}\u{8} \u{8}\u{8} \u{8}one");
    assert_eq!(typed(&mut inp, "\x1b[A"), "");
    assert_eq!(typed(&mut inp, "\x1b[B"), "\u{8} \u{8}\u{8} \u{8}\u{8} \u{8}");
    assert_eq!(typed(&mut inp, "\x1b[C"), "");
    assert_eq!(inp.finish_line(), "");
}

#[test]
fn store_then_scroll() {
    let mut inp = Input::make(DirPrefixTree::make());
    inp.store_to_history("cat a".to_string());
    assert_eq!(inp.arrow_up(), "cat a");
    assert_eq!(inp.arrow_down(), "\u{8} \u{8}\u{8} \u{8}\u{8} \u{8}\u{8} \u{8}\u{8} \u{8}");
    assert_eq!(inp.arrow_forward(), "");
    assert_eq!(inp.arrow_backward(), "");
    assert_eq!(inp.autocomplete_input_buf(), "");
    assert_eq!(inp.call_func('Z'), "");
    inp.update_prefix_tree(&vec!["file.txt".to_string()]);
    inp.reset();
    assert_eq!(inp.finish_line(), "");
}

#[test]
fn completes_unique_paths() {
    let mut t = DirPrefixTree::make();
    t.update_to_current_dir(&vec!["readme.md".to_string(), "src".to_string(), "scripts".to_string()]);
    assert_eq!(t.find_longest_match("r"), "readme.md");
    assert_eq!(t.find_longest_match("s"), "s");
    assert_eq!(t.find_longest_match("sr"), "src");
    assert_eq!(t.find_longest_match("x"), "x");
    assert_eq!(t.find_longest_match("rx"), "rx");
    assert_eq!(t.find_longest_match(""), "");
    t.insert("zeta");
    assert_eq!(t.find_longest_match(""), "");
    assert_eq!(t.find_longest_match("z"), "zeta");
}

#[test]
fn completes_single_name_from_root() {
    let mut t = DirPrefixTree::make();
    t.insert("only");
    assert_eq!(t.find_longest_match(""), "only");
    assert_eq!(t.find_longest_match("on"), "only");
}

#[test]
fn tree_node_edges() {
    let mut n = TreeNode::make();
    assert_eq!(n.child_nodes_count(), 0);
    n.create_child('a', 3);
    n.create_child('b', 7);
    assert_eq!(n.child_nodes_count(), 2);
    assert_eq!(n.get_child('b'), Some(7));
    assert_eq!(n.get_child('c'), None);
    assert_eq!(n.get_keys(), vec!['a', 'b']);
}
