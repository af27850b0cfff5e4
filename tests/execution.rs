use minishell::commands::make_commands;
use minishell::execution::{collects_output, plan_commands, plan_group, StdinSource, StdoutTarget};

#[test]
fn one_command_reads_console_and_pipes_out() {
    let mut cs = make_commands(vec!["ls", "-la"]);
    let plans = plan_commands(&mut cs);
    assert!(!cs.has_more());
    assert_eq!(plans.len(), 1);
    assert_eq!(plans[0].len(), 1);
    assert!(matches!(plans[0][0].stdin, StdinSource::Inherit));
    assert!(matches!(plans[0][0].stdout, StdoutTarget::Pipe));
    assert_eq!(plans[0][0].command.name, "ls");
    assert!(collects_output(&plans[0]));
}

#[test]
fn redirected_command_uses_files_and_prints_nothing() {
    let mut cs = make_commands(vec!["cat", "<", "a.txt", ">", "b.txt"]);
    let g = cs.get_last().unwrap();
    let plans = plan_group(&g);
    assert_eq!(plans.len(), 1);
    assert!(matches!(&plans[0].stdin, StdinSource::File(f) if f == "a.txt"));
    assert!(matches!(&plans[0].stdout, StdoutTarget::File(f) if f == "b.txt"));
    assert!(!collects_output(&plans));
}

#[test]
fn second_command_reads_first_pipe() {
    let mut cs = make_commands(vec!["echo", "hi", "|", "tr", "a-z", "A-Z"]);
    let plans = plan_group(&cs.get_last().unwrap());
    assert_eq!(plans.len(), 2);
    assert!(matches!(plans[0].stdin, StdinSource::Inherit));
    assert!(matches!(plans[0].stdout, StdoutTarget::Pipe));
    assert!(matches!(plans[1].stdin, StdinSource::Pipe));
    assert!(matches!(plans[1].stdout, StdoutTarget::Pipe));
    assert!(collects_output(&plans));
}

#[test]
fn failing_first_command_still_plans_both() {
    let mut cs = make_commands(vec!["false", "|", "echo", "ok"]);
    let plans = plan_group(&cs.get_last().unwrap());
    assert_eq!(plans.len(), 2);
    assert_eq!(plans[0].command.name, "false");
    assert_eq!(plans[1].command.name, "echo");
    assert!(matches!(plans[1].stdin, StdinSource::Pipe));
    assert!(collects_output(&plans));
}

#[test]
fn groups_run_last_first() {
    let mut cs = make_commands(vec!["a", "&", "b"]);
    let plans = plan_commands(&mut cs);
    assert_eq!(plans.len(), 2);
    assert_eq!(plans[0][0].command.name, "b");
    assert_eq!(plans[1][0].command.name, "a");
}

#[test]
fn own_input_file_replaces_pipe() {
    let mut cs = make_commands(vec!["a", "|", "b", "<", "in", "|", "c"]);
    let plans = plan_group(&cs.get_last().unwrap());
    assert!(matches!(&plans[1].stdin, StdinSource::File(f) if f == "in"));
    assert!(matches!(plans[2].stdin, StdinSource::Pipe));
}

#[test]
fn output_file_leaves_next_without_pipe() {
    let mut cs = make_commands(vec!["a", ">", "out", "|", "b"]);
    let plans = plan_group(&cs.get_last().unwrap());
    assert!(matches!(&plans[0].stdout, StdoutTarget::File(f) if f == "out"));
    assert!(matches!(plans[1].stdin, StdinSource::Inherit));
    assert!(collects_output(&plans));
}

#[test]
fn empty_chain_collects_nothing() {
    assert!(!collects_output(&Vec::new()));
}
