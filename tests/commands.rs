use minishell::commands::{make_commands, CommandGroup, Commands, SingleCommand};

fn groups_of(mut cs: Commands) -> Vec<CommandGroup> {
    let mut out = Vec::new();
    while cs.has_more() {
        out.push(cs.get_last().unwrap());
    }
    out.reverse();
    out
}

fn cmd(g: &CommandGroup, i: usize) -> &SingleCommand {
    g.get(i)
}

#[test]
fn single_command_with_flag() {
    let groups = groups_of(make_commands(vec!["ls", "-la"]));
    assert_eq!(groups.len(), 1);
    assert_eq!(groups[0].len(), 1);
    let c = cmd(&groups[0], 0);
    assert_eq!(c.name, "ls");
    assert_eq!(c.args, vec!["-la".to_string()]);
    assert_eq!(c.in_redirect, None);
    assert_eq!(c.out_redirect, None);
}

#[test]
fn both_redirects() {
    let groups = groups_of(make_commands(vec!["cat", "<", "a.txt", ">", "b.txt"]));
    assert_eq!(groups.len(), 1);
    assert_eq!(groups[0].len(), 1);
    let c = cmd(&groups[0], 0);
    assert_eq!(c.name, "cat");
    assert!(c.args.is_empty());
    assert_eq!(c.in_redirect, Some("a.txt".to_string()));
    assert_eq!(c.out_redirect, Some("b.txt".to_string()));
}

#[test]
fn pipe_makes_two_commands() {
    let groups = groups_of(make_commands(vec!["echo", "hi", "|", "tr", "a-z", "A-Z"]));
    assert_eq!(groups.len(), 1);
    assert_eq!(groups[0].len(), 2);
    assert_eq!(cmd(&groups[0], 0).name, "echo");
    assert_eq!(cmd(&groups[0], 0).args, vec!["hi".to_string()]);
    assert_eq!(cmd(&groups[0], 1).name, "tr");
    assert_eq!(cmd(&groups[0], 1).args, vec!["a-z".to_string(), "A-Z".to_string()]);
}

#[test]
fn ampersand_makes_two_groups() {
    let groups = groups_of(make_commands(vec!["a", "&", "b"]));
    assert_eq!(groups.len(), 2);
    assert_eq!(cmd(&groups[0], 0).name, "a");
    assert_eq!(cmd(&groups[1], 0).name, "b");
}

#[test]
fn dangling_input_redirect_is_ignored() {
    let groups = groups_of(make_commands(vec!["cat", "<"]));
    assert_eq!(groups.len(), 1);
    let c = cmd(&groups[0], 0);
    assert_eq!(c.name, "cat");
    assert!(c.args.is_empty());
    assert_eq!(c.in_redirect, None);
    assert_eq!(c.out_redirect, None);
}

#[test]
fn plain_words_name_and_args() {
    let groups = groups_of(make_commands(vec!["grep", "-n", "foo", "file.txt"]));
    assert_eq!(groups.len(), 1);
    assert_eq!(groups[0].len(), 1);
    let c = cmd(&groups[0], 0);
    assert_eq!(c.name, "grep");
    assert_eq!(c.args, vec!["-n".to_string(), "foo".to_string(), "file.txt".to_string()]);
}

#[test]
fn empty_segments_are_dropped() {
    let groups = groups_of(make_commands(vec!["a", "|", "|", "b", "&", "&", "c", "|"]));
    assert_eq!(groups.len(), 2);
    assert_eq!(groups[0].len(), 2);
    assert_eq!(groups[1].len(), 1);
    assert_eq!(cmd(&groups[1], 0).name, "c");
}

#[test]
fn no_tokens_no_groups() {
    let cs = make_commands(Vec::new());
    assert!(!cs.has_more());
}

#[test]
fn last_redirect_wins() {
    let groups = groups_of(make_commands(vec!["cat", "<", "x", "<", "y", ">", "o1", ">", "o2", "arg"]));
    let c = cmd(&groups[0], 0);
    assert_eq!(c.in_redirect, Some("y".to_string()));
    assert_eq!(c.out_redirect, Some("o2".to_string()));
    assert_eq!(c.args, vec!["arg".to_string()]);
}

#[test]
fn first_word_names_even_after_redirect() {
    let groups = groups_of(make_commands(vec!["<", "in", "sort"]));
    let c = cmd(&groups[0], 0);
    assert_eq!(c.name, "in");
    assert_eq!(c.args, vec!["sort".to_string()]);
    assert_eq!(c.in_redirect, None);
}

#[test]
fn round_trip_through_flattening() {
    let line = vec!["sort", "-r", "<", "in.txt", ">", "out.txt", "|", "wc", "&", "ls"];
    let first = groups_of(make_commands(line));
    let mut flat: Vec<String> = Vec::new();
    for (gi, g) in first.iter().enumerate() {
        if gi > 0 {
            flat.push("&".to_string());
        }
        for i in 0..g.len() {
            if i > 0 {
                flat.push("|".to_string());
            }
            let c = g.get(i);
            flat.push(c.name.clone());
            flat.extend(c.args.iter().cloned());
            if let Some(f) = &c.in_redirect {
                flat.push("<".to_string());
                flat.push(f.clone());
            }
            if let Some(f) = &c.out_redirect {
                flat.push(">".to_string());
                flat.push(f.clone());
            }
        }
    }
    let again = groups_of(make_commands(flat.iter().map(|s| s.as_str()).collect()));
    assert_eq!(first.len(), again.len());
    for (a, b) in first.iter().zip(again.iter()) {
        assert_eq!(a.len(), b.len());
        for i in 0..a.len() {
            assert_eq!(a.get(i).name, b.get(i).name);
            assert_eq!(a.get(i).args, b.get(i).args);
            assert_eq!(a.get(i).in_redirect, b.get(i).in_redirect);
            assert_eq!(a.get(i).out_redirect, b.get(i).out_redirect);
        }
    }
}

#[test]
fn group_accessors() {
    let mut g = CommandGroup::make();
    assert!(g.is_empty());
    assert!(g.first().is_none());
    let mut c = SingleCommand::make();
    assert!(c.is_uninitialized());
    c.build("echo", false, false);
    c.build("x", false, false);
    assert!(!c.is_uninitialized());
    g.append(c);
    let mut d = SingleCommand::make();
    d.build("wc", true, false);
    d.build("f", true, false);
    g.append(d);
    assert_eq!(g.first().unwrap().name, "echo");
    let rest = g.x_to_last(1);
    assert_eq!(rest.len(), 1);
    assert_eq!(rest[0].name, "wc");
    assert_eq!(rest[0].in_redirect, Some("f".to_string()));
    assert!(g.x_to_last(2).is_empty());
}

#[test]
fn commands_drain_last_first() {
    let mut cs = Commands::make();
    let mut g1 = CommandGroup::make();
    let mut c1 = SingleCommand::make();
    c1.build("one", false, false);
    g1.append(c1);
    let mut g2 = CommandGroup::make();
    let mut c2 = SingleCommand::make();
    c2.build("two", false, false);
    g2.append(c2);
    cs.append(g1);
    cs.append(g2);
    assert_eq!(cs.get_last().unwrap().first().unwrap().name, "two");
    assert_eq!(cs.get_last().unwrap().first().unwrap().name, "one");
    assert!(cs.get_last().is_none());
    assert!(!cs.has_more());
}
