use command_parser::matching;
use command_parser::{Argument, Command, Group, Node, ParseError, ValueType};

fn concat() -> Command {
    Command::new("concat")
        .set_help("Joins two strings")
        .add_param(Argument::new("string1").set_help("The first string").set_required(true))
        .add_param(Argument::new("string2").set_help("The second string"))
}

fn misc() -> Group {
    Group::new("misc").set_help("Commands of no kind").add_command(concat())
}

fn pair<'a>(p: &matching::Parameter<'a>) -> (&'a str, &'a str) {
    (p.name, p.value)
}

#[test]
fn a_required_parameter_that_is_missing_is_named() {
    let cmd = concat();
    let r = cmd.try_match(None, &["concat", "-string2", "world"]);
    assert_eq!(r, Err(ParseError::RequiredParameters("string1".to_string())));
}

#[test]
fn parameters_come_back_in_the_order_given_with_their_exact_text() {
    let cmd = concat();
    let m = cmd
        .try_match(None, &["concat", "-string1", "Hello", "-string2", " world"])
        .unwrap();
    let got: Vec<(&str, &str)> = m.params.iter().map(pair).collect();
    assert_eq!(got, vec![("string1", "Hello"), ("string2", " world")]);
    assert!(m.arguments.is_empty());
    assert_eq!(m.permission, None);
    assert_eq!(m.id, None);
    assert_eq!(m.path.iter().copied().collect::<Vec<_>>(), vec!["concat"]);
}

#[test]
fn parameters_may_come_in_any_order() {
    let cmd = concat();
    let m = cmd.try_match(None, &["concat", "-string2", "b", "-string1", "a"]).unwrap();
    let got: Vec<(&str, &str)> = m.params.iter().map(pair).collect();
    assert_eq!(got, vec![("string2", "b"), ("string1", "a")]);
}

#[test]
fn an_undeclared_parameter_is_named_without_its_dash() {
    let cmd = concat();
    let r = cmd.try_match(None, &["concat", "-unknown", "x"]);
    assert_eq!(r, Err(ParseError::UnknownParameter("unknown")));
}

#[test]
fn a_parameter_without_value_is_reported_as_written() {
    let cmd = concat();
    let r = cmd.try_match(None, &["concat", "-string1"]);
    assert_eq!(r, Err(ParseError::MissingParameterValue("-string1")));
    let r = cmd.try_match(None, &["concat", "-string2", "x", "-string1"]);
    assert_eq!(r, Err(ParseError::MissingParameterValue("-string1")));
}

#[test]
fn the_value_of_a_parameter_may_begin_with_a_dash() {
    let cmd = concat();
    let m = cmd.try_match(None, &["concat", "-string1", "-string2"]).unwrap();
    let got: Vec<(&str, &str)> = m.params.iter().map(pair).collect();
    assert_eq!(got, vec![("string1", "-string2")]);
}

#[test]
fn a_positional_argument_is_refused_where_none_is_declared() {
    let cmd = concat();
    let r = cmd.try_match(None, &["concat", "stray", "-string1", "a"]);
    assert_eq!(r, Err(ParseError::UnknownParameter("stray")));
}

#[test]
fn positional_arguments_are_collected_where_declared() {
    let cmd = Command::new("say")
        .set_arguments("words".to_string())
        .add_param(Argument::new("to").set_value_type(ValueType::User));
    let m = cmd.try_match(None, &["say", "hello", "-to", "bob", "big world"]).unwrap();
    assert_eq!(m.arguments, vec!["hello", "big world"]);
    assert_eq!(m.params.len(), 1);
    assert_eq!(m.params[0].name, "to");
    assert_eq!(m.params[0].value, "bob");
    assert_eq!(m.params[0].kind, ValueType::User);
}

#[test]
fn the_first_scan_failure_wins_over_a_missing_required_parameter() {
    let cmd = concat();
    let r = cmd.try_match(None, &["concat", "-nope", "x"]);
    assert_eq!(r, Err(ParseError::UnknownParameter("nope")));
}

#[test]
fn only_the_first_missing_required_parameter_is_named() {
    let cmd = Command::new("c")
        .add_param(Argument::new("a"))
        .add_param(Argument::new("b").set_required(true))
        .add_param(Argument::new("d").set_required(true));
    assert_eq!(
        cmd.try_match(None, &["c"]),
        Err(ParseError::RequiredParameters("b".to_string()))
    );
    assert_eq!(
        cmd.try_match(None, &["c", "-b", "1"]),
        Err(ParseError::RequiredParameters("d".to_string()))
    );
    assert!(cmd.try_match(None, &["c", "-d", "1", "-b", "2"]).is_ok());
}

#[test]
fn a_command_matches_its_own_name_only() {
    let cmd = concat();
    assert_eq!(cmd.try_match(None, &["other"]), Err(ParseError::NotMatched));
    assert_eq!(cmd.try_match(None, &["other", "concat"]), Err(ParseError::NotMatched));
    assert_eq!(cmd.try_match(None, &[]), Err(ParseError::NotMatched));
    assert_eq!(cmd.try_match(Some("admin"), &[]), Err(ParseError::NotMatched));
}

#[test]
fn a_command_declares_the_kind_of_each_parameter() {
    let cmd = Command::new("ban")
        .add_param(Argument::new("who").set_value_type(ValueType::User))
        .add_param(Argument::new("days").set_value_type(ValueType::Integer));
    let m = cmd.try_match(None, &["ban", "-days", "x", "-who", "y"]).unwrap();
    assert_eq!(m.params[0].kind, ValueType::Integer);
    assert_eq!(m.params[1].kind, ValueType::User);
    // The text of a value is not held against its kind.
    assert_eq!(m.params[0].value, "x");
}

#[test]
fn a_level_expects_a_name_first() {
    let root = Node::new().add_group(misc());
    assert_eq!(root.try_match(None, &[]), Err(ParseError::ExpectedPath("")));
    assert_eq!(root.try_match(None, &["-x"]), Err(ParseError::ExpectedPath("-x")));
    assert_eq!(root.try_match(None, &["misc"]), Err(ParseError::ExpectedPath("")));
    assert_eq!(
        root.try_match(None, &["misc", "-string1", "a"]),
        Err(ParseError::ExpectedPath("-string1"))
    );
}

#[test]
fn an_unknown_name_does_not_match() {
    let root = Node::new().add_group(misc());
    assert_eq!(root.try_match(None, &["nope"]), Err(ParseError::NotMatched));
    assert_eq!(root.try_match(None, &["misc", "nope"]), Err(ParseError::NotMatched));
    assert_eq!(root.try_match(None, &["concat"]), Err(ParseError::NotMatched));
}

#[test]
fn a_group_is_walked_one_name_per_level() {
    let root = Node::new().add_group(misc());
    let m = root
        .try_match(None, &["misc", "concat", "-string1", "Hello", "-string2", " world"])
        .unwrap();
    assert_eq!(m.path.iter().copied().collect::<Vec<_>>(), vec!["misc", "concat"]);
    assert_eq!(m.get_command(), "concat");
    assert_eq!(m.get_groups(), vec!["misc"]);
    assert_eq!(m.fullname(), "misc.concat");
    let got: Vec<(&str, &str)> = m.params.iter().map(pair).collect();
    assert_eq!(got, vec![("string1", "Hello"), ("string2", " world")]);
}

#[test]
fn the_path_holds_every_group_on_the_way() {
    let root = Node::new().add_group(
        Group::new("a").add_group(Group::new("b").add_group(Group::new("c").add_command(Command::new("run")))),
    );
    let m = root.try_match(None, &["a", "b", "c", "run"]).unwrap();
    assert_eq!(m.path.iter().copied().collect::<Vec<_>>(), vec!["a", "b", "c", "run"]);
    assert_eq!(m.get_groups(), vec!["a", "b", "c"]);
    assert_eq!(m.get_command(), "run");
    assert_eq!(m.fullname(), "a.b.c.run");
    assert_eq!(root.try_match(None, &["a", "c", "run"]), Err(ParseError::NotMatched));
    assert_eq!(root.try_match(None, &["a", "b", "run"]), Err(ParseError::NotMatched));
}

#[test]
fn a_command_is_looked_up_before_a_group_of_the_same_name() {
    let root = Node::new()
        .add_group(Group::new("x").add_command(Command::new("inner")))
        .add_command(Command::new("x"));
    let m = root.try_match(None, &["x"]).unwrap();
    assert_eq!(m.path.iter().copied().collect::<Vec<_>>(), vec!["x"]);
    assert_eq!(root.try_match(None, &["x", "inner"]), Err(ParseError::UnknownParameter("inner")));
}

#[test]
fn the_permission_of_the_group_holds_for_a_command_without_one() {
    let root = Node::new().add_group(
        Group::new("mod")
            .set_permission("admin")
            .add_command(Command::new("kick"))
            .add_command(Command::new("nuke").set_permission("owner")),
    );
    let kick = root.try_match(None, &["mod", "kick"]).unwrap();
    assert_eq!(kick.permission, Some("admin"));
    let nuke = root.try_match(None, &["mod", "nuke"]).unwrap();
    assert_eq!(nuke.permission, Some("owner"));
}

#[test]
fn the_permission_closest_to_the_command_wins() {
    let root = Node::new()
        .add_command(Command::new("free"))
        .add_command(Command::new("own").set_permission("own"))
        .add_group(
            Group::new("outer").set_permission("outer").add_group(
                Group::new("plain").add_command(Command::new("c")).add_group(
                    Group::new("inner").set_permission("inner").add_command(Command::new("c")),
                ),
            ),
        );
    assert_eq!(root.try_match(None, &["free"]).unwrap().permission, None);
    assert_eq!(root.try_match(Some("base"), &["free"]).unwrap().permission, Some("base"));
    assert_eq!(root.try_match(Some("base"), &["own"]).unwrap().permission, Some("own"));
    assert_eq!(
        root.try_match(Some("base"), &["outer", "plain", "c"]).unwrap().permission,
        Some("outer")
    );
    assert_eq!(
        root.try_match(Some("base"), &["outer", "plain", "inner", "c"]).unwrap().permission,
        Some("inner")
    );
}

#[test]
fn a_group_matches_the_tokens_behind_its_name() {
    let group = misc().set_permission("admin");
    let m = group.try_match(None, &["concat", "-string1", "a"]).unwrap();
    assert_eq!(m.path.iter().copied().collect::<Vec<_>>(), vec!["concat"]);
    assert_eq!(m.permission, Some("admin"));
    assert_eq!(group.try_match(Some("x"), &[]), Err(ParseError::ExpectedPath("")));
    assert_eq!(group.try_match(None, &["misc", "concat"]), Err(ParseError::NotMatched));
}

#[test]
fn has_command_name_follows_the_path_of_a_command() {
    let root = Node::new()
        .add_command(Command::new("top"))
        .add_group(misc().add_group(Group::new("deep").add_command(Command::new("run"))));
    assert!(root.has_command_name(&["top"]));
    assert!(root.has_command_name(&["top", "-x", "1"]));
    assert!(root.has_command_name(&["misc", "concat"]));
    assert!(root.has_command_name(&["misc", "concat", "-string1", "a"]));
    assert!(root.has_command_name(&["misc", "deep", "run"]));
    assert!(!root.has_command_name(&["misc"]));
    assert!(!root.has_command_name(&["misc", "deep"]));
    assert!(!root.has_command_name(&["misc", "run"]));
    assert!(!root.has_command_name(&["concat"]));
    assert!(!root.has_command_name(&[]));
}

#[test]
fn has_command_name_of_a_command_and_of_a_group() {
    let cmd = concat();
    assert!(cmd.has_command_name(&["concat"]));
    assert!(cmd.has_command_name(&["concat", "whatever"]));
    assert!(!cmd.has_command_name(&["misc"]));
    assert!(!cmd.has_command_name(&[]));
    let group = misc();
    assert!(group.has_command_name(&["misc", "concat"]));
    assert!(!group.has_command_name(&["misc"]));
    assert!(!group.has_command_name(&["concat"]));
    assert!(!group.has_command_name(&[]));
}

#[test]
fn a_line_is_cut_and_matched() {
    let root = Node::new().add_group(misc());
    let tokens = command_parser::split_shell("misc concat -string1 \"Hello\" -string2 \" world\"");
    let m = root.try_match(None, &tokens).unwrap();
    assert_eq!(m.get_parameter("string1").unwrap().value, "Hello");
    assert_eq!(m.get_parameter("string2").unwrap().value, " world");
    assert!(m.get_parameter("string3").is_none());
}

#[test]
fn no_match_returns_a_reserved_failure() {
    let root = Node::new()
        .add_command(concat())
        .add_group(misc());
    let lines: [&[&str]; 8] = [
        &[],
        &["-x"],
        &["nope"],
        &["misc"],
        &["misc", "nope"],
        &["concat"],
        &["concat", "-string1"],
        &["misc", "concat", "-zz", "1"],
    ];
    let group = misc();
    let cmd = concat();
    for line in lines {
        let r = root.try_match(None, line);
        assert!(!matches!(r, Err(ParseError::Todo)));
        assert!(!matches!(r, Err(ParseError::PartiallyNotMatched(_))));
        assert!(r.is_err());
        for r in [group.try_match(None, line), cmd.try_match(None, line)] {
            assert!(!matches!(r, Err(ParseError::Todo)));
            assert!(!matches!(r, Err(ParseError::PartiallyNotMatched(_))));
        }
    }
}

#[test]
fn a_match_accounts_for_every_token() {
    let cmd = Command::new("say")
        .set_arguments("words".to_string())
        .add_param(Argument::new("to"))
        .add_param(Argument::new("from").set_required(true));
    let lines: [&[&str]; 4] = [
        &["say", "-from", "a"],
        &["say", "x", "-from", "a", "y", "z"],
        &["say", "-to", "b", "-from", "a", "-to", "c"],
        &["say", "-from", "-to", "w"],
    ];
    for line in lines {
        let m = cmd.try_match(None, line).unwrap();
        assert_eq!(m.arguments.len() + 2 * m.params.len(), line.len() - 1);
        assert!(m.get_parameter("from").is_some());
        for p in &m.params {
            assert!(cmd.params().iter().any(|a| a.name == p.name && a.value_type() == p.kind));
        }
    }
}

#[test]
fn what_matches_has_the_name_of_a_command() {
    let root = Node::new()
        .add_command(concat())
        .add_group(misc().add_group(Group::new("deep").add_command(Command::new("run"))));
    let lines: [&[&str]; 6] = [
        &["concat", "-string1", "a"],
        &["misc", "concat", "-string1", "a"],
        &["misc", "deep", "run"],
        &["misc", "deep"],
        &["nope"],
        &["misc", "concat"],
    ];
    for line in lines {
        if let Ok(m) = root.try_match(None, line) {
            assert!(root.has_command_name(line));
            assert_eq!(m.path[0], line[0]);
            assert_eq!(m.path.len(), m.get_groups().len() + 1);
        }
    }
    assert!(root.try_match(None, &["misc", "deep", "run"]).is_ok());
}
