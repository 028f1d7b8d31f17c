use command_parser::{Command, Group, Node};

#[test]
fn a_command_below_a_group_gets_the_dotted_path() {
    let mut root = Node::new().add_group(Group::new("misc").add_command(Command::new("concat")));
    root.generate_ids(&[]);
    let concat = root.groups.find("misc").unwrap().get_command("concat").unwrap();
    assert_eq!(concat.id(), Some("misc.concat"));
}

#[test]
fn a_command_has_no_identifier_before_generation() {
    let root = Node::new()
        .add_command(Command::new("top"))
        .add_group(Group::new("misc").add_command(Command::new("concat")));
    assert_eq!(root.commands.find("top").unwrap().id(), None);
    assert_eq!(root.groups.find("misc").unwrap().get_command("concat").unwrap().id(), None);
    assert_eq!(root.try_match(None, &["misc", "concat"]).unwrap().id, None);
}

#[test]
fn a_command_without_ancestors_gets_its_name() {
    let mut root = Node::new().add_command(Command::new("top"));
    root.generate_ids(&[]);
    assert_eq!(root.commands.find("top").unwrap().id(), Some("top"));
    let mut alone = Command::new("alone");
    alone.generate_id(None);
    assert_eq!(alone.id(), Some("alone"));
    let mut bare = Command::new("bare");
    bare.generate_id(Some(&[]));
    assert_eq!(bare.id(), Some("bare"));
}

#[test]
fn generate_id_joins_the_ancestors_and_the_name() {
    let mut cmd = Command::new("run");
    cmd.generate_id(Some(&["a"]));
    assert_eq!(cmd.id(), Some("a.run"));
    cmd.generate_id(Some(&["a", "b", "c"]));
    assert_eq!(cmd.id(), Some("a.b.c.run"));
    assert_eq!(cmd.name, "run");
}

#[test]
fn every_level_adds_its_name() {
    let mut root = Node::new()
        .add_command(Command::new("top"))
        .add_group(
            Group::new("a")
                .add_command(Command::new("x"))
                .add_group(Group::new("b").add_command(Command::new("y")).add_command(Command::new("z"))),
        )
        .add_group(Group::new("c").add_command(Command::new("x")));
    root.generate_ids(&[]);
    let ids: Vec<String> = root
        .list_commands()
        .iter()
        .map(|(_, c)| c.id().unwrap().to_string())
        .collect();
    assert_eq!(ids, vec!["a.b.y", "a.b.z", "a.x", "c.x", "top"]);
}

#[test]
fn a_group_starts_below_the_ancestors_given() {
    let mut group = Group::new("misc").add_command(Command::new("concat"));
    group.generate_ids(None);
    assert_eq!(group.get_command("concat").unwrap().id(), Some("misc.concat"));
    group.generate_ids(Some(&["bot", "all"]));
    assert_eq!(group.get_command("concat").unwrap().id(), Some("bot.all.misc.concat"));
    let mut node = Node::new().add_command(Command::new("c"));
    node.generate_ids(&["x", "y"]);
    assert_eq!(node.commands.find("c").unwrap().id(), Some("x.y.c"));
}

#[test]
fn generation_keeps_everything_but_the_identifiers() {
    let mut root = Node::new().add_group(
        Group::new("misc")
            .set_help("h")
            .set_permission("p")
            .add_command(Command::new("concat").set_help("ch").set_permission("cp")),
    );
    root.generate_ids(&[]);
    let misc = root.groups.find("misc").unwrap();
    assert_eq!(misc.help(), Some("h"));
    assert_eq!(misc.permission(), Some("p"));
    let concat = misc.get_command("concat").unwrap();
    assert_eq!(concat.help(), Some("ch"));
    assert_eq!(concat.permission(), Some("cp"));
    assert_eq!(root.list_commands_names(), vec!["misc concat"]);
}

#[test]
fn a_match_carries_the_identifier_which_is_its_dotted_path() {
    let mut root = Node::new()
        .add_command(Command::new("top"))
        .add_group(Group::new("a").add_group(Group::new("b").add_command(Command::new("run"))));
    root.generate_ids(&[]);
    let m = root.try_match(None, &["a", "b", "run"]).unwrap();
    assert_eq!(m.id, Some("a.b.run"));
    assert_eq!(m.id.unwrap(), m.fullname());
    let m = root.try_match(None, &["top"]).unwrap();
    assert_eq!(m.id, Some("top"));
    assert_eq!(m.id.unwrap(), m.fullname());
}
