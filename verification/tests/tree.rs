use std::sync::Arc;

use command_parser::{Argument, Command, Group, Named, Node, ValueType};

#[test]
fn a_new_argument_is_an_optional_string() {
    let a = Argument::new("who");
    assert_eq!(a.name(), "who");
    assert_eq!(a.help(), None);
    assert_eq!(a.value_type(), ValueType::String);
    assert_eq!(a.value_type_str(), "string");
    assert!(!a.required());
    assert!(a.autocomplete.is_none());
}

#[test]
fn the_setters_of_an_argument_set_one_thing_each() {
    let words = Arc::new(vec!["yes".to_string(), "no".to_string()]);
    let a = Argument::new("who")
        .set_help("the user")
        .set_required(true)
        .set_value_type(ValueType::User)
        .set_autocomplete(words.clone())
        .set_name("whom");
    assert_eq!(a.name(), "whom");
    assert_eq!(a.help(), Some("the user"));
    assert_eq!(a.value_type(), ValueType::User);
    assert!(a.required());
    assert!(Arc::ptr_eq(a.autocomplete.as_ref().unwrap(), &words));
    let b = a.set_required(false);
    assert!(!b.required());
    assert_eq!(b.help(), Some("the user"));
}

#[test]
fn each_kind_of_value_has_its_label() {
    let kinds = [
        (ValueType::String, "string"),
        (ValueType::Integer, "integer"),
        (ValueType::Boolean, "boolean"),
        (ValueType::User, "user"),
        (ValueType::Channel, "channel"),
        (ValueType::Role, "role"),
        (ValueType::Mentionable, "mentionable"),
        (ValueType::Number, "number"),
        (ValueType::Unknown, "unknown"),
    ];
    for (kind, label) in kinds {
        assert!(kind.accepts_value());
        assert_eq!(Argument::new("a").set_value_type(kind).value_type_str(), label);
    }
}

#[test]
fn the_nesting_kinds_are_not_kinds_of_values() {
    assert!(!ValueType::SubCommand.accepts_value());
    assert!(!ValueType::SubCommandGroup.accepts_value());
}

#[test]
fn a_new_command_is_bare() {
    let c = Command::new("concat");
    assert_eq!(c.name(), "concat");
    assert_eq!(c.help(), None);
    assert_eq!(c.permission(), None);
    assert_eq!(c.id(), None);
    assert!(c.params().is_empty());
    assert!(c.arguments.is_none());
}

#[test]
fn the_setters_of_a_command_set_one_thing_each() {
    let c = Command::new("concat")
        .set_help("joins")
        .set_permission("admin")
        .set_arguments("words".to_string())
        .add_param(Argument::new("a"))
        .add_param(Argument::new("b").set_required(true))
        .set_name("cat");
    assert_eq!(c.name(), "cat");
    assert_eq!(c.help(), Some("joins"));
    assert_eq!(c.permission(), Some("admin"));
    assert_eq!(c.arguments.as_deref(), Some("words"));
    let names: Vec<&str> = c.params().iter().map(|a| a.name()).collect();
    assert_eq!(names, vec!["a", "b"]);
    assert!(c.params()[1].required());
}

#[test]
fn a_new_group_is_empty() {
    let g = Group::new("misc");
    assert_eq!(g.name(), "misc");
    assert_eq!(g.help(), None);
    assert_eq!(g.permission(), None);
    assert_eq!(g.groups().list().count(), 0);
    assert_eq!(g.commands().list().count(), 0);
    assert_eq!(g.node().commands.list().count(), 0);
}

#[test]
fn a_group_holds_what_was_added_in_order() {
    let g = Group::new("misc")
        .set_help("various")
        .set_permission("admin")
        .add_command(Command::new("b"))
        .add_group(Group::new("y"))
        .add_command(Command::new("a"))
        .add_group(Group::new("x").add_command(Command::new("deep")))
        .set_name("other");
    assert_eq!(g.name(), "other");
    assert_eq!(g.help(), Some("various"));
    assert_eq!(g.permission(), Some("admin"));
    let commands: Vec<&str> = g.commands().list().map(|c| c.name()).collect();
    assert_eq!(commands, vec!["b", "a"]);
    let groups: Vec<&str> = g.groups().list().map(|c| c.name()).collect();
    assert_eq!(groups, vec!["y", "x"]);
    assert_eq!(g.get_command("a").unwrap().name(), "a");
    assert!(g.get_command("deep").is_none());
    assert_eq!(g.get_group("x").unwrap().get_command("deep").unwrap().name(), "deep");
    assert!(g.get_group("misc").is_none());
    let below: Vec<&str> = g.node().groups.list().map(|c| c.name()).collect();
    assert_eq!(below, groups);
}

#[test]
fn a_command_and_a_group_may_share_a_name() {
    let n = Node::new().add_command(Command::new("x")).add_group(Group::new("x"));
    assert!(n.commands.find("x").is_some());
    assert!(n.groups.find("x").is_some());
}

#[test]
fn a_level_holds_what_was_added_in_order() {
    let n = Node::new()
        .add_group(Group::new("g"))
        .add_command(Command::new("c"))
        .add_command(Command::new("b"));
    let commands: Vec<&str> = n.commands.list().map(|c| c.name()).collect();
    assert_eq!(commands, vec!["c", "b"]);
    let groups: Vec<&str> = n.groups.list().map(|c| c.name()).collect();
    assert_eq!(groups, vec!["g"]);
}

fn argument_fields(a: &Argument) -> (String, Option<String>, ValueType, bool, Option<Vec<String>>) {
    (
        a.name.clone(),
        a.help.clone(),
        a.value_type,
        a.required,
        a.autocomplete.as_ref().map(|words| words.as_ref().clone()),
    )
}

fn command_fields(c: &Command) -> Vec<String> {
    let mut out = vec![
        c.name.clone(),
        format!("{:?}", c.arguments),
        format!("{:?}", c.help),
        format!("{:?}", c.permission),
        format!("{:?}", c.id),
    ];
    for a in c.params() {
        out.push(format!("{:?}", argument_fields(a)));
    }
    out
}

fn group_fields(g: &Group) -> Vec<String> {
    let mut out = vec![
        g.name().to_string(),
        format!("{:?}", g.help()),
        format!("{:?}", g.permission()),
    ];
    out.extend(node_fields(g.node()));
    out
}

fn node_fields(n: &Node) -> Vec<String> {
    let mut out = vec!["commands".to_string()];
    for c in n.commands.list() {
        out.extend(command_fields(c));
    }
    out.push("groups".to_string());
    for g in n.groups.list() {
        out.extend(group_fields(g));
    }
    out.push("end".to_string());
    out
}

fn full_tree() -> Node {
    let words = Arc::new(vec!["yes".to_string(), "no".to_string()]);
    let mut root = Node::new()
        .add_command(
            Command::new("top")
                .set_help("t")
                .set_permission("tp")
                .set_arguments("words".to_string())
                .add_param(
                    Argument::new("a")
                        .set_help("ah")
                        .set_required(true)
                        .set_value_type(ValueType::Role)
                        .set_autocomplete(words),
                )
                .add_param(Argument::new("b")),
        )
        .add_command(Command::new("other"))
        .add_group(
            Group::new("a")
                .set_permission("p")
                .set_help("gh")
                .add_command(Command::new("x").add_param(Argument::new("k")))
                .add_group(Group::new("b").add_command(Command::new("y")).add_group(Group::new("c"))),
        )
        .add_group(Group::new("z"));
    root.generate_ids(&[]);
    root
}

#[test]
fn a_copy_of_an_argument_holds_the_same_and_shares_the_suggestions() {
    let words = Arc::new(vec!["yes".to_string(), "no".to_string()]);
    let a = Argument::new("a")
        .set_help("h")
        .set_required(true)
        .set_value_type(ValueType::Channel)
        .set_autocomplete(words.clone());
    let b = a.clone();
    assert_eq!(argument_fields(&a), argument_fields(&b));
    assert!(Arc::ptr_eq(b.autocomplete.as_ref().unwrap(), &words));
    assert_eq!(Arc::strong_count(&words), 3);
    let bare = Argument::new("bare");
    assert_eq!(argument_fields(&bare.clone()), argument_fields(&bare));
}

#[test]
fn a_copy_of_a_command_holds_the_same() {
    let root = full_tree();
    for c in root.commands.list() {
        assert_eq!(command_fields(&c.clone()), command_fields(c));
    }
    let top = root.commands.find("top").unwrap().clone();
    assert_eq!(top.id(), Some("top"));
    assert_eq!(top.params().len(), 2);
    assert_eq!(top.params()[0].value_type(), ValueType::Role);
}

#[test]
fn a_copy_of_a_container_holds_a_copy_of_each_value() {
    let root = full_tree();
    let commands = root.commands.clone();
    let names: Vec<&str> = commands.list().map(|c| c.name()).collect();
    assert_eq!(names, vec!["top", "other"]);
    let groups = root.groups.clone();
    let names: Vec<&str> = groups.list().map(|g| g.name()).collect();
    assert_eq!(names, vec!["a", "z"]);
    assert_eq!(group_fields(groups.find("a").unwrap()), group_fields(root.groups.find("a").unwrap()));
}

#[test]
fn a_copy_of_a_tree_holds_the_same() {
    let root = full_tree();
    let copy = root.clone();
    assert_eq!(node_fields(&copy), node_fields(&root));
    assert_eq!(copy.list_commands_names(), vec!["a b y", "a x", "top", "other"]);
    assert_eq!(copy.groups.find("a").unwrap().permission(), Some("p"));
    assert_eq!(copy.commands.find("top").unwrap().help(), Some("t"));
    let group = root.groups.find("a").unwrap().clone();
    assert_eq!(group_fields(&group), group_fields(root.groups.find("a").unwrap()));
    assert_eq!(group.get_group("b").unwrap().get_command("y").unwrap().id(), Some("a.b.y"));
    assert_eq!(
        copy.try_match(None, &["a", "b", "y"]).unwrap(),
        root.try_match(None, &["a", "b", "y"]).unwrap()
    );
}

#[test]
fn a_copy_of_an_empty_level_is_empty() {
    let copy = Node::new().clone();
    assert_eq!(copy.commands.list().count(), 0);
    assert_eq!(copy.groups.list().count(), 0);
    let group = Group::new("g").clone();
    assert_eq!(group.name(), "g");
    assert_eq!(group.commands().list().count(), 0);
}
