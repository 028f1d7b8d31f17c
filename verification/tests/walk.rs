use command_parser::{Command, Group, Named, Node};

fn walk(node: &Node) -> Vec<String> {
    let mut it = node.iter();
    let mut out = Vec::new();
    while let Some(cmd) = it.next() {
        out.push(cmd.name().to_string());
    }
    out
}

fn two_levels() -> Node {
    Node::new()
        .add_command(Command::new("t1"))
        .add_command(Command::new("t2"))
        .add_group(Group::new("g1").add_command(Command::new("a")).add_command(Command::new("b")))
        .add_group(Group::new("g2"))
        .add_group(Group::new("g3").add_command(Command::new("a")))
}

#[test]
fn a_walk_hands_out_every_command_once() {
    let root = two_levels();
    // 2 at the top level and 3 one level down.
    assert_eq!(walk(&root), vec!["a", "b", "a", "t1", "t2"]);
    let listed = root.list_commands_names();
    assert_eq!(listed, vec!["g1 a", "g1 b", "g3 a", "t1", "t2"]);
    let mut distinct = listed.clone();
    distinct.sort();
    distinct.dedup();
    assert_eq!(distinct.len(), 2 + 3);
}

#[test]
fn a_walk_hands_out_the_commands_of_the_tree_themselves() {
    let root = two_levels();
    let mut it = root.iter();
    let first = it.next().unwrap();
    let inside = root.groups.find("g1").unwrap().get_command("a").unwrap();
    assert!(std::ptr::eq(first, inside));
}

#[test]
fn every_walk_over_a_tree_is_the_same() {
    let root = two_levels();
    let first = walk(&root);
    let second = walk(&root);
    assert_eq!(first, second);
    assert_eq!(first.len(), 5);
}

#[test]
fn a_finished_walk_stays_finished() {
    let root = Node::new().add_command(Command::new("only"));
    let mut it = root.iter();
    assert_eq!(it.next().unwrap().name(), "only");
    assert!(it.next().is_none());
    assert!(it.next().is_none());
}

#[test]
fn a_walk_over_nothing_is_empty() {
    assert!(walk(&Node::new()).is_empty());
    let groups_only = Node::new().add_group(Group::new("a").add_group(Group::new("b")));
    assert!(walk(&groups_only).is_empty());
    assert!(groups_only.list_commands().is_empty());
    assert!(groups_only.list_commands_names().is_empty());
}

#[test]
fn groups_are_walked_before_the_commands_of_their_level() {
    let root = Node::new()
        .add_command(Command::new("top"))
        .add_group(
            Group::new("a")
                .add_command(Command::new("a1"))
                .add_group(Group::new("b").add_command(Command::new("b1")).add_command(Command::new("b2")))
                .add_group(Group::new("c").add_command(Command::new("c1"))),
        )
        .add_group(Group::new("d").add_command(Command::new("d1")));
    assert_eq!(walk(&root), vec!["b1", "b2", "c1", "a1", "d1", "top"]);
    assert_eq!(
        root.list_commands_names(),
        vec!["a b b1", "a b b2", "a c c1", "a a1", "d d1", "top"]
    );
}

#[test]
fn a_walk_goes_as_deep_as_the_tree() {
    let mut group = Group::new("g0").add_command(Command::new("leaf"));
    for depth in 1..2000 {
        group = Group::new(&format!("g{}", depth)).add_group(group);
    }
    let root = Node::new().add_group(group);
    let mut it = root.iter();
    assert_eq!(it.next().unwrap().name(), "leaf");
    assert!(it.next().is_none());
    // Dropping a tree this deep is itself recursive; leave it be.
    std::mem::forget(root);
}

#[test]
fn a_group_walks_what_is_below_it() {
    let group = Group::new("g")
        .add_command(Command::new("own"))
        .add_group(Group::new("h").add_command(Command::new("below")));
    let mut it = group.iter();
    assert_eq!(it.next().unwrap().name(), "below");
    assert_eq!(it.next().unwrap().name(), "own");
    assert!(it.next().is_none());
}

#[test]
fn list_commands_pairs_each_name_with_its_command() {
    let root = two_levels();
    let listed = root.list_commands();
    assert_eq!(listed.len(), 5);
    assert_eq!(listed[0].0, "g1 a");
    assert_eq!(listed[0].1.name(), "a");
    assert_eq!(listed[3].0, "t1");
    assert_eq!(listed[3].1.name(), "t1");
    let walked = walk(&root);
    let names: Vec<String> = listed.iter().map(|(_, c)| c.name().to_string()).collect();
    assert_eq!(names, walked);
}
