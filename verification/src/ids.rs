//! Giving each command of a tree its dotted identifier.

use vstd::prelude::*;
use vstd::string::StringExecFns;
use crate::container::{Container, Named, names_of};
use crate::matcher::{effective_permission, match_node};
use crate::search::{lemma_name_position, name_position};
use crate::text::{is_flag, join, join_strs, lemma_join_push, strs_view};
use crate::tree::{
    Command, CommandView, Group, GroupView, Node, NodeView, command_names, commands_view,
    group_names, groups_view,
};

verus! {

/// The dot that parts the names of an identifier.
pub open spec fn dot() -> Seq<char> {
    seq!['.']
}

/// The identifier of a command named `name` below the groups `ancestors`,
/// outermost first: the names joined by dots, the command's last.
pub open spec fn dotted(ancestors: Seq<Seq<char>>, name: Seq<char>) -> Seq<char> {
    join(ancestors.push(name), dot())
}

/// The names of the groups above, as a sequence; none where nothing is
/// given.
pub open spec fn ancestors_view(groups: Option<&[&str]>) -> Seq<Seq<char>> {
    match groups {
        Some(g) => strs_view(g@),
        None => Seq::empty(),
    }
}

impl CommandView {
    /// The command with its identifier below the groups `ancestors`.
    pub open spec fn with_id(self, ancestors: Seq<Seq<char>>) -> CommandView {
        CommandView { id: Some(dotted(ancestors, self.name)), ..self }
    }
}

impl NodeView {
    /// The level with every command of it and below it given its
    /// identifier, where `ancestors` are the groups above the level.
    pub open spec fn with_ids(self, ancestors: Seq<Seq<char>>) -> NodeView
        decreases self, 0int,
    {
        NodeView {
            commands: Seq::new(self.commands.len(), |i: int| self.commands[i].with_id(ancestors)),
            groups: Seq::new(
                self.groups.len(),
                |i: int|
                    if 0 <= i < self.groups.len() {
                        self.groups[i].with_ids(ancestors)
                    } else {
                        arbitrary()
                    },
            ),
        }
    }
}

impl GroupView {
    /// The group with every command below it given its identifier, where
    /// `ancestors` are the groups above the group.
    pub open spec fn with_ids(self, ancestors: Seq<Seq<char>>) -> GroupView
        decreases self, 1int,
    {
        GroupView { node: self.node.with_ids(ancestors.push(self.name)), ..self }
    }
}

impl Command {
    /// Gives the command its identifier: the names of the groups above it,
    /// outermost first, and its own name, joined by dots.
    pub fn generate_id(&mut self, groups: Option<&[&str]>)
        ensures
            final(self)@ == old(self)@.with_id(ancestors_view(groups)),
    {
        let ghost ancestors = ancestors_view(groups);
        let mut id = match groups {
            Some(g) => {
                let mut prefix = join_strs(g, ".");
                if g.len() > 0 {
                    prefix.append(".");
                }
                prefix
            },
            None => String::new(),
        };
        id.append(self.name.as_str());
        proof {
            reveal_strlit(".");
            assert("."@ =~= dot());
            lemma_join_push(ancestors, dot(), self.name@);
            if ancestors.len() == 0 {
                assert(join(ancestors, dot()) =~= Seq::empty());
                assert(id@ =~= self.name@);
            }
        }
        self.id = Some(id);
    }
}

impl Group {
    /// Gives every command below the group its identifier, where `groups`
    /// are the names of the groups above the group, outermost first.
    pub fn generate_ids(&mut self, groups: Option<&[&str]>)
        ensures
            final(self)@ == old(self)@.with_ids(ancestors_view(groups)),
        decreases old(self)@, 1int,
    {
        let ghost ancestors = ancestors_view(groups);
        proof {
            self.lemma_name();
        }
        let own = self.name().to_owned();
        let mut path: Vec<&str> = Vec::new();
        match groups {
            Some(g) => {
                let mut i: usize = 0;
                while i < g.len()
                    invariant
                        i <= g.len(),
                        path@ == g@.take(i as int),
                    decreases g.len() - i,
                {
                    path.push(g[i]);
                    assert(path@ =~= g@.take(i + 1));
                    i += 1;
                }
                assert(g@.take(i as int) =~= g@);
            },
            None => {
                assert(strs_view(path@) =~= ancestors);
            },
        }
        path.push(own.as_str());
        assert(strs_view(path@) =~= ancestors.push(self@.name));
        let mut inner = self.take_node();
        inner.generate_ids(path.as_slice());
        self.put_node(inner);
    }
}

impl Node {
    /// Gives every command of the level and below it its identifier, where
    /// `groups` are the names of the groups above the level, outermost
    /// first.
    pub fn generate_ids(&mut self, groups: &[&str])
        ensures
            final(self)@ == old(self)@.with_ids(strs_view(groups@)),
        decreases old(self)@, 0int,
    {
        let ghost ancestors = strs_view(groups@);
        let ghost before = self@;
        proof {
            self.lemma_view();
        }
        let mut held: Container<Group> = Container::new();
        std::mem::swap(&mut held, &mut self.groups);
        let mut items = held.into_items();
        let ghost old_items = items@;
        let mut i: usize = 0;
        while i < items.len()
            invariant
                i <= items.len(),
                items@.len() == old_items.len(),
                before == old(self)@,
                before.groups == groups_view(old_items),
                ancestors == strs_view(groups@),
                names_of(items@) == names_of(old_items),
                forall|k: int|
                    0 <= k < i ==> (#[trigger] items@[k])@ == before.groups[k].with_ids(ancestors),
                forall|k: int| i <= k < items@.len() ==> (#[trigger] items@[k]) == old_items[k],
            decreases items.len() - i,
        {
            let ghost was = items@;
            assert(was[i as int]@ == before.groups[i as int]);
            items[i].generate_ids(Some(groups));
            proof {
                was[i as int].lemma_name();
                items@[i as int].lemma_name();
                assert(names_of(items@) =~= names_of(was));
            }
            i += 1;
        }
        self.groups = Container::from_items(items);

        let mut held: Container<Command> = Container::new();
        std::mem::swap(&mut held, &mut self.commands);
        let mut items = held.into_items();
        let ghost old_items = items@;
        let mut j: usize = 0;
        while j < items.len()
            invariant
                j <= items.len(),
                items@.len() == old_items.len(),
                before.commands == commands_view(old_items),
                ancestors == strs_view(groups@),
                names_of(items@) == names_of(old_items),
                forall|k: int|
                    0 <= k < j ==> (#[trigger] items@[k])@ == before.commands[k].with_id(ancestors),
                forall|k: int| j <= k < items@.len() ==> (#[trigger] items@[k]) == old_items[k],
            decreases items.len() - j,
        {
            let ghost was = items@;
            assert(was[j as int]@ == before.commands[j as int]);
            items[j].generate_id(Some(groups));
            assert(names_of(items@) =~= names_of(was));
            j += 1;
        }
        self.commands = Container::from_items(items);
        proof {
            self.lemma_view();
            let after = before.with_ids(ancestors);
            assert(self@.groups =~= after.groups);
            assert(self@.commands =~= after.commands);
        }
    }
}

/// Giving identifiers changes no name.
pub proof fn lemma_with_ids_keeps_names(node: NodeView, ancestors: Seq<Seq<char>>)
    ensures
        command_names(node.with_ids(ancestors).commands) == command_names(node.commands),
        group_names(node.with_ids(ancestors).groups) == group_names(node.groups),
{
    assert(command_names(node.with_ids(ancestors).commands) =~= command_names(node.commands));
    assert(group_names(node.with_ids(ancestors).groups) =~= group_names(node.groups));
}

/// In a tree that was given its identifiers from the root, a command of the
/// top level has its name as its identifier, and a command of a group of the
/// top level the group's name, a dot, and its own name.
pub proof fn lemma_ids_near_root(node: NodeView)
    ensures
        forall|j: int|
            0 <= j < node.commands.len() ==> (#[trigger] node.with_ids(Seq::empty()).commands[j]).id
                == Some(node.commands[j].name),
        forall|i: int, j: int|
            0 <= i < node.groups.len() && 0 <= j < node.groups[i].node.commands.len() ==> (
            #[trigger] node.with_ids(Seq::empty()).groups[i].node.commands[j]).id == Some(
                node.groups[i].name + dot() + node.groups[i].node.commands[j].name,
            ),
{
    let root = Seq::<Seq<char>>::empty();
    let after = node.with_ids(root);
    assert forall|j: int| 0 <= j < node.commands.len() implies (#[trigger] after.commands[j]).id
        == Some(node.commands[j].name) by {
        lemma_join_push(root, dot(), node.commands[j].name);
    }
    assert forall|i: int, j: int|
        0 <= i < node.groups.len() && 0 <= j < node.groups[i].node.commands.len() implies (
    #[trigger] after.groups[i].node.commands[j]).id == Some(
        node.groups[i].name + dot() + node.groups[i].node.commands[j].name,
    ) by {
        let group = node.groups[i];
        let above = root.push(group.name);
        assert(after.groups[i] == group.with_ids(root));
        assert(after.groups[i].node.commands[j] == group.node.commands[j].with_id(above));
        lemma_join_push(above, dot(), group.node.commands[j].name);
        lemma_join_push(root, dot(), group.name);
    }
}

/// In a tree that was given its identifiers, the identifier of a matched
/// command is the names of the groups above the tree and the path of the
/// match, joined by dots.
pub proof fn lemma_matched_id(
    node: NodeView,
    ancestors: Seq<Seq<char>>,
    inherited: Option<Seq<char>>,
    tokens: Seq<Seq<char>>,
)
    ensures
        match_node(node.with_ids(ancestors), inherited, tokens) matches Ok(m) ==> m.id == Some(
            join(ancestors + m.path, dot()),
        ),
    decreases tokens.len(),
{
    let after = node.with_ids(ancestors);
    lemma_with_ids_keeps_names(node, ancestors);
    if tokens.len() > 0 && !is_flag(tokens[0]) {
        let c = name_position(command_names(after.commands), tokens[0]);
        let g = name_position(group_names(after.groups), tokens[0]);
        lemma_name_position(command_names(after.commands), tokens[0]);
        lemma_name_position(group_names(after.groups), tokens[0]);
        if 0 <= c < after.commands.len() {
            let cmd = node.commands[c];
            assert(after.commands[c] == cmd.with_id(ancestors));
            assert(command_names(node.commands)[c] == tokens[0]);
            assert(ancestors + seq![tokens[0]] =~= ancestors.push(cmd.name));
        } else if 0 <= g < after.groups.len() {
            let group = node.groups[g];
            let above = ancestors.push(group.name);
            assert(after.groups[g] == group.with_ids(ancestors));
            assert(group_names(node.groups)[g] == tokens[0]);
            let down = effective_permission(group.permission, inherited);
            lemma_matched_id(group.node, above, down, tokens.skip(1));
            match match_node(group.node.with_ids(above), down, tokens.skip(1)) {
                Ok(m) => {
                    assert(above + m.path =~= ancestors + (seq![tokens[0]] + m.path));
                },
                Err(_) => {},
            }
        }
    }
}

} // verus!
