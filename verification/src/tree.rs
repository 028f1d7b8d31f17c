//! The declarations: arguments, commands, groups, and the levels of the tree
//! that hold them.

use std::sync::Arc;
use vstd::prelude::*;
use crate::container::{
    Container, Named, copies_keep_names, distinct_names, has_name, lemma_item_decreases, names_of,
};
use crate::matching::opt_view;
use crate::search::{lemma_name_position, name_position};
use crate::value_type::ValueType;

verus! {

/// View of an optional string.
pub open spec fn opt_string_view(o: Option<String>) -> Option<Seq<char>> {
    match o {
        Some(s) => Some(s@),
        None => None,
    }
}

/// Views of a sequence of strings, one by one.
pub open spec fn strings_view(s: Seq<String>) -> Seq<Seq<char>> {
    s.map_values(|t: String| t@)
}

/// Mathematical value of an [`Argument`].
pub struct ArgumentView {
    pub name: Seq<char>,
    pub help: Option<Seq<char>>,
    pub value_type: ValueType,
    pub required: bool,
    pub autocomplete: Option<Seq<Seq<char>>>,
}

/// A parameter that a command declares.
#[derive(Debug)]
pub struct Argument {
    /// The name, written behind a dash on the line.
    pub name: String,
    /// What the parameter is for.
    pub help: Option<String>,
    /// The kind of value; never a kind that describes nesting.
    pub value_type: ValueType,
    /// Whether a line without the parameter is refused.
    pub required: bool,
    /// Suggested values, shared with whoever completes input.
    pub autocomplete: Option<Arc<Vec<String>>>,
}

impl View for Argument {
    type V = ArgumentView;

    open spec fn view(&self) -> ArgumentView {
        ArgumentView {
            name: self.name@,
            help: opt_string_view(self.help),
            value_type: self.value_type,
            required: self.required,
            autocomplete: match self.autocomplete {
                Some(a) => Some(strings_view(a@)),
                None => None,
            },
        }
    }
}

/// Views of a sequence of arguments, one by one.
pub open spec fn arguments_view(s: Seq<Argument>) -> Seq<ArgumentView> {
    s.map_values(|a: Argument| a@)
}

/// Mathematical value of a [`Command`].
pub struct CommandView {
    pub name: Seq<char>,
    pub arguments: Option<Seq<char>>,
    pub help: Option<Seq<char>>,
    pub permission: Option<Seq<char>>,
    pub params: Seq<ArgumentView>,
    pub id: Option<Seq<char>>,
}

/// A command: a leaf of the tree, with the parameters it takes.
#[derive(Debug)]
pub struct Command {
    /// The name, unique among the commands of its level.
    pub name: String,
    /// When set, the command takes trailing positional arguments; the text
    /// says what they are.
    pub arguments: Option<String>,
    /// What the command does.
    pub help: Option<String>,
    /// The permission needed to run the command; `None` lets everyone.
    pub permission: Option<String>,
    /// The parameters, in declared order.
    pub params: Vec<Argument>,
    /// The dotted identifier, absent until identifiers are generated.
    pub id: Option<String>,
}

impl View for Command {
    type V = CommandView;

    open spec fn view(&self) -> CommandView {
        CommandView {
            name: self.name@,
            arguments: opt_string_view(self.arguments),
            help: opt_string_view(self.help),
            permission: opt_string_view(self.permission),
            params: arguments_view(self.params@),
            id: opt_string_view(self.id),
        }
    }
}

/// Mathematical value of a [`Group`].
pub struct GroupView {
    pub name: Seq<char>,
    pub help: Option<Seq<char>>,
    pub permission: Option<Seq<char>>,
    pub node: NodeView,
}

/// Mathematical value of a [`Node`].
pub struct NodeView {
    pub commands: Seq<CommandView>,
    pub groups: Seq<GroupView>,
}

/// A group: a named branch of the tree, with the level below it.
#[derive(Debug)]
pub struct Group {
    name: String,
    help: Option<String>,
    permission: Option<String>,
    /// The level below; always present. The `Option` gives the tree type its
    /// base case.
    node: Option<Node>,
}

/// One level of the tree: its commands and its sub-groups.
#[derive(Debug)]
pub struct Node {
    pub commands: Container<Command>,
    pub groups: Container<Group>,
}

impl View for Node {
    type V = NodeView;

    open spec fn view(&self) -> NodeView
        decreases self,
    {
        NodeView {
            commands: Seq::new(self.commands@.len(), |i: int| self.commands@[i]@),
            groups: Seq::new(
                self.groups@.len(),
                |i: int|
                    if 0 <= i < self.groups@.len() {
                        proof {
                            lemma_item_decreases(self.groups, i);
                        }
                        self.groups@[i]@
                    } else {
                        arbitrary()
                    },
            ),
        }
    }
}

impl View for Group {
    type V = GroupView;

    closed spec fn view(&self) -> GroupView
        decreases self,
    {
        GroupView {
            name: self.name@,
            help: opt_string_view(self.help),
            permission: opt_string_view(self.permission),
            node: match self.node {
                Some(n) => n@,
                None => NodeView { commands: Seq::empty(), groups: Seq::empty() },
            },
        }
    }
}

impl Named for Argument {
    open spec fn spec_name(&self) -> Seq<char> {
        self.name@
    }

    fn name(&self) -> (r: &str) {
        self.name.as_str()
    }
}

impl Named for Command {
    open spec fn spec_name(&self) -> Seq<char> {
        self.name@
    }

    fn name(&self) -> (r: &str) {
        self.name.as_str()
    }
}

impl Named for Group {
    closed spec fn spec_name(&self) -> Seq<char> {
        self.name@
    }

    fn name(&self) -> (r: &str) {
        self.name.as_str()
    }
}

/// The names of the commands, in order.
pub open spec fn command_names(commands: Seq<CommandView>) -> Seq<Seq<char>> {
    Seq::new(commands.len(), |i: int| commands[i].name)
}

/// The names of the groups, in order.
pub open spec fn group_names(groups: Seq<GroupView>) -> Seq<Seq<char>> {
    Seq::new(groups.len(), |i: int| groups[i].name)
}

impl Group {
    #[verifier::type_invariant]
    spec fn has_node(self) -> bool {
        self.node is Some
    }

    /// The name by which a container knows a group is the name of its view.
    pub proof fn lemma_name(self)
        ensures
            self.spec_name() == self@.name,
    {
    }
}

/// Views of a sequence of commands, one by one.
pub open spec fn commands_view(s: Seq<Command>) -> Seq<CommandView> {
    Seq::new(s.len(), |i: int| s[i]@)
}

/// Views of a sequence of groups, one by one.
pub open spec fn groups_view(s: Seq<Group>) -> Seq<GroupView> {
    Seq::new(s.len(), |i: int| s[i]@)
}

impl Node {
    /// The view of a level holds the views of what its two containers hold,
    /// under the same names.
    pub proof fn lemma_view(self)
        ensures
            self@.commands == commands_view(self.commands@),
            self@.groups == groups_view(self.groups@),
            names_of(self.commands@) == command_names(self@.commands),
            names_of(self.groups@) == group_names(self@.groups),
    {
        assert(self@.commands =~= commands_view(self.commands@));
        assert(self@.groups =~= groups_view(self.groups@));
        assert(names_of(self.commands@) =~= command_names(self@.commands));
        assert(names_of(self.groups@) =~= group_names(self@.groups));
    }
}

impl Argument {
    /// Whether the argument is a valid declaration: its kind is the kind of
    /// a value.
    pub open spec fn wf(&self) -> bool {
        self.value_type.is_value_kind()
    }

    /// An optional argument named `name` that carries a string.
    pub fn new(name: &str) -> (r: Argument)
        ensures
            r@ == (ArgumentView {
                name: name@,
                help: None,
                value_type: ValueType::String,
                required: false,
                autocomplete: None,
            }),
            r.wf(),
    {
        Argument {
            name: name.to_owned(),
            help: None,
            value_type: ValueType::String,
            required: false,
            autocomplete: None,
        }
    }

    /// The argument with `h` as its help text.
    pub fn set_help(self, h: &str) -> (r: Argument)
        ensures
            r@ == (ArgumentView { help: Some(h@), ..self@ }),
            r.wf() == self.wf(),
    {
        let mut this = self;
        this.help = Some(h.to_owned());
        this
    }

    /// The argument with `a` as its suggested values.
    pub fn set_autocomplete(self, a: Arc<Vec<String>>) -> (r: Argument)
        ensures
            r@ == (ArgumentView { autocomplete: Some(strings_view(a@)), ..self@ }),
            r.autocomplete == Some(a),
            r.wf() == self.wf(),
    {
        let mut this = self;
        this.autocomplete = Some(a);
        this
    }

    /// The help text, if one was set.
    pub fn help(&self) -> (r: Option<&str>)
        ensures
            opt_view(r) == self@.help,
    {
        match &self.help {
            Some(h) => Some(h.as_str()),
            None => None,
        }
    }

    /// The argument under the name `name`.
    pub fn set_name(self, name: &str) -> (r: Self)
        ensures
            r@ == (ArgumentView { name: name@, ..self@ }),
            r.wf() == self.wf(),
    {
        let mut this = self;
        this.name = name.to_owned();
        this
    }

    /// The argument with `vt` as the kind of its value. A kind that
    /// describes nesting is a fault in the declarations and is not accepted.
    pub fn set_value_type(self, vt: ValueType) -> (r: Argument)
        requires
            vt.is_value_kind(),
        ensures
            r@ == (ArgumentView { value_type: vt, ..self@ }),
            r.wf(),
    {
        let mut this = self;
        this.value_type = vt;
        this
    }

    /// The kind of the value.
    pub fn value_type(&self) -> (r: ValueType)
        ensures
            r == self@.value_type,
    {
        self.value_type
    }

    /// The label of the kind of the value.
    pub fn value_type_str(&self) -> (r: &'static str)
        ensures
            r@ == self@.value_type.label(),
    {
        match self.value_type {
            ValueType::String => "string",
            ValueType::Integer => "integer",
            ValueType::Boolean => "boolean",
            ValueType::User => "user",
            ValueType::Channel => "channel",
            ValueType::Role => "role",
            ValueType::Mentionable => "mentionable",
            ValueType::Number => "number",
            _ => "unknown",
        }
    }

    /// The argument, required or not as `req` says.
    pub fn set_required(self, req: bool) -> (r: Argument)
        ensures
            r@ == (ArgumentView { required: req, ..self@ }),
            r.wf() == self.wf(),
    {
        let mut this = self;
        this.required = req;
        this
    }

    /// Whether a line without the argument is refused.
    pub fn required(&self) -> (r: bool)
        ensures
            r == self@.required,
    {
        self.required
    }
}

impl Command {
    /// A command named `name` that takes no parameters, needs no permission
    /// and has no identifier yet.
    pub fn new(name: &str) -> (r: Command)
        ensures
            r@ == (CommandView {
                name: name@,
                arguments: None,
                help: None,
                permission: None,
                params: Seq::empty(),
                id: None,
            }),
    {
        let r = Command {
            name: name.to_owned(),
            arguments: None,
            permission: None,
            help: None,
            params: Vec::new(),
            id: None,
        };
        assert(r@.params =~= Seq::empty());
        r
    }

    /// The command with `permission` as the permission it needs.
    pub fn set_permission(self, permission: &str) -> (r: Self)
        ensures
            r@ == (CommandView { permission: Some(permission@), ..self@ }),
    {
        let mut this = self;
        this.permission = Some(permission.to_owned());
        this
    }

    /// The permission the command declares itself, if any.
    pub fn permission(&self) -> (r: Option<&str>)
        ensures
            opt_view(r) == self@.permission,
    {
        match &self.permission {
            Some(v) => Some(v.as_str()),
            None => None,
        }
    }

    /// The command with `h` as its help text.
    pub fn set_help(self, h: &str) -> (r: Command)
        ensures
            r@ == (CommandView { help: Some(h@), ..self@ }),
    {
        let mut this = self;
        this.help = Some(h.to_owned());
        this
    }

    /// The help text, if one was set.
    pub fn help(&self) -> (r: Option<&str>)
        ensures
            opt_view(r) == self@.help,
    {
        match &self.help {
            Some(h) => Some(h.as_str()),
            None => None,
        }
    }

    /// The command under the name `name`.
    pub fn set_name(self, name: &str) -> (r: Command)
        ensures
            r@ == (CommandView { name: name@, ..self@ }),
    {
        let mut this = self;
        this.name = name.to_owned();
        this
    }

    /// The command with `param` behind the parameters it already declares.
    pub fn add_param(self, param: Argument) -> (r: Command)
        ensures
            r@ == (CommandView { params: self@.params.push(param@), ..self@ }),
    {
        let mut this = self;
        this.params.push(param);
        assert(this@.params =~= self@.params.push(param@));
        this
    }

    /// The parameters, in declared order.
    pub fn params(&self) -> (r: &Vec<Argument>)
        ensures
            arguments_view(r@) == self@.params,
    {
        &self.params
    }

    /// The command, taking trailing positional arguments that `arg`
    /// describes.
    pub fn set_arguments(self, arg: String) -> (r: Command)
        ensures
            r@ == (CommandView { arguments: Some(arg@), ..self@ }),
    {
        let mut this = self;
        this.arguments = Some(arg);
        this
    }

    /// The dotted identifier, if identifiers were generated.
    pub fn id(&self) -> (r: Option<&str>)
        ensures
            opt_view(r) == self@.id,
    {
        match &self.id {
            Some(v) => Some(v.as_str()),
            None => None,
        }
    }
}

impl Node {
    /// A level without commands or groups.
    pub fn new() -> (r: Node)
        ensures
            r@ == (NodeView { commands: Seq::empty(), groups: Seq::empty() }),
    {
        let r = Node { commands: Container::new(), groups: Container::new() };
        assert(r@.commands =~= Seq::empty());
        assert(r@.groups =~= Seq::empty());
        r
    }

    /// The level with `group` behind the groups it already holds. A group
    /// whose name another group of the level has is not accepted.
    pub fn add_group(self, group: Group) -> (r: Node)
        requires
            !group_names(self@.groups).contains(group@.name),
        ensures
            r@ == (NodeView { groups: self@.groups.push(group@), ..self@ }),
    {
        proof {
            self.lemma_view();
            group.lemma_name();
        }
        let mut this = self;
        this.groups.add(group);
        assert(this@.groups =~= self@.groups.push(group@));
        assert(this@.commands =~= self@.commands);
        this
    }

    /// The level with `command` behind the commands it already holds. A
    /// command whose name another command of the level has is not accepted.
    pub fn add_command(self, command: Command) -> (r: Node)
        requires
            !command_names(self@.commands).contains(command@.name),
        ensures
            r@ == (NodeView { commands: self@.commands.push(command@), ..self@ }),
    {
        proof {
            self.lemma_view();
        }
        let mut this = self;
        this.commands.add(command);
        assert(this@.commands =~= self@.commands.push(command@));
        assert(this@.groups =~= self@.groups);
        this
    }
}

impl Group {
    /// A group named `name` with nothing in it, open to everyone.
    pub fn new(name: &str) -> (r: Group)
        ensures
            r@ == (GroupView {
                name: name@,
                help: None,
                permission: None,
                node: NodeView { commands: Seq::empty(), groups: Seq::empty() },
            }),
    {
        Group { name: name.to_owned(), permission: None, help: None, node: Some(Node::new()) }
    }

    /// The group with `grp` behind the sub-groups it already holds. A group
    /// whose name another sub-group has is not accepted.
    pub fn add_group(self, grp: Group) -> (r: Group)
        requires
            !group_names(self@.node.groups).contains(grp@.name),
        ensures
            r@ == (GroupView {
                node: NodeView { groups: self@.node.groups.push(grp@), ..self@.node },
                ..self@
            }),
    {
        proof {
            use_type_invariant(&self);
        }
        let Group { name, help, permission, node } = self;
        let node = node.unwrap().add_group(grp);
        Group { name, help, permission, node: Some(node) }
    }

    /// The sub-groups.
    pub fn groups(&self) -> (r: &Container<Group>)
        ensures
            groups_view(r@) == self@.node.groups,
            names_of(r@) == group_names(self@.node.groups),
    {
        proof {
            use_type_invariant(self);
            self.node->0.lemma_view();
        }
        &self.node.as_ref().unwrap().groups
    }

    /// The sub-group named `name`, if there is one.
    pub fn get_group(&self, name: &str) -> (r: Option<&Group>)
        ensures
            r is Some <==> group_names(self@.node.groups).contains(name@),
            r is Some ==> r->0@ == self@.node.groups[name_position(
                group_names(self@.node.groups),
                name@,
            )],
    {
        let groups = self.groups();
        proof {
            lemma_name_position(names_of(groups@), name@);
        }
        groups.find(name)
    }

    /// The group with `cmd` behind the commands it already holds. A command
    /// whose name another command of the group has is not accepted.
    pub fn add_command(self, cmd: Command) -> (r: Group)
        requires
            !command_names(self@.node.commands).contains(cmd@.name),
        ensures
            r@ == (GroupView {
                node: NodeView { commands: self@.node.commands.push(cmd@), ..self@.node },
                ..self@
            }),
    {
        proof {
            use_type_invariant(&self);
        }
        let Group { name, help, permission, node } = self;
        let node = node.unwrap().add_command(cmd);
        Group { name, help, permission, node: Some(node) }
    }

    /// The commands.
    pub fn commands(&self) -> (r: &Container<Command>)
        ensures
            commands_view(r@) == self@.node.commands,
            names_of(r@) == command_names(self@.node.commands),
    {
        proof {
            use_type_invariant(self);
            self.node->0.lemma_view();
        }
        &self.node.as_ref().unwrap().commands
    }

    /// The command named `name`, if there is one.
    pub fn get_command(&self, name: &str) -> (r: Option<&Command>)
        ensures
            r is Some <==> command_names(self@.node.commands).contains(name@),
            r is Some ==> r->0@ == self@.node.commands[name_position(
                command_names(self@.node.commands),
                name@,
            )],
    {
        let commands = self.commands();
        proof {
            lemma_name_position(names_of(commands@), name@);
        }
        commands.find(name)
    }

    /// The group with `permission` as the permission it needs.
    pub fn set_permission(self, permission: &str) -> (r: Self)
        ensures
            r@ == (GroupView { permission: Some(permission@), ..self@ }),
    {
        proof {
            use_type_invariant(&self);
        }
        let mut this = self;
        this.permission = Some(permission.to_owned());
        this
    }

    /// The permission the group declares, if any.
    pub fn permission(&self) -> (r: Option<&str>)
        ensures
            opt_view(r) == self@.permission,
    {
        match &self.permission {
            Some(v) => Some(v.as_str()),
            None => None,
        }
    }

    /// The group with `h` as its help text.
    pub fn set_help(self, h: &str) -> (r: Group)
        ensures
            r@ == (GroupView { help: Some(h@), ..self@ }),
    {
        proof {
            use_type_invariant(&self);
        }
        let mut this = self;
        this.help = Some(h.to_owned());
        this
    }

    /// The help text, if one was set.
    pub fn help(&self) -> (r: Option<&str>)
        ensures
            opt_view(r) == self@.help,
    {
        match &self.help {
            Some(h) => Some(h.as_str()),
            None => None,
        }
    }

    /// The group under the name `name`.
    pub fn set_name(self, name: &str) -> (r: Self)
        ensures
            r@ == (GroupView { name: name@, ..self@ }),
    {
        proof {
            use_type_invariant(&self);
        }
        let mut this = self;
        this.name = name.to_owned();
        this
    }

    /// Takes the level below out of the group, which keeps an empty one.
    pub(crate) fn take_node(&mut self) -> (r: Node)
        ensures
            r@ == old(self)@.node,
            final(self)@ == (GroupView {
                node: NodeView { commands: Seq::empty(), groups: Seq::empty() },
                ..old(self)@
            }),
    {
        proof {
            use_type_invariant(&*self);
        }
        let mut node = Some(Node::new());
        std::mem::swap(&mut node, &mut self.node);
        node.unwrap()
    }

    /// Puts `node` below the group, in place of the level it holds.
    pub(crate) fn put_node(&mut self, node: Node)
        ensures
            final(self)@ == (GroupView { node: node@, ..old(self)@ }),
    {
        proof {
            use_type_invariant(&*self);
        }
        self.node = Some(node);
    }

    /// The level below the group.
    pub fn node(&self) -> (r: &Node)
        ensures
            r@ == self@.node,
    {
        proof {
            use_type_invariant(self);
        }
        self.node.as_ref().unwrap()
    }
}

impl Group {
    /// A copy of the group, with a copy of the level below it.
    fn copy(&self) -> (r: Group)
        ensures
            r@ == self@,
        decreases self@, 1int,
    {
        let help = match &self.help {
            Some(h) => Some(h.clone()),
            None => None,
        };
        let permission = match &self.permission {
            Some(p) => Some(p.clone()),
            None => None,
        };
        Group { name: self.name.clone(), help, permission, node: Some(self.node().copy()) }
    }
}

/// Copying a command keeps its name, so that a copy of a container of
/// commands holds a copy of each.
pub proof fn lemma_command_copies_keep_names(s: Seq<Command>)
    ensures
        copies_keep_names(s),
{
    assert forall|i: int, copy: Command|
        0 <= i < s.len() && cloned::<Command>(#[trigger] s[i], copy) implies #[trigger] copy.spec_name()
        == s[i].spec_name() by {
        assert(copy@ == s[i]@);
    }
}

/// Copying a group keeps its name, so that a copy of a container of groups
/// holds a copy of each.
pub proof fn lemma_group_copies_keep_names(s: Seq<Group>)
    ensures
        copies_keep_names(s),
{
    assert forall|i: int, copy: Group|
        0 <= i < s.len() && cloned::<Group>(#[trigger] s[i], copy) implies #[trigger] copy.spec_name()
        == s[i].spec_name() by {
        assert(copy@ == s[i]@);
        copy.lemma_name();
        s[i].lemma_name();
    }
}

impl Node {
    /// A copy of the level, with copies of its commands and of its groups.
    fn copy(&self) -> (r: Node)
        ensures
            r@ == self@,
        decreases self@, 0int,
    {
        proof {
            self.lemma_view();
            lemma_command_copies_keep_names(self.commands@);
        }
        let commands = self.commands.clone();
        let sources = self.groups.as_slice();
        let mut groups: Container<Group> = Container::new();
        let mut i: usize = 0;
        assert(groups_view(groups@) =~= self@.groups.take(0));
        while i < sources.len()
            invariant
                i <= sources.len(),
                sources@ == self.groups@,
                self@.groups == groups_view(sources@),
                distinct_names(sources@),
                groups_view(groups@) == self@.groups.take(i as int),
            decreases sources.len() - i,
        {
            let ghost so_far = groups@;
            assert(self@.groups[i as int] == sources@[i as int]@);
            let copy = sources[i].copy();
            proof {
                copy.lemma_name();
                sources@[i as int].lemma_name();
                assert(groups_view(so_far).len() == so_far.len());
                assert(self@.groups.len() == sources@.len());
                assert(self@.groups.take(i as int).len() == i);
                assert(so_far.len() == i);
                if has_name(so_far, copy.spec_name()) {
                    let k = choose|k: int|
                        0 <= k < so_far.len() && names_of(so_far)[k] == copy.spec_name();
                    so_far[k].lemma_name();
                    sources@[k].lemma_name();
                    assert(groups_view(so_far)[k] == self@.groups.take(i as int)[k]);
                    assert(names_of(sources@)[k] == names_of(sources@)[i as int]);
                }
            }
            groups.add(copy);
            assert(groups_view(groups@) =~= self@.groups.take(i + 1));
            i += 1;
        }
        assert(self@.groups.take(i as int) =~= self@.groups);
        let r = Node { commands, groups };
        proof {
            r.lemma_view();
            assert(r@.commands =~= self@.commands) by {
                assert forall|k: int| 0 <= k < self@.commands.len() implies r@.commands[k]
                    == self@.commands[k] by {
                    assert(cloned::<Command>(self.commands@[k], r.commands@[k]));
                }
            }
        }
        r
    }
}

impl Clone for Group {
    /// A copy of the group, with a copy of the level below it.
    fn clone(&self) -> (r: Self)
        ensures
            r@ == self@,
    {
        self.copy()
    }
}

impl Clone for Node {
    /// A copy of the level, with copies of its commands and of its groups.
    fn clone(&self) -> (r: Self)
        ensures
            r@ == self@,
    {
        self.copy()
    }
}

impl Clone for Command {
    /// A copy of the command, with copies of its parameters.
    fn clone(&self) -> (r: Self)
        ensures
            r@ == self@,
    {
        let arguments = match &self.arguments {
            Some(a) => Some(a.clone()),
            None => None,
        };
        let help = match &self.help {
            Some(h) => Some(h.clone()),
            None => None,
        };
        let permission = match &self.permission {
            Some(p) => Some(p.clone()),
            None => None,
        };
        let id = match &self.id {
            Some(i) => Some(i.clone()),
            None => None,
        };
        let params = self.params.clone();
        assert(arguments_view(params@) =~= arguments_view(self.params@)) by {
            assert forall|k: int| 0 <= k < params@.len() implies params@[k] == self.params@[k] by {
                assert(cloned::<Argument>(self.params@[k], params@[k]));
            }
        }
        Command { name: self.name.clone(), arguments, help, permission, params, id }
    }
}

impl Clone for Argument {
    /// A copy of the argument. The suggested values are shared with it, not
    /// copied.
    fn clone(&self) -> (r: Self)
        ensures
            r == *self,
    {
        let help = match &self.help {
            Some(h) => Some(h.clone()),
            None => None,
        };
        let autocomplete = match &self.autocomplete {
            Some(a) => Some(a.clone()),
            None => None,
        };
        Argument {
            name: self.name.clone(),
            help,
            value_type: self.value_type,
            required: self.required,
            autocomplete,
        }
    }
}

} // verus!
