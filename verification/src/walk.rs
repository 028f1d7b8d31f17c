//! Walking the tree: every command of a level and of the levels below it.

use vstd::prelude::*;
use vstd::string::StringExecFns;
use crate::container::Named;
use crate::tree::{
    Command, CommandView, Group, GroupView, Node, NodeView, commands_view, groups_view,
};

verus! {

impl NodeView {
    /// Every command of the level and of the levels below it: first those of
    /// the groups, group by group in order, then the level's own.
    pub open spec fn flatten(self) -> Seq<CommandView>
        decreases self, 0int,
    {
        flatten_groups(self.groups, 0) + self.commands
    }

    /// A bound on the steps that a walk over the level takes without
    /// handing out a command.
    spec fn weight(self) -> nat
        decreases self, 0int,
    {
        2 + groups_weight(self.groups, 0)
    }
}

/// Every command below the groups from position `from` on, group by group.
pub open spec fn flatten_groups(groups: Seq<GroupView>, from: int) -> Seq<CommandView>
    decreases groups, groups.len() - from,
{
    if 0 <= from < groups.len() {
        groups[from].node.flatten() + flatten_groups(groups, from + 1)
    } else {
        Seq::empty()
    }
}

/// The weights of the groups from position `from` on, one more for each.
spec fn groups_weight(groups: Seq<GroupView>, from: int) -> nat
    decreases groups, groups.len() - from,
{
    if 0 <= from < groups.len() {
        1 + groups[from].node.weight() + groups_weight(groups, from + 1)
    } else {
        0
    }
}

/// A group or a command of the tree.
pub enum Type<'a> {
    Group(&'a Group),
    Command(&'a Command),
}

/// A level that a walk has entered and not yet left.
enum IterType<'a> {
    /// The groups of the level from a position on are still to be entered,
    /// and its commands still to be handed out.
    Group(&'a [Group], usize, &'a [Command]),
    /// The commands of the level from a position on are still to be handed
    /// out.
    Command(&'a [Command], usize),
}

impl<'a> IterType<'a> {
    spec fn wf(self) -> bool {
        match self {
            IterType::Group(groups, at, _) => at <= groups@.len(),
            IterType::Command(commands, at) => at <= commands@.len(),
        }
    }

    /// The commands that the level still has to hand out.
    spec fn pending(self) -> Seq<CommandView> {
        match self {
            IterType::Group(groups, at, commands) => flatten_groups(groups_view(groups@), at as int)
                + commands_view(commands@),
            IterType::Command(commands, at) => commands_view(commands@).skip(at as int),
        }
    }

    spec fn weight(self) -> nat {
        match self {
            IterType::Group(groups, at, _) => 2 + groups_weight(groups_view(groups@), at as int),
            IterType::Command(_, _) => 1,
        }
    }
}

/// The commands that the levels of a stack still have to hand out, the last
/// level first.
spec fn stack_pending<'a>(frames: Seq<IterType<'a>>) -> Seq<CommandView>
    decreases frames.len(),
{
    if frames.len() == 0 {
        Seq::empty()
    } else {
        frames.last().pending() + stack_pending(frames.drop_last())
    }
}

spec fn stack_weight<'a>(frames: Seq<IterType<'a>>) -> nat
    decreases frames.len(),
{
    if frames.len() == 0 {
        0
    } else {
        frames.last().weight() + stack_weight(frames.drop_last())
    }
}

spec fn stack_wf<'a>(frames: Seq<IterType<'a>>) -> bool {
    forall|k: int| 0 <= k < frames.len() ==> (#[trigger] frames[k]).wf()
}

/// What a level put onto a stack adds to the stack.
proof fn lemma_stack_push<'a>(frames: Seq<IterType<'a>>, frame: IterType<'a>)
    ensures
        stack_pending(frames.push(frame)) == frame.pending() + stack_pending(frames),
        stack_weight(frames.push(frame)) == frame.weight() + stack_weight(frames),
        stack_wf(frames) && frame.wf() ==> stack_wf(frames.push(frame)),
{
    let pushed = frames.push(frame);
    assert(pushed.last() == frame);
    assert(pushed.drop_last() =~= frames);
}

/// A walk over the commands of a tree. It keeps the levels it has entered on
/// a stack of its own, so that the depth of the tree costs no call stack.
pub struct Iter<'a> {
    stack: Vec<IterType<'a>>,
}

impl<'a> View for Iter<'a> {
    type V = Seq<CommandView>;

    /// The commands still to come, in the order in which they will come.
    closed spec fn view(&self) -> Seq<CommandView> {
        stack_pending(self.stack@)
    }
}

impl<'a> Iter<'a> {
    #[verifier::type_invariant]
    spec fn inv(self) -> bool {
        stack_wf(self.stack@)
    }

    fn new(node: &'a Node) -> (r: Self)
        ensures
            r@ == node@.flatten(),
    {
        let mut stack: Vec<IterType<'a>> = Vec::new();
        let root = IterType::Group(node.groups.as_slice(), 0, node.commands.as_slice());
        stack.push(root);
        proof {
            node.lemma_view();
            let empty = Seq::<IterType<'a>>::empty();
            lemma_stack_push(empty, root);
            assert(stack@ =~= empty.push(root));
            assert(stack_pending(empty) =~= Seq::empty());
            assert(root.pending() + Seq::<CommandView>::empty() =~= node@.flatten());
        }
        Iter { stack }
    }

    /// Hands out the next command, or `None` once every command was handed
    /// out.
    pub fn next(&mut self) -> (r: Option<&'a Command>)
        ensures
            old(self)@.len() == 0 ==> r is None && final(self)@ == old(self)@,
            old(self)@.len() > 0 ==> r is Some && r->0@ == old(self)@[0] && final(self)@ == old(
                self,
            )@.skip(1),
    {
        proof {
            use_type_invariant(&*self);
        }
        let ghost ahead = self@;
        let mut stack: Vec<IterType<'a>> = Vec::new();
        std::mem::swap(&mut stack, &mut self.stack);
        let mut found: Option<&'a Command> = None;
        loop
            invariant_except_break
                found is None,
                stack_wf(stack@),
                stack_pending(stack@) == ahead,
            ensures
                stack_wf(stack@),
                ahead.len() == 0 ==> found is None && stack_pending(stack@) == ahead,
                ahead.len() > 0 ==> found is Some && found->0@ == ahead[0] && stack_pending(stack@)
                    == ahead.skip(1),
            decreases stack_weight(stack@),
        {
            let ghost before = stack@;
            let frame = match stack.pop() {
                Some(v) => v,
                None => {
                    assert(ahead =~= Seq::empty());
                    break;
                },
            };
            let ghost below = stack@;
            proof {
                assert(before =~= below.push(frame));
                lemma_stack_push(below, frame);
                assert(frame.wf());
                assert(stack_wf(below)) by {
                    assert forall|k: int| 0 <= k < below.len() implies (#[trigger] below[k]).wf() by {
                        assert(below[k] == before[k]);
                    }
                }
            }
            match frame {
                IterType::Group(groups, at, commands) => {
                    if at < groups.len() {
                        let grp = &groups[at];
                        let node = grp.node();
                        let inner_groups = node.groups.as_slice();
                        let inner_commands = node.commands.as_slice();
                        let parent = IterType::Group(groups, at + 1, commands);
                        let child = IterType::Group(inner_groups, 0, inner_commands);
                        proof {
                            node.lemma_view();
                            lemma_stack_push(below, parent);
                            lemma_stack_push(below.push(parent), child);
                            assert(groups_view(groups@)[at as int] == grp@);
                            assert(child.pending() =~= grp@.node.flatten());
                            assert(child.weight() == grp@.node.weight());
                            assert(frame.pending() =~= child.pending() + parent.pending());
                            assert(child.pending() + (parent.pending() + stack_pending(below))
                                =~= frame.pending() + stack_pending(below));
                            assert(frame.weight() == 1 + child.weight() + parent.weight());
                        }
                        stack.push(parent);
                        stack.push(child);
                    } else {
                        let leaf = IterType::Command(commands, 0);
                        proof {
                            lemma_stack_push(below, leaf);
                            assert(leaf.pending() =~= frame.pending());
                        }
                        stack.push(leaf);
                    }
                },
                IterType::Command(commands, at) => {
                    if at < commands.len() {
                        let cmd = &commands[at];
                        let leaf = IterType::Command(commands, at + 1);
                        proof {
                            lemma_stack_push(below, leaf);
                            assert(frame.pending()[0] == cmd@);
                            assert(leaf.pending() =~= frame.pending().skip(1));
                            assert(ahead[0] == cmd@);
                            assert(leaf.pending() + stack_pending(below) =~= ahead.skip(1));
                        }
                        stack.push(leaf);
                        found = Some(cmd);
                        break;
                    } else {
                        assert(frame.pending() =~= Seq::empty());
                        assert(stack_pending(below) =~= ahead);
                    }
                },
            }
        }
        self.stack = stack;
        found
    }
}

impl Node {
    /// A walk over every command of the level and of the levels below it.
    /// Each call starts a walk of its own, from the first command.
    pub fn iter(&self) -> (r: Iter<'_>)
        ensures
            r@ == self@.flatten(),
    {
        Iter::new(self)
    }
}

impl Group {
    /// A walk over every command below the group.
    pub fn iter(&self) -> (r: Iter<'_>)
        ensures
            r@ == self@.node.flatten(),
    {
        self.node().iter()
    }
}

/// A command with the name under which a listing shows it.
pub type Listed = (Seq<char>, CommandView);

/// Each command under its own name.
pub open spec fn own_listing(commands: Seq<CommandView>) -> Seq<Listed> {
    Seq::new(commands.len(), |i: int| (commands[i].name, commands[i]))
}

/// Each entry with `prefix` and a space before its name.
pub open spec fn prefixed(prefix: Seq<char>, entries: Seq<Listed>) -> Seq<Listed> {
    Seq::new(entries.len(), |i: int| (prefix + seq![' '] + entries[i].0, entries[i].1))
}

/// The listings of the groups from position `from` on, each entry under the
/// name of its group and its name within the group.
pub open spec fn listing_groups(groups: Seq<GroupView>, from: int) -> Seq<Listed>
    decreases groups, groups.len() - from,
{
    if 0 <= from < groups.len() {
        prefixed(groups[from].name, groups[from].node.listing()) + listing_groups(groups, from + 1)
    } else {
        Seq::empty()
    }
}

impl NodeView {
    /// Every command of the level and of the levels below it, each with the
    /// names of the groups that lead to it and its own name, parted by
    /// spaces; in the order of `flatten`.
    pub open spec fn listing(self) -> Seq<Listed>
        decreases self, 0int,
    {
        listing_groups(self.groups, 0) + own_listing(self.commands)
    }
}

/// The names of the entries, in order.
pub open spec fn listed_names(entries: Seq<Listed>) -> Seq<Seq<char>> {
    Seq::new(entries.len(), |i: int| entries[i].0)
}

/// Mathematical value of the entries of a listing.
pub open spec fn entries_view<'a>(entries: Seq<(String, &'a Command)>) -> Seq<Listed> {
    Seq::new(entries.len(), |i: int| (entries[i].0@, entries[i].1@))
}

impl Node {
    /// Every command of the level and of the levels below it, each with the
    /// name that leads to it from this level.
    pub fn list_commands(&self) -> (r: Vec<(String, &Command)>)
        ensures
            entries_view(r@) == self@.listing(),
        decreases self@,
    {
        let ghost view = self@;
        proof {
            self.lemma_view();
        }
        let groups = self.groups.as_slice();
        let commands = self.commands.as_slice();
        let mut out: Vec<(String, &Command)> = Vec::new();
        let mut i: usize = 0;
        assert(entries_view(out@) =~= Seq::empty());
        // Invariant: what is still to come of the groups, behind what was
        // listed, is the listing of all the groups.
        while i < groups.len()
            invariant
                i <= groups.len(),
                view == self@,
                view.groups == groups_view(groups@),
                entries_view(out@) + listing_groups(view.groups, i as int) == listing_groups(
                    view.groups,
                    0,
                ),
            decreases groups.len() - i,
        {
            let grp = &groups[i];
            assert(view.groups[i as int] == grp@);
            proof {
                grp.lemma_name();
            }
            let inner = grp.node().list_commands();
            let ghost listed = entries_view(out@);
            let ghost below = grp@.node.listing();
            let mut k: usize = 0;
            assert(prefixed(grp@.name, below).take(0) =~= Seq::empty());
            while k < inner.len()
                invariant
                    k <= inner.len(),
                    entries_view(inner@) == below,
                    grp.spec_name() == grp@.name,
                    entries_view(out@) == listed + prefixed(grp@.name, below).take(k as int),
                decreases inner.len() - k,
            {
                let ghost so_far = entries_view(out@);
                let mut full = grp.name().to_owned();
                full.append(" ");
                full.append(inner[k].0.as_str());
                proof {
                    reveal_strlit(" ");
                    assert(" "@ =~= seq![' ']);
                    assert(below[k as int] == (inner@[k as int].0@, inner@[k as int].1@));
                }
                out.push((full, inner[k].1));
                proof {
                    let entry = (grp@.name + seq![' '] + below[k as int].0, below[k as int].1);
                    assert(entries_view(out@) =~= so_far.push(entry));
                    assert(prefixed(grp@.name, below).take(k + 1) =~= prefixed(grp@.name, below).take(
                        k as int,
                    ).push(entry));
                    assert(so_far.push(entry) =~= listed + prefixed(grp@.name, below).take(k + 1));
                }
                k += 1;
            }
            proof {
                assert(prefixed(grp@.name, below).take(k as int) =~= prefixed(grp@.name, below));
                assert((listed + prefixed(grp@.name, below)) + listing_groups(view.groups, i + 1)
                    =~= listed + listing_groups(view.groups, i as int));
            }
            i += 1;
        }
        let ghost from_groups = entries_view(out@);
        assert(from_groups =~= listing_groups(view.groups, 0));
        let mut j: usize = 0;
        assert(own_listing(view.commands).take(0) =~= Seq::empty());
        while j < commands.len()
            invariant
                j <= commands.len(),
                view.commands == commands_view(commands@),
                entries_view(out@) == from_groups + own_listing(view.commands).take(j as int),
            decreases commands.len() - j,
        {
            let ghost so_far = entries_view(out@);
            let cmd = &commands[j];
            out.push((cmd.name().to_owned(), cmd));
            proof {
                let entry = (cmd@.name, cmd@);
                assert(view.commands[j as int] == cmd@);
                assert(entries_view(out@) =~= so_far.push(entry));
                assert(own_listing(view.commands).take(j + 1) =~= own_listing(view.commands).take(
                    j as int,
                ).push(entry));
                assert(so_far.push(entry) =~= from_groups + own_listing(view.commands).take(j + 1));
            }
            j += 1;
        }
        assert(own_listing(view.commands).take(j as int) =~= own_listing(view.commands));
        out
    }

    /// The names under which `list_commands` shows the commands.
    pub fn list_commands_names(&self) -> (r: Vec<String>)
        ensures
            crate::tree::strings_view(r@) == listed_names(self@.listing()),
    {
        let entries = self.list_commands();
        let ghost listing = self@.listing();
        let mut out: Vec<String> = Vec::new();
        let mut i: usize = 0;
        assert(crate::tree::strings_view(out@) =~= listed_names(listing).take(0));
        while i < entries.len()
            invariant
                i <= entries.len(),
                entries_view(entries@) == listing,
                crate::tree::strings_view(out@) == listed_names(listing).take(i as int),
            decreases entries.len() - i,
        {
            let ghost so_far = crate::tree::strings_view(out@);
            out.push(entries[i].0.clone());
            proof {
                assert(listing[i as int] == (entries@[i as int].0@, entries@[i as int].1@));
                assert(crate::tree::strings_view(out@) =~= so_far.push(listing[i as int].0));
                assert(so_far.push(listing[i as int].0) =~= listed_names(listing).take(i + 1));
            }
            i += 1;
        }
        assert(listed_names(listing).take(i as int) =~= listed_names(listing));
        out
    }
}

impl NodeView {
    /// The number of commands of the level and of the levels below it.
    pub open spec fn count(self) -> nat
        decreases self, 0int,
    {
        self.commands.len() + groups_count(self.groups, 0)
    }
}

/// The number of commands below the groups from position `from` on.
pub open spec fn groups_count(groups: Seq<GroupView>, from: int) -> nat
    decreases groups, groups.len() - from,
{
    if 0 <= from < groups.len() {
        groups[from].node.count() + groups_count(groups, from + 1)
    } else {
        0
    }
}

/// A walk hands out as many commands as the tree holds.
pub proof fn lemma_flatten_len(node: NodeView)
    ensures
        node.flatten().len() == node.count(),
    decreases node, 0int,
{
    lemma_flatten_groups_len(node.groups, 0);
}

/// A walk below some groups hands out as many commands as they hold.
pub proof fn lemma_flatten_groups_len(groups: Seq<GroupView>, from: int)
    ensures
        flatten_groups(groups, from).len() == groups_count(groups, from),
    decreases groups, groups.len() - from,
{
    if 0 <= from < groups.len() {
        lemma_flatten_len(groups[from].node);
        lemma_flatten_groups_len(groups, from + 1);
    }
}

/// The number of commands that the groups before position `upto` hold
/// themselves.
pub open spec fn nested_before(groups: Seq<GroupView>, upto: int) -> int
    decreases upto,
{
    if upto <= 0 {
        0
    } else {
        nested_before(groups, upto - 1) + groups[upto - 1].node.commands.len()
    }
}

/// Whether the groups of the level hold commands only, no groups.
pub open spec fn one_level(node: NodeView) -> bool {
    forall|i: int| 0 <= i < node.groups.len() ==> (#[trigger] node.groups[i]).node.groups.len() == 0
}

/// `nested_before` grows with the position.
pub proof fn lemma_nested_before_grows(groups: Seq<GroupView>, a: int, b: int)
    requires
        0 <= a <= b,
    ensures
        0 <= nested_before(groups, a) <= nested_before(groups, b),
    decreases b,
{
    if a < b {
        lemma_nested_before_grows(groups, a, b - 1);
    } else if a > 0 {
        lemma_nested_before_grows(groups, a - 1, a - 1);
    }
}

/// The position at which a walk over a level, whose groups hold commands
/// only, hands out command `j` of group `i`.
pub open spec fn nested_position(groups: Seq<GroupView>, i: int, j: int) -> int {
    nested_before(groups, i) + j
}

/// Below groups that hold commands only, a walk from position `from` on
/// hands out the commands of each group in a row, group after group.
proof fn lemma_flatten_groups_one_level(groups: Seq<GroupView>, from: int)
    requires
        0 <= from <= groups.len(),
        forall|i: int| 0 <= i < groups.len() ==> (#[trigger] groups[i]).node.groups.len() == 0,
    ensures
        flatten_groups(groups, from).len() == nested_before(groups, groups.len() as int)
            - nested_before(groups, from),
        forall|i: int, j: int|
            from <= i < groups.len() && 0 <= j < groups[i].node.commands.len() ==> 0
                <= #[trigger] nested_position(groups, i, j) - nested_before(groups, from)
                < flatten_groups(groups, from).len(),
        forall|i: int, j: int|
            from <= i < groups.len() && 0 <= j < groups[i].node.commands.len() ==> flatten_groups(
                groups,
                from,
            )[#[trigger] nested_position(groups, i, j) - nested_before(groups, from)]
                == groups[i].node.commands[j],
    decreases groups.len() - from,
{
    lemma_nested_before_grows(groups, from, groups.len() as int);
    if from < groups.len() {
        let here = groups[from].node;
        lemma_flatten_groups_one_level(groups, from + 1);
        assert(flatten_groups(here.groups, 0) =~= Seq::empty());
        assert(here.flatten() =~= here.commands);
        let rest = flatten_groups(groups, from + 1);
        let all = flatten_groups(groups, from);
        assert(all == here.commands + rest);
        assert(nested_before(groups, from + 1) == nested_before(groups, from) + here.commands.len());
        assert forall|i: int, j: int|
            from <= i < groups.len() && 0 <= j < groups[i].node.commands.len() implies 0
            <= #[trigger] nested_position(groups, i, j) - nested_before(groups, from) < all.len()
            && all[nested_position(groups, i, j) - nested_before(groups, from)]
            == groups[i].node.commands[j] by {
            let at = nested_position(groups, i, j) - nested_before(groups, from);
            if i > from {
                lemma_nested_before_grows(groups, from + 1, i);
                let inner = nested_position(groups, i, j) - nested_before(groups, from + 1);
                assert(0 <= inner < rest.len());
                assert(rest[inner] == groups[i].node.commands[j]);
                assert(at == here.commands.len() + inner);
                assert(all[at] == rest[inner]);
            } else {
                assert(at == j);
                assert(all[at] == here.commands[j]);
            }
        }
    }
}

/// Of a tree with commands at its top level and in groups one level down: a
/// walk hands out as many commands as the tree holds, first those of each
/// group in a row, group after group, then the top level's own. Each
/// command of the tree stands at a position of its own.
pub proof fn lemma_flatten_one_level(node: NodeView)
    requires
        one_level(node),
    ensures
        node.flatten().len() == nested_before(node.groups, node.groups.len() as int)
            + node.commands.len(),
        forall|i: int, j: int|
            0 <= i < node.groups.len() && 0 <= j < node.groups[i].node.commands.len() ==> {
                &&& nested_before(node.groups, i) <= #[trigger] nested_position(node.groups, i, j)
                    < nested_before(node.groups, i + 1)
                &&& nested_before(node.groups, i + 1) <= nested_before(
                    node.groups,
                    node.groups.len() as int,
                )
                &&& node.flatten()[nested_position(node.groups, i, j)]
                    == node.groups[i].node.commands[j]
            },
        forall|j: int|
            0 <= j < node.commands.len() ==> node.flatten()[nested_before(
                node.groups,
                node.groups.len() as int,
            ) + j] == #[trigger] node.commands[j],
{
    let groups = node.groups;
    lemma_flatten_groups_one_level(groups, 0);
    assert forall|i: int, j: int|
        0 <= i < groups.len() && 0 <= j < groups[i].node.commands.len() implies {
        &&& nested_before(groups, i) <= #[trigger] nested_position(groups, i, j) < nested_before(
            groups,
            i + 1,
        )
        &&& nested_before(groups, i + 1) <= nested_before(groups, groups.len() as int)
        &&& node.flatten()[nested_position(groups, i, j)] == groups[i].node.commands[j]
    } by {
        lemma_nested_before_grows(groups, i + 1, groups.len() as int);
        let at = nested_position(groups, i, j);
        assert(0 <= at - nested_before(groups, 0) < flatten_groups(groups, 0).len());
        assert(flatten_groups(groups, 0)[at - nested_before(groups, 0)] == groups[i].node.commands[j]);
    }
}

/// The commands of the entries, in order.
pub open spec fn listed_commands(entries: Seq<Listed>) -> Seq<CommandView> {
    Seq::new(entries.len(), |i: int| entries[i].1)
}

/// A listing shows the commands that a walk hands out, in the same order.
pub proof fn lemma_listing_follows_walk(node: NodeView)
    ensures
        listed_commands(node.listing()) == node.flatten(),
    decreases node, 0int,
{
    lemma_listing_groups_follows_walk(node.groups, 0);
    assert(listed_commands(own_listing(node.commands)) =~= node.commands);
    assert(listed_commands(node.listing()) =~= listed_commands(listing_groups(node.groups, 0))
        + listed_commands(own_listing(node.commands)));
}

/// The listings of some groups show the commands that a walk below them
/// hands out, in the same order.
pub proof fn lemma_listing_groups_follows_walk(groups: Seq<GroupView>, from: int)
    ensures
        listed_commands(listing_groups(groups, from)) == flatten_groups(groups, from),
    decreases groups, groups.len() - from,
{
    if 0 <= from < groups.len() {
        let here = groups[from];
        lemma_listing_follows_walk(here.node);
        lemma_listing_groups_follows_walk(groups, from + 1);
        let first = prefixed(here.name, here.node.listing());
        assert(listed_commands(first) =~= listed_commands(here.node.listing()));
        assert(listed_commands(first + listing_groups(groups, from + 1)) =~= listed_commands(first)
            + listed_commands(listing_groups(groups, from + 1)));
    } else {
        assert(listed_commands(listing_groups(groups, from)) =~= Seq::empty());
    }
}

} // verus!
