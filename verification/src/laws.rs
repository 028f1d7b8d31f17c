//! What holds of matching, whatever the tree and the line.

use vstd::prelude::*;
use crate::error::ParseErrorView;
use crate::matcher::{
    Scan, argument_names, argument_position, command_has_name, effective_permission,
    group_has_name, match_command, match_group, match_node, missing_flags, missing_position,
    node_has_name, scan,
};
use crate::matching::{MatchView, ParameterView, is_given};
use crate::search::{lemma_first_true, lemma_name_position, name_position};
use crate::text::{flag_name, is_flag};
use crate::tree::{CommandView, GroupView, NodeView, command_names, group_names};

verus! {

/// Whether a failure is one of the two kinds that are kept for other uses
/// and that no match returns.
pub open spec fn is_reserved(e: ParseErrorView) -> bool {
    e is Todo || e is PartiallyNotMatched
}

/// A scan fails with neither of the reserved kinds.
pub proof fn lemma_scan_not_reserved(cmd: CommandView, tokens: Seq<Seq<char>>, at: int, acc: Scan)
    ensures
        scan(cmd, tokens, at, acc) matches Err(e) ==> !is_reserved(e),
    decreases tokens.len() - at,
{
    if 0 <= at < tokens.len() {
        if !is_flag(tokens[at]) {
            if cmd.arguments is Some {
                lemma_scan_not_reserved(
                    cmd,
                    tokens,
                    at + 1,
                    Scan { params: acc.params, arguments: acc.arguments.push(tokens[at]) },
                );
            }
        } else {
            let name = flag_name(tokens[at]);
            let p = argument_position(cmd.params, name);
            if p < cmd.params.len() && at + 1 < tokens.len() {
                lemma_scan_not_reserved(
                    cmd,
                    tokens,
                    at + 2,
                    Scan {
                        params: acc.params.push(
                            ParameterView {
                                name: name,
                                kind: cmd.params[p].value_type,
                                value: tokens[at + 1],
                            },
                        ),
                        arguments: acc.arguments,
                    },
                );
            }
        }
    }
}

/// Matching against a command fails with neither of the reserved kinds.
pub proof fn lemma_match_command_not_reserved(
    cmd: CommandView,
    inherited: Option<Seq<char>>,
    tokens: Seq<Seq<char>>,
)
    ensures
        match_command(cmd, inherited, tokens) matches Err(e) ==> !is_reserved(e),
{
    lemma_scan_not_reserved(cmd, tokens, 1, Scan { params: Seq::empty(), arguments: Seq::empty() });
}

/// Matching against what a group holds fails with neither of the reserved
/// kinds.
pub proof fn lemma_match_group_not_reserved(
    group: GroupView,
    inherited: Option<Seq<char>>,
    tokens: Seq<Seq<char>>,
)
    ensures
        match_group(group, inherited, tokens) matches Err(e) ==> !is_reserved(e),
{
    lemma_match_not_reserved(group.node, effective_permission(group.permission, inherited), tokens);
}

/// Matching against a level of the tree fails with neither of the reserved
/// kinds, so that neither reaches a user.
pub proof fn lemma_match_not_reserved(
    node: NodeView,
    inherited: Option<Seq<char>>,
    tokens: Seq<Seq<char>>,
)
    ensures
        match_node(node, inherited, tokens) matches Err(e) ==> !is_reserved(e),
    decreases tokens.len(),
{
    if tokens.len() > 0 && !is_flag(tokens[0]) {
        let c = name_position(command_names(node.commands), tokens[0]);
        let g = name_position(group_names(node.groups), tokens[0]);
        if 0 <= c < node.commands.len() {
            lemma_match_command_not_reserved(node.commands[c], inherited, tokens);
        } else if 0 <= g < node.groups.len() {
            lemma_match_not_reserved(
                node.groups[g].node,
                effective_permission(node.groups[g].permission, inherited),
                tokens.skip(1),
            );
        }
    }
}

/// A match holds a path that is not empty and begins with the first token.
pub proof fn lemma_matched_path(
    node: NodeView,
    inherited: Option<Seq<char>>,
    tokens: Seq<Seq<char>>,
)
    ensures
        match_node(node, inherited, tokens) matches Ok(m) ==> m.path.len() > 0 && tokens.len() > 0
            && m.path[0] == tokens[0],
{
}

/// The permission of a matched command is its own where it declares one,
/// else the one handed down to it.
pub proof fn lemma_command_permission(
    cmd: CommandView,
    inherited: Option<Seq<char>>,
    tokens: Seq<Seq<char>>,
)
    ensures
        match_command(cmd, inherited, tokens) matches Ok(m) ==> m.permission == effective_permission(
            cmd.permission,
            inherited,
        ),
{
}

/// The permission of a command matched one group down: the command's own
/// where it declares one, else the group's where it declares one, else the
/// one handed down. What is declared closest to the command wins.
pub proof fn lemma_nested_permission(
    node: NodeView,
    inherited: Option<Seq<char>>,
    tokens: Seq<Seq<char>>,
    g: int,
    c: int,
)
    requires
        tokens.len() >= 2,
        !command_names(node.commands).contains(tokens[0]),
        g == name_position(group_names(node.groups), tokens[0]),
        0 <= g < node.groups.len(),
        c == name_position(command_names(node.groups[g].node.commands), tokens[1]),
        0 <= c < node.groups[g].node.commands.len(),
    ensures
        match_node(node, inherited, tokens) matches Ok(m) ==> m.permission == {
            let group = node.groups[g];
            let cmd = group.node.commands[c];
            if cmd.permission is Some {
                cmd.permission
            } else if group.permission is Some {
                group.permission
            } else {
                inherited
            }
        },
{
    let group = node.groups[g];
    let rest = tokens.skip(1);
    let down = effective_permission(group.permission, inherited);
    lemma_name_position(command_names(node.commands), tokens[0]);
    assert(rest[0] == tokens[1]);
    if !is_flag(tokens[0]) && !is_flag(rest[0]) {
        assert(match_node(group.node, down, rest) == match_command(group.node.commands[c], down, rest));
    }
}

/// A dash token that names no declared argument, right behind the
/// command's name, fails the match with the name it carries.
pub proof fn lemma_undeclared_parameter(
    cmd: CommandView,
    inherited: Option<Seq<char>>,
    tokens: Seq<Seq<char>>,
)
    requires
        tokens.len() >= 2,
        tokens[0] == cmd.name,
        is_flag(tokens[1]),
        !argument_names(cmd.params).contains(flag_name(tokens[1])),
    ensures
        match_command(cmd, inherited, tokens) == Err::<MatchView, ParseErrorView>(
            ParseErrorView::UnknownParameter(flag_name(tokens[1])),
        ),
{
    lemma_name_position(argument_names(cmd.params), flag_name(tokens[1]));
}

/// Whether every parameter of `given` names an argument that `cmd` declares
/// and has the kind that the first argument of that name declares.
pub open spec fn all_declared(cmd: CommandView, given: Seq<ParameterView>) -> bool {
    forall|k: int|
        0 <= k < given.len() ==> {
            let p = argument_position(cmd.params, (#[trigger] given[k]).name);
            0 <= p < cmd.params.len() && cmd.params[p].name == given[k].name && given[k].kind
                == cmd.params[p].value_type
        }
}

/// What a scan adds to what it was given: declared parameters only,
/// positional arguments only for a command that declares them, and one
/// token for each positional argument, two for each parameter.
pub proof fn lemma_scan_collects(cmd: CommandView, tokens: Seq<Seq<char>>, at: int, acc: Scan)
    requires
        0 <= at <= tokens.len(),
        all_declared(cmd, acc.params),
    ensures
        scan(cmd, tokens, at, acc) matches Ok(found) ==> {
            &&& all_declared(cmd, found.params)
            &&& found.arguments.len() + 2 * found.params.len() == acc.arguments.len() + 2
                * acc.params.len() + (tokens.len() - at)
            &&& cmd.arguments is None ==> found.arguments == acc.arguments
        },
    decreases tokens.len() - at,
{
    if at < tokens.len() {
        if !is_flag(tokens[at]) {
            if cmd.arguments is Some {
                lemma_scan_collects(
                    cmd,
                    tokens,
                    at + 1,
                    Scan { params: acc.params, arguments: acc.arguments.push(tokens[at]) },
                );
            }
        } else {
            let name = flag_name(tokens[at]);
            let p = argument_position(cmd.params, name);
            if p < cmd.params.len() && at + 1 < tokens.len() {
                let param = ParameterView {
                    name: name,
                    kind: cmd.params[p].value_type,
                    value: tokens[at + 1],
                };
                let next = acc.params.push(param);
                lemma_name_position(argument_names(cmd.params), name);
                assert forall|k: int| 0 <= k < next.len() implies {
                    let q = argument_position(cmd.params, (#[trigger] next[k]).name);
                    0 <= q < cmd.params.len() && cmd.params[q].name == next[k].name && next[k].kind
                        == cmd.params[q].value_type
                } by {
                    if k < acc.params.len() {
                        assert(next[k] == acc.params[k]);
                    }
                }
                lemma_scan_collects(cmd, tokens, at + 2, Scan { params: next, arguments: acc.arguments });
            }
        }
    }
}

/// Of a command that matched: every parameter found names an argument that
/// the command declares, with the kind declared; every required argument
/// was given; there are positional arguments only where the command
/// declares them; and every token behind the command's name went into one
/// positional argument or, two by two, into a parameter and its value.
pub proof fn lemma_matched_command(
    cmd: CommandView,
    inherited: Option<Seq<char>>,
    tokens: Seq<Seq<char>>,
)
    ensures
        match_command(cmd, inherited, tokens) matches Ok(m) ==> {
            &&& all_declared(cmd, m.params)
            &&& forall|i: int|
                0 <= i < cmd.params.len() && (#[trigger] cmd.params[i]).required ==> is_given(
                    m.params,
                    cmd.params[i].name,
                )
            &&& cmd.arguments is None ==> m.arguments.len() == 0
            &&& m.arguments.len() + 2 * m.params.len() == tokens.len() - 1
            &&& m.path == seq![cmd.name]
            &&& m.id == cmd.id
        },
{
    if tokens.len() > 0 && tokens[0] == cmd.name {
        let start = Scan { params: Seq::empty(), arguments: Seq::empty() };
        lemma_scan_collects(cmd, tokens, 1, start);
        match scan(cmd, tokens, 1, start) {
            Ok(found) => {
                let flags = missing_flags(cmd.params, found.params);
                lemma_first_true(flags);
                if missing_position(cmd.params, found.params) >= cmd.params.len() {
                    assert forall|i: int|
                        0 <= i < cmd.params.len() && (#[trigger] cmd.params[i]).required implies is_given(
                        found.params,
                        cmd.params[i].name,
                    ) by {
                        assert(!flags[i]);
                    }
                }
            },
            Err(_) => {},
        }
    }
}

/// A line that matches begins with the path of a command: what
/// `try_match` finds, `has_command_name` accepts.
pub proof fn lemma_match_follows_a_path(
    node: NodeView,
    inherited: Option<Seq<char>>,
    tokens: Seq<Seq<char>>,
)
    ensures
        match_node(node, inherited, tokens) is Ok ==> node_has_name(node, tokens),
    decreases tokens.len(),
{
    if tokens.len() > 0 && !is_flag(tokens[0]) {
        let c = name_position(command_names(node.commands), tokens[0]);
        let g = name_position(group_names(node.groups), tokens[0]);
        lemma_name_position(command_names(node.commands), tokens[0]);
        lemma_name_position(group_names(node.groups), tokens[0]);
        if 0 <= c < node.commands.len() {
            if match_command(node.commands[c], inherited, tokens) is Ok {
                assert(command_has_name(node.commands[c], tokens));
            }
        } else if 0 <= g < node.groups.len() {
            let group = node.groups[g];
            let down = effective_permission(group.permission, inherited);
            lemma_match_follows_a_path(group.node, down, tokens.skip(1));
            if match_node(group.node, down, tokens.skip(1)) is Ok {
                assert(group_names(node.groups)[g] == tokens[0]);
                assert(group_has_name(node.groups[g], tokens));
            }
        }
    }
}

} // verus!
