//! Matching a tokenized line against the tree.

use std::collections::VecDeque;
use vstd::prelude::*;
use vstd::slice::slice_subrange;
use crate::container::{Named, names_of, position};
use crate::error::{ParseError, ParseErrorView};
use crate::matching;
use crate::matching::{
    MatchView, Parameter, ParameterView, is_given, lemma_param_names, opt_view, param_names,
    params_view,
};
use crate::search::{first_true, lemma_first_true_is, lemma_name_position, name_position};
use crate::text::{flag_name, is_flag, starts_with_dash, str_eq, strip_dash, strs_view};
use crate::tree::{
    Argument, ArgumentView, Command, CommandView, Group, GroupView, Node, NodeView, arguments_view,
    command_names, group_names,
};

verus! {

/// The names of the arguments, in declared order.
pub open spec fn argument_names(params: Seq<ArgumentView>) -> Seq<Seq<char>> {
    Seq::new(params.len(), |i: int| params[i].name)
}

/// The position of the first argument of `params` named `name`;
/// `params.len()` if there is none.
pub open spec fn argument_position(params: Seq<ArgumentView>, name: Seq<char>) -> int {
    name_position(argument_names(params), name)
}

/// For each argument, whether it is required and was not given.
pub open spec fn missing_flags(params: Seq<ArgumentView>, given: Seq<ParameterView>) -> Seq<bool> {
    Seq::new(params.len(), |i: int| params[i].required && !is_given(given, params[i].name))
}

/// The position of the first required argument of `params` that is not among
/// `given`; `params.len()` if none is missing.
pub open spec fn missing_position(params: Seq<ArgumentView>, given: Seq<ParameterView>) -> int {
    first_true(missing_flags(params, given))
}

/// What a scan of the tokens behind a command's name has collected.
pub struct Scan {
    pub params: Seq<ParameterView>,
    pub arguments: Seq<Seq<char>>,
}

/// The permission that holds below a level that may declare one: its own
/// where it has one, else the one handed down.
pub open spec fn effective_permission(
    own: Option<Seq<char>>,
    inherited: Option<Seq<char>>,
) -> Option<Seq<char>> {
    if own is Some {
        own
    } else {
        inherited
    }
}

/// Scans `tokens` from `at` on, left to right, adding to `acc`. A token with
/// a dash names a declared argument and takes the next token as its value; a
/// token without one is a positional argument, which only a command that
/// declares them accepts.
pub open spec fn scan(cmd: CommandView, tokens: Seq<Seq<char>>, at: int, acc: Scan) -> Result<
    Scan,
    ParseErrorView,
>
    decreases tokens.len() - at,
{
    if at < 0 || at >= tokens.len() {
        Ok(acc)
    } else if !is_flag(tokens[at]) {
        if cmd.arguments is Some {
            scan(
                cmd,
                tokens,
                at + 1,
                Scan { params: acc.params, arguments: acc.arguments.push(tokens[at]) },
            )
        } else {
            Err(ParseErrorView::UnknownParameter(tokens[at]))
        }
    } else {
        let name = flag_name(tokens[at]);
        let p = argument_position(cmd.params, name);
        if p >= cmd.params.len() {
            Err(ParseErrorView::UnknownParameter(name))
        } else if at + 1 >= tokens.len() {
            Err(ParseErrorView::MissingParameterValue(tokens[at]))
        } else {
            scan(
                cmd,
                tokens,
                at + 2,
                Scan {
                    params: acc.params.push(
                        ParameterView {
                            name: name,
                            kind: cmd.params[p].value_type,
                            value: tokens[at + 1],
                        },
                    ),
                    arguments: acc.arguments,
                },
            )
        }
    }
}

/// The outcome of matching `tokens` against one command, with `inherited`
/// the permission handed down to it. Tokens that do not begin with the
/// command's name, and so no tokens at all, do not match.
pub open spec fn match_command(
    cmd: CommandView,
    inherited: Option<Seq<char>>,
    tokens: Seq<Seq<char>>,
) -> Result<MatchView, ParseErrorView> {
    if tokens.len() == 0 || tokens[0] != cmd.name {
        Err(ParseErrorView::NotMatched)
    } else {
        match scan(cmd, tokens, 1, Scan { params: Seq::empty(), arguments: Seq::empty() }) {
            Err(e) => Err(e),
            Ok(found) => {
                let m = missing_position(cmd.params, found.params);
                if m < cmd.params.len() {
                    Err(ParseErrorView::RequiredParameters(cmd.params[m].name))
                } else {
                    Ok(
                        MatchView {
                            path: seq![tokens[0]],
                            params: found.params,
                            permission: effective_permission(cmd.permission, inherited),
                            arguments: found.arguments,
                            id: cmd.id,
                        },
                    )
                }
            },
        }
    }
}

/// The outcome of matching `tokens` against one level of the tree, with
/// `inherited` the permission handed down to it. The first token names a
/// command of the level, which then takes all the tokens, or else a group,
/// which takes the tokens behind its name; the names of the groups walked
/// stand before the command's in the path.
pub open spec fn match_node(
    node: NodeView,
    inherited: Option<Seq<char>>,
    tokens: Seq<Seq<char>>,
) -> Result<MatchView, ParseErrorView>
    decreases tokens.len(), 0int,
{
    if tokens.len() == 0 {
        Err(ParseErrorView::ExpectedPath(Seq::empty()))
    } else if is_flag(tokens[0]) {
        Err(ParseErrorView::ExpectedPath(tokens[0]))
    } else {
        let c = name_position(command_names(node.commands), tokens[0]);
        let g = name_position(group_names(node.groups), tokens[0]);
        if 0 <= c < node.commands.len() {
            match_command(node.commands[c], inherited, tokens)
        } else if 0 <= g < node.groups.len() {
            match match_group(node.groups[g], inherited, tokens.skip(1)) {
                Ok(m) => Ok(MatchView { path: seq![tokens[0]] + m.path, ..m }),
                Err(e) => Err(e),
            }
        } else {
            Err(ParseErrorView::NotMatched)
        }
    }
}

/// The outcome of matching `tokens`, those behind the group's name, against
/// what the group holds. The group's own permission, where it has one, takes
/// the place of the one handed down.
pub open spec fn match_group(
    group: GroupView,
    inherited: Option<Seq<char>>,
    tokens: Seq<Seq<char>>,
) -> Result<MatchView, ParseErrorView>
    decreases tokens.len(), 1int,
{
    match_node(group.node, effective_permission(group.permission, inherited), tokens)
}

/// Whether `tokens` begin with the command's name.
pub open spec fn command_has_name(cmd: CommandView, tokens: Seq<Seq<char>>) -> bool {
    tokens.len() > 0 && tokens[0] == cmd.name
}

/// Whether `tokens` begin with the group's name and go on with the path of
/// a command below it.
pub open spec fn group_has_name(group: GroupView, tokens: Seq<Seq<char>>) -> bool
    decreases tokens.len(), 0int,
{
    tokens.len() > 0 && tokens[0] == group.name && node_has_name(group.node, tokens.skip(1))
}

/// Whether `tokens` begin with the path of a command of this level or of a
/// level below: the names of the groups on the way, then the command's.
pub open spec fn node_has_name(node: NodeView, tokens: Seq<Seq<char>>) -> bool
    decreases tokens.len(), 1int,
{
    ||| exists|i: int| 0 <= i < node.groups.len() && group_has_name(#[trigger] node.groups[i], tokens)
    ||| exists|j: int| 0 <= j < node.commands.len() && command_has_name(#[trigger] node.commands[j], tokens)
}

/// The mathematical value of what a match returns.
pub open spec fn outcome_view<'a>(r: Result<matching::Command<'a>, ParseError<'a>>) -> Result<
    MatchView,
    ParseErrorView,
> {
    match r {
        Ok(c) => Ok(c@),
        Err(e) => Err(e@),
    }
}

/// The position of the first of `params` named `name`, or their number.
fn find_argument(params: &Vec<Argument>, name: &str) -> (p: usize)
    ensures
        p == argument_position(arguments_view(params@), name@),
        p <= params.len(),
{
    assert(names_of(params@) =~= argument_names(arguments_view(params@)));
    position(params.as_slice(), name)
}

/// Tells whether one of `given` is named `name`.
fn was_given<'a>(given: &Vec<Parameter<'a>>, name: &str) -> (r: bool)
    ensures
        r == is_given(params_view(given@), name@),
{
    proof {
        lemma_param_names(given@);
        lemma_name_position(param_names(params_view(given@)), name@);
    }
    position(given.as_slice(), name) < given.len()
}

/// The position of the first required one of `params` that is not among
/// `given`, or the number of `params`.
fn find_missing<'a>(params: &Vec<Argument>, given: &Vec<Parameter<'a>>) -> (m: usize)
    ensures
        m == missing_position(arguments_view(params@), params_view(given@)),
        m <= params.len(),
{
    let ghost flags = missing_flags(arguments_view(params@), params_view(given@));
    let mut i: usize = 0;
    while i < params.len()
        invariant
            i <= params.len(),
            flags == missing_flags(arguments_view(params@), params_view(given@)),
            forall|k: int| 0 <= k < i ==> !flags[k],
        decreases params.len() - i,
    {
        let missing = params[i].required && !was_given(given, params[i].name.as_str());
        assert(missing == flags[i as int]);
        if missing {
            proof {
                lemma_first_true_is(flags, i as int);
            }
            return i;
        }
        i += 1;
    }
    proof {
        lemma_first_true_is(flags, i as int);
    }
    i
}

impl Command {
    /// Matches `args` against the command; they match only where they begin
    /// with the command's name. `permission` is the permission handed down
    /// by the groups above; the command's own permission, where it has one,
    /// takes its place.
    pub fn try_match<'a>(&'a self, permission: Option<&'a str>, args: &[&'a str]) -> (r: Result<
        matching::Command<'a>,
        ParseError<'a>,
    >)
        ensures
            outcome_view(r) == match_command(self@, opt_view(permission), strs_view(args@)),
    {
        let ghost cmd = self@;
        let ghost tokens = strs_view(args@);
        if args.len() == 0 || !str_eq(args[0], self.name.as_str()) {
            return Err(ParseError::NotMatched);
        }
        let permission = match &self.permission {
            Some(v) => Some(v.as_str()),
            None => permission,
        };
        let mut params: Vec<Parameter<'a>> = Vec::new();
        let mut arguments: Vec<&'a str> = Vec::new();
        let ghost start = Scan { params: Seq::empty(), arguments: Seq::empty() };
        assert(params_view(params@) =~= start.params);
        assert(strs_view(arguments@) =~= start.arguments);
        let mut i: usize = 1;
        while i < args.len()
            invariant
                1 <= i <= args.len(),
                cmd == self@,
                tokens == strs_view(args@),
                tokens[0] == cmd.name,
                start == (Scan { params: Seq::empty(), arguments: Seq::empty() }),
                scan(cmd, tokens, 1, start) == scan(
                    cmd,
                    tokens,
                    i as int,
                    Scan { params: params_view(params@), arguments: strs_view(arguments@) },
                ),
            decreases args.len() - i,
        {
            let token = args[i];
            let ghost acc = Scan { params: params_view(params@), arguments: strs_view(arguments@) };
            assert(tokens[i as int] == token@);
            if !starts_with_dash(token) {
                if self.arguments.is_some() {
                    arguments.push(token);
                    assert(strs_view(arguments@) =~= acc.arguments.push(token@));
                    i += 1;
                } else {
                    return Err(ParseError::UnknownParameter(token));
                }
            } else {
                let name = strip_dash(token);
                let p = find_argument(&self.params, name);
                if p >= self.params.len() {
                    return Err(ParseError::UnknownParameter(name));
                }
                if i + 1 >= args.len() {
                    return Err(ParseError::MissingParameterValue(token));
                }
                let value = args[i + 1];
                assert(tokens[i + 1] == value@);
                assert(cmd.params[p as int].value_type == self.params[p as int].value_type);
                params.push(Parameter { name, kind: self.params[p].value_type, value });
                assert(params_view(params@) =~= acc.params.push(
                    ParameterView { name: name@, kind: cmd.params[p as int].value_type, value: value@ },
                ));
                i += 2;
            }
        }
        let m = find_missing(&self.params, &params);
        if m < self.params.len() {
            assert(cmd.params[m as int].name == self.params[m as int].name@);
            return Err(ParseError::RequiredParameters(self.params[m].name.clone()));
        }
        let mut path: VecDeque<&'a str> = VecDeque::new();
        path.push_back(args[0]);
        assert(strs_view(path@) =~= seq![tokens[0]]);
        let id = match &self.id {
            Some(v) => Some(v.as_str()),
            None => None,
        };
        Ok(matching::Command { path, params, permission, arguments, id })
    }
}

/// The tokens behind the first one.
fn rest<'a, 'b>(args: &'b [&'a str]) -> (r: &'b [&'a str])
    requires
        args@.len() > 0,
    ensures
        r@ == args@.skip(1),
        strs_view(r@) == strs_view(args@).skip(1),
{
    let r = slice_subrange(args, 1, args.len());
    assert(r@ =~= args@.skip(1));
    assert(strs_view(r@) =~= strs_view(args@).skip(1));
    r
}

impl Node {
    /// Matches `args` against this level of the tree. `permission` is the
    /// permission that holds where no group or command on the way declares
    /// one.
    pub fn try_match<'a>(&'a self, permission: Option<&'a str>, args: &[&'a str]) -> (r: Result<
        matching::Command<'a>,
        ParseError<'a>,
    >)
        ensures
            outcome_view(r) == match_node(self@, opt_view(permission), strs_view(args@)),
        decreases args@.len(), 0int,
    {
        let ghost tokens = strs_view(args@);
        if args.len() == 0 {
            proof {
                reveal_strlit("");
                assert(""@ =~= Seq::<char>::empty());
            }
            return Err(ParseError::ExpectedPath(""));
        }
        assert(tokens[0] == args@[0]@);
        if starts_with_dash(args[0]) {
            return Err(ParseError::ExpectedPath(args[0]));
        }
        proof {
            self.lemma_view();
            lemma_name_position(names_of(self.commands@), tokens[0]);
            lemma_name_position(names_of(self.groups@), tokens[0]);
        }
        match self.commands.find(args[0]) {
            Some(cmd) => cmd.try_match(permission, args),
            None => match self.groups.find(args[0]) {
                Some(grp) => {
                    match grp.try_match(permission, rest(args)) {
                        Ok(found) => {
                            let mut found = found;
                            let ghost inner = found@;
                            found.path.push_front(args[0]);
                            assert(found@.path =~= seq![tokens[0]] + inner.path);
                            Ok(found)
                        },
                        Err(e) => Err(e),
                    }
                },
                None => Err(ParseError::NotMatched),
            },
        }
    }
}

impl Group {
    /// Matches `args`, the tokens behind the group's name, against what the
    /// group holds. The group's own permission, where it has one, takes the
    /// place of `permission`.
    pub fn try_match<'a>(&'a self, permission: Option<&'a str>, args: &[&'a str]) -> (r: Result<
        matching::Command<'a>,
        ParseError<'a>,
    >)
        ensures
            outcome_view(r) == match_group(self@, opt_view(permission), strs_view(args@)),
        decreases args@.len(), 1int,
    {
        let permission = match self.permission() {
            Some(own) => Some(own),
            None => permission,
        };
        self.node().try_match(permission, args)
    }
}

impl Command {
    /// Tells whether `args` begin with the command's name.
    pub fn has_command_name(&self, args: &[&str]) -> (r: bool)
        ensures
            r == command_has_name(self@, strs_view(args@)),
    {
        args.len() > 0 && str_eq(self.name.as_str(), args[0])
    }
}

impl Group {
    /// Tells whether `args` begin with the group's name and go on with the
    /// path of a command below it.
    pub fn has_command_name(&self, args: &[&str]) -> (r: bool)
        ensures
            r == group_has_name(self@, strs_view(args@)),
        decreases args@.len(), 0int,
    {
        proof {
            self.lemma_name();
        }
        if args.len() > 0 && str_eq(self.name(), args[0]) {
            self.node().has_command_name(rest(args))
        } else {
            false
        }
    }
}

impl Node {
    /// Tells whether `args` begin with the path of a command of this level
    /// or of a level below.
    pub fn has_command_name(&self, args: &[&str]) -> (r: bool)
        ensures
            r == node_has_name(self@, strs_view(args@)),
        decreases args@.len(), 1int,
    {
        let ghost tokens = strs_view(args@);
        let ghost view = self@;
        if args.len() == 0 {
            return false;
        }
        assert(tokens[0] == args@[0]@);
        proof {
            self.lemma_view();
            lemma_name_position(names_of(self.commands@), tokens[0]);
            lemma_name_position(names_of(self.groups@), tokens[0]);
        }
        let ghost g = name_position(group_names(view.groups), tokens[0]);
        let ghost c = name_position(command_names(view.commands), tokens[0]);
        let in_group = match self.groups.find(args[0]) {
            Some(grp) => grp.has_command_name(args),
            None => false,
        };
        proof {
            // A group other than the one found has another name.
            assert forall|i: int| 0 <= i < view.groups.len() && i != g implies !group_has_name(
                #[trigger] view.groups[i],
                tokens,
            ) by {
                if g < view.groups.len() {
                    assert(group_names(view.groups)[i] != group_names(view.groups)[g]);
                } else {
                    assert(group_names(view.groups)[i] != tokens[0]);
                }
            }
            if in_group {
                assert(group_has_name(view.groups[g], tokens));
            }
        }
        if in_group {
            return true;
        }
        let found = self.commands.find(args[0]).is_some();
        proof {
            if found {
                assert(command_has_name(view.commands[c], tokens));
            } else {
                assert forall|j: int| 0 <= j < view.commands.len() implies !command_has_name(
                    #[trigger] view.commands[j],
                    tokens,
                ) by {
                    assert(command_names(view.commands)[j] != tokens[0]);
                }
            }
        }
        found
    }
}

} // verus!
