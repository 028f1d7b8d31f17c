//! What the matcher hands back when a line matched a command.

use std::collections::VecDeque;
use vstd::prelude::*;
use vstd::string::StringExecFns;
use crate::container::{Named, names_of, position};
use crate::search::{lemma_name_position, name_position};
use crate::text::{join, lemma_join_push, strs_view};
use crate::value_type::ValueType;

verus! {

/// Mathematical value of a [`Parameter`].
pub struct ParameterView {
    pub name: Seq<char>,
    pub kind: ValueType,
    pub value: Seq<char>,
}

/// A parameter that the matcher collected: the declared name and kind, and
/// the raw text given for it.
#[derive(Debug, PartialEq)]
pub struct Parameter<'a> {
    pub name: &'a str,
    pub kind: ValueType,
    pub value: &'a str,
}

impl<'a> View for Parameter<'a> {
    type V = ParameterView;

    open spec fn view(&self) -> ParameterView {
        ParameterView { name: self.name@, kind: self.kind, value: self.value@ }
    }
}

/// Views of a sequence of parameters, one by one.
pub open spec fn params_view<'a>(ps: Seq<Parameter<'a>>) -> Seq<ParameterView> {
    ps.map_values(|p: Parameter<'a>| p@)
}

/// Mathematical value of a matched [`Command`].
pub struct MatchView {
    pub path: Seq<Seq<char>>,
    pub params: Seq<ParameterView>,
    pub permission: Option<Seq<char>>,
    pub arguments: Seq<Seq<char>>,
    pub id: Option<Seq<char>>,
}

/// A command that the matcher found for a line.
#[derive(Debug, PartialEq)]
pub struct Command<'a> {
    /// Names from the root of the tree down to the command, the command last.
    pub path: VecDeque<&'a str>,
    /// The parameters given, in the order in which they were given.
    pub params: Vec<Parameter<'a>>,
    /// The permission needed to run the command; `None` lets everyone.
    pub permission: Option<&'a str>,
    /// The trailing positional arguments.
    pub arguments: Vec<&'a str>,
    /// The dotted identifier of the command, once identifiers were generated.
    pub id: Option<&'a str>,
}

/// View of an optional string slice.
pub open spec fn opt_view(o: Option<&str>) -> Option<Seq<char>> {
    match o {
        Some(s) => Some(s@),
        None => None,
    }
}

impl<'a> View for Command<'a> {
    type V = MatchView;

    open spec fn view(&self) -> MatchView {
        MatchView {
            path: strs_view(self.path@),
            params: params_view(self.params@),
            permission: opt_view(self.permission),
            arguments: strs_view(self.arguments@),
            id: opt_view(self.id),
        }
    }
}

/// The names of the parameters, in order.
pub open spec fn param_names(params: Seq<ParameterView>) -> Seq<Seq<char>> {
    Seq::new(params.len(), |i: int| params[i].name)
}

/// Whether one of the parameters given has the name `name`.
pub open spec fn is_given(given: Seq<ParameterView>, name: Seq<char>) -> bool {
    param_names(given).contains(name)
}

impl<'a> Named for Parameter<'a> {
    open spec fn spec_name(&self) -> Seq<char> {
        self.name@
    }

    fn name(&self) -> (r: &str) {
        self.name
    }
}

/// The parameters are known to a search by name under the names of their
/// views.
pub proof fn lemma_param_names<'a>(params: Seq<Parameter<'a>>)
    ensures
        names_of(params) == param_names(params_view(params)),
{
    assert(names_of(params) =~= param_names(params_view(params)));
}

impl<'a> Command<'a> {
    /// The name of the command: the last name of the path, which holds at
    /// least that name.
    pub fn get_command(&self) -> (r: &'a str)
        requires
            self@.path.len() > 0,
        ensures
            r@ == self@.path.last(),
    {
        self.path[self.path.len() - 1]
    }

    /// The names of the groups walked: the path without its last name.
    pub fn get_groups(&self) -> (r: Vec<&'a str>)
        ensures
            strs_view(r@) == if self@.path.len() > 0 {
                self@.path.drop_last()
            } else {
                Seq::empty()
            },
    {
        let mut out: Vec<&'a str> = Vec::new();
        let n = self.path.len();
        if n == 0 {
            assert(strs_view(out@) =~= Seq::empty());
            return out;
        }
        let mut i: usize = 0;
        assert(strs_view(out@) =~= self@.path.take(0));
        while i < n - 1
            invariant
                n == self.path@.len(),
                n > 0,
                i <= n - 1,
                strs_view(out@) == self@.path.take(i as int),
            decreases n - i,
        {
            let ghost so_far = strs_view(out@);
            out.push(self.path[i]);
            assert(strs_view(out@) =~= so_far.push(self.path@[i as int]@));
            assert(so_far.push(self.path@[i as int]@) =~= self@.path.take(i + 1));
            i += 1;
        }
        assert(self@.path.take(i as int) =~= self@.path.drop_last());
        out
    }

    /// The first parameter named `name`, if one was given.
    pub fn get_parameter(&self, name: &str) -> (r: Option<&Parameter<'a>>)
        ensures
            r is Some <==> is_given(self@.params, name@),
            r is Some ==> r->0@ == self@.params[name_position(param_names(self@.params), name@)],
    {
        proof {
            lemma_param_names(self.params@);
            lemma_name_position(param_names(self@.params), name@);
        }
        let p = position(self.params.as_slice(), name);
        if p < self.params.len() {
            Some(&self.params[p])
        } else {
            None
        }
    }

    /// The names of the path, joined by dots.
    pub fn fullname(&self) -> (r: String)
        ensures
            r@ == join(self@.path, seq!['.']),
    {
        let ghost all = self@.path;
        let mut out = String::new();
        let mut i: usize = 0;
        proof {
            reveal_strlit(".");
            assert("."@ =~= seq!['.']);
            assert(all.take(0) =~= Seq::empty());
        }
        while i < self.path.len()
            invariant
                i <= self.path@.len(),
                all == self@.path,
                "."@ == seq!['.'],
                out@ == join(all.take(i as int), seq!['.']),
            decreases self.path.len() - i,
        {
            proof {
                lemma_join_push(all.take(i as int), seq!['.'], all[i as int]);
                assert(all.take(i + 1) =~= all.take(i as int).push(all[i as int]));
                assert(all[i as int] == self.path@[i as int]@);
            }
            if i > 0 {
                out.append(".");
            }
            out.append(self.path[i]);
            i += 1;
        }
        assert(all.take(i as int) =~= all);
        out
    }
}

} // verus!
