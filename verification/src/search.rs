//! Finding the first position of a sequence that has a given property.

use vstd::prelude::*;

verus! {

/// The least position at which `flags` is true; `flags.len()` if it is true
/// nowhere.
pub open spec fn first_true(flags: Seq<bool>) -> int
    decreases flags.len(),
{
    if flags.len() == 0 {
        0
    } else if flags[0] {
        0
    } else {
        1 + first_true(flags.drop_first())
    }
}

/// `first_true` lies within the sequence or at its end, the sequence is
/// false before it, and true at it.
pub proof fn lemma_first_true(flags: Seq<bool>)
    ensures
        0 <= first_true(flags) <= flags.len(),
        forall|k: int| 0 <= k < first_true(flags) ==> !flags[k],
        first_true(flags) < flags.len() ==> flags[first_true(flags)],
    decreases flags.len(),
{
    if flags.len() != 0 && !flags[0] {
        let rest = flags.drop_first();
        lemma_first_true(rest);
        let f = first_true(rest);
        assert forall|k: int| 0 <= k < 1 + f implies !flags[k] by {
            if k > 0 {
                assert(flags[k] == rest[k - 1]);
            }
        }
        if f < rest.len() {
            assert(flags[1 + f] == rest[f]);
        }
    }
}

/// A position before which `flags` is false, and which either is the end of
/// the sequence or a position where it is true, is `first_true`.
pub proof fn lemma_first_true_is(flags: Seq<bool>, i: int)
    requires
        0 <= i <= flags.len(),
        forall|k: int| 0 <= k < i ==> !flags[k],
        i < flags.len() ==> flags[i],
    ensures
        first_true(flags) == i,
{
    lemma_first_true(flags);
}

/// For each of `names`, whether it is `name`.
pub open spec fn name_flags(names: Seq<Seq<char>>, name: Seq<char>) -> Seq<bool> {
    Seq::new(names.len(), |i: int| names[i] == name)
}

/// The position of the first of `names` that is `name`; `names.len()` if
/// there is none.
pub open spec fn name_position(names: Seq<Seq<char>>, name: Seq<char>) -> int {
    first_true(name_flags(names, name))
}

/// `name_position` is the least position that holds the name, and lies
/// within the sequence exactly if the name occurs.
pub proof fn lemma_name_position(names: Seq<Seq<char>>, name: Seq<char>)
    ensures
        0 <= name_position(names, name) <= names.len(),
        forall|k: int| 0 <= k < name_position(names, name) ==> names[k] != name,
        name_position(names, name) < names.len() ==> names[name_position(names, name)] == name,
        name_position(names, name) < names.len() <==> names.contains(name),
{
    let flags = name_flags(names, name);
    lemma_first_true(flags);
    let f = first_true(flags);
    assert forall|k: int| 0 <= k < f implies names[k] != name by {
        assert(!flags[k]);
    }
    if f < names.len() {
        assert(flags[f]);
    }
    if names.contains(name) {
        let i = choose|i: int| 0 <= i < names.len() && names[i] == name;
        assert(flags[i]);
    }
}

/// A position before which the name does not occur, and which either is the
/// end of the sequence or holds the name, is `name_position`.
pub proof fn lemma_name_position_is(names: Seq<Seq<char>>, name: Seq<char>, i: int)
    requires
        0 <= i <= names.len(),
        forall|k: int| 0 <= k < i ==> names[k] != name,
        i < names.len() ==> names[i] == name,
    ensures
        name_position(names, name) == i,
{
    lemma_first_true_is(name_flags(names, name), i);
}

} // verus!
