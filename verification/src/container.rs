//! An ordered collection of named values in which no name occurs twice.

use vstd::prelude::*;
use vstd::std_specs::iter::IteratorSpec;
use crate::search::{lemma_name_position, lemma_name_position_is, name_position};
use crate::text::str_eq;

verus! {

/// A value that has a name.
pub trait Named {
    /// The name, as a sequence of characters.
    spec fn spec_name(&self) -> Seq<char>;

    fn name(&self) -> (r: &str)
        ensures
            r@ == self.spec_name(),
    ;
}

/// The names of the values of `s`, in order.
pub open spec fn names_of<T: Named>(s: Seq<T>) -> Seq<Seq<char>> {
    Seq::new(s.len(), |i: int| s[i].spec_name())
}

/// Whether no two values of `s` share a name.
pub open spec fn distinct_names<T: Named>(s: Seq<T>) -> bool {
    names_of(s).no_duplicates()
}

/// Whether a value of `s` has the name `name`.
pub open spec fn has_name<T: Named>(s: Seq<T>, name: Seq<char>) -> bool {
    names_of(s).contains(name)
}

/// The position of the first value of `s` named `name`; `s.len()` if there
/// is none.
pub open spec fn position_of<T: Named>(s: Seq<T>, name: Seq<char>) -> int {
    name_position(names_of(s), name)
}

/// `position_of` is the least position that holds the name, and lies within
/// the sequence exactly if a value has the name.
pub proof fn lemma_position_of<T: Named>(s: Seq<T>, name: Seq<char>)
    ensures
        0 <= position_of(s, name) <= s.len(),
        forall|k: int| 0 <= k < position_of(s, name) ==> (#[trigger] s[k]).spec_name() != name,
        position_of(s, name) < s.len() ==> s[position_of(s, name)].spec_name() == name,
        position_of(s, name) < s.len() <==> has_name(s, name),
{
    let names = names_of(s);
    lemma_name_position(names, name);
    assert forall|k: int| 0 <= k < position_of(s, name) implies (#[trigger] s[k]).spec_name() != name by {
        assert(names[k] != name);
    }
}

/// The position of the first of `items` named `name`, or their number.
pub fn position<T: Named>(items: &[T], name: &str) -> (p: usize)
    ensures
        p == position_of(items@, name@),
        p <= items@.len(),
{
    let ghost names = names_of(items@);
    let mut i: usize = 0;
    while i < items.len()
        invariant
            i <= items.len(),
            names == names_of(items@),
            forall|k: int| 0 <= k < i ==> names[k] != name@,
        decreases items.len() - i,
    {
        if str_eq(items[i].name(), name) {
            proof {
                assert(names[i as int] == name@);
                lemma_name_position_is(names, name@, i as int);
            }
            return i;
        }
        assert(names[i as int] != name@);
        i += 1;
    }
    proof {
        lemma_name_position_is(names, name@, i as int);
    }
    i
}

/// Values kept in the order in which they were added, found by name. No two
/// of them have the same name.
#[derive(Debug)]
pub struct Container<T: Named>(Vec<T>);

impl<T: Named> View for Container<T> {
    type V = Seq<T>;

    closed spec fn view(&self) -> Seq<T> {
        self.0@
    }
}

/// A value held by a container is smaller than the container, so that a
/// definition may recurse from a container into its values.
pub proof fn lemma_item_decreases<T: Named>(c: Container<T>, i: int)
    requires
        0 <= i < c@.len(),
    ensures
        decreases_to!(c => c@[i]),
{
    broadcast use vstd::std_specs::vec::axiom_vec_index_decreases;
    assert(decreases_to!(c.0 => c.0[i]));
}

impl<T: Named> Container<T> {
    #[verifier::type_invariant]
    spec fn inv(self) -> bool {
        distinct_names(self.0@)
    }

    /// An empty container.
    pub fn new() -> (r: Self)
        ensures
            r@ == Seq::<T>::empty(),
    {
        Container(Vec::new())
    }

    /// The value named `name`, if the container holds one.
    pub fn find(&self, name: &str) -> (r: Option<&T>)
        ensures
            distinct_names(self@),
            r is Some <==> has_name(self@, name@),
            r is Some ==> *r->0 == self@[position_of(self@, name@)] && r->0.spec_name() == name@,
    {
        proof {
            use_type_invariant(self);
            lemma_position_of(self@, name@);
        }
        let p = position(self.0.as_slice(), name);
        if p < self.0.len() {
            Some(&self.0[p])
        } else {
            None
        }
    }

    /// The values in the order in which they were added. Each call starts
    /// again at the first value.
    pub fn list(&self) -> (r: std::slice::Iter<'_, T>)
        ensures
            distinct_names(self@),
            IteratorSpec::remaining(&r) == self@.as_ref(),
            IteratorSpec::decrease(&r) is Some,
            IteratorSpec::initial_value_relation(&r, &r),
    {
        proof {
            use_type_invariant(self);
        }
        self.0.as_slice().iter()
    }

    /// The values as a slice, in the order in which they were added.
    pub(crate) fn as_slice(&self) -> (r: &[T])
        ensures
            r@ == self@,
            distinct_names(r@),
    {
        proof {
            use_type_invariant(self);
        }
        self.0.as_slice()
    }

    /// The values, taken out of the container.
    pub(crate) fn into_items(self) -> (r: Vec<T>)
        ensures
            r@ == self@,
            distinct_names(r@),
    {
        proof {
            use_type_invariant(&self);
        }
        self.0
    }

    /// A container of the values of `items`, which have distinct names.
    pub(crate) fn from_items(items: Vec<T>) -> (r: Self)
        requires
            distinct_names(items@),
        ensures
            r@ == items@,
    {
        Container(items)
    }

    /// Adds `value` behind the values already held. A value whose name is
    /// already taken is a fault in the declarations and is not accepted.
    pub fn add(&mut self, value: T)
        requires
            !has_name(old(self)@, value.spec_name()),
        ensures
            final(self)@ == old(self)@.push(value),
            distinct_names(final(self)@),
    {
        proof {
            use_type_invariant(&*self);
        }
        let mut items: Vec<T> = Vec::new();
        std::mem::swap(&mut items, &mut self.0);
        items.push(value);
        proof {
            lemma_push_keeps_distinct(old(self)@, value);
        }
        self.0 = items;
    }

    /// Takes out the value named `name`; without such a value nothing
    /// changes.
    pub fn remove(&mut self, name: &str)
        ensures
            distinct_names(final(self)@),
            !has_name(old(self)@, name@) ==> final(self)@ == old(self)@,
            has_name(old(self)@, name@) ==> final(self)@ == old(self)@.remove(
                position_of(old(self)@, name@),
            ),
            !has_name(final(self)@, name@),
    {
        proof {
            use_type_invariant(&*self);
        }
        let ghost before = self@;
        let p = position(self.0.as_slice(), name);
        proof {
            lemma_position_of(before, name@);
        }
        if p < self.0.len() {
            let mut items: Vec<T> = Vec::new();
            std::mem::swap(&mut items, &mut self.0);
            let _ = items.remove(p);
            proof {
                lemma_remove_keeps_distinct(before, p as int);
            }
            self.0 = items;
        }
    }
}

/// Adding a value whose name is not yet taken keeps the names distinct.
pub proof fn lemma_push_keeps_distinct<T: Named>(s: Seq<T>, value: T)
    requires
        distinct_names(s),
        !has_name(s, value.spec_name()),
    ensures
        distinct_names(s.push(value)),
{
    let before = names_of(s);
    let after = names_of(s.push(value));
    assert forall|i: int, j: int| 0 <= i < after.len() && 0 <= j < after.len() && i != j implies after[i]
        != after[j] by {
        if i < s.len() {
            assert(after[i] == before[i]);
        }
        if j < s.len() {
            assert(after[j] == before[j]);
        }
    }
}

/// Taking a value out keeps the names distinct, and the name taken out does
/// not occur any more.
pub proof fn lemma_remove_keeps_distinct<T: Named>(s: Seq<T>, at: int)
    requires
        distinct_names(s),
        0 <= at < s.len(),
    ensures
        distinct_names(s.remove(at)),
        !has_name(s.remove(at), s[at].spec_name()),
{
    let before = names_of(s);
    let after = names_of(s.remove(at));
    assert forall|i: int| 0 <= i < after.len() implies after[i] == before[if i < at {
        i
    } else {
        i + 1
    }] by {}
    assert forall|i: int, j: int| 0 <= i < after.len() && 0 <= j < after.len() && i != j implies after[i]
        != after[j] by {
        let i0 = if i < at { i } else { i + 1 };
        let j0 = if j < at { j } else { j + 1 };
        assert(after[i] == before[i0]);
        assert(after[j] == before[j0]);
    }
    if after.contains(s[at].spec_name()) {
        let i = choose|i: int| 0 <= i < after.len() && after[i] == s[at].spec_name();
        let i0 = if i < at { i } else { i + 1 };
        assert(after[i] == before[i0]);
        assert(before[at] == s[at].spec_name());
    }
}

/// Once a value is held its name is taken: whatever is added later, a
/// second value of that name does not meet what `add` asks.
pub proof fn lemma_name_stays_taken<T: Named>(s: Seq<T>, held: T, later: Seq<T>, second: T)
    requires
        held.spec_name() == second.spec_name(),
    ensures
        has_name(s.push(held) + later, second.spec_name()),
{
    let all = s.push(held) + later;
    assert(all[s.len() as int] == held);
    assert(names_of(all)[s.len() as int] == second.spec_name());
}

/// Whether copying a value of `s` always keeps its name.
pub open spec fn copies_keep_names<T: Named + Clone>(s: Seq<T>) -> bool {
    forall|i: int, copy: T|
        0 <= i < s.len() && cloned::<T>(#[trigger] s[i], copy) ==> #[trigger] copy.spec_name()
            == s[i].spec_name()
}

/// Whether `copies` holds, position by position, a copy of each value of
/// `s`.
pub open spec fn copies_of<T: Clone>(copies: Seq<T>, s: Seq<T>) -> bool {
    &&& copies.len() == s.len()
    &&& forall|i: int| 0 <= i < s.len() ==> cloned::<T>(s[i], #[trigger] copies[i])
}

/// The values of `s` without those whose name an earlier value of `s` has.
pub open spec fn first_of_each_name<T: Named>(s: Seq<T>) -> Seq<T>
    decreases s.len(),
{
    if s.len() == 0 {
        Seq::empty()
    } else {
        let kept = first_of_each_name(s.drop_last());
        if has_name(kept, s.last().spec_name()) {
            kept
        } else {
            kept.push(s.last())
        }
    }
}

/// Of values with distinct names none is left out.
pub proof fn lemma_first_of_each_name<T: Named>(s: Seq<T>)
    requires
        distinct_names(s),
    ensures
        first_of_each_name(s) == s,
    decreases s.len(),
{
    if s.len() == 0 {
        assert(s =~= Seq::empty());
    } else {
        let front = s.drop_last();
        assert(names_of(front) =~= names_of(s).drop_last());
        lemma_first_of_each_name(front);
        if has_name(front, s.last().spec_name()) {
            let k = choose|k: int| 0 <= k < front.len() && names_of(front)[k] == s.last().spec_name();
            assert(names_of(s)[k] == names_of(s)[s.len() - 1]);
        }
        assert(front.push(s.last()) =~= s);
    }
}

/// Copies that keep the names of values with distinct names have distinct
/// names.
pub proof fn lemma_copies_are_distinct<T: Named + Clone>(copies: Seq<T>, s: Seq<T>)
    requires
        copies_of(copies, s),
        copies_keep_names(s),
        distinct_names(s),
    ensures
        distinct_names(copies),
{
    assert(names_of(copies) =~= names_of(s)) by {
        assert forall|i: int| 0 <= i < s.len() implies names_of(copies)[i] == names_of(s)[i] by {
            assert(cloned::<T>(s[i], copies[i]));
        }
    }
}

impl<T: Named + Clone> Clone for Container<T> {
    /// A container of copies of the values, in the same order. What a copy
    /// holds is for `T` to say; a copy whose name an earlier copy has taken
    /// is left out, which happens for no value where copying keeps the
    /// names.
    fn clone(&self) -> (r: Self)
        ensures
            distinct_names(r@),
            exists|copies: Seq<T>| #[trigger] copies_of(copies, self@) && r@ == first_of_each_name(copies),
            copies_keep_names(self@) ==> copies_of(r@, self@),
    {
        proof {
            use_type_invariant(self);
        }
        let mut out: Container<T> = Container::new();
        let ghost mut copies: Seq<T> = Seq::empty();
        let mut i: usize = 0;
        while i < self.0.len()
            invariant
                i <= self.0.len(),
                distinct_names(self@),
                distinct_names(out@),
                copies_of(copies, self@.take(i as int)),
                out@ == first_of_each_name(copies),
            decreases self.0.len() - i,
        {
            let copy = self.0[i].clone();
            proof {
                let longer = copies.push(copy);
                assert(longer.drop_last() =~= copies);
                assert(longer.last() == copy);
                assert(cloned::<T>(self@[i as int], copy));
                assert(copies_of(longer, self@.take(i + 1))) by {
                    assert forall|k: int| 0 <= k < i + 1 implies cloned::<T>(
                        self@.take(i + 1)[k],
                        #[trigger] longer[k],
                    ) by {
                        if k < i {
                            assert(longer[k] == copies[k]);
                            assert(self@.take(i as int)[k] == self@.take(i + 1)[k]);
                        }
                    }
                }
                copies = longer;
            }
            if out.find(copy.name()).is_none() {
                out.add(copy);
            }
            i += 1;
        }
        proof {
            assert(self@.take(i as int) =~= self@);
            if copies_keep_names(self@) {
                lemma_copies_are_distinct(copies, self@);
                lemma_first_of_each_name(copies);
            }
        }
        out
    }
}

impl<T: Named> Default for Container<T> {
    fn default() -> (r: Self)
        ensures
            r@ == Seq::<T>::empty(),
    {
        Container::new()
    }
}

} // verus!
