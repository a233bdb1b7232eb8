//! Names that are acted on once.

use crate::net_value::models;
use vstd::prelude::*;

verus! {

/// The names that were acted on, in order.
pub struct OnceList {
    names: Vec<String>,
}

impl View for OnceList {
    type V = Seq<Seq<char>>;

    closed spec fn view(&self) -> Seq<Seq<char>> {
        models(self.names@)
    }
}

/// The names of a list that are not known and did not come before in the list, in order.
pub open spec fn fresh(known: Seq<Seq<char>>, names: Seq<Seq<char>>) -> Seq<Seq<char>>
    decreases names.len(),
{
    if names.len() == 0 {
        Seq::empty()
    } else {
        let before = fresh(known, names.drop_last());
        if known.contains(names.last()) || before.contains(names.last()) {
            before
        } else {
            before.push(names.last())
        }
    }
}

impl OnceList {
    /// No names.
    pub fn new() -> (list: OnceList)
        ensures
            list@ == Seq::<Seq<char>>::empty(),
    {
        let list = OnceList { names: Vec::new() };
        assert(list@ =~= Seq::<Seq<char>>::empty());
        list
    }

    /// Whether a name was acted on.
    pub fn contains(&self, name: &String) -> (known: bool)
        ensures
            known == self@.contains(name@),
    {
        let mut i: usize = 0;
        while i < self.names.len()
            invariant
                i <= self.names.len(),
                forall|j: int| 0 <= j < i ==> (#[trigger] self@[j]) != name@,
            decreases self.names.len() - i,
        {
            if self.names[i] == *name {
                assert(self@[i as int] == name@);
                return true;
            }
            i += 1;
        }
        false
    }

    /// Notes all names of a list, and returns those that are new.
    pub fn note_all(&mut self, names: &Vec<String>) -> (new: Vec<String>)
        ensures
            models(new@) == fresh(old(self)@, models(names@)),
            final(self)@ == old(self)@ + models(new@),
    {
        let ghost known = self@;
        let mut new: Vec<String> = Vec::new();
        let mut i: usize = 0;
        assert(models(new@) =~= Seq::<Seq<char>>::empty());
        assert(models(names@.take(0)) =~= Seq::<Seq<char>>::empty());
        assert(self@ =~= known + models(new@));
        while i < names.len()
            invariant
                i <= names.len(),
                models(new@) == fresh(known, models(names@.take(i as int))),
                self@ == known + models(new@),
            decreases names.len() - i,
        {
            let ghost before = new@;
            proof {
                assert(models(names@.take(i as int + 1)).drop_last() =~= models(
                    names@.take(i as int),
                ));
                assert(models(names@.take(i as int + 1)).last() == names@[i as int]@);
                lemma_contains_concat(known, models(before), names@[i as int]@);
            }
            if !self.contains(&names[i]) {
                let ghost noted = self@;
                self.names.push(names[i].clone());
                assert(self@ =~= noted.push(names@[i as int]@));
                new.push(names[i].clone());
                assert(models(new@) =~= models(before).push(names@[i as int]@));
                assert(self@ =~= known + models(new@));
            }
            i += 1;
        }
        assert(names@.take(i as int) =~= names@);
        new
    }
}

proof fn lemma_contains_concat(a: Seq<Seq<char>>, b: Seq<Seq<char>>, name: Seq<char>)
    ensures
        (a + b).contains(name) <==> a.contains(name) || b.contains(name),
{
    if a.contains(name) {
        assert((a + b)[a.index_of(name)] == name);
    }
    if b.contains(name) {
        assert((a + b)[a.len() + b.index_of(name)] == name);
    }
    if (a + b).contains(name) {
        let k = (a + b).index_of(name);
        if k < a.len() {
            assert(a[k] == name);
        } else {
            assert(b[k - a.len()] == name);
        }
    }
}

/// The new names are distinct, and none of them was known.
pub proof fn law_fresh_names_are_new(known: Seq<Seq<char>>, names: Seq<Seq<char>>)
    ensures
        fresh(known, names).no_duplicates(),
        forall|name: Seq<char>|
            #[trigger] fresh(known, names).contains(name) <==> names.contains(name)
                && !known.contains(name),
    decreases names.len(),
{
    if names.len() > 0 {
        let init = names.drop_last();
        let before = fresh(known, init);
        law_fresh_names_are_new(known, init);
        let last = names.last();
        assert forall|name: Seq<char>| #[trigger] names.contains(name) <==> init.contains(name) || name
            == last by {
            if init.contains(name) {
                assert(names[init.index_of(name)] == name);
            }
            if names.contains(name) && name != last {
                assert(init[names.index_of(name)] == name);
            }
            assert(names[names.len() - 1] == last);
        }
        assert forall|name: Seq<char>|
            #[trigger] fresh(known, names).contains(name) <==> names.contains(name)
                && !known.contains(name) by {
            assert(names.contains(name) <==> init.contains(name) || name == last);
            if before.contains(name) {
                let k = before.index_of(name);
                assert(before.push(last)[k] == name);
            }
            assert(before.push(last)[before.len() as int] == last);
            if before.push(last).contains(name) && name != last {
                let k = before.push(last).index_of(name);
                assert(before[k] == name);
            }
        }
    }
}

/// A list that was gone through once brings nothing new the second time.
pub proof fn law_second_time_brings_nothing(known: Seq<Seq<char>>, names: Seq<Seq<char>>)
    ensures
        fresh(known + fresh(known, names), names).len() == 0,
{
    let after = known + fresh(known, names);
    law_fresh_names_are_new(known, names);
    law_fresh_names_are_new(after, names);
    let again = fresh(after, names);
    if again.len() > 0 {
        let name = again[0];
        assert(again.contains(name));
        assert(names.contains(name));
        lemma_contains_concat(known, fresh(known, names), name);
        assert(fresh(known, names).contains(name) <==> names.contains(name) && !known.contains(
            name,
        ));
    }
}

/// Names are taken in turn: those that a list brings are those that its first part brings and
/// then, with these known too, those of the rest. A single name is brought unless it is known.
pub proof fn law_names_are_taken_in_turn(
    known: Seq<Seq<char>>,
    first: Seq<Seq<char>>,
    rest: Seq<Seq<char>>,
    name: Seq<char>,
)
    ensures
        fresh(known, first + rest) == fresh(known, first) + fresh(
            known + fresh(known, first),
            rest,
        ),
        fresh(known, seq![name]) == (if known.contains(name) {
            Seq::empty()
        } else {
            seq![name]
        }),
    decreases rest.len(),
{
    let one = seq![name];
    assert(one.drop_last() =~= Seq::<Seq<char>>::empty());
    assert(fresh(known, one.drop_last()).len() == 0);
    assert(fresh(known, one) =~= (if known.contains(name) {
        Seq::empty()
    } else {
        seq![name]
    }));
    let brought = fresh(known, first);
    if rest.len() == 0 {
        assert(first + rest =~= first);
    } else {
        law_names_are_taken_in_turn(known, first, rest.drop_last(), name);
        assert((first + rest).drop_last() =~= first + rest.drop_last());
        let more = fresh(known + brought, rest.drop_last());
        let last = rest.last();
        lemma_contains_either(known, brought, last);
        lemma_contains_either(brought, more, last);
    }
    assert(fresh(known, first + rest) =~= brought + fresh(known + brought, rest));
}

proof fn lemma_contains_either(a: Seq<Seq<char>>, b: Seq<Seq<char>>, name: Seq<char>)
    ensures
        (a + b).contains(name) <==> a.contains(name) || b.contains(name),
{
    if a.contains(name) {
        assert((a + b)[a.index_of(name)] == name);
    }
    if b.contains(name) {
        assert((a + b)[a.len() + b.index_of(name)] == name);
    }
    if (a + b).contains(name) {
        let i = (a + b).index_of(name);
        if i < a.len() {
            assert(a[i] == name);
        } else {
            assert(b[i - a.len()] == name);
        }
    }
}

} // verus!
