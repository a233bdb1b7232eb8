//! Values that are replicated to clients, and the cache that keeps an unchanged one
//! from being written again.

use crate::keys::{keep_only, keys_of};
use std::collections::{HashMap, HashSet};
use vstd::prelude::*;

verus! {

broadcast use vstd::std_specs::hash::group_hash_axioms;

/// A value that a pass may write to a mirror, compared with what was written last.
pub trait NetValue: View + Sized {
    /// What the comparison of two such values says of their models.
    spec fn alike(a: Self::V, b: Self::V) -> bool;

    /// Whether the two values compare equal.
    fn same(&self, other: &Self) -> (same: bool)
        ensures
            same == Self::alike(self@, other@),
    ;

    /// A second value with the same model.
    fn duplicate(&self) -> (copy: Self)
        ensures
            copy@ == self@,
    ;
}

/// What becomes of one component of a mirror.
pub enum Write<T> {
    /// The component is written.
    Put(T),
    /// The component stays as it was written before.
    Keep,
    /// The mirror does not have the component, or no longer has it.
    Remove,
}

impl<T: View> View for Write<T> {
    type V = Write<T::V>;

    open spec fn view(&self) -> Write<T::V> {
        match *self {
            Write::Put(value) => Write::Put(value@),
            Write::Keep => Write::Keep,
            Write::Remove => Write::Remove,
        }
    }
}

/// The model of an optional value.
pub open spec fn model_of<T: View>(value: Option<T>) -> Option<T::V> {
    match value {
        Some(value) => Some(value@),
        None => None,
    }
}

/// The write that an optional value calls for where nothing is remembered: it is written on
/// every pass.
pub open spec fn always<V>(value: Option<V>) -> Write<V> {
    match value {
        Some(value) => Write::Put(value),
        None => Write::Remove,
    }
}

/// The models of a list of values.
pub open spec fn models<T: View>(values: Seq<T>) -> Seq<T::V> {
    values.map_values(|value: T| value@)
}

/// Whether two lists compare equal, element by element.
pub open spec fn alike_all<T: NetValue>(a: Seq<T::V>, b: Seq<T::V>) -> bool {
    a.len() == b.len() && forall|i: int| 0 <= i < a.len() ==> T::alike(#[trigger] a[i], b[i])
}

/// Whether two lists compare equal.
pub fn same_all<T: NetValue>(a: &Vec<T>, b: &Vec<T>) -> (same: bool)
    ensures
        same == alike_all::<T>(models(a@), models(b@)),
{
    if a.len() != b.len() {
        return false;
    }
    let mut i: usize = 0;
    while i < a.len()
        invariant
            i <= a.len(),
            a.len() == b.len(),
            forall|j: int| 0 <= j < i ==> T::alike(#[trigger] models(a@)[j], models(b@)[j]),
        decreases a.len() - i,
    {
        if !a[i].same(&b[i]) {
            assert(!T::alike(models(a@)[i as int], models(b@)[i as int]));
            return false;
        }
        i += 1;
    }
    true
}

/// A second list with the same models.
pub fn duplicate_all<T: NetValue>(values: &Vec<T>) -> (copy: Vec<T>)
    ensures
        models(copy@) == models(values@),
{
    let mut copy: Vec<T> = Vec::new();
    let mut i: usize = 0;
    while i < values.len()
        invariant
            i <= values.len(),
            copy@.len() == i,
            forall|j: int| 0 <= j < i ==> (#[trigger] copy@[j])@ == values@[j]@,
        decreases values.len() - i,
    {
        copy.push(values[i].duplicate());
        i += 1;
    }
    assert(models(copy@) =~= models(values@));
    copy
}

/// Where elements compare equal only if they are equal, so do lists.
pub proof fn lemma_alike_all_is_equality<T: NetValue>()
    requires
        forall|a: T::V, b: T::V| #[trigger] T::alike(a, b) <==> a == b,
    ensures
        forall|a: Seq<T::V>, b: Seq<T::V>| #[trigger] alike_all::<T>(a, b) <==> a == b,
{
    assert forall|a: Seq<T::V>, b: Seq<T::V>| #[trigger] alike_all::<T>(a, b) <==> a == b by {
        if alike_all::<T>(a, b) {
            assert(a =~= b);
        }
    }
}

/// Offers a value to a cache: what becomes of the cache, and of the component. A value that
/// compares equal to the one written last is not written again; without a value the
/// component goes, and so does what was remembered of it.
pub open spec fn offered<T: NetValue>(cache: Map<u64, T::V>, entity: u64, value: Option<T::V>) -> (
    Map<u64, T::V>,
    Write<T::V>,
) {
    match value {
        Some(value) => if is_cached::<T>(cache, entity, value) {
            (cache, Write::Keep)
        } else {
            (cache.insert(entity, value), Write::Put(value))
        },
        None => (cache.remove(entity), Write::Remove),
    }
}

/// The value that was last written for each simulation entity.
pub struct DedupCache<T: NetValue> {
    entries: HashMap<u64, T>,
}

impl<T: NetValue> View for DedupCache<T> {
    type V = Map<u64, T::V>;

    closed spec fn view(&self) -> Map<u64, T::V> {
        self.entries@.map_values(|value: T| value@)
    }
}

/// Whether `value` is what the cache holds for `entity`.
pub open spec fn is_cached<T: NetValue>(cache: Map<u64, T::V>, entity: u64, value: T::V) -> bool {
    cache.contains_key(entity) && T::alike(cache[entity], value)
}

impl<T: NetValue> DedupCache<T> {
    /// A cache that holds nothing.
    pub fn new() -> (cache: DedupCache<T>)
        ensures
            cache@ == Map::<u64, T::V>::empty(),
    {
        let cache = DedupCache { entries: HashMap::new() };
        assert(cache@ =~= Map::<u64, T::V>::empty());
        cache
    }

    /// Whether anything is held for `entity`.
    pub fn contains(&self, entity: u64) -> (held: bool)
        ensures
            held == self@.contains_key(entity),
    {
        self.entries.contains_key(&entity)
    }

    /// Whether `value` compares equal to what is held for `entity`.
    pub fn holds(&self, entity: u64, value: &T) -> (held: bool)
        ensures
            held == is_cached::<T>(self@, entity, value@),
    {
        match self.entries.get(&entity) {
            Some(cached) => cached.same(value),
            None => false,
        }
    }

    /// A copy of what is held for `entity`.
    pub fn get(&self, entity: u64) -> (held: Option<T>)
        ensures
            held is Some <==> self@.contains_key(entity),
            held is Some ==> held->0@ == self@[entity],
    {
        match self.entries.get(&entity) {
            Some(cached) => Some(cached.duplicate()),
            None => None,
        }
    }

    /// Holds `value` for `entity` from now on.
    pub fn put(&mut self, entity: u64, value: T)
        ensures
            final(self)@ == old(self)@.insert(entity, value@),
    {
        self.entries.insert(entity, value);
        assert(self@ =~= old(self)@.insert(entity, value@));
    }

    /// Forgets `entity`.
    pub fn forget(&mut self, entity: u64)
        ensures
            final(self)@ == old(self)@.remove(entity),
    {
        self.entries.remove(&entity);
        assert(self@ =~= old(self)@.remove(entity));
    }

    /// Takes in the current value for `entity`, and says what becomes of the component.
    pub fn offer(&mut self, entity: u64, value: Option<T>) -> (write: Write<T>)
        ensures
            (final(self)@, write@) == offered::<T>(old(self)@, entity, model_of(value)),
    {
        match value {
            Some(value) => if self.holds(entity, &value) {
                Write::Keep
            } else {
                let written = value.duplicate();
                self.put(entity, value);
                Write::Put(written)
            },
            None => {
                self.forget(entity);
                Write::Remove
            },
        }
    }

    /// Forgets every entity that is not in `live`.
    pub fn keep_only(&mut self, live: &HashSet<u64>)
        ensures
            final(self)@ == old(self)@.restrict(live@),
    {
        keep_only(&mut self.entries, live);
        assert(self@ =~= old(self)@.restrict(live@));
    }

    /// Forgets every entity that is no key of `live`.
    pub fn retain(&mut self, live: &HashMap<u64, u64>)
        ensures
            final(self)@ == old(self)@.restrict(live@.dom()),
    {
        let keys = keys_of(&self.entries);
        let mut i: usize = 0;
        while i < keys.len()
            invariant
                i <= keys.len(),
                keys@.no_duplicates(),
                keys@.to_set() == old(self)@.dom(),
                forall|entity: u64| #[trigger]
                    self@.contains_key(entity) <==> old(self)@.contains_key(entity) && (
                    live@.contains_key(entity) || !keys@.take(i as int).contains(entity)),
                forall|entity: u64|
                    #![trigger self@[entity]]
                    self@.contains_key(entity) ==> self@[entity] == old(self)@[entity],
            decreases keys.len() - i,
        {
            let ghost before = self@;
            if !live.contains_key(&keys[i]) {
                self.forget(keys[i]);
            }
            assert(keys@.take(i as int + 1) =~= keys@.take(i as int).push(keys@[i as int]));
            assert forall|entity: u64| #[trigger]
                self@.contains_key(entity) <==> old(self)@.contains_key(entity) && (
                live@.contains_key(entity) || !keys@.take(i as int + 1).contains(entity)) by {
                assert(keys@.take(i as int + 1).contains(entity) <==> keys@.take(i as int).contains(
                    entity,
                ) || entity == keys@[i as int]) by {
                    if keys@.take(i as int).contains(entity) {
                        let k = keys@.take(i as int).index_of(entity);
                        assert(keys@.take(i as int + 1)[k] == entity);
                    }
                    assert(keys@.take(i as int + 1)[i as int] == keys@[i as int]);
                }
                assert(before.contains_key(entity) || !before.contains_key(entity));
            }
            i += 1;
        }
        assert(keys@.take(i as int) =~= keys@);
        assert forall|entity: u64| old(self)@.contains_key(entity) implies keys@.contains(entity) by {
            assert(keys@.to_set().contains(entity));
        }
        assert(self@ =~= old(self)@.restrict(live@.dom()));
    }
}

/// A value that was offered once and compares equal to itself is not written again when it
/// is offered a second time.
pub proof fn law_second_offer_keeps<T: NetValue>(cache: Map<u64, T::V>, entity: u64, value: T::V)
    requires
        T::alike(value, value),
    ensures
        ({
            let first = offered::<T>(cache, entity, Some(value)).0;
            offered::<T>(first, entity, Some(value)) == (first, Write::<T::V>::Keep)
        }),
{
}

/// What a cache holds after an offer compares equal to the value offered, and offers for
/// other entities leave it alone.
pub proof fn law_offer_is_remembered<T: NetValue>(
    cache: Map<u64, T::V>,
    entity: u64,
    value: T::V,
    other: u64,
)
    requires
        T::alike(value, value),
    ensures
        is_cached::<T>(offered::<T>(cache, entity, Some(value)).0, entity, value),
        other != entity ==> {
            let after = offered::<T>(cache, entity, Some(value)).0;
            after.contains_key(other) == cache.contains_key(other) && after[other] == cache[other]
        },
{
}

/// A component that goes is forgotten, so that the next value is written whatever it is.
pub proof fn law_removal_forgets<T: NetValue>(cache: Map<u64, T::V>, entity: u64, next: T::V)
    ensures
        offered::<T>(cache, entity, None).1 is Remove,
        offered::<T>(offered::<T>(cache, entity, None).0, entity, Some(next)).1 == Write::Put(next),
{
}

/// Offers a list of values, in order: the cache after them, and what becomes of each
/// component.
pub open spec fn offer_all<T: NetValue>(
    cache: Map<u64, T::V>,
    items: Seq<(u64, Option<T::V>)>,
) -> (Map<u64, T::V>, Seq<Write<T::V>>)
    decreases items.len(),
{
    if items.len() == 0 {
        (cache, Seq::empty())
    } else {
        let before = offer_all::<T>(cache, items.drop_last());
        let step = offered::<T>(before.0, items.last().0, items.last().1);
        (step.0, before.1.push(step.1))
    }
}

/// No two items are of one entity.
pub open spec fn distinct_items<V>(items: Seq<(u64, Option<V>)>) -> bool {
    forall|i: int, j: int|
        #![trigger items[i], items[j]]
        0 <= i < j < items.len() ==> items[i].0 != items[j].0
}

/// In a pass over distinct entities each component is decided by its own entity alone: by
/// the value offered for it and by what was remembered of it before the pass.
pub proof fn law_pass_is_pointwise<T: NetValue>(
    cache: Map<u64, T::V>,
    items: Seq<(u64, Option<T::V>)>,
    i: int,
)
    requires
        distinct_items(items),
        0 <= i < items.len(),
    ensures
        ({
            let pass = offer_all::<T>(cache, items);
            let alone = offered::<T>(cache, items[i].0, items[i].1);
            &&& pass.1.len() == items.len()
            &&& pass.1[i] == alone.1
            &&& pass.0.contains_key(items[i].0) == alone.0.contains_key(items[i].0)
            &&& alone.0.contains_key(items[i].0) ==> pass.0[items[i].0] == alone.0[items[i].0]
        }),
    decreases items.len(),
{
    let init = items.drop_last();
    let before = offer_all::<T>(cache, init);
    lemma_offer_all_len::<T>(cache, init);
    assert(distinct_items(init)) by {
        assert forall|j: int, k: int|
            #![trigger init[j], init[k]]
            0 <= j < k < init.len() implies init[j].0 != init[k].0 by {
            assert(items[j].0 != items[k].0);
        }
    }
    if i < init.len() {
        law_pass_is_pointwise::<T>(cache, init, i);
        assert(init[i] == items[i]);
        assert(items[i].0 != items[items.len() - 1].0);
    } else {
        assert forall|j: int| 0 <= j < init.len() implies (#[trigger] init[j]).0 != items[i].0 by {
            assert(items[j].0 != items[i].0);
        }
        lemma_offer_all_frame::<T>(cache, init, items[i].0);
    }
}

proof fn lemma_offer_all_len<T: NetValue>(cache: Map<u64, T::V>, items: Seq<(u64, Option<T::V>)>)
    ensures
        offer_all::<T>(cache, items).1.len() == items.len(),
    decreases items.len(),
{
    if items.len() > 0 {
        lemma_offer_all_len::<T>(cache, items.drop_last());
    }
}

proof fn lemma_offer_all_frame<T: NetValue>(
    cache: Map<u64, T::V>,
    items: Seq<(u64, Option<T::V>)>,
    entity: u64,
)
    requires
        forall|j: int| 0 <= j < items.len() ==> (#[trigger] items[j]).0 != entity,
    ensures
        offer_all::<T>(cache, items).0.contains_key(entity) == cache.contains_key(entity),
        offer_all::<T>(cache, items).0[entity] == cache[entity],
    decreases items.len(),
{
    if items.len() > 0 {
        let init = items.drop_last();
        assert forall|j: int| 0 <= j < init.len() implies (#[trigger] init[j]).0 != entity by {
            assert(items[j].0 != entity);
        }
        lemma_offer_all_frame::<T>(cache, init, entity);
        assert(items[items.len() - 1].0 != entity);
    }
}

/// A pass that repeats the pass before writes nothing that compares equal to itself.
pub proof fn law_repeated_pass_keeps<T: NetValue>(
    cache: Map<u64, T::V>,
    items: Seq<(u64, Option<T::V>)>,
    i: int,
)
    requires
        distinct_items(items),
        0 <= i < items.len(),
        items[i].1 is Some,
        T::alike(items[i].1->0, items[i].1->0),
    ensures
        offer_all::<T>(offer_all::<T>(cache, items).0, items).1[i] == Write::<T::V>::Keep,
{
    law_pass_is_pointwise::<T>(cache, items, i);
    law_pass_is_pointwise::<T>(offer_all::<T>(cache, items).0, items, i);
    law_offer_is_remembered::<T>(cache, items[i].0, items[i].1->0, items[i].0);
}

/// A value is written exactly where nothing like it was written last for its entity, and is
/// then what was written last; where nothing is offered the written value is removed and
/// forgotten. Nothing changes for any other entity.
pub proof fn law_only_news_is_written<T: NetValue>(
    cache: Map<u64, T::V>,
    entity: u64,
    value: Option<T::V>,
)
    ensures
        ({
            let (after, write) = offered::<T>(cache, entity, value);
            let known = value is Some && cache.contains_key(entity) && T::alike(
                cache[entity],
                value->0,
            );
            &&& write is Keep <==> known
            &&& write is Remove <==> value is None
            &&& write is Put <==> value is Some && !known
            &&& write is Put ==> write->Put_0 == value->0 && after.contains_key(entity)
                && after[entity] == value->0
            &&& write is Keep ==> after == cache
            &&& write is Remove ==> !after.contains_key(entity)
            &&& forall|other: u64|
                other != entity ==> (#[trigger] after.contains_key(other) <==> cache.contains_key(
                    other,
                )) && after[other] == cache[other]
        }),
        value is Some ==> always(value) == Write::Put(value->0),
        value is None ==> always(value) is Remove,
{
}

} // verus!
