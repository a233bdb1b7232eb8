//! Distant trees and buildings, zone by zone: what the clients are told when a zone comes into
//! range and when it goes out of it.

use crate::grid::{ceil_div, lemma_ceil_div};
use crate::net_value::models;
use crate::plain_list::{copy_list, Plain};
use vstd::prelude::*;

verus! {

/// The most objects that are broadcast of one zone.
pub const LOD_ZONE_MAX_OBJECTS: usize = 800;

/// An object of a zone.
#[derive(Clone, Copy, Debug, PartialEq, Eq, Structural)]
pub struct LodObject {
    pub kind: u32,
    pub x: i16,
    pub y: i16,
    pub z: i16,
    pub flags: u8,
    pub r: u8,
    pub g: u8,
    pub b: u8,
}

impl Plain for LodObject {
    fn is(&self, other: &Self) -> (same: bool) {
        *self == *other
    }
}

/// Every `stride`-th object, from the first one on.
pub open spec fn every<T>(objects: Seq<T>, stride: int) -> Seq<T> {
    Seq::new(ceil_div(objects.len() as int, stride) as nat, |i: int| objects[i * stride])
}

/// The objects that are broadcast of a zone: all of them where they are few enough, otherwise
/// every so many-th.
pub open spec fn capped(objects: Seq<LodObject>) -> Seq<LodObject> {
    if objects.len() <= LOD_ZONE_MAX_OBJECTS {
        objects
    } else {
        every(objects, ceil_div(objects.len() as int, LOD_ZONE_MAX_OBJECTS as int))
    }
}

proof fn lemma_steps(len: int, stride: int, i: int)
    requires
        len > 0,
        stride > 0,
        i >= 0,
    ensures
        i < ceil_div(len, stride) <==> i * stride < len,
{
    let q = ceil_div(len, stride);
    vstd::arithmetic::div_mod::lemma_fundamental_div_mod(len + stride - 1, stride);
    let r = (len + stride - 1) % stride;
    assert(i < q ==> i * stride < len) by (nonlinear_arith)
        requires
            len + stride - 1 == stride * q + r,
            0 <= r < stride,
            i >= 0,
    ;
    assert(i >= q ==> i * stride >= len) by (nonlinear_arith)
        requires
            len + stride - 1 == stride * q + r,
            0 <= r < stride,
            i >= 0,
    ;
}

/// The objects that are broadcast of a zone. The same zone always yields the same objects.
pub fn capped_objects(objects: &Vec<LodObject>) -> (kept: Vec<LodObject>)
    ensures
        kept@ == capped(objects@),
{
    let len: usize = objects.len();
    if len <= LOD_ZONE_MAX_OBJECTS {
        return copy_list(objects);
    }
    let whole: usize = len / LOD_ZONE_MAX_OBJECTS;
    let stride: usize = if len % LOD_ZONE_MAX_OBJECTS > 0 {
        whole + 1
    } else {
        whole
    };
    assert(stride == ceil_div(len as int, LOD_ZONE_MAX_OBJECTS as int));
    proof {
        lemma_ceil_div(len as int, stride as int);
    }
    let steps: usize = if len % stride > 0 {
        len / stride + 1
    } else {
        len / stride
    };
    let mut kept: Vec<LodObject> = Vec::new();
    let mut i: usize = 0;
    while i < steps
        invariant
            i <= steps,
            len == objects@.len(),
            len > 0,
            stride > 0,
            steps == ceil_div(len as int, stride as int),
            kept@ == every(objects@, stride as int).take(i as int),
        decreases steps - i,
    {
        proof {
            lemma_steps(len as int, stride as int, i as int);
            assert(i * stride >= 0) by (nonlinear_arith);
        }
        kept.push(objects[i * stride]);
        i += 1;
        assert(kept@ =~= every(objects@, stride as int).take(i as int));
    }
    assert(kept@ =~= every(objects@, stride as int));
    kept
}

/// No more objects are broadcast of a zone than the cap allows, at least one of a zone that
/// has any, and none that the zone does not have.
pub proof fn law_zone_is_capped(objects: Seq<LodObject>)
    ensures
        capped(objects).len() <= LOD_ZONE_MAX_OBJECTS,
        objects.len() > 0 ==> capped(objects).len() > 0,
        forall|k: int|
            0 <= k < capped(objects).len() ==> objects.contains(#[trigger] capped(objects)[k]),
{
    let len = objects.len() as int;
    if len > LOD_ZONE_MAX_OBJECTS {
        let stride = ceil_div(len, LOD_ZONE_MAX_OBJECTS as int);
        assert(stride * LOD_ZONE_MAX_OBJECTS >= len);
        lemma_steps(len, stride, LOD_ZONE_MAX_OBJECTS as int);
        lemma_steps(len, stride, 0);
        assert(LOD_ZONE_MAX_OBJECTS * stride == stride * LOD_ZONE_MAX_OBJECTS);
        assert(0 * stride == 0) by (nonlinear_arith);
        assert forall|k: int| 0 <= k < capped(objects).len() implies objects.contains(
            #[trigger] capped(objects)[k],
        ) by {
            lemma_steps(len, stride, k);
            assert(k * stride >= 0) by (nonlinear_arith)
                requires
                    k >= 0,
                    stride > 0,
            ;
            assert(objects[k * stride] == capped(objects)[k]);
        }
    } else {
        assert forall|k: int| 0 <= k < capped(objects).len() implies objects.contains(
            #[trigger] capped(objects)[k],
        ) by {
            assert(objects[k] == capped(objects)[k]);
        }
    }
}

/// The zones that the clients know, held in a hash set of an outside crate.
#[verifier::external_body]
pub struct ZoneSet {
    set: hashbrown::HashSet<[i32; 2]>,
}

/// What a set of zones holds: the places of the zones on the zone grid.
pub uninterp spec fn zone_keys(set: ZoneSet) -> Set<(i32, i32)>;

/// `hashbrown::HashSet::new`: the set is empty.
#[verifier::external_body]
fn zone_set_new() -> (set: ZoneSet)
    ensures
        zone_keys(set) == Set::<(i32, i32)>::empty(),
{
    ZoneSet { set: hashbrown::HashSet::new() }
}

/// `hashbrown::HashSet::is_empty`: whether the set holds nothing.
#[verifier::external_body]
fn zone_set_is_empty(set: &ZoneSet) -> (empty: bool)
    ensures
        empty == (zone_keys(*set) == Set::<(i32, i32)>::empty()),
{
    set.set.is_empty()
}

/// `hashbrown::HashSet::contains`: whether the set holds a key.
#[verifier::external_body]
fn zone_set_contains(set: &ZoneSet, x: i32, y: i32) -> (held: bool)
    ensures
        held == zone_keys(*set).contains((x, y)),
{
    set.set.contains(&[x, y])
}

/// `hashbrown::HashSet::insert`: the set holds the key from now on; returns whether it did not
/// hold it before.
#[verifier::external_body]
fn zone_set_insert(set: &mut ZoneSet, x: i32, y: i32) -> (new: bool)
    ensures
        zone_keys(*final(set)) == zone_keys(*old(set)).insert((x, y)),
        new == !zone_keys(*old(set)).contains((x, y)),
{
    set.set.insert([x, y])
}

/// `hashbrown::HashSet::iter`: hands out every key once. In which order is left open.
#[verifier::external_body]
fn zone_set_keys(set: &ZoneSet) -> (keys: Vec<(i32, i32)>)
    ensures
        keys@.no_duplicates(),
        keys@.to_set() == zone_keys(*set),
{
    set.set.iter().map(|key| (key[0], key[1])).collect()
}

/// Which zones the clients were told of.
pub struct LodZoneStreamState {
    known: ZoneSet,
}

impl View for LodZoneStreamState {
    type V = Set<(i32, i32)>;

    closed spec fn view(&self) -> Set<(i32, i32)> {
        zone_keys(self.known)
    }
}

/// A zone in range.
pub struct ZoneRow {
    pub x: i32,
    pub y: i32,
    pub objects: Vec<LodObject>,
}

/// A zone that the clients are told of.
pub struct AddedZone {
    pub x: i32,
    pub y: i32,
    pub objects: Vec<LodObject>,
}

/// An [`AddedZone`] over models.
pub ghost struct ZoneModel {
    pub x: i32,
    pub y: i32,
    pub objects: Seq<LodObject>,
}

impl View for AddedZone {
    type V = ZoneModel;

    open spec fn view(&self) -> ZoneModel {
        ZoneModel { x: self.x, y: self.y, objects: self.objects@ }
    }
}

/// What the clients are told: zones that came into range, and zones that went out of it.
pub struct ZonePlan {
    pub added: Vec<AddedZone>,
    pub removed: Vec<(i32, i32)>,
}

/// The places of the zones in range.
pub open spec fn in_range(rows: Seq<ZoneRow>) -> Set<(i32, i32)> {
    rows.map_values(|row: ZoneRow| (row.x, row.y)).to_set()
}

/// The zones in range that the clients do not know, in order, with the objects that are
/// broadcast of them.
pub open spec fn new_zones(rows: Seq<ZoneRow>, known: Set<(i32, i32)>) -> Seq<ZoneModel>
    decreases rows.len(),
{
    if rows.len() == 0 {
        Seq::empty()
    } else {
        let before = new_zones(rows.drop_last(), known);
        let row = rows.last();
        if known.contains((row.x, row.y)) {
            before
        } else {
            before.push(ZoneModel { x: row.x, y: row.y, objects: capped(row.objects@) })
        }
    }
}

impl LodZoneStreamState {
    /// The clients know nothing yet.
    pub fn new() -> (state: LodZoneStreamState)
        ensures
            state@ == Set::<(i32, i32)>::empty(),
    {
        LodZoneStreamState { known: zone_set_new() }
    }

    /// Whether the clients know a zone.
    pub fn knows(&self, x: i32, y: i32) -> (known: bool)
        ensures
            known == self@.contains((x, y)),
    {
        zone_set_contains(&self.known, x, y)
    }
}

/// Tells the clients what changed since the last time: new zones with their objects, and which
/// zones are out of range. Afterwards they know exactly the zones in range.
pub fn send_lod_zone_updates(state: &mut LodZoneStreamState, rows: &Vec<ZoneRow>) -> (plan: ZonePlan)
    ensures
        final(state)@ == in_range(rows@),
        models(plan.added@) == new_zones(rows@, old(state)@),
        plan.removed@.no_duplicates(),
        plan.removed@.to_set() == old(state)@.difference(in_range(rows@)),
{
    let mut added: Vec<AddedZone> = Vec::new();
    let mut removed: Vec<(i32, i32)> = Vec::new();
    assert(models(added@) =~= Seq::<ZoneModel>::empty());
    if rows.len() == 0 && zone_set_is_empty(&state.known) {
        proof {
            assert(in_range(rows@) =~= Set::empty());
            assert(removed@.to_set() =~= Set::empty());
            assert(state@.difference(in_range(rows@)) =~= Set::empty());
        }
        return ZonePlan { added, removed };
    }
    let mut current = zone_set_new();
    let mut i: usize = 0;
    assert(in_range(rows@.take(0)) =~= Set::empty());
    while i < rows.len()
        invariant
            i <= rows.len(),
            zone_keys(current) == in_range(rows@.take(i as int)),
            models(added@) == new_zones(rows@.take(i as int), state@),
        decreases rows.len() - i,
    {
        let ghost before = added@;
        let row = &rows[i];
        proof {
            assert(rows@.take(i as int + 1).drop_last() =~= rows@.take(i as int));
            lemma_in_range_step(rows@, i as int);
        }
        zone_set_insert(&mut current, row.x, row.y);
        if !zone_set_contains(&state.known, row.x, row.y) {
            let zone = AddedZone { x: row.x, y: row.y, objects: capped_objects(&row.objects) };
            added.push(zone);
            assert(models(added@) =~= models(before).push(zone@));
        }
        i += 1;
    }
    assert(rows@.take(i as int) =~= rows@);
    let keys = zone_set_keys(&state.known);
    let mut k: usize = 0;
    while k < keys.len()
        invariant
            k <= keys.len(),
            keys@.no_duplicates(),
            removed@.no_duplicates(),
            forall|key: (i32, i32)|
                #[trigger] removed@.contains(key) <==> keys@.take(k as int).contains(key)
                    && !zone_keys(current).contains(key),
        decreases keys.len() - k,
    {
        let key: (i32, i32) = keys[k];
        let ghost before = removed@;
        let ghost done = keys@.take(k as int);
        let ghost now = keys@.take(k as int + 1);
        proof {
            assert(!done.contains(key)) by {
                if done.contains(key) {
                    let j = done.index_of(key);
                    assert(keys@[j] == keys@[k as int]);
                }
            }
            assert(!before.contains(key));
        }
        if !zone_set_contains(&current, key.0, key.1) {
            removed.push(key);
        }
        proof {
            assert(now =~= done.push(key));
            assert forall|other: (i32, i32)|
                #[trigger] removed@.contains(other) <==> now.contains(other) && !zone_keys(
                    current,
                ).contains(other) by {
                lemma_push_contains(done, key, other);
                lemma_push_contains(before, key, other);
            }
        }
        k += 1;
    }
    proof {
        assert(keys@.take(k as int) =~= keys@);
        assert forall|key: (i32, i32)|
            #[trigger] removed@.to_set().contains(key) <==> state@.difference(
                in_range(rows@),
            ).contains(key) by {
            assert(keys@.to_set().contains(key) <==> keys@.contains(key));
            assert(removed@.contains(key) <==> keys@.take(k as int).contains(key) && !zone_keys(
                current,
            ).contains(key));
        }
        assert(removed@.to_set() =~= state@.difference(in_range(rows@)));
    }
    state.known = current;
    ZonePlan { added, removed }
}

proof fn lemma_push_contains(s: Seq<(i32, i32)>, key: (i32, i32), other: (i32, i32))
    ensures
        s.push(key).contains(other) <==> s.contains(other) || other == key,
{
    if s.contains(other) {
        assert(s.push(key)[s.index_of(other)] == other);
    }
    assert(s.push(key)[s.len() as int] == key);
    if s.push(key).contains(other) && other != key {
        let j = s.push(key).index_of(other);
        assert(s[j] == other);
    }
}

proof fn lemma_in_range_step(rows: Seq<ZoneRow>, n: int)
    requires
        0 <= n < rows.len(),
    ensures
        in_range(rows.take(n + 1)) == in_range(rows.take(n)).insert((rows[n].x, rows[n].y)),
{
    let place = |row: ZoneRow| (row.x, row.y);
    let before = rows.take(n).map_values(place);
    let after = rows.take(n + 1).map_values(place);
    assert(after =~= before.push((rows[n].x, rows[n].y)));
    assert forall|key: (i32, i32)|
        #[trigger] after.to_set().contains(key) <==> before.to_set().insert(
            (rows[n].x, rows[n].y),
        ).contains(key) by {
        lemma_push_contains(before, (rows[n].x, rows[n].y), key);
    }
    assert(after.to_set() =~= before.to_set().insert((rows[n].x, rows[n].y)));
}

/// While the zones in range stay the same, the clients are told nothing.
pub proof fn law_no_change_tells_nothing(rows: Seq<ZoneRow>)
    ensures
        new_zones(rows, in_range(rows)).len() == 0,
        in_range(rows).difference(in_range(rows)) == Set::<(i32, i32)>::empty(),
{
    lemma_known_zones_are_not_new(rows, in_range(rows));
    assert forall|i: int| 0 <= i < rows.len() implies in_range(rows).contains(
        ((#[trigger] rows[i]).x, rows[i].y),
    ) by {
        let places = rows.map_values(|row: ZoneRow| (row.x, row.y));
        assert(places[i] == (rows[i].x, rows[i].y));
        assert(places.contains(places[i]));
    }
    assert(in_range(rows).difference(in_range(rows)) =~= Set::empty());
}

proof fn lemma_known_zones_are_not_new(rows: Seq<ZoneRow>, known: Set<(i32, i32)>)
    ensures
        (forall|i: int| 0 <= i < rows.len() ==> known.contains(((#[trigger] rows[i]).x, rows[i].y)))
            ==> new_zones(rows, known).len() == 0,
    decreases rows.len(),
{
    if rows.len() > 0 && (forall|i: int|
        0 <= i < rows.len() ==> known.contains(((#[trigger] rows[i]).x, rows[i].y))) {
        let init = rows.drop_last();
        lemma_known_zones_are_not_new(init, known);
        assert forall|i: int| 0 <= i < init.len() implies known.contains(
            ((#[trigger] init[i]).x, init[i].y),
        ) by {
            assert(rows[i] == init[i]);
        }
        assert(rows[rows.len() - 1] == rows.last());
    }
}

/// Of a zone every so many-th object is kept, from the first one to the end, in order, with the
/// smallest such step that keeps the number within what is allowed; all are kept where they are
/// few enough.
pub proof fn law_zone_is_thinned_evenly(objects: Seq<LodObject>) -> (step: int)
    ensures
        step >= 1,
        objects.len() <= step * LOD_ZONE_MAX_OBJECTS,
        step == 1 || (step - 1) * LOD_ZONE_MAX_OBJECTS < objects.len(),
        forall|k: int| k >= 0 ==> (k < capped(objects).len() <==> #[trigger] (k * step) < objects.len()),
        forall|k: int|
            0 <= k < capped(objects).len() ==> #[trigger] capped(objects)[k] == objects[k * step],
        step == 1 ==> capped(objects) == objects,
{
    let len = objects.len() as int;
    let cap = LOD_ZONE_MAX_OBJECTS as int;
    if len <= cap {
        assert forall|k: int| k >= 0 implies (k < capped(objects).len() <==> #[trigger] (k * 1)
            < objects.len()) by {
            assert(k * 1 == k);
        }
        1
    } else {
        let step = ceil_div(len, cap);
        assert(1 < step) by {
            lemma_steps(len, cap, 1);
        }
        lemma_steps(len, cap, step);
        lemma_steps(len, cap, step - 1);
        assert forall|k: int| k >= 0 implies (k < capped(objects).len() <==> #[trigger] (k * step)
            < objects.len()) by {
            lemma_steps(len, step, k);
            lemma_steps(len, step, 0);
        }
        step
    }
}

/// The zones that the clients are told of are those in range that they do not know, in order,
/// each in its own place with its own objects; a zone is in range exactly where some row is of
/// it.
pub proof fn law_unknown_zones_are_told(rows: Seq<ZoneRow>, known: Set<(i32, i32)>)
    ensures
        ({
            let told = new_zones(rows, known);
            let unknown = rows.filter(|row: ZoneRow| !known.contains((row.x, row.y)));
            &&& told.len() == unknown.len()
            &&& forall|k: int|
                #![trigger told[k]]
                #![trigger unknown[k]]
                0 <= k < told.len() ==> told[k].x == unknown[k].x && told[k].y == unknown[k].y
                    && told[k].objects == capped(unknown[k].objects@)
        }),
        forall|x: i32, y: i32| #[trigger]
            in_range(rows).contains((x, y)) <==> exists|i: int|
                0 <= i < rows.len() && (#[trigger] rows[i]).x == x && rows[i].y == y,
    decreases rows.len(),
{
    reveal(Seq::filter);
    if rows.len() > 0 {
        law_unknown_zones_are_told(rows.drop_last(), known);
    }
    let places = rows.map_values(|row: ZoneRow| (row.x, row.y));
    assert forall|x: i32, y: i32| #[trigger]
        in_range(rows).contains((x, y)) <==> exists|i: int|
            0 <= i < rows.len() && (#[trigger] rows[i]).x == x && rows[i].y == y by {
        if in_range(rows).contains((x, y)) {
            let i = places.index_of((x, y));
            assert(rows[i].x == x && rows[i].y == y);
        }
        if exists|i: int| 0 <= i < rows.len() && (#[trigger] rows[i]).x == x && rows[i].y == y {
            let i = choose|i: int|
                0 <= i < rows.len() && (#[trigger] rows[i]).x == x && rows[i].y == y;
            assert(places[i] == (x, y));
        }
    }
}

} // verus!
