//! The combat state that the heads-up display shows: energy, poise, combo, experience and
//! active buffs.

use crate::float_bits::{equal, float_eq};
use crate::mirror::SimMirror;
use crate::net_value::{always, offer_all, offered, DedupCache, NetValue, Write};
use vstd::prelude::*;

verus! {

/// A current value and its maximum, as bit patterns.
#[derive(Clone, Copy, Debug, PartialEq, Eq, Structural)]
pub struct Gauge {
    pub current: u32,
    pub max: u32,
}

/// The combo counter.
#[derive(Clone, Copy, Debug, PartialEq, Eq, Structural)]
pub struct NetCombo {
    pub counter: u32,
}

/// Progress within the current level.
#[derive(Clone, Copy, Debug, PartialEq, Eq, Structural)]
pub struct NetXp {
    pub level: u32,
    pub xp_into_level: u64,
    pub xp_for_level: u64,
}

/// One kind of active buff. Strength and remaining seconds are bit patterns.
#[derive(Clone, Copy, Debug, PartialEq, Eq, Structural)]
pub struct NetBuffEntry {
    pub kind: u32,
    pub strength: u32,
    pub remaining_secs: Option<u32>,
    pub stacks: u32,
}

/// The active buffs, one entry for each kind.
pub struct NetBuffs(pub Vec<NetBuffEntry>);

/// What a skill set says of experience: the level, what was earned in all, and the totals at
/// which this level and the next one begin.
#[derive(Clone, Copy, Debug, PartialEq, Eq, Structural)]
pub struct Experience {
    pub level: u32,
    pub total_exp: u64,
    pub level_floor: u64,
    pub next_floor: u64,
}

/// One instance of a buff.
#[derive(Clone, Copy, Debug, PartialEq, Eq, Structural)]
pub struct BuffInstance {
    pub strength: u32,
    pub remaining_secs: Option<u32>,
}

/// The instances of one kind of buff, the controlling one first.
pub struct BuffKindRow {
    pub kind: u32,
    /// Whether anything is entered under this kind.
    pub active: bool,
    pub instances: Vec<BuffInstance>,
}

/// What a pass reads of one mirrored entity.
pub struct CombatHudRow {
    pub sim_entity: u64,
    pub entity: u64,
    pub energy: Option<Gauge>,
    pub poise: Option<Gauge>,
    pub combo: Option<u32>,
    pub experience: Option<Experience>,
    pub buffs: Option<Vec<BuffKindRow>>,
}

/// What is written to one mirror.
pub struct CombatHudPlan {
    pub entity: u64,
    pub energy: Write<Gauge>,
    pub poise: Write<Gauge>,
    pub combo: Write<NetCombo>,
    pub xp: Write<NetXp>,
    pub buffs: Write<NetBuffs>,
}

/// A [`CombatHudPlan`] over models.
pub ghost struct CombatHudPlanModel {
    pub entity: u64,
    pub energy: Write<Gauge>,
    pub poise: Write<Gauge>,
    pub combo: Write<NetCombo>,
    pub xp: Write<NetXp>,
    pub buffs: Write<Seq<NetBuffEntry>>,
}

impl View for NetCombo {
    type V = NetCombo;

    open spec fn view(&self) -> NetCombo {
        *self
    }
}

impl View for NetXp {
    type V = NetXp;

    open spec fn view(&self) -> NetXp {
        *self
    }
}

impl View for NetBuffs {
    type V = Seq<NetBuffEntry>;

    open spec fn view(&self) -> Seq<NetBuffEntry> {
        self.0@
    }
}

impl View for CombatHudPlan {
    type V = CombatHudPlanModel;

    open spec fn view(&self) -> CombatHudPlanModel {
        CombatHudPlanModel {
            entity: self.entity,
            energy: self.energy,
            poise: self.poise,
            combo: self.combo@,
            xp: self.xp@,
            buffs: self.buffs@,
        }
    }
}

impl NetValue for NetCombo {
    open spec fn alike(a: NetCombo, b: NetCombo) -> bool {
        a == b
    }

    fn same(&self, other: &Self) -> (same: bool) {
        *self == *other
    }

    fn duplicate(&self) -> (copy: Self) {
        *self
    }
}

impl NetValue for NetXp {
    open spec fn alike(a: NetXp, b: NetXp) -> bool {
        a == b
    }

    fn same(&self, other: &Self) -> (same: bool) {
        *self == *other
    }

    fn duplicate(&self) -> (copy: Self) {
        *self
    }
}

/// Whether two remaining times compare equal.
pub open spec fn alike_remaining(a: Option<u32>, b: Option<u32>) -> bool {
    match (a, b) {
        (Some(a), Some(b)) => equal(a, b),
        (None, None) => true,
        _ => false,
    }
}

/// Whether two entries compare equal.
pub open spec fn alike_entry(a: NetBuffEntry, b: NetBuffEntry) -> bool {
    a.kind == b.kind && equal(a.strength, b.strength) && alike_remaining(
        a.remaining_secs,
        b.remaining_secs,
    ) && a.stacks == b.stacks
}

fn same_entry(a: &NetBuffEntry, b: &NetBuffEntry) -> (same: bool)
    ensures
        same == alike_entry(*a, *b),
{
    let remaining = match (a.remaining_secs, b.remaining_secs) {
        (Some(a), Some(b)) => float_eq(a, b),
        (None, None) => true,
        _ => false,
    };
    a.kind == b.kind && float_eq(a.strength, b.strength) && remaining && a.stacks == b.stacks
}

impl NetValue for NetBuffs {
    open spec fn alike(a: Seq<NetBuffEntry>, b: Seq<NetBuffEntry>) -> bool {
        a.len() == b.len() && forall|i: int| 0 <= i < a.len() ==> alike_entry(#[trigger] a[i], b[i])
    }

    fn same(&self, other: &Self) -> (same: bool) {
        if self.0.len() != other.0.len() {
            return false;
        }
        let mut i: usize = 0;
        while i < self.0.len()
            invariant
                i <= self.0.len(),
                self.0.len() == other.0.len(),
                forall|j: int| 0 <= j < i ==> alike_entry(#[trigger] self.0@[j], other.0@[j]),
            decreases self.0.len() - i,
        {
            if !same_entry(&self.0[i], &other.0[i]) {
                return false;
            }
            i += 1;
        }
        true
    }

    fn duplicate(&self) -> (copy: Self) {
        let mut entries: Vec<NetBuffEntry> = Vec::new();
        let mut i: usize = 0;
        while i < self.0.len()
            invariant
                i <= self.0.len(),
                entries@ == self.0@.take(i as int),
            decreases self.0.len() - i,
        {
            entries.push(self.0[i]);
            i += 1;
            assert(entries@ =~= self.0@.take(i as int));
        }
        assert(entries@ =~= self.0@);
        NetBuffs(entries)
    }
}

/// The level whose floor ends the current one.
pub fn next_level(level: u32) -> (next: u32)
    ensures
        next == if level < u32::MAX {
            (level + 1) as u32
        } else {
            level
        },
{
    if level < u32::MAX {
        level + 1
    } else {
        level
    }
}

/// The difference, or zero where it would be negative.
pub open spec fn minus(a: u64, b: u64) -> u64 {
    if a >= b {
        (a - b) as u64
    } else {
        0
    }
}

/// Progress within a level: what was earned since the level began, and what it takes to
/// complete it.
pub open spec fn xp_of(experience: Experience) -> NetXp {
    NetXp {
        level: experience.level,
        xp_into_level: minus(experience.total_exp, experience.level_floor),
        xp_for_level: minus(experience.next_floor, experience.level_floor),
    }
}

/// Projects lifetime experience to progress within the level.
pub fn project_xp(experience: &Experience) -> (xp: NetXp)
    ensures
        xp == xp_of(*experience),
{
    NetXp {
        level: experience.level,
        xp_into_level: experience.total_exp.saturating_sub(experience.level_floor),
        xp_for_level: experience.next_floor.saturating_sub(experience.level_floor),
    }
}

/// The entry of one kind: that of its controlling instance, with the number of instances. A
/// kind without an instance has none.
pub open spec fn buff_entry(row: BuffKindRow) -> Option<NetBuffEntry> {
    if row.active && row.instances@.len() > 0 {
        Some(
            NetBuffEntry {
                kind: row.kind,
                strength: row.instances@[0].strength,
                remaining_secs: row.instances@[0].remaining_secs,
                stacks: row.instances@.len() as u32,
            },
        )
    } else {
        None
    }
}

/// The entries of all kinds, in order.
pub open spec fn buff_entries(rows: Seq<BuffKindRow>) -> Seq<NetBuffEntry>
    decreases rows.len(),
{
    if rows.len() == 0 {
        Seq::empty()
    } else {
        match buff_entry(rows.last()) {
            Some(entry) => buff_entries(rows.drop_last()).push(entry),
            None => buff_entries(rows.drop_last()),
        }
    }
}

/// Projects the active buffs to one entry for each kind.
pub fn project_buffs(rows: &Vec<BuffKindRow>) -> (buffs: NetBuffs)
    ensures
        buffs@ == buff_entries(rows@),
{
    let mut entries: Vec<NetBuffEntry> = Vec::new();
    let mut i: usize = 0;
    while i < rows.len()
        invariant
            i <= rows.len(),
            entries@ == buff_entries(rows@.take(i as int)),
        decreases rows.len() - i,
    {
        proof {
            assert(rows@.take(i as int + 1).drop_last() =~= rows@.take(i as int));
        }
        let row = &rows[i];
        if row.active && row.instances.len() > 0 {
            let controlling = row.instances[0];
            entries.push(
                NetBuffEntry {
                    kind: row.kind,
                    strength: controlling.strength,
                    remaining_secs: controlling.remaining_secs,
                    stacks: row.instances.len() as u32,
                },
            );
        }
        i += 1;
    }
    assert(rows@.take(i as int) =~= rows@);
    NetBuffs(entries)
}

/// The combo, experience and buffs that were last written for each simulation entity.
pub struct CombatHudMirrorCache {
    combo: DedupCache<NetCombo>,
    xp: DedupCache<NetXp>,
    buffs: DedupCache<NetBuffs>,
}

/// A [`CombatHudMirrorCache`] over models.
pub ghost struct CombatHudCacheModel {
    pub combo: Map<u64, NetCombo>,
    pub xp: Map<u64, NetXp>,
    pub buffs: Map<u64, Seq<NetBuffEntry>>,
}

impl View for CombatHudMirrorCache {
    type V = CombatHudCacheModel;

    closed spec fn view(&self) -> CombatHudCacheModel {
        CombatHudCacheModel { combo: self.combo@, xp: self.xp@, buffs: self.buffs@ }
    }
}

/// The cache of a pass that finds `live` mirrored.
pub open spec fn pruned(cache: CombatHudCacheModel, live: Set<u64>) -> CombatHudCacheModel {
    CombatHudCacheModel {
        combo: cache.combo.restrict(live),
        xp: cache.xp.restrict(live),
        buffs: cache.buffs.restrict(live),
    }
}

/// What is written for one row, and the cache after it. Energy and poise are written on
/// every pass, the others when they change.
pub open spec fn hud_step(cache: CombatHudCacheModel, row: CombatHudRow) -> (
    CombatHudCacheModel,
    CombatHudPlanModel,
) {
    let combo = offered::<NetCombo>(
        cache.combo,
        row.sim_entity,
        match row.combo {
            Some(counter) => Some(NetCombo { counter }),
            None => None,
        },
    );
    let xp = offered::<NetXp>(
        cache.xp,
        row.sim_entity,
        match row.experience {
            Some(experience) => Some(xp_of(experience)),
            None => None,
        },
    );
    let buffs = offered::<NetBuffs>(
        cache.buffs,
        row.sim_entity,
        match row.buffs {
            Some(rows) => Some(buff_entries(rows@)),
            None => None,
        },
    );
    (
        CombatHudCacheModel { combo: combo.0, xp: xp.0, buffs: buffs.0 },
        CombatHudPlanModel {
            entity: row.entity,
            energy: always(row.energy),
            poise: always(row.poise),
            combo: combo.1,
            xp: xp.1,
            buffs: buffs.1,
        },
    )
}

/// What is written for all rows, in order, and the cache after them.
pub open spec fn hud_pass(cache: CombatHudCacheModel, rows: Seq<CombatHudRow>) -> (
    CombatHudCacheModel,
    Seq<CombatHudPlanModel>,
)
    decreases rows.len(),
{
    if rows.len() == 0 {
        (cache, Seq::empty())
    } else {
        let before = hud_pass(cache, rows.drop_last());
        let step = hud_step(before.0, rows.last());
        (step.0, before.1.push(step.1))
    }
}

/// The models of a list of plans.
pub open spec fn plans_of(plans: Seq<CombatHudPlan>) -> Seq<CombatHudPlanModel> {
    plans.map_values(|plan: CombatHudPlan| plan@)
}

fn write_gauge(gauge: Option<Gauge>) -> (write: Write<Gauge>)
    ensures
        write == always(gauge),
{
    match gauge {
        Some(gauge) => Write::Put(gauge),
        None => Write::Remove,
    }
}

impl CombatHudMirrorCache {
    /// A cache that holds nothing.
    pub fn new() -> (cache: CombatHudMirrorCache)
        ensures
            cache@ == (CombatHudCacheModel {
                combo: Map::empty(),
                xp: Map::empty(),
                buffs: Map::empty(),
            }),
    {
        CombatHudMirrorCache {
            combo: DedupCache::new(),
            xp: DedupCache::new(),
            buffs: DedupCache::new(),
        }
    }

    /// Plans what is written to one mirror.
    pub fn plan(&mut self, row: &CombatHudRow) -> (plan: CombatHudPlan)
        ensures
            (final(self)@, plan@) == hud_step(old(self)@, *row),
    {
        let combo = match row.combo {
            Some(counter) => Some(NetCombo { counter }),
            None => None,
        };
        let xp = match &row.experience {
            Some(experience) => Some(project_xp(experience)),
            None => None,
        };
        let buffs = match &row.buffs {
            Some(rows) => Some(project_buffs(rows)),
            None => None,
        };
        CombatHudPlan {
            entity: row.entity,
            energy: write_gauge(row.energy),
            poise: write_gauge(row.poise),
            combo: self.combo.offer(row.sim_entity, combo),
            xp: self.xp.offer(row.sim_entity, xp),
            buffs: self.buffs.offer(row.sim_entity, buffs),
        }
    }
}

/// One pass over all mirrored entities: forgets those that are mirrored no longer, and plans
/// what is written to each of the others.
pub fn mirror_combat_hud_state(
    rows: &Vec<CombatHudRow>,
    mirror: &SimMirror,
    cache: &mut CombatHudMirrorCache,
) -> (plans: Vec<CombatHudPlan>)
    ensures
        (final(cache)@, plans_of(plans@)) == hud_pass(pruned(old(cache)@, mirror.0@.dom()), rows@),
{
    cache.combo.retain(&mirror.0);
    cache.xp.retain(&mirror.0);
    cache.buffs.retain(&mirror.0);
    let ghost start = cache@;
    let mut plans: Vec<CombatHudPlan> = Vec::new();
    let mut i: usize = 0;
    assert(plans_of(plans@) =~= Seq::<CombatHudPlanModel>::empty());
    while i < rows.len()
        invariant
            i <= rows.len(),
            (cache@, plans_of(plans@)) == hud_pass(start, rows@.take(i as int)),
        decreases rows.len() - i,
    {
        let ghost before = plans@;
        proof {
            assert(rows@.take(i as int + 1).drop_last() =~= rows@.take(i as int));
        }
        let plan = cache.plan(&rows[i]);
        plans.push(plan);
        assert(plans_of(plans@) =~= plans_of(before).push(plan@));
        i += 1;
    }
    assert(rows@.take(i as int) =~= rows@);
    plans
}

/// Whether a kind has an entry.
pub open spec fn is_shown(row: BuffKindRow) -> bool {
    buff_entry(row) is Some
}

/// There is one entry for each kind that is active and has an instance, and no other, in the
/// order of the kinds; where no kind is listed twice, no entry has the kind of another.
pub proof fn law_one_entry_per_kind(rows: Seq<BuffKindRow>)
    ensures
        buff_entries(rows) == rows.filter(|row: BuffKindRow| is_shown(row)).map_values(
            |row: BuffKindRow| buff_entry(row)->0,
        ),
        buff_entries(rows).len() == rows.filter(|row: BuffKindRow| is_shown(row)).len(),
        (forall|i: int, j: int|
            #![trigger rows[i], rows[j]]
            0 <= i < j < rows.len() ==> rows[i].kind != rows[j].kind) ==> forall|i: int, j: int|
            #![trigger buff_entries(rows)[i], buff_entries(rows)[j]]
            0 <= i < j < buff_entries(rows).len() ==> buff_entries(rows)[i].kind
                != buff_entries(rows)[j].kind,
    decreases rows.len(),
{
    let shown = |row: BuffKindRow| is_shown(row);
    let entry = |row: BuffKindRow| buff_entry(row)->0;
    reveal(Seq::filter);
    if rows.len() > 0 {
        let init = rows.drop_last();
        law_one_entry_per_kind(init);
        assert(buff_entries(rows) =~= rows.filter(shown).map_values(entry));
        if forall|i: int, j: int|
            #![trigger rows[i], rows[j]]
            0 <= i < j < rows.len() ==> rows[i].kind != rows[j].kind {
            assert forall|i: int, j: int|
                #![trigger init[i], init[j]]
                0 <= i < j < init.len() implies init[i].kind != init[j].kind by {
                assert(rows[i].kind != rows[j].kind);
            }
            assert forall|i: int| 0 <= i < buff_entries(init).len() implies (
            #[trigger] buff_entries(init)[i]).kind != rows.last().kind by {
                lemma_entry_has_a_kind(init, i);
                let k = choose|k: int|
                    0 <= k < init.len() && (#[trigger] init[k]).kind == buff_entries(init)[i].kind;
                assert(rows[k].kind != rows[rows.len() - 1].kind);
            }
        }
    } else {
        assert(buff_entries(rows) =~= rows.filter(shown).map_values(entry));
    }
}

proof fn lemma_entry_has_a_kind(rows: Seq<BuffKindRow>, i: int)
    requires
        0 <= i < buff_entries(rows).len(),
    ensures
        exists|k: int| 0 <= k < rows.len() && (#[trigger] rows[k]).kind == buff_entries(rows)[i].kind,
    decreases rows.len(),
{
    let init = rows.drop_last();
    if i < buff_entries(init).len() {
        lemma_entry_has_a_kind(init, i);
        let k = choose|k: int|
            0 <= k < init.len() && (#[trigger] init[k]).kind == buff_entries(init)[i].kind;
        assert(rows[k] == init[k]);
    } else {
        assert(rows[rows.len() - 1] == rows.last());
    }
}

/// The combos that a pass offers to its cache.
pub open spec fn combo_items(rows: Seq<CombatHudRow>) -> Seq<(u64, Option<NetCombo>)> {
    rows.map_values(
        |row: CombatHudRow|
            (
                row.sim_entity,
                match row.combo {
                    Some(counter) => Some(NetCombo { counter }),
                    None => None,
                },
            ),
    )
}

/// The experience that a pass offers to its cache.
pub open spec fn xp_items(rows: Seq<CombatHudRow>) -> Seq<(u64, Option<NetXp>)> {
    rows.map_values(
        |row: CombatHudRow|
            (
                row.sim_entity,
                match row.experience {
                    Some(experience) => Some(xp_of(experience)),
                    None => None,
                },
            ),
    )
}

/// The buffs that a pass offers to its cache.
pub open spec fn buff_items(rows: Seq<CombatHudRow>) -> Seq<(u64, Option<Seq<NetBuffEntry>>)> {
    rows.map_values(
        |row: CombatHudRow|
            (
                row.sim_entity,
                match row.buffs {
                    Some(rows) => Some(buff_entries(rows@)),
                    None => None,
                },
            ),
    )
}

/// A pass treats combo, experience and buffs independently of each other: each goes through
/// its own cache.
pub proof fn law_hud_pass_splits(cache: CombatHudCacheModel, rows: Seq<CombatHudRow>)
    ensures
        ({
            let pass = hud_pass(cache, rows);
            let combo = offer_all::<NetCombo>(cache.combo, combo_items(rows));
            let xp = offer_all::<NetXp>(cache.xp, xp_items(rows));
            let buffs = offer_all::<NetBuffs>(cache.buffs, buff_items(rows));
            &&& pass.0 == (CombatHudCacheModel { combo: combo.0, xp: xp.0, buffs: buffs.0 })
            &&& pass.1.len() == rows.len()
            &&& pass.1.map_values(|plan: CombatHudPlanModel| plan.combo) == combo.1
            &&& pass.1.map_values(|plan: CombatHudPlanModel| plan.xp) == xp.1
            &&& pass.1.map_values(|plan: CombatHudPlanModel| plan.buffs) == buffs.1
        }),
    decreases rows.len(),
{
    let pass = hud_pass(cache, rows);
    if rows.len() > 0 {
        let init = rows.drop_last();
        law_hud_pass_splits(cache, init);
        assert(combo_items(rows).drop_last() =~= combo_items(init));
        assert(xp_items(rows).drop_last() =~= xp_items(init));
        assert(buff_items(rows).drop_last() =~= buff_items(init));
        let before = hud_pass(cache, init);
        let step = hud_step(before.0, rows.last());
        assert(pass.1.map_values(|plan: CombatHudPlanModel| plan.combo) =~= before.1.map_values(
            |plan: CombatHudPlanModel| plan.combo,
        ).push(step.1.combo));
        assert(pass.1.map_values(|plan: CombatHudPlanModel| plan.xp) =~= before.1.map_values(
            |plan: CombatHudPlanModel| plan.xp,
        ).push(step.1.xp));
        assert(pass.1.map_values(|plan: CombatHudPlanModel| plan.buffs) =~= before.1.map_values(
            |plan: CombatHudPlanModel| plan.buffs,
        ).push(step.1.buffs));
    } else {
        assert(pass.1.map_values(|plan: CombatHudPlanModel| plan.combo) =~= Seq::empty());
        assert(pass.1.map_values(|plan: CombatHudPlanModel| plan.xp) =~= Seq::empty());
        assert(pass.1.map_values(|plan: CombatHudPlanModel| plan.buffs) =~= Seq::empty());
    }
}

/// Progress within a level: what is told of it adds up to what was earned and to where the next
/// level begins, and never falls below nothing.
pub proof fn law_progress_adds_up(experience: Experience)
    ensures
        xp_of(experience).level == experience.level,
        experience.total_exp >= experience.level_floor ==> experience.level_floor + xp_of(
            experience,
        ).xp_into_level == experience.total_exp,
        experience.total_exp < experience.level_floor ==> xp_of(experience).xp_into_level == 0,
        experience.next_floor >= experience.level_floor ==> experience.level_floor + xp_of(
            experience,
        ).xp_for_level == experience.next_floor,
        experience.next_floor < experience.level_floor ==> xp_of(experience).xp_for_level == 0,
{
}

/// Every kind of buff that is active and has an instance is shown, in the order of the kinds:
/// with the strength and the time left of its first instance, and with the number of its
/// instances as its stacks. No other kind is shown.
pub proof fn law_buffs_show_their_first_instance(rows: Seq<BuffKindRow>)
    ensures
        ({
            let shown = buff_entries(rows);
            let active = rows.filter(|row: BuffKindRow| row.active && row.instances@.len() > 0);
            &&& shown.len() == active.len()
            &&& forall|k: int|
                #![trigger shown[k]]
                #![trigger active[k]]
                0 <= k < shown.len() ==> {
                    &&& shown[k].kind == active[k].kind
                    &&& shown[k].strength == active[k].instances@[0].strength
                    &&& shown[k].remaining_secs == active[k].instances@[0].remaining_secs
                    &&& active[k].instances@.len() <= u32::MAX ==> shown[k].stacks
                        == active[k].instances@.len()
                }
        }),
    decreases rows.len(),
{
    reveal(Seq::filter);
    if rows.len() > 0 {
        law_buffs_show_their_first_instance(rows.drop_last());
    }
}

/// What one row leads to. Energy and poise are written whenever the entity has them, as they
/// are. The combo counter, the progress and the buffs are written where they differ from what
/// was written last for the entity, and each of the five is removed where the entity does not
/// have it.
pub proof fn law_hud_shows_its_entity(cache: CombatHudCacheModel, row: CombatHudRow)
    ensures
        ({
            let (after, plan) = hud_step(cache, row);
            let e = row.sim_entity;
            &&& plan.entity == row.entity
            &&& plan.energy == (match row.energy {
                Some(energy) => Write::Put(energy),
                None => Write::Remove,
            })
            &&& plan.poise == (match row.poise {
                Some(poise) => Write::Put(poise),
                None => Write::Remove,
            })
            &&& row.combo is None ==> plan.combo is Remove && !after.combo.contains_key(e)
            &&& row.combo is Some ==> {
                &&& after.combo.contains_key(e)
                &&& after.combo[e].counter == row.combo->0
                &&& plan.combo is Keep <==> cache.combo.contains_key(e) && cache.combo[e].counter
                    == row.combo->0
                &&& !(plan.combo is Keep) ==> plan.combo is Put && plan.combo->Put_0.counter
                    == row.combo->0
            }
            &&& row.experience is None ==> plan.xp is Remove && !after.xp.contains_key(e)
            &&& row.experience is Some ==> {
                let xp = xp_of(row.experience->0);
                &&& after.xp.contains_key(e)
                &&& after.xp[e] == xp
                &&& plan.xp is Keep <==> cache.xp.contains_key(e) && cache.xp[e] == xp
                &&& !(plan.xp is Keep) ==> plan.xp == Write::Put(xp)
            }
            &&& row.buffs is None ==> plan.buffs is Remove && !after.buffs.contains_key(e)
            &&& row.buffs is Some ==> {
                let buffs = buff_entries(row.buffs->0@);
                &&& after.buffs.contains_key(e)
                &&& plan.buffs is Keep ==> cache.buffs.contains_key(e) && after.buffs
                    == cache.buffs && cache.buffs[e].len() == buffs.len() && forall|i: int|
                    0 <= i < buffs.len() ==> same_buff(#[trigger] cache.buffs[e][i], buffs[i])
                &&& !(plan.buffs is Keep) ==> plan.buffs == Write::Put(buffs) && after.buffs[e]
                    == buffs && !(cache.buffs.contains_key(e) && cache.buffs[e].len() == buffs.len()
                    && forall|i: int|
                    0 <= i < buffs.len() ==> same_buff(#[trigger] cache.buffs[e][i], buffs[i]))
            }
        }),
{
    if let Some(rows) = row.buffs {
        let buffs = buff_entries(rows@);
        if cache.buffs.contains_key(row.sim_entity) {
            let held = cache.buffs[row.sim_entity];
            assert forall|i: int| 0 <= i < held.len() && i < buffs.len() implies same_buff(
                held[i],
                buffs[i],
            ) == alike_entry(held[i], buffs[i]) by {}
        }
    }
}

/// Whether two shown buffs are the same to a client: of one kind and with as many stacks, with
/// equal strength, and with equal time left or both without an end.
pub open spec fn same_buff(a: NetBuffEntry, b: NetBuffEntry) -> bool {
    &&& a.kind == b.kind
    &&& a.stacks == b.stacks
    &&& equal(a.strength, b.strength)
    &&& a.remaining_secs is None <==> b.remaining_secs is None
    &&& a.remaining_secs is Some && b.remaining_secs is Some ==> equal(
        a.remaining_secs->0,
        b.remaining_secs->0,
    )
}

/// A pass leads to one plan for each row, in order, for the mirror of that row, and writes its
/// energy and poise.
pub proof fn law_hud_pass_serves_every_row(cache: CombatHudCacheModel, rows: Seq<CombatHudRow>, i: int)
    requires
        0 <= i < rows.len(),
    ensures
        ({
            let plans = hud_pass(cache, rows).1;
            &&& plans.len() == rows.len()
            &&& plans[i].entity == rows[i].entity
            &&& plans[i].energy == (match rows[i].energy {
                Some(energy) => Write::Put(energy),
                None => Write::Remove,
            })
            &&& plans[i].poise == (match rows[i].poise {
                Some(poise) => Write::Put(poise),
                None => Write::Remove,
            })
        }),
    decreases rows.len(),
{
    let init = rows.drop_last();
    if i < init.len() {
        law_hud_pass_serves_every_row(cache, init, i);
        assert(init[i] == rows[i]);
    } else if init.len() > 0 {
        law_hud_pass_serves_every_row(cache, init, 0);
    } else {
        assert(hud_pass(cache, init).1.len() == 0);
    }
}

/// Before a pass exactly the entities that are no longer mirrored are forgotten.
pub proof fn law_unmirrored_huds_are_forgotten(cache: CombatHudCacheModel, live: Set<u64>, e: u64)
    ensures
        ({
            let kept = pruned(cache, live);
            &&& kept.combo.contains_key(e) <==> cache.combo.contains_key(e) && live.contains(e)
            &&& kept.xp.contains_key(e) <==> cache.xp.contains_key(e) && live.contains(e)
            &&& kept.buffs.contains_key(e) <==> cache.buffs.contains_key(e) && live.contains(e)
            &&& kept.combo.contains_key(e) ==> kept.combo[e] == cache.combo[e]
            &&& kept.xp.contains_key(e) ==> kept.xp[e] == cache.xp[e]
            &&& kept.buffs.contains_key(e) ==> kept.buffs[e] == cache.buffs[e]
        }),
{
}

} // verus!
