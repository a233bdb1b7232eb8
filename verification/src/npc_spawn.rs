//! The ring of wandering characters that a fresh world is given to look at.

use crate::number::{law_decimal_reads_back, number_in, parse_u32};
use crate::terrain::{world_centre, SimServer, CHUNK_BLOCKS};
use crate::text::{decimal, decimal_digits, join};
use vstd::prelude::*;

verus! {

/// How many ticks a world is given to settle before the ring is spawned.
pub const WARMUP_TICKS: u64 = 150;

/// How many characters the ring has unless something else is asked for: two of each kind.
pub const DEFAULT_NPC_COUNT: u32 = 8;

/// The radius of the ring, in blocks.
pub const TEST_NPC_RING_RADIUS: u32 = 10;

/// Whether the ring was spawned, and when it could have been at the earliest.
#[derive(Clone, Copy, Debug, PartialEq, Eq, Structural)]
pub struct TestNpcState {
    pub spawned: bool,
    /// The tick on which the player was first found ready.
    pub ready_since: Option<u64>,
    pub warmup_ticks: u64,
    pub count: u32,
}

/// How many characters are asked for: what the setting says, where it says a number.
pub open spec fn asked_count(setting: Option<Seq<char>>) -> u32 {
    match setting {
        Some(text) => match number_in(text) {
            Some(count) => count,
            None => DEFAULT_NPC_COUNT,
        },
        None => DEFAULT_NPC_COUNT,
    }
}

impl TestNpcState {
    /// Nothing was spawned yet. `setting` is the number of characters as it was configured.
    pub fn new(setting: Option<&str>) -> (state: TestNpcState)
        ensures
            state == (TestNpcState {
                spawned: false,
                ready_since: None,
                warmup_ticks: WARMUP_TICKS,
                count: asked_count(
                    match setting {
                        Some(text) => Some(text@),
                        None => None,
                    },
                ),
            }),
    {
        let count: u32 = match setting {
            Some(text) => match parse_u32(text) {
                Some(count) => count,
                None => DEFAULT_NPC_COUNT,
            },
            None => DEFAULT_NPC_COUNT,
        };
        TestNpcState { spawned: false, ready_since: None, warmup_ticks: WARMUP_TICKS, count }
    }
}

/// The kinds of characters in the ring.
#[derive(Clone, Copy, Debug, PartialEq, Eq, Structural)]
pub enum NpcKind {
    Pig,
    Human,
    Wolf,
    Owl,
}

/// The kind of the character at a place of the ring.
pub open spec fn kind_at(index: int) -> NpcKind {
    if index % 4 == 0 {
        NpcKind::Pig
    } else if index % 4 == 1 {
        NpcKind::Human
    } else if index % 4 == 2 {
        NpcKind::Wolf
    } else {
        NpcKind::Owl
    }
}

/// What the names of a kind start with.
pub open spec fn name_prefix(kind: NpcKind) -> Seq<char> {
    match kind {
        NpcKind::Pig => "Test NPC "@,
        NpcKind::Human => "Test Human "@,
        NpcKind::Wolf => "Test Wolf "@,
        NpcKind::Owl => "Test Owl "@,
    }
}

/// A character that is spawned.
pub struct TestNpc {
    pub index: u32,
    pub kind: NpcKind,
    pub name: String,
}

/// A [`TestNpc`] over text.
pub ghost struct TestNpcModel {
    pub index: u32,
    pub kind: NpcKind,
    pub name: Seq<char>,
}

impl View for TestNpc {
    type V = TestNpcModel;

    open spec fn view(&self) -> TestNpcModel {
        TestNpcModel { index: self.index, kind: self.kind, name: self.name@ }
    }
}

/// A character of a kind, named by its place.
pub open spec fn npc_of(kind: NpcKind, index: u32) -> TestNpcModel {
    TestNpcModel { index, kind, name: name_prefix(kind) + decimal_digits(index as nat) }
}

/// A character of a kind, named by its place.
pub fn wandering(kind: NpcKind, index: u32) -> (npc: TestNpc)
    ensures
        npc@ == npc_of(kind, index),
{
    let prefix = match kind {
        NpcKind::Pig => "Test NPC ",
        NpcKind::Human => "Test Human ",
        NpcKind::Wolf => "Test Wolf ",
        NpcKind::Owl => "Test Owl ",
    };
    let digits = decimal(index as u64);
    TestNpc { index, kind, name: join(prefix, digits.as_str()) }
}

impl SimServer {
    /// The character that is spawned where one wandering character is asked for.
    pub fn spawn_wandering_npc(&self, index: u32) -> (npc: TestNpc)
        ensures
            npc@ == npc_of(NpcKind::Pig, index),
    {
        wandering(NpcKind::Pig, index)
    }
}

/// How far the local player is.
#[derive(Clone, Copy, Debug, PartialEq, Eq, Structural)]
pub struct PlayerReadiness {
    pub in_game: bool,
    pub failed: bool,
}

/// Whether the ring need not wait for the player: there is none, or they are in the game, or
/// never will be.
pub open spec fn is_ready(player: Option<PlayerReadiness>) -> bool {
    match player {
        Some(player) => player.in_game || player.failed,
        None => true,
    }
}

/// The tick that the time to settle counts from.
pub open spec fn settles_from(state: TestNpcState, ticks: u64) -> u64 {
    match state.ready_since {
        Some(since) => since,
        None => ticks,
    }
}

/// Whether the ring is spawned on this tick.
pub open spec fn ring_due(
    state: TestNpcState,
    ticks: Option<u64>,
    player: Option<PlayerReadiness>,
) -> bool {
    &&& ticks is Some
    &&& !state.spawned
    &&& is_ready(player)
    &&& ticks->0 >= settles_from(state, ticks->0) + state.warmup_ticks
}

/// The state after a pass.
pub open spec fn ring_after(
    state: TestNpcState,
    ticks: Option<u64>,
    player: Option<PlayerReadiness>,
) -> TestNpcState {
    if ticks is Some && !state.spawned && is_ready(player) {
        TestNpcState {
            ready_since: Some(settles_from(state, ticks->0)),
            spawned: ring_due(state, ticks, player),
            ..state
        }
    } else {
        state
    }
}

/// The characters of a ring of `count`.
pub open spec fn ring(count: nat) -> Seq<TestNpcModel> {
    Seq::new(count, |i: int| npc_of(kind_at(i), i as u32))
}

/// The characters over text.
pub open spec fn npc_models(npcs: Seq<TestNpc>) -> Seq<TestNpcModel> {
    npcs.map_values(|npc: TestNpc| npc@)
}

/// Spawns the ring once, when the player is where they will be and the world has had time to
/// settle since. `ticks` is `None` without a simulation, `player` without a local player.
pub fn spawn_test_npcs(
    state: &mut TestNpcState,
    ticks: Option<u64>,
    player: Option<PlayerReadiness>,
) -> (npcs: Option<Vec<TestNpc>>)
    ensures
        *final(state) == ring_after(*old(state), ticks, player),
        npcs is Some <==> ring_due(*old(state), ticks, player),
        npcs is Some ==> npc_models(npcs->0@) == ring(old(state).count as nat),
{
    let ticks: u64 = match ticks {
        Some(ticks) => ticks,
        None => {
            return None;
        },
    };
    if state.spawned {
        return None;
    }
    let ready = match player {
        Some(player) => player.in_game || player.failed,
        None => true,
    };
    if !ready {
        return None;
    }
    let since: u64 = match state.ready_since {
        Some(since) => since,
        None => ticks,
    };
    state.ready_since = Some(since);
    if ticks < since || ticks - since < state.warmup_ticks {
        return None;
    }
    let mut npcs: Vec<TestNpc> = Vec::new();
    let mut i: u32 = 0;
    assert(npc_models(npcs@) =~= ring(0));
    while i < state.count
        invariant
            i <= state.count,
            npc_models(npcs@) == ring(i as nat),
        decreases state.count - i,
    {
        let ghost before = npcs@;
        let kind = match i % 4 {
            0 => NpcKind::Pig,
            1 => NpcKind::Human,
            2 => NpcKind::Wolf,
            _ => NpcKind::Owl,
        };
        npcs.push(wandering(kind, i));
        assert(npc_models(npcs@) =~= npc_models(before).push(npcs@.last()@));
        i += 1;
        assert(npc_models(npcs@) =~= ring(i as nat));
    }
    state.spawned = true;
    Some(npcs)
}

/// What the ring is laid around.
#[derive(Clone, Copy, Debug, PartialEq, Eq, Structural)]
pub enum RingCentre {
    /// The player's position, as bit patterns.
    Player { x: u32, y: u32 },
    /// The centre of the world, in blocks.
    World { x: u64, y: u64 },
}

/// What the ring is laid around: the player where their position is known, and else the
/// centre of a world of so many chunks.
pub fn ring_centre(player: Option<(u32, u32)>, chunks_x: u32, chunks_y: u32) -> (centre: RingCentre)
    ensures
        match player {
            Some(at) => centre == (RingCentre::Player { x: at.0, y: at.1 }),
            None => {
                &&& centre matches RingCentre::World { x, y }
                &&& x * 2 == chunks_x * CHUNK_BLOCKS
                &&& y * 2 == chunks_y * CHUNK_BLOCKS
            },
        },
{
    match player {
        Some(at) => RingCentre::Player { x: at.0, y: at.1 },
        None => {
            let (x, y) = world_centre(chunks_x, chunks_y);
            RingCentre::World { x, y }
        },
    }
}

/// The ring is spawned once: what a pass leaves behind a spawn never spawns again.
pub proof fn law_ring_is_spawned_once(
    state: TestNpcState,
    ticks: Option<u64>,
    player: Option<PlayerReadiness>,
    later_ticks: Option<u64>,
    later_player: Option<PlayerReadiness>,
)
    requires
        ring_due(state, ticks, player),
    ensures
        !ring_due(ring_after(state, ticks, player), later_ticks, later_player),
        ring_after(ring_after(state, ticks, player), later_ticks, later_player) == ring_after(
            state,
            ticks,
            player,
        ),
{
}

/// While the player is on their way into the game nothing happens, and no time to settle runs.
pub proof fn law_ring_waits_for_the_player(
    state: TestNpcState,
    ticks: Option<u64>,
    player: PlayerReadiness,
)
    requires
        !player.in_game,
        !player.failed,
    ensures
        !ring_due(state, ticks, Some(player)),
        ring_after(state, ticks, Some(player)) == state,
{
}

/// From the tick on which the player is first ready, a fresh ring waits exactly the time to
/// settle.
pub proof fn law_ring_settles(
    state: TestNpcState,
    ticks: u64,
    player: Option<PlayerReadiness>,
    later: u64,
    later_player: Option<PlayerReadiness>,
)
    requires
        !state.spawned,
        state.ready_since is None,
        state.warmup_ticks > 0,
        is_ready(player),
        is_ready(later_player),
    ensures
        !ring_due(state, Some(ticks), player),
        ring_due(ring_after(state, Some(ticks), player), Some(later), later_player) <==> later
            >= ticks + state.warmup_ticks,
{
}

/// A ring of four or more has every kind.
pub proof fn law_ring_has_every_kind(count: nat, kind: NpcKind)
    requires
        count >= 4,
    ensures
        exists|i: int| 0 <= i < count && (#[trigger] ring(count)[i]).kind == kind,
{
    let i: int = match kind {
        NpcKind::Pig => 0,
        NpcKind::Human => 1,
        NpcKind::Wolf => 2,
        NpcKind::Owl => 3,
    };
    assert(ring(count)[i].kind == kind);
}

/// Where a piece of gear is worn.
#[derive(Clone, Copy, Debug, PartialEq, Eq, Structural)]
pub enum GearSlot {
    ActiveMainhand,
    Chest,
    Pants,
    Feet,
    Lantern,
    Head,
    Glider,
}

/// A piece of gear that a human of the ring wears.
#[derive(Clone, Copy, Debug)]
pub struct TestGear {
    pub slot: GearSlot,
    pub item: &'static str,
}

/// The item that a human of the ring wears at a place.
pub open spec fn gear_item(slot: GearSlot) -> Seq<char> {
    match slot {
        GearSlot::ActiveMainhand => "common.items.weapons.sword.starter"@,
        GearSlot::Chest => "common.items.armor.misc.chest.worker_purple_brown"@,
        GearSlot::Pants => "common.items.armor.misc.pants.worker_brown"@,
        GearSlot::Feet => "common.items.armor.misc.foot.sandals"@,
        GearSlot::Lantern => "common.items.lantern.black_0"@,
        GearSlot::Head => "common.items.armor.mail.bronze.head"@,
        GearSlot::Glider => "common.items.glider.basic_white"@,
    }
}

/// The places in the order in which they are filled.
pub open spec fn gear_slots() -> Seq<GearSlot> {
    seq![
        GearSlot::ActiveMainhand,
        GearSlot::Chest,
        GearSlot::Pants,
        GearSlot::Feet,
        GearSlot::Lantern,
        GearSlot::Head,
        GearSlot::Glider,
    ]
}

/// What the humans of the ring wear.
pub fn humanoid_test_inventory() -> (gear: Vec<TestGear>)
    ensures
        gear@.len() == gear_slots().len(),
        forall|i: int|
            0 <= i < gear@.len() ==> (#[trigger] gear@[i]).slot == gear_slots()[i]
                && gear@[i].item@ == gear_item(gear_slots()[i]),
{
    let mut gear: Vec<TestGear> = Vec::new();
    gear.push(
        TestGear { slot: GearSlot::ActiveMainhand, item: "common.items.weapons.sword.starter" },
    );
    gear.push(
        TestGear {
            slot: GearSlot::Chest,
            item: "common.items.armor.misc.chest.worker_purple_brown",
        },
    );
    gear.push(
        TestGear { slot: GearSlot::Pants, item: "common.items.armor.misc.pants.worker_brown" },
    );
    gear.push(TestGear { slot: GearSlot::Feet, item: "common.items.armor.misc.foot.sandals" });
    gear.push(TestGear { slot: GearSlot::Lantern, item: "common.items.lantern.black_0" });
    gear.push(TestGear { slot: GearSlot::Head, item: "common.items.armor.mail.bronze.head" });
    gear.push(TestGear { slot: GearSlot::Glider, item: "common.items.glider.basic_white" });
    gear
}

/// The ring has as many characters as asked for: each has its place as its index, the kinds
/// take turns, and its name ends in its index, behind what its kind is called.
pub proof fn law_ring_is_numbered(count: nat, i: int)
    requires
        0 <= i < count <= u32::MAX,
    ensures
        ring(count).len() == count,
        ({
            let npc = ring(count)[i];
            &&& npc.index == i
            &&& npc.kind is Pig <==> i % 4 == 0
            &&& npc.kind is Human <==> i % 4 == 1
            &&& npc.kind is Wolf <==> i % 4 == 2
            &&& npc.kind is Owl <==> i % 4 == 3
            &&& name_prefix(npc.kind).is_prefix_of(npc.name)
            &&& number_in(npc.name.skip(name_prefix(npc.kind).len() as int)) == Some(npc.index)
        }),
{
    let npc = ring(count)[i];
    let head = name_prefix(npc.kind);
    assert(head =~= npc.name.take(head.len() as int));
    assert(npc.name.skip(head.len() as int) =~= decimal_digits(npc.index as nat));
    law_decimal_reads_back(npc.index);
}

/// Characters of different kinds are called differently, whatever their number.
pub proof fn law_kinds_are_called_differently(a: NpcKind, b: NpcKind)
    requires
        a != b,
    ensures
        name_prefix(a) != name_prefix(b),
        name_prefix(a).last() == ' ',
{
    reveal_strlit("Test NPC ");
    reveal_strlit("Test Human ");
    reveal_strlit("Test Wolf ");
    reveal_strlit("Test Owl ");
    let (npc, human, wolf, owl) = ("Test NPC "@, "Test Human "@, "Test Wolf "@, "Test Owl "@);
    assert(npc[5] == 'N' && human[5] == 'H' && wolf[5] == 'W' && owl[5] == 'O');
    assert(npc[8] == ' ' && human[10] == ' ' && wolf[9] == ' ' && owl[8] == ' ');
}

/// As many characters are asked for as the setting says in digits, and as many as usual where
/// there is no setting or it says something else.
pub proof fn law_setting_gives_the_count(n: u32, text: Seq<char>)
    ensures
        asked_count(Some(decimal_digits(n as nat))) == n,
        asked_count(None) == DEFAULT_NPC_COUNT,
        number_in(text) is None ==> asked_count(Some(text)) == DEFAULT_NPC_COUNT,
        number_in(text) is Some ==> asked_count(Some(text)) == number_in(text)->0,
{
    law_decimal_reads_back(n);
}

/// When the ring is spawned: on a tick of the simulation on which no player is waited for, not
/// before the world had its time to settle since that was first so, and not if it was spawned
/// before. Until then the tick on which it was first so is remembered; nothing changes while a
/// player is waited for, or without a simulation.
pub proof fn law_ring_is_due_once_settled(
    state: TestNpcState,
    ticks: Option<u64>,
    player: Option<PlayerReadiness>,
)
    ensures
        ({
            let after = ring_after(state, ticks, player);
            let waits = player is Some && !player->0.in_game && !player->0.failed;
            let runs = ticks is Some && !waits && !state.spawned;
            let since = if state.ready_since is Some {
                state.ready_since->0
            } else {
                ticks->0
            };
            &&& ring_due(state, ticks, player) <==> runs && ticks->0 >= since + state.warmup_ticks
            &&& !runs ==> after == state
            &&& runs ==> after.ready_since == Some(since) && after.spawned == ring_due(
                state,
                ticks,
                player,
            )
            &&& after.warmup_ticks == state.warmup_ticks
            &&& after.count == state.count
        }),
{
}

/// The gear of a character fills every place, and no place twice.
pub proof fn law_gear_fills_every_place(slot: GearSlot)
    ensures
        gear_slots().contains(slot),
        gear_slots().no_duplicates(),
{
    let slots = gear_slots();
    let at: int = match slot {
        GearSlot::ActiveMainhand => 0,
        GearSlot::Chest => 1,
        GearSlot::Pants => 2,
        GearSlot::Feet => 3,
        GearSlot::Lantern => 4,
        GearSlot::Head => 5,
        GearSlot::Glider => 6,
    };
    assert(slots[at] == slot);
}

/// No two places hold the same item.
pub proof fn law_gear_items_differ(a: GearSlot, b: GearSlot)
    requires
        a != b,
    ensures
        gear_item(a) != gear_item(b),
{
    reveal_strlit("common.items.weapons.sword.starter");
    reveal_strlit("common.items.armor.misc.chest.worker_purple_brown");
    reveal_strlit("common.items.armor.misc.pants.worker_brown");
    reveal_strlit("common.items.armor.misc.foot.sandals");
    reveal_strlit("common.items.lantern.black_0");
    reveal_strlit("common.items.armor.mail.bronze.head");
    reveal_strlit("common.items.glider.basic_white");
    assert(gear_item(GearSlot::ActiveMainhand).len() == 34);
    assert(gear_item(GearSlot::Chest).len() == 49);
    assert(gear_item(GearSlot::Pants).len() == 42);
    assert(gear_item(GearSlot::Feet).len() == 36);
    assert(gear_item(GearSlot::Lantern).len() == 28);
    assert(gear_item(GearSlot::Head).len() == 35);
    assert(gear_item(GearSlot::Glider).len() == 31);
}

} // verus!
