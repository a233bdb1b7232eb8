//! The overlay that holds what a language model adds to a character's mind: which characters
//! have an entry, and what a new entry holds.

use crate::keys::keys_of;
use std::collections::{HashMap, HashSet};
use vstd::prelude::*;

verus! {

broadcast use vstd::std_specs::hash::group_hash_axioms;

/// How much of the language model is in use.
#[derive(Clone, Copy, Debug, PartialEq, Eq, Structural)]
pub enum AiExecutionMode {
    Offline,
    LocalOnly,
    Full,
}

/// What a character is about to do; everything but idling is known by a number.
#[derive(Clone, Copy, Debug, PartialEq, Eq, Structural)]
pub enum IntentKind {
    Idle,
    Other(u32),
}

/// A character's mood; every mood but the neutral one is known by a number.
#[derive(Clone, Copy, Debug, PartialEq, Eq, Structural)]
pub enum MoodKind {
    Neutral,
    Other(u32),
}

/// An intention and its weight, a bit pattern.
#[derive(Clone, Copy, Debug, PartialEq, Eq, Structural)]
pub struct Intention {
    pub kind: IntentKind,
    pub weight: u32,
}

/// What a character feels, and how much of it, a bit pattern.
#[derive(Clone, Copy, Debug, PartialEq, Eq, Structural)]
pub struct EmotionalState {
    pub mood: MoodKind,
    pub intensity: u32,
}

/// The bit pattern of a weight of one.
pub const FULL_WEIGHT: u32 = 0x3f80_0000;

/// The bit pattern of an intensity of zero.
pub const NO_INTENSITY: u32 = 0;

/// What the overlay holds of a character.
#[derive(Clone, Debug, PartialEq, Eq)]
pub struct AuroraNpcState {
    pub short_term_memory: Vec<String>,
    pub intention: Vec<Intention>,
    pub emotional_state: EmotionalState,
}

/// An [`AuroraNpcState`] over text.
pub ghost struct AuroraModel {
    pub short_term_memory: Seq<Seq<char>>,
    pub intention: Seq<Intention>,
    pub emotional_state: EmotionalState,
}

impl View for AuroraNpcState {
    type V = AuroraModel;

    open spec fn view(&self) -> AuroraModel {
        AuroraModel {
            short_term_memory: self.short_term_memory@.map_values(|line: String| line@),
            intention: self.intention@,
            emotional_state: self.emotional_state,
        }
    }
}

/// What a new entry holds: nothing is remembered, the character idles, and feels nothing.
pub open spec fn neutral() -> AuroraModel {
    AuroraModel {
        short_term_memory: Seq::empty(),
        intention: seq![Intention { kind: IntentKind::Idle, weight: FULL_WEIGHT }],
        emotional_state: EmotionalState { mood: MoodKind::Neutral, intensity: NO_INTENSITY },
    }
}

impl Default for AuroraNpcState {
    fn default() -> (state: AuroraNpcState)
        ensures
            state@ == neutral(),
    {
        let mut intention: Vec<Intention> = Vec::new();
        intention.push(Intention { kind: IntentKind::Idle, weight: FULL_WEIGHT });
        let state = AuroraNpcState {
            short_term_memory: Vec::new(),
            intention,
            emotional_state: EmotionalState { mood: MoodKind::Neutral, intensity: NO_INTENSITY },
        };
        assert(state@.short_term_memory =~= neutral().short_term_memory);
        assert(state@.intention =~= neutral().intention);
        state
    }
}

/// The entries of the overlay, by the character's unique number.
pub struct AuroraOverlay(pub HashMap<u64, AuroraNpcState>);

impl View for AuroraOverlay {
    type V = Map<u64, AuroraModel>;

    open spec fn view(&self) -> Map<u64, AuroraModel> {
        self.0@.map_values(|state: AuroraNpcState| state@)
    }
}

impl AuroraOverlay {
    /// An overlay without entries.
    pub fn new() -> (overlay: AuroraOverlay)
        ensures
            overlay@ == Map::<u64, AuroraModel>::empty(),
    {
        let overlay = AuroraOverlay(HashMap::new());
        assert(overlay@ =~= Map::<u64, AuroraModel>::empty());
        overlay
    }
}

/// The overlay after a pass: no entry while the language model is offline, and otherwise one
/// for each character that is there, with what its entry held before, or a neutral one.
pub open spec fn overlay_after(
    mode: AiExecutionMode,
    before: Map<u64, AuroraModel>,
    live: Seq<u64>,
) -> Map<u64, AuroraModel> {
    if mode == AiExecutionMode::Offline {
        Map::empty()
    } else {
        Map::new(
            |uid: u64| live.contains(uid),
            |uid: u64|
                if before.contains_key(uid) {
                    before[uid]
                } else {
                    neutral()
                },
        )
    }
}

/// Fills `scratch` with the numbers in `live`.
fn collect_live(live: &Vec<u64>, scratch: &mut HashSet<u64>)
    ensures
        final(scratch)@ == live@.to_set(),
{
    scratch.clear();
    let mut i: usize = 0;
    assert(scratch@ =~= live@.take(0).to_set());
    while i < live.len()
        invariant
            i <= live.len(),
            scratch@ == live@.take(i as int).to_set(),
        decreases live.len() - i,
    {
        let ghost before = live@.take(i as int);
        scratch.insert(live[i]);
        assert(live@.take(i as int + 1) =~= before.push(live@[i as int]));
        assert(scratch@ =~= before.push(live@[i as int]).to_set()) by {
            assert forall|uid: u64| before.push(live@[i as int]).contains(uid) <==> (
            before.contains(uid) || uid == live@[i as int]) by {
                if before.contains(uid) {
                    let k = before.index_of(uid);
                    assert(before.push(live@[i as int])[k] == uid);
                }
                assert(before.push(live@[i as int])[i as int] == live@[i as int]);
            }
        }
        i += 1;
    }
    assert(live@.take(i as int) =~= live@);
}

/// Removes every entry whose number is not in `scratch`.
fn drop_gone(overlay: &mut AuroraOverlay, scratch: &HashSet<u64>)
    ensures
        forall|uid: u64| #[trigger]
            final(overlay).0@.contains_key(uid) <==> old(overlay).0@.contains_key(uid)
                && scratch@.contains(uid),
        forall|uid: u64| #[trigger]
            final(overlay).0@.contains_key(uid) ==> final(overlay).0@[uid] == old(overlay).0@[uid],
{
    let keys = keys_of(&overlay.0);
    let mut i: usize = 0;
    while i < keys.len()
        invariant
            i <= keys.len(),
            keys@.no_duplicates(),
            keys@.to_set() == old(overlay).0@.dom(),
            forall|uid: u64| #[trigger]
                overlay.0@.contains_key(uid) <==> old(overlay).0@.contains_key(uid) && (
                scratch@.contains(uid) || !keys@.take(i as int).contains(uid)),
            forall|uid: u64| #[trigger]
                overlay.0@.contains_key(uid) ==> overlay.0@[uid] == old(overlay).0@[uid],
        decreases keys.len() - i,
    {
        let ghost before = overlay.0@;
        if !scratch.contains(&keys[i]) {
            overlay.0.remove(&keys[i]);
        }
        assert forall|uid: u64| #[trigger]
            overlay.0@.contains_key(uid) <==> old(overlay).0@.contains_key(uid) && (
            scratch@.contains(uid) || !keys@.take(i as int + 1).contains(uid)) by {
            assert(keys@.take(i as int + 1).contains(uid) <==> keys@.take(i as int).contains(uid)
                || uid == keys@[i as int]) by {
                if keys@.take(i as int).contains(uid) {
                    let k = keys@.take(i as int).index_of(uid);
                    assert(keys@.take(i as int + 1)[k] == uid);
                }
                assert(keys@.take(i as int + 1)[i as int] == keys@[i as int]);
            }
            assert(before.contains_key(uid) || !before.contains_key(uid));
        }
        i += 1;
    }
    assert(keys@.take(i as int) =~= keys@);
    assert forall|uid: u64| old(overlay).0@.contains_key(uid) implies keys@.contains(uid) by {
        assert(keys@.to_set().contains(uid));
    }
}

/// Brings the overlay up to date with the characters that are there. An entry that is there
/// already is left as it is. `scratch` holds the numbers in `live` afterwards, and is left as
/// it is while the language model is offline.
pub fn recompute_aurora_overlay(
    mode: AiExecutionMode,
    overlay: &mut AuroraOverlay,
    live: &Vec<u64>,
    scratch: &mut HashSet<u64>,
)
    ensures
        final(overlay)@ == overlay_after(mode, old(overlay)@, live@),
        final(scratch)@ == if mode == AiExecutionMode::Offline {
            old(scratch)@
        } else {
            live@.to_set()
        },
{
    if mode == AiExecutionMode::Offline {
        overlay.0.clear();
        assert(overlay@ =~= Map::<u64, AuroraModel>::empty());
        return ;
    }
    collect_live(live, scratch);
    drop_gone(overlay, scratch);
    let ghost kept = overlay.0@;
    let mut i: usize = 0;
    while i < live.len()
        invariant
            i <= live.len(),
            forall|uid: u64| #[trigger]
                overlay.0@.contains_key(uid) <==> kept.contains_key(uid) || live@.take(
                    i as int,
                ).contains(uid),
            forall|uid: u64| #[trigger]
                overlay.0@.contains_key(uid) ==> overlay.0@[uid]@ == if kept.contains_key(uid) {
                    kept[uid]@
                } else {
                    neutral()
                },
        decreases live.len() - i,
    {
        let ghost before = overlay.0@;
        if !overlay.0.contains_key(&live[i]) {
            overlay.0.insert(live[i], AuroraNpcState::default());
        }
        assert forall|uid: u64| #[trigger]
            overlay.0@.contains_key(uid) <==> kept.contains_key(uid) || live@.take(
                i as int + 1,
            ).contains(uid) by {
            assert(live@.take(i as int + 1).contains(uid) <==> live@.take(i as int).contains(uid)
                || uid == live@[i as int]) by {
                if live@.take(i as int).contains(uid) {
                    let k = live@.take(i as int).index_of(uid);
                    assert(live@.take(i as int + 1)[k] == uid);
                }
                assert(live@.take(i as int + 1)[i as int] == live@[i as int]);
            }
            assert(before.contains_key(uid) || !before.contains_key(uid));
        }
        i += 1;
    }
    assert(live@.take(i as int) =~= live@);
    assert forall|uid: u64| kept.contains_key(uid) implies live@.contains(uid) by {
        assert(live@.to_set().contains(uid));
    }
    assert forall|uid: u64| live@.contains(uid) implies live@.to_set().contains(uid) by {}
    assert(overlay@ =~= overlay_after(mode, old(overlay)@, live@));
}

/// A mirror that carries a unique number.
#[derive(Clone, Copy, Debug, PartialEq, Eq, Structural)]
pub struct MirroredUid {
    pub uid: u64,
    pub is_local_player: bool,
}

/// The numbers of the mirrors that are characters: all but the local player's.
pub open spec fn npc_uids(rows: Seq<MirroredUid>) -> Seq<u64>
    decreases rows.len(),
{
    if rows.len() == 0 {
        Seq::empty()
    } else {
        let before = npc_uids(rows.drop_last());
        if rows.last().is_local_player {
            before
        } else {
            before.push(rows.last().uid)
        }
    }
}

/// Brings the overlay up to date with the mirrors that are there, without the local player.
pub fn tick_aurora_overlay(
    mode: AiExecutionMode,
    overlay: &mut AuroraOverlay,
    rows: &Vec<MirroredUid>,
    scratch: &mut HashSet<u64>,
)
    ensures
        final(overlay)@ == overlay_after(mode, old(overlay)@, npc_uids(rows@)),
        final(scratch)@ == if mode == AiExecutionMode::Offline {
            old(scratch)@
        } else {
            npc_uids(rows@).to_set()
        },
{
    let mut live: Vec<u64> = Vec::new();
    let mut i: usize = 0;
    while i < rows.len()
        invariant
            i <= rows.len(),
            live@ == npc_uids(rows@.take(i as int)),
        decreases rows.len() - i,
    {
        proof {
            assert(rows@.take(i as int + 1).drop_last() =~= rows@.take(i as int));
        }
        if !rows[i].is_local_player {
            live.push(rows[i].uid);
        }
        i += 1;
    }
    assert(rows@.take(i as int) =~= rows@);
    recompute_aurora_overlay(mode, overlay, &live, scratch);
}

/// Offline, no character has an entry, whatever was there before.
pub proof fn law_offline_means_no_entries(before: Map<u64, AuroraModel>, live: Seq<u64>)
    ensures
        overlay_after(AiExecutionMode::Offline, before, live) == Map::<u64, AuroraModel>::empty(),
{
}

/// Otherwise exactly the characters that are there have one.
pub proof fn law_entries_are_the_live(
    mode: AiExecutionMode,
    before: Map<u64, AuroraModel>,
    live: Seq<u64>,
    uid: u64,
)
    requires
        mode != AiExecutionMode::Offline,
    ensures
        overlay_after(mode, before, live).contains_key(uid) <==> live.contains(uid),
{
}

/// What an entry holds is never overwritten, and what is new is neutral.
pub proof fn law_entries_are_kept(
    mode: AiExecutionMode,
    before: Map<u64, AuroraModel>,
    live: Seq<u64>,
    uid: u64,
)
    requires
        mode != AiExecutionMode::Offline,
        live.contains(uid),
    ensures
        before.contains_key(uid) ==> overlay_after(mode, before, live)[uid] == before[uid],
        !before.contains_key(uid) ==> overlay_after(mode, before, live)[uid] == neutral(),
{
}

/// A second pass over the same characters changes nothing.
pub proof fn law_second_pass_changes_nothing(
    mode: AiExecutionMode,
    before: Map<u64, AuroraModel>,
    live: Seq<u64>,
)
    ensures
        overlay_after(mode, overlay_after(mode, before, live), live) == overlay_after(
            mode,
            before,
            live,
        ),
{
    assert(overlay_after(mode, overlay_after(mode, before, live), live) =~= overlay_after(
        mode,
        before,
        live,
    ));
}

/// The local player never has an entry, unless a character shares their number.
pub proof fn law_local_player_has_no_entry(
    mode: AiExecutionMode,
    before: Map<u64, AuroraModel>,
    rows: Seq<MirroredUid>,
    uid: u64,
)
    requires
        forall|i: int| 0 <= i < rows.len() && (#[trigger] rows[i]).uid == uid ==> rows[i].is_local_player,
    ensures
        !overlay_after(mode, before, npc_uids(rows)).contains_key(uid),
{
    lemma_npc_uids(rows, uid);
}

/// A number is that of a character where one of its mirrors is not the local player's.
proof fn lemma_npc_uids(rows: Seq<MirroredUid>, uid: u64)
    requires
        forall|i: int| 0 <= i < rows.len() && (#[trigger] rows[i]).uid == uid ==> rows[i].is_local_player,
    ensures
        !npc_uids(rows).contains(uid),
    decreases rows.len(),
{
    if rows.len() > 0 {
        let front = rows.drop_last();
        assert forall|i: int| 0 <= i < front.len() && (#[trigger] front[i]).uid == uid implies front[i].is_local_player by {
            assert(rows[i] == front[i]);
        }
        lemma_npc_uids(front, uid);
        assert(rows[rows.len() - 1] == rows.last());
        if npc_uids(rows).contains(uid) {
            let k = npc_uids(rows).index_of(uid);
            if k < npc_uids(front).len() {
                assert(npc_uids(front)[k] == uid);
            }
        }
    }
}

/// The characters that may have an entry are those that are mirrored and not the local player,
/// in order.
pub proof fn law_only_the_local_player_is_left_out(rows: Seq<MirroredUid>)
    ensures
        npc_uids(rows) == rows.filter(|row: MirroredUid| !row.is_local_player).map_values(
            |row: MirroredUid| row.uid,
        ),
    decreases rows.len(),
{
    reveal(Seq::filter);
    if rows.len() > 0 {
        let init = rows.drop_last();
        law_only_the_local_player_is_left_out(init);
        let kept = init.filter(|row: MirroredUid| !row.is_local_player);
        assert(kept.push(rows.last()).map_values(|row: MirroredUid| row.uid) =~= kept.map_values(
            |row: MirroredUid| row.uid,
        ).push(rows.last().uid));
    }
    assert(npc_uids(rows) =~= rows.filter(|row: MirroredUid| !row.is_local_player).map_values(
        |row: MirroredUid| row.uid,
    ));
}

/// A character without an entry gets one that remembers nothing, wants to idle and nothing else,
/// with full weight, and feels nothing.
pub proof fn law_new_entry_is_neutral(
    mode: AiExecutionMode,
    before: Map<u64, AuroraModel>,
    live: Seq<u64>,
    uid: u64,
)
    requires
        mode != AiExecutionMode::Offline,
        live.contains(uid),
        !before.contains_key(uid),
    ensures
        ({
            let entry = overlay_after(mode, before, live)[uid];
            &&& entry.short_term_memory.len() == 0
            &&& entry.intention.len() == 1
            &&& entry.intention[0].kind is Idle
            &&& entry.intention[0].weight == 0x3f80_0000
            &&& entry.emotional_state.mood is Neutral
            &&& entry.emotional_state.intensity == 0
        }),
{
}

} // verus!
