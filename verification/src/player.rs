//! The embedded local player: how it gets into the game, when it is ticked, and what it may
//! do.

use crate::chat::ChatMsg;
use crate::number::{law_decimal_reads_back, number_in};
use crate::text::{decimal, decimal_digits, is_text, join};
use vstd::prelude::*;

verus! {

/// The name that the local player logs in by.
pub const PLAYER_USERNAME: &'static str = "listen_host";

/// Whether enough time has passed since the last tick. Times are in nanoseconds; an interval
/// of zero sets no limit, and the first tick waits for nothing.
pub open spec fn due(last: Option<u64>, now: u64, max_interval: u64) -> bool {
    max_interval == 0 || last is None || now - last->0 >= max_interval
}

/// Whether enough time has passed since the last tick.
pub fn tick_is_due(last: Option<u64>, now: u64, max_interval: u64) -> (is_due: bool)
    ensures
        is_due == due(last, now, max_interval),
{
    if max_interval == 0 {
        return true;
    }
    match last {
        Some(last) => now >= last && now - last >= max_interval,
        None => true,
    }
}

/// The most often that the player is ticked per second unless something else is asked for.
pub const DEFAULT_MAX_PLAYER_TICK_HZ: u64 = 240;

/// How often the player is ticked at the most.
#[derive(Clone, Copy, Debug, PartialEq, Eq, Structural)]
pub enum TickCeiling {
    /// As often as [`DEFAULT_MAX_PLAYER_TICK_HZ`] says.
    Default,
    /// This many times per second, the bit pattern of a double-precision number.
    Hz(u64),
    /// As often as frames are drawn.
    Unlimited,
}

/// The bit pattern of the double-precision infinity.
pub const INFINITE_HZ: u64 = 0x7ff0_0000_0000_0000;

/// The bit pattern of the two to the power of -64: so few ticks per second, or fewer, and the
/// time between two of them is longer than a time can be.
pub const TOO_SLOW_HZ: u64 = 0x3bf0_0000_0000_0000;

/// Whether a double-precision number lies above zero, infinity among them.
pub open spec fn is_positive(bits: u64) -> bool {
    0 < bits <= INFINITE_HZ
}

/// How often the player is ticked at the most. `hz` is the bit pattern of the number that was
/// asked for; `None` where none was, or nothing that is a number. What is not above zero
/// lifts the limit; a rate that is too slow to wait for counts as none.
pub fn max_player_tick_interval(hz: Option<u64>) -> (ceiling: TickCeiling)
    ensures
        ceiling == match hz {
            Some(bits) => if !is_positive(bits) {
                TickCeiling::Unlimited
            } else if bits <= TOO_SLOW_HZ {
                TickCeiling::Default
            } else {
                TickCeiling::Hz(bits)
            },
            None => TickCeiling::Default,
        },
{
    match hz {
        Some(bits) => if bits == 0 || bits > INFINITE_HZ {
            TickCeiling::Unlimited
        } else if bits <= TOO_SLOW_HZ {
            TickCeiling::Default
        } else {
            TickCeiling::Hz(bits)
        },
        None => TickCeiling::Default,
    }
}

/// Where the local player stands between login and play.
#[derive(Clone, Copy, Debug, PartialEq, Eq, Structural)]
pub enum PlayerStage {
    LoadingCharacterList,
    CreatingCharacter,
    Spawning,
    InGame,
    Failed,
}

/// What the client reports of a tick.
pub enum ClientEvent {
    CharacterCreated(i64),
    Chat(ChatMsg),
    /// Somebody speaks to the player; the dialogue is known by a number.
    Dialogue { sender: u64, dialogue: u64 },
    Other,
}

/// A dialogue that waits to be shown.
#[derive(Clone, Copy, Debug, PartialEq, Eq, Structural)]
pub struct PendingDialogue {
    pub sender: u64,
    pub dialogue: u64,
}

/// The local player's state.
pub struct EmbeddedPlayer {
    pub stage: PlayerStage,
    pub character_id: Option<i64>,
    pub uid: Option<u64>,
    pub jumping: bool,
    /// When the player was last ticked, in nanoseconds.
    pub last_tick_wall: Option<u64>,
    pub pending_dialogue: Vec<PendingDialogue>,
    pub pending_chat: Vec<ChatMsg>,
}

/// What the client knows after a tick.
pub struct ClientFacts {
    /// The list of characters is still being loaded.
    pub loading: bool,
    /// The identifiers of the listed characters.
    pub characters: Vec<Option<i64>>,
    /// The player has a position in the world.
    pub has_position: bool,
    pub uid: Option<u64>,
}

/// What the client has to be told.
#[derive(Clone, Copy, Debug, PartialEq, Eq, Structural)]
pub enum StageAction {
    Nothing,
    RequestSpawn(i64),
    CreateDefaultCharacter,
}

/// The identifier of the first listed character.
pub open spec fn first_character(characters: Seq<Option<i64>>) -> Option<i64> {
    if characters.len() > 0 {
        characters[0]
    } else {
        None
    }
}

/// The identifier of the first listed character.
pub fn first_character_id(characters: &Vec<Option<i64>>) -> (id: Option<i64>)
    ensures
        id == first_character(characters@),
{
    if characters.len() > 0 {
        characters[0]
    } else {
        None
    }
}

/// A character that the account's client is told to create. It carries no second weapon.
#[derive(Clone, Copy, Debug)]
pub struct DefaultCharacter {
    pub alias: &'static str,
    pub mainhand: &'static str,
    pub hardcore: bool,
}

/// The character that is created where the account has none: it is named after the player, and
/// carries the sword that its class starts with.
pub fn create_default_character() -> (character: DefaultCharacter)
    ensures
        character.alias@ == PLAYER_USERNAME@,
        character.mainhand@ == "common.items.weapons.sword.starter"@,
        !character.hardcore,
{
    DefaultCharacter {
        alias: PLAYER_USERNAME,
        mainhand: "common.items.weapons.sword.starter",
        hardcore: false,
    }
}

/// The first character that the events report as created, from place `from` on.
pub open spec fn created_from(events: Seq<ClientEvent>, from: int) -> Option<i64>
    decreases events.len() - from,
{
    if from < 0 || from >= events.len() {
        None
    } else {
        match events[from] {
            ClientEvent::CharacterCreated(id) => Some(id),
            _ => created_from(events, from + 1),
        }
    }
}

/// The stage, character and identifier of a player.
pub ghost struct StageModel {
    pub stage: PlayerStage,
    pub character_id: Option<i64>,
    pub uid: Option<u64>,
}

/// The step from one stage to the next.
pub open spec fn next_stage(state: StageModel, events: Seq<ClientEvent>, facts: ClientFacts) -> (
    StageModel,
    StageAction,
) {
    let spawning = |id: i64|
        (
            StageModel { stage: PlayerStage::Spawning, character_id: Some(id), ..state },
            StageAction::RequestSpawn(id),
        );
    match state.stage {
        PlayerStage::LoadingCharacterList => if facts.loading {
            (state, StageAction::Nothing)
        } else {
            match first_character(facts.characters@) {
                Some(id) => spawning(id),
                None => (
                    StageModel { stage: PlayerStage::CreatingCharacter, ..state },
                    StageAction::CreateDefaultCharacter,
                ),
            }
        },
        PlayerStage::CreatingCharacter => {
            let listed = if facts.loading {
                None
            } else {
                first_character(facts.characters@)
            };
            match (created_from(events, 0), listed) {
                (Some(id), _) => spawning(id),
                (None, Some(id)) => spawning(id),
                (None, None) => (state, StageAction::Nothing),
            }
        },
        PlayerStage::Spawning => if facts.has_position {
            (
                StageModel { stage: PlayerStage::InGame, uid: facts.uid, ..state },
                StageAction::Nothing,
            )
        } else {
            (state, StageAction::Nothing)
        },
        PlayerStage::InGame => if state.uid is None {
            (StageModel { uid: facts.uid, ..state }, StageAction::Nothing)
        } else {
            (state, StageAction::Nothing)
        },
        PlayerStage::Failed => (state, StageAction::Nothing),
    }
}

/// The chat among a list of events, in order.
pub open spec fn chat_of(events: Seq<ClientEvent>) -> Seq<ChatMsg>
    decreases events.len(),
{
    if events.len() == 0 {
        Seq::empty()
    } else {
        match events.last() {
            ClientEvent::Chat(msg) => chat_of(events.drop_last()).push(msg),
            _ => chat_of(events.drop_last()),
        }
    }
}

/// The dialogues among a list of events, in order.
pub open spec fn dialogue_of(events: Seq<ClientEvent>) -> Seq<PendingDialogue>
    decreases events.len(),
{
    if events.len() == 0 {
        Seq::empty()
    } else {
        match events.last() {
            ClientEvent::Dialogue { sender, dialogue } => dialogue_of(events.drop_last()).push(
                PendingDialogue { sender, dialogue },
            ),
            _ => dialogue_of(events.drop_last()),
        }
    }
}

/// What the simulation is told of a jump: its start and its end, and nothing in between.
pub open spec fn edge(was: bool, now: bool) -> Option<bool> {
    if now != was {
        Some(now)
    } else {
        None
    }
}

/// What was told of a jump since it was at `was`, over a series of ticks.
pub open spec fn edges(was: bool, ticks: Seq<bool>) -> Seq<bool>
    decreases ticks.len(),
{
    if ticks.len() == 0 {
        Seq::empty()
    } else {
        let front = ticks.drop_last();
        let before = if front.len() == 0 {
            was
        } else {
            front.last()
        };
        match edge(before, ticks.last()) {
            Some(told) => edges(was, front).push(told),
            None => edges(was, front),
        }
    }
}

/// Starts and ends of jumps alternate, and what was told last is how things are.
pub proof fn law_jump_edges_alternate(was: bool, ticks: Seq<bool>)
    ensures
        edges(was, ticks).len() == 0 ==> ticks.len() == 0 || ticks.last() == was,
        edges(was, ticks).len() > 0 ==> edges(was, ticks).first() == !was && ticks.len() > 0
            && edges(was, ticks).last() == ticks.last(),
        forall|k: int|
            0 < k < edges(was, ticks).len() ==> #[trigger] edges(was, ticks)[k] != edges(
                was,
                ticks,
            )[k - 1],
    decreases ticks.len(),
{
    if ticks.len() > 0 {
        law_jump_edges_alternate(was, ticks.drop_last());
    }
}

/// What a tick of the player starts with.
#[derive(Clone, Copy, Debug, PartialEq, Eq, Structural)]
pub struct TickStart {
    /// The input of this frame counts; otherwise the player stands still.
    pub use_input: bool,
    /// The jump key went down or up.
    pub jump_edge: Option<bool>,
}

impl EmbeddedPlayer {
    /// The stage, character and identifier of the player.
    pub open spec fn stage_model(&self) -> StageModel {
        StageModel { stage: self.stage, character_id: self.character_id, uid: self.uid }
    }

    /// A player that has just connected.
    pub fn connected() -> (player: EmbeddedPlayer)
        ensures
            player.stage_model() == (StageModel {
                stage: PlayerStage::LoadingCharacterList,
                character_id: None,
                uid: None,
            }),
            !player.jumping,
            player.last_tick_wall is None,
            player.pending_dialogue@.len() == 0,
            player.pending_chat@.len() == 0,
    {
        EmbeddedPlayer {
            stage: PlayerStage::LoadingCharacterList,
            character_id: None,
            uid: None,
            jumping: false,
            last_tick_wall: None,
            pending_dialogue: Vec::new(),
            pending_chat: Vec::new(),
        }
    }

    /// The player's identifier in the simulation.
    pub fn uid(&self) -> (uid: Option<u64>)
        ensures
            uid == self.uid,
    {
        self.uid
    }

    /// Whether the player is in the game.
    pub fn is_in_game(&self) -> (yes: bool)
        ensures
            yes == (self.stage == PlayerStage::InGame),
    {
        self.stage == PlayerStage::InGame
    }

    /// Whether the player cannot be ticked any more.
    pub fn is_failed(&self) -> (yes: bool)
        ensures
            yes == (self.stage == PlayerStage::Failed),
    {
        self.stage == PlayerStage::Failed
    }

    /// Hands out the dialogues that wait to be shown.
    pub fn take_pending_dialogue(&mut self) -> (taken: Vec<PendingDialogue>)
        ensures
            taken@ == old(self).pending_dialogue@,
            final(self).pending_dialogue@.len() == 0,
            final(self).pending_chat == old(self).pending_chat,
            final(self).stage_model() == old(self).stage_model(),
            final(self).jumping == old(self).jumping,
            final(self).last_tick_wall == old(self).last_tick_wall,
    {
        let mut taken: Vec<PendingDialogue> = Vec::new();
        std::mem::swap(&mut taken, &mut self.pending_dialogue);
        taken
    }

    /// Hands out the chat that waits to be shown.
    pub fn drain_pending_chat(&mut self) -> (taken: Vec<ChatMsg>)
        ensures
            taken@ == old(self).pending_chat@,
            final(self).pending_chat@.len() == 0,
            final(self).pending_dialogue == old(self).pending_dialogue,
            final(self).stage_model() == old(self).stage_model(),
            final(self).jumping == old(self).jumping,
            final(self).last_tick_wall == old(self).last_tick_wall,
    {
        let mut taken: Vec<ChatMsg> = Vec::new();
        std::mem::swap(&mut taken, &mut self.pending_chat);
        taken
    }

    /// Starts a tick where one is due: `None` where it is not, and then nothing changes. Input
    /// counts only in the game, and the jump key is passed on only when it goes down or up.
    pub fn begin_tick(&mut self, now: u64, max_interval: u64, jump: bool) -> (start: Option<
        TickStart,
    >)
        ensures
            final(self).stage_model() == old(self).stage_model(),
            final(self).pending_dialogue == old(self).pending_dialogue,
            final(self).pending_chat == old(self).pending_chat,
            !due(old(self).last_tick_wall, now, max_interval) ==> {
                &&& start is None
                &&& final(self).jumping == old(self).jumping
                &&& final(self).last_tick_wall == old(self).last_tick_wall
            },
            due(old(self).last_tick_wall, now, max_interval) ==> {
                let in_game = old(self).stage == PlayerStage::InGame;
                let jump_now = in_game && jump;
                &&& start == Some(
                    TickStart {
                        use_input: in_game,
                        jump_edge: edge(old(self).jumping, jump_now),
                    },
                )
                &&& final(self).jumping == jump_now
                &&& final(self).last_tick_wall == Some(now)
            },
    {
        if !tick_is_due(self.last_tick_wall, now, max_interval) {
            return None;
        }
        self.last_tick_wall = Some(now);
        let in_game = self.stage == PlayerStage::InGame;
        let jump_now = in_game && jump;
        let jump_edge = if jump_now != self.jumping {
            self.jumping = jump_now;
            Some(jump_now)
        } else {
            None
        };
        Some(TickStart { use_input: in_game, jump_edge })
    }

    /// Takes in that a tick failed: the player stays out of the game for good. Returns whether
    /// that is news.
    pub fn fail_tick(&mut self) -> (news: bool)
        ensures
            news == (old(self).stage != PlayerStage::Failed),
            final(self).stage_model() == (StageModel {
                stage: PlayerStage::Failed,
                ..old(self).stage_model()
            }),
            final(self).jumping == old(self).jumping,
            final(self).last_tick_wall == old(self).last_tick_wall,
            final(self).pending_dialogue == old(self).pending_dialogue,
            final(self).pending_chat == old(self).pending_chat,
    {
        let news = self.stage != PlayerStage::Failed;
        self.stage = PlayerStage::Failed;
        news
    }

    fn request_spawn(&mut self, id: i64) -> (action: StageAction)
        ensures
            action == StageAction::RequestSpawn(id),
            final(self).stage_model() == (StageModel {
                stage: PlayerStage::Spawning,
                character_id: Some(id),
                ..old(self).stage_model()
            }),
            final(self).jumping == old(self).jumping,
            final(self).last_tick_wall == old(self).last_tick_wall,
            final(self).pending_dialogue == old(self).pending_dialogue,
            final(self).pending_chat == old(self).pending_chat,
    {
        self.character_id = Some(id);
        self.stage = PlayerStage::Spawning;
        StageAction::RequestSpawn(id)
    }

    /// Steps from one stage to the next, by what the client knows after a tick.
    pub fn advance_stage(&mut self, events: &Vec<ClientEvent>, facts: &ClientFacts) -> (action:
        StageAction)
        ensures
            (final(self).stage_model(), action) == next_stage(
                old(self).stage_model(),
                events@,
                *facts,
            ),
            final(self).jumping == old(self).jumping,
            final(self).last_tick_wall == old(self).last_tick_wall,
            final(self).pending_dialogue == old(self).pending_dialogue,
            final(self).pending_chat == old(self).pending_chat,
    {
        match self.stage {
            PlayerStage::LoadingCharacterList => {
                if facts.loading {
                    return StageAction::Nothing;
                }
                match first_character_id(&facts.characters) {
                    Some(id) => self.request_spawn(id),
                    None => {
                        self.stage = PlayerStage::CreatingCharacter;
                        StageAction::CreateDefaultCharacter
                    },
                }
            },
            PlayerStage::CreatingCharacter => {
                let id = match find_created(events) {
                    Some(id) => Some(id),
                    None => if facts.loading {
                        None
                    } else {
                        first_character_id(&facts.characters)
                    },
                };
                match id {
                    Some(id) => self.request_spawn(id),
                    None => StageAction::Nothing,
                }
            },
            PlayerStage::Spawning => {
                if facts.has_position {
                    self.uid = facts.uid;
                    self.stage = PlayerStage::InGame;
                }
                StageAction::Nothing
            },
            PlayerStage::InGame => {
                if self.uid.is_none() {
                    self.uid = facts.uid;
                }
                StageAction::Nothing
            },
            PlayerStage::Failed => StageAction::Nothing,
        }
    }

    /// Keeps the dialogues and the chat among a tick's events until they are shown.
    pub fn capture_events(&mut self, events: &Vec<ClientEvent>)
        ensures
            final(self).pending_dialogue@ == old(self).pending_dialogue@ + dialogue_of(events@),
            final(self).pending_chat@ == old(self).pending_chat@ + chat_of(events@),
            final(self).stage_model() == old(self).stage_model(),
            final(self).jumping == old(self).jumping,
            final(self).last_tick_wall == old(self).last_tick_wall,
    {
        let ghost dialogues = self.pending_dialogue@;
        let ghost chat = self.pending_chat@;
        let ghost stage = self.stage_model();
        let ghost jumping = self.jumping;
        let ghost wall = self.last_tick_wall;
        let mut i: usize = 0;
        assert(self.pending_dialogue@ =~= dialogues + dialogue_of(events@.take(0)));
        assert(self.pending_chat@ =~= chat + chat_of(events@.take(0)));
        while i < events.len()
            invariant
                i <= events.len(),
                self.pending_dialogue@ == dialogues + dialogue_of(events@.take(i as int)),
                self.pending_chat@ == chat + chat_of(events@.take(i as int)),
                self.stage_model() == stage,
                self.jumping == jumping,
                self.last_tick_wall == wall,
            decreases events.len() - i,
        {
            proof {
                assert(events@.take(i as int + 1).drop_last() =~= events@.take(i as int));
            }
            match &events[i] {
                ClientEvent::Dialogue { sender, dialogue } => {
                    self.pending_dialogue.push(
                        PendingDialogue { sender: *sender, dialogue: *dialogue },
                    );
                },
                ClientEvent::Chat(msg) => {
                    self.pending_chat.push(msg.copy());
                },
                _ => {},
            }
            i += 1;
            assert(self.pending_dialogue@ =~= dialogues + dialogue_of(events@.take(i as int)));
            assert(self.pending_chat@ =~= chat + chat_of(events@.take(i as int)));
        }
        assert(events@.take(i as int) =~= events@);
    }

    /// Ends a tick that went well.
    pub fn finish_tick(&mut self, events: &Vec<ClientEvent>, facts: &ClientFacts) -> (action:
        StageAction)
        ensures
            (final(self).stage_model(), action) == next_stage(
                old(self).stage_model(),
                events@,
                *facts,
            ),
            final(self).pending_dialogue@ == old(self).pending_dialogue@ + dialogue_of(events@),
            final(self).pending_chat@ == old(self).pending_chat@ + chat_of(events@),
            final(self).jumping == old(self).jumping,
            final(self).last_tick_wall == old(self).last_tick_wall,
    {
        let action = self.advance_stage(events, facts);
        self.capture_events(events);
        action
    }
}

fn find_created(events: &Vec<ClientEvent>) -> (id: Option<i64>)
    ensures
        id == created_from(events@, 0),
{
    let mut i: usize = 0;
    while i < events.len()
        invariant
            i <= events.len(),
            created_from(events@, 0) == created_from(events@, i as int),
        decreases events.len() - i,
    {
        if let ClientEvent::CharacterCreated(id) = &events[i] {
            return Some(*id);
        }
        i += 1;
    }
    None
}

/// The game is entered from the stage of spawning only, and only with a position in the
/// world.
pub proof fn law_game_is_entered_by_spawning(
    state: StageModel,
    events: Seq<ClientEvent>,
    facts: ClientFacts,
)
    requires
        state.stage != PlayerStage::InGame,
        next_stage(state, events, facts).0.stage == PlayerStage::InGame,
    ensures
        state.stage == PlayerStage::Spawning,
        facts.has_position,
        next_stage(state, events, facts).0.uid == facts.uid,
{
}

/// A player who failed stays failed, and the client is told nothing any more.
pub proof fn law_failure_is_final(state: StageModel, events: Seq<ClientEvent>, facts: ClientFacts)
    requires
        state.stage == PlayerStage::Failed,
    ensures
        next_stage(state, events, facts) == (state, StageAction::Nothing),
{
}

/// The client is asked to spawn a character exactly when the player goes on to the stage of
/// spawning, and then that character is the player's.
pub proof fn law_spawn_is_requested_once(
    state: StageModel,
    events: Seq<ClientEvent>,
    facts: ClientFacts,
)
    ensures
        ({
            let step = next_stage(state, events, facts);
            &&& step.1 is RequestSpawn <==> state.stage != PlayerStage::Spawning && step.0.stage
                == PlayerStage::Spawning
            &&& step.1 is RequestSpawn ==> step.0.character_id == Some(step.1->RequestSpawn_0)
        }),
{
}

/// An identifier that is known in the game is never given up there.
pub proof fn law_uid_is_kept_in_game(state: StageModel, events: Seq<ClientEvent>, facts: ClientFacts)
    requires
        state.stage == PlayerStage::InGame,
        state.uid is Some,
    ensures
        next_stage(state, events, facts) == (state, StageAction::Nothing),
{
}

/// What the local player can do in respect of groups.
#[derive(Clone, Copy, Debug, PartialEq, Eq, Structural)]
pub enum GroupCommand {
    Invite { invitee: u64, kind: u32 },
    AcceptInvite,
    DeclineInvite,
    Leave,
    Kick { member: u64 },
    AssignLeader { member: u64 },
}

impl EmbeddedPlayer {
    /// What may be done in the game only.
    pub open spec fn in_game_only(&self, command: GroupCommand) -> Option<GroupCommand> {
        if self.stage == PlayerStage::InGame {
            Some(command)
        } else {
            None
        }
    }

    fn gate(&self, command: GroupCommand) -> (passed: Option<GroupCommand>)
        ensures
            passed == self.in_game_only(command),
    {
        if self.is_in_game() {
            Some(command)
        } else {
            None
        }
    }

    /// Invites somebody; `kind` is the number of the kind of invitation.
    pub fn send_group_invite(&self, invitee: u64, kind: u32) -> (command: Option<GroupCommand>)
        ensures
            command == self.in_game_only(GroupCommand::Invite { invitee, kind }),
    {
        self.gate(GroupCommand::Invite { invitee, kind })
    }

    /// Accepts the open invitation.
    pub fn accept_invite(&self) -> (command: Option<GroupCommand>)
        ensures
            command == self.in_game_only(GroupCommand::AcceptInvite),
    {
        self.gate(GroupCommand::AcceptInvite)
    }

    /// Declines the open invitation.
    pub fn decline_invite(&self) -> (command: Option<GroupCommand>)
        ensures
            command == self.in_game_only(GroupCommand::DeclineInvite),
    {
        self.gate(GroupCommand::DeclineInvite)
    }

    /// Leaves the group.
    pub fn leave_group(&self) -> (command: Option<GroupCommand>)
        ensures
            command == self.in_game_only(GroupCommand::Leave),
    {
        self.gate(GroupCommand::Leave)
    }

    /// Removes a member from the group.
    pub fn kick_from_group(&self, member: u64) -> (command: Option<GroupCommand>)
        ensures
            command == self.in_game_only(GroupCommand::Kick { member }),
    {
        self.gate(GroupCommand::Kick { member })
    }

    /// Hands the lead of the group to a member.
    pub fn assign_group_leader(&self, member: u64) -> (command: Option<GroupCommand>)
        ensures
            command == self.in_game_only(GroupCommand::AssignLeader { member }),
    {
        self.gate(GroupCommand::AssignLeader { member })
    }

    /// The entity that a dialogue is performed with; `target` is what the partner's identifier
    /// resolves to. There is none outside the game, or where it does not resolve any more.
    pub fn perform_dialogue(&self, target: Option<u64>) -> (partner: Option<u64>)
        ensures
            partner == if self.stage == PlayerStage::InGame {
                target
            } else {
                None
            },
    {
        if !self.is_in_game() {
            return None;
        }
        target
    }
}

/// A mirror that is marked as the local player's.
#[derive(Clone, Copy, Debug, PartialEq, Eq, Structural)]
pub struct LocalMirror {
    pub entity: u64,
    /// It carries a predicted position already.
    pub predicted: bool,
}

/// Where the predicted position is written: over the one that is there, or as a new component.
#[derive(Clone, Copy, Debug, PartialEq, Eq, Structural)]
pub enum PredictionWrite {
    Overwrite { entity: u64 },
    Insert { entity: u64 },
}

/// Where the predicted position is written. That takes a player in the game with a position,
/// and exactly one mirror that is the local player's.
pub open spec fn prediction(
    in_game: bool,
    has_position: bool,
    mirrors: Seq<LocalMirror>,
) -> Option<PredictionWrite> {
    if in_game && has_position && mirrors.len() == 1 {
        let entity = mirrors[0].entity;
        Some(
            if mirrors[0].predicted {
                PredictionWrite::Overwrite { entity }
            } else {
                PredictionWrite::Insert { entity }
            },
        )
    } else {
        None
    }
}

/// Where the predicted position is written. `in_game` is `None` without a local player.
pub fn mirror_local_player_prediction(
    in_game: Option<bool>,
    has_position: bool,
    mirrors: &Vec<LocalMirror>,
) -> (write: Option<PredictionWrite>)
    ensures
        write == prediction(in_game == Some(true), has_position, mirrors@),
{
    let playing = match in_game {
        Some(in_game) => in_game,
        None => false,
    };
    if !playing || !has_position || mirrors.len() != 1 {
        return None;
    }
    let mirror = mirrors[0];
    if mirror.predicted {
        Some(PredictionWrite::Overwrite { entity: mirror.entity })
    } else {
        Some(PredictionWrite::Insert { entity: mirror.entity })
    }
}

/// How often the player was ticked in the current window, and how often it was not.
#[derive(Clone, Copy, Debug, PartialEq, Eq, Structural)]
pub struct TickPerfLog {
    pub enabled: bool,
    pub window_start: u64,
    pub ticked: u32,
    pub skipped: u32,
}

/// The length of a window, in nanoseconds.
pub const TICK_PERF_LOG_WINDOW: u64 = 1_000_000_000;

/// What is reported of a window.
#[derive(Clone, Copy, Debug, PartialEq, Eq, Structural)]
pub struct TickPerfReport {
    pub ticked: u32,
    pub skipped: u32,
    pub elapsed: u64,
}

/// The log before the first frame.
pub open spec fn fresh_log(enabled: bool, now: u64) -> TickPerfLog {
    TickPerfLog { enabled, window_start: now, ticked: 0, skipped: 0 }
}

/// The log with one frame more.
pub open spec fn counted(log: TickPerfLog, ticked: bool) -> TickPerfLog {
    TickPerfLog {
        ticked: (log.ticked + if ticked { 1int } else { 0int }) as u32,
        skipped: (log.skipped + if ticked { 0int } else { 1int }) as u32,
        ..log
    }
}

/// Whether another frame can be counted; a log that is not enabled counts none.
pub open spec fn can_count(log: TickPerfLog, ticked: bool) -> bool {
    log.enabled ==> if ticked {
        log.ticked < u32::MAX
    } else {
        log.skipped < u32::MAX
    }
}

/// The time since a window began.
pub open spec fn elapsed_in(log: TickPerfLog, now: u64) -> u64 {
    if now >= log.window_start {
        (now - log.window_start) as u64
    } else {
        0
    }
}

/// The log after a frame, and the report where the frame ends a window.
pub open spec fn perf_step(log: TickPerfLog, ticked: bool, now: u64) -> (
    TickPerfLog,
    Option<TickPerfReport>,
) {
    let now_counted = counted(log, ticked);
    let elapsed = elapsed_in(log, now);
    if !log.enabled {
        (log, None)
    } else if elapsed >= TICK_PERF_LOG_WINDOW {
        (
            fresh_log(true, now),
            Some(
                TickPerfReport {
                    ticked: now_counted.ticked,
                    skipped: now_counted.skipped,
                    elapsed,
                },
            ),
        )
    } else {
        (now_counted, None)
    }
}

/// Whether tick rates are reported: where the setting is there, and is anything but a zero.
pub fn perf_log_enabled(setting: Option<&str>) -> (enabled: bool)
    ensures
        enabled == (setting is Some && setting->0@ != "0"@),
{
    match setting {
        Some(text) => !is_text(text, "0"),
        None => false,
    }
}

/// Counts a frame, and reports the window that it ends. The log starts with the first frame;
/// whether it is enabled is decided then.
pub fn log_tick_perf(
    state: &mut Option<TickPerfLog>,
    enabled: bool,
    ticked: bool,
    now: u64,
) -> (report: Option<TickPerfReport>)
    requires
        *old(state) is Some ==> can_count((*old(state))->0, ticked),
    ensures
        ({
            let log = match *old(state) {
                Some(log) => log,
                None => fresh_log(enabled, now),
            };
            &&& *final(state) == Some(perf_step(log, ticked, now).0)
            &&& report == perf_step(log, ticked, now).1
        }),
{
    let mut log = match *state {
        Some(log) => log,
        None => TickPerfLog { enabled, window_start: now, ticked: 0, skipped: 0 },
    };
    if !log.enabled {
        *state = Some(log);
        return None;
    }
    if ticked {
        log.ticked = log.ticked + 1;
    } else {
        log.skipped = log.skipped + 1;
    }
    let elapsed: u64 = if now >= log.window_start {
        now - log.window_start
    } else {
        0
    };
    let mut report: Option<TickPerfReport> = None;
    if elapsed >= TICK_PERF_LOG_WINDOW {
        report = Some(TickPerfReport { ticked: log.ticked, skipped: log.skipped, elapsed });
        log = TickPerfLog { enabled: true, window_start: now, ticked: 0, skipped: 0 };
    }
    *state = Some(log);
    report
}

/// A protocol that the simulation listens on.
#[derive(Clone, Copy, Debug, PartialEq, Eq, Structural)]
pub enum Protocol {
    Tcp { port: u16 },
    Quic,
}

/// The port of the first protocol that the local player can use, from place `from` on.
pub open spec fn tcp_port(protocols: Seq<Protocol>, from: int) -> Option<u16>
    decreases protocols.len() - from,
{
    if from < 0 || from >= protocols.len() {
        None
    } else {
        match protocols[from] {
            Protocol::Tcp { port } => Some(port),
            Protocol::Quic => tcp_port(protocols, from + 1),
        }
    }
}

/// The address of a port of this machine.
pub open spec fn loopback(port: u16) -> Seq<char> {
    "127.0.0.1:"@ + decimal_digits(port as nat)
}

/// Where the local player connects to. The error says that the simulation listens on no
/// protocol that the player can use.
pub fn connection_address(protocols: &Vec<Protocol>) -> (address: Result<String, String>)
    ensures
        match tcp_port(protocols@, 0) {
            Some(port) => address is Ok && address->Ok_0@ == loopback(port),
            None => address is Err && address->Err_0@
                == "sim has no TCP gameserver protocol to connect to"@,
        },
{
    let mut i: usize = 0;
    while i < protocols.len()
        invariant
            i <= protocols.len(),
            tcp_port(protocols@, 0) == tcp_port(protocols@, i as int),
        decreases protocols.len() - i,
    {
        if let Protocol::Tcp { port } = protocols[i] {
            let digits = decimal(port as u64);
            return Ok(join("127.0.0.1:", digits.as_str()));
        }
        i += 1;
    }
    Err("sim has no TCP gameserver protocol to connect to".to_owned())
}

/// How the attempt to connect ended, where it did not end well.
pub enum ConnectFailure {
    /// No runtime could be built for the connection; the text says why.
    Runtime(String),
    /// The server refused the connection; the text says why.
    Refused(String),
    TimedOut,
}

/// What is reported of an attempt to connect that failed.
pub open spec fn connect_report(failure: ConnectFailure) -> Seq<char> {
    match failure {
        ConnectFailure::Runtime(cause) => "failed to build embedded-player runtime: "@ + cause@,
        ConnectFailure::Refused(cause) => "embedded player connect failed: "@ + cause@,
        ConnectFailure::TimedOut => "embedded player connect timed out"@,
    }
}

/// What is reported of an attempt to connect that failed.
pub fn connect_error(failure: &ConnectFailure) -> (report: String)
    ensures
        report@ == connect_report(*failure),
{
    match failure {
        ConnectFailure::Runtime(cause) => join(
            "failed to build embedded-player runtime: ",
            cause.as_str(),
        ),
        ConnectFailure::Refused(cause) => join("embedded player connect failed: ", cause.as_str()),
        ConnectFailure::TimedOut => "embedded player connect timed out".to_owned(),
    }
}

/// Whether some event tells of a character that was created.
pub open spec fn creation_told(events: Seq<ClientEvent>) -> bool {
    exists|i: int| 0 <= i < events.len() && #[trigger] events[i] is CharacterCreated
}

proof fn lemma_created_from(events: Seq<ClientEvent>, from: int)
    requires
        0 <= from <= events.len(),
    ensures
        ({
            let created = created_from(events, from);
            &&& created is None <==> forall|i: int|
                from <= i < events.len() ==> !(#[trigger] events[i] is CharacterCreated)
            &&& forall|i: int|
                from <= i < events.len() && #[trigger] events[i] is CharacterCreated && (forall|j: int|
                    from <= j < i ==> !(#[trigger] events[j] is CharacterCreated)) ==> created
                    == Some(events[i]->CharacterCreated_0)
        }),
    decreases events.len() - from,
{
    if from < events.len() {
        lemma_created_from(events, from + 1);
        assert(events[from] is CharacterCreated ==> created_from(events, from) is Some);
    }
}

/// The way into the game, stage by stage. A roster that has loaded is entered with its first
/// character, or, where it has none, with one that is created; a creation is over when an event
/// tells of it, the first such event naming the character, or when the loaded roster has one.
/// Spawning is over when the player has a position. No stage is left otherwise, and none is
/// skipped.
pub proof fn law_stages_follow_the_client(
    state: StageModel,
    events: Seq<ClientEvent>,
    facts: ClientFacts,
)
    ensures
        ({
            let (after, action) = next_stage(state, events, facts);
            let listed = !facts.loading && facts.characters@.len() > 0 && facts.characters@[0]
                is Some;
            match state.stage {
                PlayerStage::LoadingCharacterList => {
                    &&& facts.loading ==> after == state && action is Nothing
                    &&& listed ==> after.stage is Spawning && after.character_id
                        == facts.characters@[0] && Some(action->RequestSpawn_0)
                        == facts.characters@[0] && action is RequestSpawn && after.uid == state.uid
                    &&& !facts.loading && !listed ==> after.stage is CreatingCharacter && action
                        is CreateDefaultCharacter && after.character_id == state.character_id
                        && after.uid == state.uid
                },
                PlayerStage::CreatingCharacter => {
                    &&& creation_told(events) || listed ==> after.stage is Spawning && action
                        is RequestSpawn && after.character_id == Some(action->RequestSpawn_0)
                        && after.uid == state.uid
                    &&& !creation_told(events) && listed ==> after.character_id
                        == facts.characters@[0]
                    &&& forall|i: int|
                        0 <= i < events.len() && #[trigger] events[i] is CharacterCreated && (
                        forall|j: int| 0 <= j < i ==> !(#[trigger] events[j] is CharacterCreated))
                            ==> after.character_id == Some(events[i]->CharacterCreated_0)
                    &&& !creation_told(events) && !listed ==> after == state && action is Nothing
                },
                PlayerStage::Spawning => {
                    &&& action is Nothing
                    &&& after.character_id == state.character_id
                    &&& after.stage is InGame <==> facts.has_position
                    &&& facts.has_position ==> after.uid == facts.uid
                    &&& !facts.has_position ==> after == state
                },
                PlayerStage::InGame => {
                    &&& action is Nothing
                    &&& after.stage is InGame
                    &&& after.character_id == state.character_id
                    &&& after.uid == (if state.uid is Some {
                        state.uid
                    } else {
                        facts.uid
                    })
                },
                PlayerStage::Failed => after == state && action is Nothing,
            }
        }),
{
    lemma_created_from(events, 0);
    if created_from(events, 0) is Some {
        assert(creation_told(events));
    }
}

/// What players say is taken from the events in order, all of it, and so is what they are
/// asked; other events are passed over.
pub proof fn law_events_are_taken_in_order(events: Seq<ClientEvent>)
    ensures
        chat_of(events) == events.filter(|event: ClientEvent| event is Chat).map_values(
            |event: ClientEvent| event->Chat_0,
        ),
        ({
            let asked = events.filter(|event: ClientEvent| event is Dialogue);
            let taken = dialogue_of(events);
            &&& taken.len() == asked.len()
            &&& forall|k: int|
                #![trigger taken[k]]
                #![trigger asked[k]]
                0 <= k < taken.len() ==> taken[k].sender == asked[k]->sender && taken[k].dialogue
                    == asked[k]->dialogue
        }),
    decreases events.len(),
{
    reveal(Seq::filter);
    if events.len() > 0 {
        let init = events.drop_last();
        law_events_are_taken_in_order(init);
        let said = init.filter(|event: ClientEvent| event is Chat);
        assert(said.push(events.last()).map_values(|event: ClientEvent| event->Chat_0)
            =~= said.map_values(|event: ClientEvent| event->Chat_0).push(events.last()->Chat_0));
    }
    assert(chat_of(events) =~= events.filter(|event: ClientEvent| event is Chat).map_values(
        |event: ClientEvent| event->Chat_0,
    ));
}

/// The player is ticked the first time, whenever the interval has passed, and always where there
/// is none; putting the interval up never makes a tick due that was not.
pub proof fn law_ticks_keep_their_interval(last: u64, now: u64, interval: u64, longer: u64)
    requires
        last <= now,
        interval <= longer,
    ensures
        due(None, now, interval),
        due(Some(last), now, 0),
        due(Some(last), now, interval) <==> last + interval <= now || interval == 0,
        due(Some(last), now, longer) && longer > 0 ==> due(Some(last), now, interval),
{
}

/// The prediction is written for the one mirror of the local player, in the game and with a
/// position, and for no mirror where there are none or several; what is there already is
/// written over.
pub proof fn law_prediction_has_one_mirror(
    in_game: bool,
    has_position: bool,
    mirrors: Seq<LocalMirror>,
)
    ensures
        ({
            let write = prediction(in_game, has_position, mirrors);
            &&& write is Some <==> in_game && has_position && mirrors.len() == 1
            &&& write matches Some(PredictionWrite::Overwrite { entity }) ==> mirrors[0].predicted
                && entity == mirrors[0].entity
            &&& write matches Some(PredictionWrite::Insert { entity }) ==> !mirrors[0].predicted
                && entity == mirrors[0].entity
        }),
{
}

/// The measurement of ticks loses none: a tick is counted as what it was in the window that is
/// open, and the report that closes a window tells of every tick since it began, the last one
/// with them, over the time that it was open. Nothing is measured where that was not asked for.
pub proof fn law_every_tick_is_counted(log: TickPerfLog, ticked: bool, now: u64)
    requires
        can_count(log, ticked),
    ensures
        ({
            let (after, report) = perf_step(log, ticked, now);
            let (made, passed) = if ticked {
                (log.ticked + 1, log.skipped as int)
            } else {
                (log.ticked as int, log.skipped + 1)
            };
            &&& !log.enabled ==> after == log && report is None
            &&& log.enabled ==> after.enabled
            &&& log.enabled ==> (report is Some <==> now >= log.window_start + TICK_PERF_LOG_WINDOW)
            &&& report is Some ==> {
                &&& report->0.ticked == made
                &&& report->0.skipped == passed
                &&& log.window_start + report->0.elapsed == now
                &&& after.window_start == now
                &&& after.ticked == 0
                &&& after.skipped == 0
            }
            &&& log.enabled && report is None ==> after.ticked == made && after.skipped == passed
                && after.window_start == log.window_start
        }),
{
}

/// The player connects to the port of the first protocol in the list that is plain, and to none
/// where there is no such protocol.
pub proof fn law_first_plain_port_is_taken(protocols: Seq<Protocol>)
    ensures
        tcp_port(protocols, 0) is None <==> forall|i: int|
            0 <= i < protocols.len() ==> #[trigger] protocols[i] is Quic,
        forall|i: int|
            0 <= i < protocols.len() && #[trigger] protocols[i] is Tcp && (forall|j: int|
                0 <= j < i ==> #[trigger] protocols[j] is Quic) ==> tcp_port(protocols, 0) == Some(
                protocols[i]->port,
            ),
{
    lemma_tcp_port(protocols, 0);
}

proof fn lemma_tcp_port(protocols: Seq<Protocol>, from: int)
    requires
        0 <= from <= protocols.len(),
    ensures
        tcp_port(protocols, from) is None <==> forall|i: int|
            from <= i < protocols.len() ==> #[trigger] protocols[i] is Quic,
        forall|i: int|
            from <= i < protocols.len() && #[trigger] protocols[i] is Tcp && (forall|j: int|
                from <= j < i ==> #[trigger] protocols[j] is Quic) ==> tcp_port(protocols, from)
                == Some(protocols[i]->port),
    decreases protocols.len() - from,
{
    if from < protocols.len() {
        lemma_tcp_port(protocols, from + 1);
        assert(protocols[from] is Tcp ==> tcp_port(protocols, from) is Some);
    }
}

/// A command for the group is passed on as it is in the game, and not at all at any other stage.
pub proof fn law_group_commands_wait_for_the_game(player: EmbeddedPlayer, command: GroupCommand)
    ensures
        player.in_game_only(command) is Some <==> player.stage is InGame,
        player.in_game_only(command) is Some ==> player.in_game_only(command)->0 == command,
{
}

/// The jump key is passed on tick by tick: one tick passes on the state that it finds exactly
/// where that is not the state before, and what a run of ticks passes on is what its first part
/// does and then, from the state which that ends in, the rest.
pub proof fn law_jump_edges_split(was: bool, first: Seq<bool>, rest: Seq<bool>, now: bool)
    ensures
        now == was ==> edge(was, now) is None && edges(was, seq![now]).len() == 0,
        now != was ==> edge(was, now) == Some(now) && edges(was, seq![now]) == seq![now],
        edges(was, first + rest) == edges(was, first) + edges(
            if first.len() == 0 {
                was
            } else {
                first.last()
            },
            rest,
        ),
    decreases rest.len(),
{
    let one = seq![now];
    assert(one.drop_last() =~= Seq::<bool>::empty());
    assert(edges(was, one.drop_last()).len() == 0);
    assert(edges(was, one) =~= (if now == was {
        Seq::<bool>::empty()
    } else {
        seq![now]
    }));
    let mid = if first.len() == 0 {
        was
    } else {
        first.last()
    };
    if rest.len() == 0 {
        assert(first + rest =~= first);
    } else {
        law_jump_edges_split(was, first, rest.drop_last(), now);
        let all = first + rest;
        assert(all.drop_last() =~= first + rest.drop_last());
    }
    assert(edges(was, first + rest) =~= edges(was, first) + edges(mid, rest));
}

/// The address that the player connects to is this machine, at the port, which reads back from
/// what follows the colon.
pub proof fn law_address_names_its_port(port: u16)
    ensures
        "127.0.0.1:"@.is_prefix_of(loopback(port)),
        number_in(loopback(port).skip("127.0.0.1:"@.len() as int)) == Some(port as u32),
{
    let head = "127.0.0.1:"@;
    let all = loopback(port);
    assert(head =~= all.take(head.len() as int));
    assert(all.skip(head.len() as int) =~= decimal_digits(port as nat));
    law_decimal_reads_back(port as u32);
}

/// What is reported of a connection that failed ends with the cause, where there is one.
pub proof fn law_report_tells_the_cause(failure: ConnectFailure)
    ensures
        match failure {
            ConnectFailure::Runtime(cause) => cause@.is_suffix_of(connect_report(failure))
                && connect_report(failure).len() > cause@.len(),
            ConnectFailure::Refused(cause) => cause@.is_suffix_of(connect_report(failure))
                && connect_report(failure).len() > cause@.len(),
            ConnectFailure::TimedOut => connect_report(failure).len() > 0,
        },
{
    reveal_strlit("failed to build embedded-player runtime: ");
    reveal_strlit("embedded player connect failed: ");
    reveal_strlit("embedded player connect timed out");
    let report = connect_report(failure);
    match failure {
        ConnectFailure::Runtime(cause) => {
            assert(cause@ =~= report.subrange(report.len() - cause@.len(), report.len() as int));
        },
        ConnectFailure::Refused(cause) => {
            assert(cause@ =~= report.subrange(report.len() - cause@.len(), report.len() as int));
        },
        ConnectFailure::TimedOut => {},
    }
}

/// What counts as a positive rate, by its pattern: the sign bit is clear, it is not zero, and it
/// lies no higher than infinity.
pub proof fn law_positive_rates(bits: u64)
    ensures
        is_positive(bits) <==> bits != 0 && bits <= 0x7ff0_0000_0000_0000,
{
}

} // verus!
