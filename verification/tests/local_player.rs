use xindeler_sim_bridge::axes::{
    predicted_local_transform, sim_pos_to_bevy, PredictedLocalTransform, QuatBits, Vec3Bits,
};
use xindeler_sim_bridge::boot::{worker_name, TEST_SERVER_THREAD_PREFIX, TEST_SERVER_WORKERS};
use xindeler_sim_bridge::chat::{ChatChannel, ChatMsg, Content};
use xindeler_sim_bridge::player::{
    connect_error, connection_address, create_default_character, first_character_id, log_tick_perf,
    max_player_tick_interval, mirror_local_player_prediction, perf_log_enabled, tick_is_due, ClientEvent, ClientFacts, ConnectFailure,
    EmbeddedPlayer, GroupCommand, LocalMirror, PendingDialogue, PlayerStage, PredictionWrite,
    Protocol, StageAction, TickCeiling, TickPerfReport, TickStart, DEFAULT_MAX_PLAYER_TICK_HZ,
    PLAYER_USERNAME, TOO_SLOW_HZ,
};
use std::time::Duration;

const MILLIS: u64 = 1_000_000;

fn bits(x: f32, y: f32, z: f32) -> Vec3Bits {
    Vec3Bits { x: x.to_bits(), y: y.to_bits(), z: z.to_bits() }
}

fn floats(v: Vec3Bits) -> (f32, f32, f32) {
    (f32::from_bits(v.x), f32::from_bits(v.y), f32::from_bits(v.z))
}

#[test]
fn sim_pos_maps_z_up_to_y_up() {
    let bevy = sim_pos_to_bevy(bits(100.0, 200.0, 50.0));
    assert_eq!(floats(bevy), (100.0, 50.0, -200.0));
}

#[test]
fn predicted_local_transform_converts_sim_axes_to_bevy() {
    let predicted = predicted_local_transform(bits(10.0, 20.0, 5.0), bits(1.0, 2.0, 0.0), None);
    assert_eq!(floats(predicted.pos), (10.0, 5.0, -20.0));
    assert_eq!(floats(predicted.vel), (1.0, 0.0, -2.0));
    assert_eq!(
        predicted.ori,
        QuatBits {
            x: 0f32.to_bits(),
            y: 0f32.to_bits(),
            z: 0f32.to_bits(),
            w: 1f32.to_bits(),
        }
    );
}

#[test]
fn predicted_transform_keeps_a_known_rotation() {
    let turned = QuatBits { x: 1, y: 2, z: 3, w: 4 };
    let at = bits(0.0, 0.0, 0.0);
    assert_eq!(predicted_local_transform(at, at, Some(turned)).ori, turned);
}

#[test]
fn tick_is_due_gates_on_elapsed_wall_clock_time() {
    let max_interval = 20 * MILLIS;
    let last = 1_000 * MILLIS;
    assert!(tick_is_due(None, last, max_interval));
    assert!(!tick_is_due(Some(last), last + 1, max_interval));
    let later = last + max_interval + 15 * MILLIS;
    assert!(tick_is_due(Some(last), later, max_interval));
    assert!(!tick_is_due(Some(later), later + 1, 1_000 * MILLIS));
    assert!(tick_is_due(Some(last), last, 0));
}

#[test]
fn tick_is_due_exactly_on_the_interval() {
    assert!(tick_is_due(Some(5), 25, 20));
    assert!(!tick_is_due(Some(5), 24, 20));
    // A clock that runs backwards has let no time pass.
    assert!(!tick_is_due(Some(25), 5, 20));
}

#[test]
fn writes_predicted_local_transform_onto_the_tagged_mirror_entity() {
    let entity = 42u64;
    let mut held: Option<PredictedLocalTransform> = None;
    let mut frames = Vec::new();
    for frame in [1.0f32, 2.0] {
        let mirrors = vec![LocalMirror { entity, predicted: held.is_some() }];
        let write = mirror_local_player_prediction(Some(true), true, &mirrors);
        let predicted =
            predicted_local_transform(bits(frame, 20.0, 5.0), bits(1.0, 2.0, 0.0), None);
        match write {
            Some(PredictionWrite::Insert { entity: at }) => {
                assert_eq!(at, entity);
                assert!(held.is_none());
            }
            Some(PredictionWrite::Overwrite { entity: at }) => {
                assert_eq!(at, entity);
                assert!(held.is_some());
            }
            None => panic!("a tagged mirror is written"),
        }
        held = Some(predicted);
        frames.push(floats(held.unwrap().pos));
    }
    assert_eq!(frames[0], (1.0, 5.0, -20.0));
    assert_eq!(frames[1], (2.0, 5.0, -20.0));
}

#[test]
fn prediction_needs_one_mirror_of_a_player_in_game() {
    let one = LocalMirror { entity: 1, predicted: false };
    assert_eq!(mirror_local_player_prediction(None, true, &vec![one]), None);
    assert_eq!(mirror_local_player_prediction(Some(false), true, &vec![one]), None);
    assert_eq!(mirror_local_player_prediction(Some(true), false, &vec![one]), None);
    assert_eq!(mirror_local_player_prediction(Some(true), true, &vec![]), None);
    assert_eq!(mirror_local_player_prediction(Some(true), true, &vec![one, one]), None);
}

fn facts(loading: bool, characters: Vec<Option<i64>>, at: Option<u64>) -> ClientFacts {
    ClientFacts { loading, characters, has_position: at.is_some(), uid: at }
}

#[test]
fn player_enters_the_game_with_a_character_that_exists() {
    let mut player = EmbeddedPlayer::connected();
    assert_eq!(player.finish_tick(&vec![], &facts(true, vec![Some(3)], None)), StageAction::Nothing);
    assert_eq!(player.stage, PlayerStage::LoadingCharacterList);
    let action = player.finish_tick(&vec![], &facts(false, vec![Some(3)], None));
    assert_eq!(action, StageAction::RequestSpawn(3));
    assert_eq!(player.character_id, Some(3));
    assert_eq!(player.finish_tick(&vec![], &facts(false, vec![], None)), StageAction::Nothing);
    assert_eq!(player.stage, PlayerStage::Spawning);
    assert_eq!(player.uid(), None);
    player.finish_tick(&vec![], &facts(false, vec![], Some(90)));
    assert!(player.is_in_game());
    assert_eq!(player.uid(), Some(90));
    player.finish_tick(&vec![], &facts(false, vec![], Some(91)));
    assert_eq!(player.uid(), Some(90));
}

#[test]
fn player_creates_a_character_where_there_is_none() {
    let mut player = EmbeddedPlayer::connected();
    let action = player.advance_stage(&vec![], &facts(false, vec![], None));
    assert_eq!(action, StageAction::CreateDefaultCharacter);
    assert_eq!(player.stage, PlayerStage::CreatingCharacter);
    assert_eq!(player.advance_stage(&vec![], &facts(true, vec![Some(1)], None)), StageAction::Nothing);
    let events = vec![ClientEvent::Other, ClientEvent::CharacterCreated(8)];
    let action = player.advance_stage(&events, &facts(false, vec![Some(1)], None));
    assert_eq!(action, StageAction::RequestSpawn(8));

    let mut other = EmbeddedPlayer::connected();
    other.advance_stage(&vec![], &facts(false, vec![None], None));
    let action = other.advance_stage(&vec![], &facts(false, vec![Some(2)], None));
    assert_eq!(action, StageAction::RequestSpawn(2));
    assert_eq!(first_character_id(&vec![None, Some(1)]), None);
}

#[test]
fn failure_is_final_and_news_once() {
    let mut player = EmbeddedPlayer::connected();
    assert!(player.fail_tick());
    assert!(!player.fail_tick());
    assert!(player.is_failed());
    assert_eq!(player.finish_tick(&vec![], &facts(false, vec![Some(1)], Some(2))), StageAction::Nothing);
    assert!(player.is_failed());
}

#[test]
fn jump_is_reported_on_its_edges() {
    let mut player = EmbeddedPlayer::connected();
    assert_eq!(
        player.begin_tick(0, 10, true),
        Some(TickStart { use_input: false, jump_edge: None })
    );
    player.stage = PlayerStage::InGame;
    assert_eq!(player.begin_tick(5, 10, true), None);
    assert_eq!(
        player.begin_tick(10, 10, true),
        Some(TickStart { use_input: true, jump_edge: Some(true) })
    );
    assert_eq!(
        player.begin_tick(20, 10, true),
        Some(TickStart { use_input: true, jump_edge: None })
    );
    assert_eq!(
        player.begin_tick(30, 10, false),
        Some(TickStart { use_input: true, jump_edge: Some(false) })
    );
    player.begin_tick(40, 10, true);
    player.stage = PlayerStage::Failed;
    assert_eq!(
        player.begin_tick(50, 10, true),
        Some(TickStart { use_input: false, jump_edge: Some(false) })
    );
}

#[test]
fn events_are_kept_until_they_are_taken() {
    let mut player = EmbeddedPlayer::connected();
    let say = |text: &str| ChatMsg {
        channel: ChatChannel(1),
        sender: None,
        content: Content::Plain(text.to_owned()),
    };
    player.capture_events(&vec![
        ClientEvent::Chat(say("a")),
        ClientEvent::Dialogue { sender: 4, dialogue: 5 },
        ClientEvent::Other,
    ]);
    player.capture_events(&vec![ClientEvent::Chat(say("b"))]);
    assert_eq!(player.drain_pending_chat().len(), 2);
    assert!(player.drain_pending_chat().is_empty());
    assert_eq!(player.take_pending_dialogue(), vec![PendingDialogue { sender: 4, dialogue: 5 }]);
    assert!(player.take_pending_dialogue().is_empty());
}

#[test]
fn group_commands_need_a_player_in_game() {
    let mut player = EmbeddedPlayer::connected();
    assert_eq!(player.send_group_invite(1, 0), None);
    assert_eq!(player.accept_invite(), None);
    assert_eq!(player.decline_invite(), None);
    assert_eq!(player.leave_group(), None);
    assert_eq!(player.kick_from_group(1), None);
    assert_eq!(player.assign_group_leader(1), None);
    assert_eq!(player.perform_dialogue(Some(3)), None);
    player.stage = PlayerStage::InGame;
    assert_eq!(
        player.send_group_invite(1, 0),
        Some(GroupCommand::Invite { invitee: 1, kind: 0 })
    );
    assert_eq!(player.accept_invite(), Some(GroupCommand::AcceptInvite));
    assert_eq!(player.decline_invite(), Some(GroupCommand::DeclineInvite));
    assert_eq!(player.leave_group(), Some(GroupCommand::Leave));
    assert_eq!(player.kick_from_group(1), Some(GroupCommand::Kick { member: 1 }));
    assert_eq!(player.assign_group_leader(2), Some(GroupCommand::AssignLeader { member: 2 }));
    assert_eq!(player.perform_dialogue(Some(3)), Some(3));
    assert_eq!(player.perform_dialogue(None), None);
}

#[test]
fn tick_rates_are_reported_once_a_window() {
    let second = 1_000_000_000u64;
    let mut log = None;
    assert_eq!(log_tick_perf(&mut log, true, true, 0), None);
    assert_eq!(log_tick_perf(&mut log, true, false, second - 1), None);
    assert_eq!(
        log_tick_perf(&mut log, true, true, second + 5),
        Some(TickPerfReport { ticked: 2, skipped: 1, elapsed: second + 5 })
    );
    assert_eq!(log_tick_perf(&mut log, true, true, second + 6), None);
    let mut silent = None;
    assert_eq!(log_tick_perf(&mut silent, false, true, 0), None);
    assert_eq!(log_tick_perf(&mut silent, true, true, 9 * second), None);
}

#[test]
fn address_is_the_first_tcp_port_on_the_loopback() {
    let protocols =
        vec![Protocol::Quic, Protocol::Tcp { port: 14004 }, Protocol::Tcp { port: 1 }];
    assert_eq!(connection_address(&protocols), Ok("127.0.0.1:14004".to_owned()));
    assert_eq!(
        connection_address(&vec![Protocol::Quic]),
        Err("sim has no TCP gameserver protocol to connect to".to_owned())
    );
    assert_eq!(PLAYER_USERNAME, "listen_host");
}

#[test]
fn connect_failures_name_their_cause() {
    assert_eq!(
        connect_error(&ConnectFailure::Runtime("no threads".to_owned())),
        "failed to build embedded-player runtime: no threads"
    );
    assert_eq!(
        connect_error(&ConnectFailure::Refused("banned".to_owned())),
        "embedded player connect failed: banned"
    );
    assert_eq!(connect_error(&ConnectFailure::TimedOut), "embedded player connect timed out");
}

#[test]
fn workers_are_numbered() {
    assert_eq!(worker_name(TEST_SERVER_THREAD_PREFIX, 0), "tokio-sim-bridge-0");
    assert_eq!(worker_name("w", 1204), "w-1204");
    assert_eq!(TEST_SERVER_WORKERS, 2);
}

fn interval(setting: Option<&str>) -> Duration {
    let hz = setting.and_then(|text| text.parse::<f64>().ok());
    match max_player_tick_interval(hz.map(|hz| hz.to_bits())) {
        TickCeiling::Default => Duration::from_secs_f64(1.0 / DEFAULT_MAX_PLAYER_TICK_HZ as f64),
        TickCeiling::Hz(bits) => Duration::from_secs_f64(1.0 / f64::from_bits(bits)),
        TickCeiling::Unlimited => Duration::ZERO,
    }
}

#[test]
fn max_player_tick_interval_defaults_and_respects_overrides() {
    let default = Duration::from_secs_f64(1.0 / 240.0);
    assert_eq!(interval(None), default);
    assert_eq!(interval(Some("not-a-number")), default);
    assert_eq!(interval(Some("120")), Duration::from_secs_f64(1.0 / 120.0));
    for opt_out in ["0", "-1"] {
        assert_eq!(interval(Some(opt_out)), Duration::ZERO);
    }
}

#[test]
fn rates_that_are_too_slow_to_wait_for_count_as_none() {
    let bound = f64::from_bits(TOO_SLOW_HZ);
    assert_eq!(bound, 2.0f64.powi(-64));
    for hz in [5.0e-324f64, 1.0e-300, bound] {
        assert!(Duration::try_from_secs_f64(1.0 / hz).is_err());
        assert_eq!(max_player_tick_interval(Some(hz.to_bits())), TickCeiling::Default);
    }
    let next = f64::from_bits(TOO_SLOW_HZ + 1);
    assert!(Duration::try_from_secs_f64(1.0 / next).is_ok());
    assert_eq!(max_player_tick_interval(Some(next.to_bits())), TickCeiling::Hz(next.to_bits()));
}

#[test]
fn ceiling_tells_numbers_apart_as_they_compare() {
    let samples = [0.0f64, -0.0, 1.0, -1.0, 1.0e-3, f64::INFINITY, f64::NEG_INFINITY, f64::NAN];
    for hz in samples {
        let limited = max_player_tick_interval(Some(hz.to_bits())) == TickCeiling::Hz(hz.to_bits());
        assert_eq!(limited, hz > 0.0, "{hz}");
    }
    assert!(perf_log_enabled(Some("1")) && perf_log_enabled(Some("")));
    assert!(!perf_log_enabled(Some("0")) && !perf_log_enabled(None));
    let character = create_default_character();
    assert_eq!(character.alias, "listen_host");
    assert_eq!(character.mainhand, "common.items.weapons.sword.starter");
    assert!(!character.hardcore);
}
