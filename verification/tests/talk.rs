use std::collections::HashMap;
use xindeler_sim_bridge::charlist::{
    apply_char_requests, broadcast_char_list, project_char_list, CharCommand, CharListMirrorCache,
    CharacterItem, CharacterList,
};
use xindeler_sim_bridge::chat::{
    apply_chat_send_requests, broadcast_captured_chat, broadcast_embedded_chat, project_chat_msg,
    render_content, resolve_chat_send, ActiveReplicaSessions, AliasTable, CapturedChat, ChatChannel,
    ChatMsg, ChatSendRequest, Content,
};
use xindeler_sim_bridge::net_value::NetValue;
use xindeler_sim_bridge::player::EmbeddedPlayer;

const SAY: ChatChannel = ChatChannel(3);
const SYSTEM: ChatChannel = ChatChannel(9);

fn persisted() -> CharacterItem {
    CharacterItem {
        id: Some(9),
        alias: "Kaelis".to_owned(),
        body: "Humanoid(Human, Male)".to_owned(),
        hardcore: true,
        location: Some("Emberfall".to_owned()),
    }
}

fn pending() -> CharacterItem {
    CharacterItem {
        id: None,
        alias: "Pending".to_owned(),
        body: "Humanoid(Human, Male)".to_owned(),
        hardcore: false,
        location: None,
    }
}

#[test]
fn project_char_list_maps_persisted_characters() {
    let list = CharacterList { characters: vec![persisted()], loading: false };
    let net = project_char_list(&list);
    assert!(!net.loading);
    assert_eq!(net.characters.len(), 1);
    assert_eq!(net.characters[0].id, 9);
    assert_eq!(net.characters[0].alias, "Kaelis");
    assert_eq!(net.characters[0].body, "Humanoid(Human, Male)");
    assert!(net.characters[0].hardcore);
    assert_eq!(net.characters[0].location.as_deref(), Some("Emberfall"));
}

#[test]
fn project_char_list_skips_id_less_entries() {
    let list = CharacterList { characters: vec![pending()], loading: false };
    assert!(project_char_list(&list).characters.is_empty());
}

#[test]
fn apply_char_requests_runs_without_player() {
    assert!(apply_char_requests(false, 1, &vec![1], &vec![1]).is_empty());
    assert!(apply_char_requests(false, 0, &vec![], &vec![]).is_empty());
}

#[test]
fn char_requests_are_passed_on_by_sort() {
    assert_eq!(
        apply_char_requests(true, 2, &vec![7, 8], &vec![9]),
        vec![
            CharCommand::Create(0),
            CharCommand::Create(1),
            CharCommand::Delete(7),
            CharCommand::Delete(8),
            CharCommand::Select(9),
        ]
    );
}

#[test]
fn roster_is_broadcast_on_change_only() {
    let mut cache = CharListMirrorCache::new();
    assert!(broadcast_char_list(None, &mut cache).is_none());
    let loading = CharacterList { characters: vec![], loading: true };
    assert!(broadcast_char_list(Some(&loading), &mut cache).unwrap().loading);
    assert!(broadcast_char_list(Some(&loading), &mut cache).is_none());
    let list = CharacterList { characters: vec![persisted(), pending()], loading: false };
    let news = broadcast_char_list(Some(&list), &mut cache).unwrap();
    assert_eq!(news.characters.len(), 1);
    assert!(news.same(&news.duplicate()));
    // A character that nobody sees yet is no change.
    let list = CharacterList { characters: vec![persisted()], loading: false };
    assert!(broadcast_char_list(Some(&list), &mut cache).is_none());
    assert!(broadcast_char_list(None, &mut cache).is_none());
    // Nor does it count what was broadcast before the last time.
    assert!(broadcast_char_list(Some(&loading), &mut cache).is_some());
    assert!(broadcast_char_list(Some(&list), &mut cache).is_some());
}

fn plain(channel: ChatChannel, sender: Option<u64>, text: &str) -> ChatMsg {
    ChatMsg { channel, sender, content: Content::Plain(text.to_owned()) }
}

#[test]
fn projects_a_say_message_with_resolved_alias_and_plain_text() {
    let mut aliases = AliasTable::new();
    aliases.enter(77, "Hero".to_owned());
    let net = project_chat_msg(&plain(SAY, Some(77), "hello there"), &aliases);
    assert_eq!(net.channel, SAY);
    assert_eq!(net.sender_uid, Some(77));
    assert_eq!(net.sender_alias.as_deref(), Some("Hero"));
    assert_eq!(net.text, "hello there");
}

#[test]
fn projects_a_system_message_with_no_sender_and_a_content_fallback() {
    let msg = ChatMsg {
        channel: SYSTEM,
        sender: None,
        content: Content::Described("command-help".to_owned()),
    };
    let net = project_chat_msg(&msg, &AliasTable::new());
    assert_eq!(net.channel, SYSTEM);
    assert_eq!(net.sender_uid, None);
    assert_eq!(net.sender_alias, None);
    assert!(net.text.starts_with('[') && net.text.ends_with(']'));
    assert_eq!(net.text, "[command-help]");
}

#[test]
fn unknown_sender_has_no_alias() {
    let net = project_chat_msg(&plain(SAY, Some(5), "hm"), &AliasTable::new());
    assert_eq!(net.sender_uid, Some(5));
    assert_eq!(net.sender_alias, None);
    assert_eq!(render_content(&Content::Plain("[x".to_owned())), "[x");
}

#[test]
fn apply_with_no_embedded_player_drains_without_panicking() {
    let requests = vec![ChatSendRequest::Channel {
        send_command_name: Some("say".to_owned()),
        text: "hello".to_owned(),
    }];
    assert!(apply_chat_send_requests(None, &requests).is_empty());
}

#[test]
fn broadcast_with_no_embedded_player_is_a_no_op() {
    assert!(broadcast_embedded_chat(true, None, &AliasTable::new()).is_empty());
}

#[test]
fn pending_chat_is_broadcast_in_order() {
    let mut player = EmbeddedPlayer::connected();
    player.pending_chat = vec![plain(SAY, Some(1), "a"), plain(SYSTEM, None, "b")];
    let sent = broadcast_embedded_chat(true, Some(&mut player), &AliasTable::new());
    assert_eq!(sent.len(), 2);
    assert_eq!(sent[0].text, "a");
    assert_eq!(sent[1].text, "b");
    assert!(player.pending_chat.is_empty());
    player.pending_chat = vec![plain(SAY, Some(1), "c")];
    assert!(broadcast_embedded_chat(false, Some(&mut player), &AliasTable::new()).is_empty());
    assert!(player.pending_chat.is_empty());
}

#[test]
fn captured_say_chat_reaches_only_the_in_range_recipients_own_client() {
    // The simulation captures a line for those in range only: the one who is far away has a
    // client, and hears nothing.
    let (near, far) = (11u64, 12u64);
    let (client_near, client_far) = (1u64, 2u64);
    let mut clients = HashMap::new();
    clients.insert(near, client_near);
    clients.insert(far, client_far);
    let captured = vec![CapturedChat { recipient: near, msg: plain(SAY, Some(10), "hello") }];
    let sent =
        broadcast_captured_chat(&captured, &ActiveReplicaSessions(clients), &AliasTable::new());
    assert_eq!(sent.len(), 1);
    assert_eq!(sent[0].client, client_near);
    assert_eq!(sent[0].message.text, "hello");
}

#[test]
fn captured_chat_without_a_client_is_dropped() {
    let captured = vec![CapturedChat { recipient: 4, msg: plain(SAY, None, "hello") }];
    let sent = broadcast_captured_chat(
        &captured,
        &ActiveReplicaSessions(HashMap::new()),
        &AliasTable::new(),
    );
    assert!(sent.is_empty());
}

fn channel(name: Option<&str>, text: &str) -> ChatSendRequest {
    ChatSendRequest::Channel {
        send_command_name: name.map(|name| name.to_owned()),
        text: text.to_owned(),
    }
}

fn resolved(in_game: bool, request: &ChatSendRequest) -> Option<(String, Vec<String>)> {
    resolve_chat_send(in_game, request).map(|command| (command.name, command.args))
}

#[test]
fn resolve_chat_send_is_none_before_in_game() {
    assert_eq!(resolved(false, &channel(Some("say"), "hello")), None);
    let command =
        ChatSendRequest::Command { name: "say".to_owned(), args: vec!["hello".to_owned()] };
    assert_eq!(resolved(false, &command), None);
    assert!(apply_chat_send_requests(Some(false), &vec![command]).is_empty());
}

#[test]
fn resolve_chat_send_channel_resolves_to_the_command_keyword() {
    assert_eq!(
        resolved(true, &channel(Some("region"), "  hello there  ")),
        Some(("region".to_owned(), vec!["hello there".to_owned()]))
    );
    assert_eq!(resolved(true, &channel(Some("say"), "   ")), None);
}

#[test]
fn resolve_chat_send_channel_rejects_receive_only_channels() {
    // None of these channels has a keyword to send by.
    for (_channel, keyword) in [("tell", None), ("npc", None), ("system", None)] {
        assert_eq!(resolved(true, &channel(keyword, "hello")), None);
    }
}

#[test]
fn resolve_chat_send_command_passes_name_and_args_through() {
    let command = ChatSendRequest::Command {
        name: "tell".to_owned(),
        args: vec!["Bob".to_owned(), "hi".to_owned()],
    };
    assert_eq!(
        resolved(true, &command),
        Some(("tell".to_owned(), vec!["Bob".to_owned(), "hi".to_owned()]))
    );
    let blank = ChatSendRequest::Command { name: "  ".to_owned(), args: vec![] };
    assert_eq!(resolved(true, &blank), None);
}

#[test]
fn text_is_trimmed_of_every_white_space() {
    assert_eq!(
        resolved(true, &channel(Some("say"), "\u{3000}\t a b \u{a0}\n")),
        Some(("say".to_owned(), vec!["a b".to_owned()]))
    );
    assert_eq!(resolved(true, &channel(Some("say"), "\u{2003}\u{85}")), None);
    let requests = vec![channel(Some("say"), "x"), channel(None, "y"), channel(Some("g"), "z")];
    let commands = apply_chat_send_requests(Some(true), &requests);
    assert_eq!(commands.len(), 2);
    assert_eq!(commands[1].name, "g");
}
