//! Chat: what players say, who hears it, and what the local player asks to be sent.

use crate::net_value::models;
use crate::player::EmbeddedPlayer;
use crate::text::{join, law_trimming_takes_white_ends, text_of, trim, trimmed, white};
use std::collections::HashMap;
use vstd::prelude::*;

verus! {

broadcast use vstd::std_specs::hash::group_hash_axioms;

/// The number of a chat channel.
#[derive(Clone, Copy, Debug, PartialEq, Eq, Structural)]
pub struct ChatChannel(pub u32);

/// What a message says: plain text, or something that has only a descriptor here.
pub enum Content {
    Plain(String),
    Described(String),
}

/// A message as the simulation has it.
pub struct ChatMsg {
    pub channel: ChatChannel,
    pub sender: Option<u64>,
    pub content: Content,
}

impl ChatMsg {
    /// A copy of the message.
    pub fn copy(&self) -> (copy: ChatMsg)
        ensures
            copy == *self,
    {
        ChatMsg {
            channel: self.channel,
            sender: self.sender,
            content: match &self.content {
                Content::Plain(text) => Content::Plain(text.clone()),
                Content::Described(descriptor) => Content::Described(descriptor.clone()),
            },
        }
    }
}

/// A message as it is replicated.
pub struct NetChatMsg {
    pub channel: ChatChannel,
    pub sender_uid: Option<u64>,
    pub sender_alias: Option<String>,
    pub text: String,
}

/// A [`NetChatMsg`] over text.
pub ghost struct ChatModel {
    pub channel: ChatChannel,
    pub sender_uid: Option<u64>,
    pub sender_alias: Option<Seq<char>>,
    pub text: Seq<char>,
}

impl View for NetChatMsg {
    type V = ChatModel;

    open spec fn view(&self) -> ChatModel {
        ChatModel {
            channel: self.channel,
            sender_uid: self.sender_uid,
            sender_alias: text_of(self.sender_alias),
            text: self.text@,
        }
    }
}

/// The names of players, by identifier.
pub struct AliasTable {
    names: HashMap<u64, String>,
}

impl View for AliasTable {
    type V = Map<u64, Seq<char>>;

    closed spec fn view(&self) -> Map<u64, Seq<char>> {
        self.names@.map_values(|name: String| name@)
    }
}

impl AliasTable {
    /// No names.
    pub fn new() -> (table: AliasTable)
        ensures
            table@ == Map::<u64, Seq<char>>::empty(),
    {
        let table = AliasTable { names: HashMap::new() };
        assert(table@ =~= Map::<u64, Seq<char>>::empty());
        table
    }

    /// Enters the name of a player.
    pub fn enter(&mut self, uid: u64, name: String)
        ensures
            final(self)@ == old(self)@.insert(uid, name@),
    {
        self.names.insert(uid, name);
        assert(self@ =~= old(self)@.insert(uid, name@));
    }

    /// The name of a player.
    pub fn get(&self, uid: u64) -> (name: Option<String>)
        ensures
            text_of(name) == alias_of(self@, Some(uid)),
    {
        match self.names.get(&uid) {
            Some(name) => Some(name.clone()),
            None => None,
        }
    }
}

/// The name of whoever sent a message, where there is a sender and the name is known.
pub open spec fn alias_of(aliases: Map<u64, Seq<char>>, sender: Option<u64>) -> Option<Seq<char>> {
    match sender {
        Some(uid) => if aliases.contains_key(uid) {
            Some(aliases[uid])
        } else {
            None
        },
        None => None,
    }
}

/// The text that is shown: plain text as it is, a descriptor in brackets.
pub open spec fn rendered(content: Content) -> Seq<char> {
    match content {
        Content::Plain(text) => text@,
        Content::Described(descriptor) => "["@ + descriptor@ + "]"@,
    }
}

/// The text that is shown.
pub fn render_content(content: &Content) -> (text: String)
    ensures
        text@ == rendered(*content),
{
    match content {
        Content::Plain(text) => text.clone(),
        Content::Described(descriptor) => {
            let opened = join("[", descriptor.as_str());
            join(opened.as_str(), "]")
        },
    }
}

/// A message as it is replicated.
pub open spec fn chat_model(msg: ChatMsg, aliases: Map<u64, Seq<char>>) -> ChatModel {
    ChatModel {
        channel: msg.channel,
        sender_uid: msg.sender,
        sender_alias: alias_of(aliases, msg.sender),
        text: rendered(msg.content),
    }
}

/// Projects a message.
pub fn project_chat_msg(msg: &ChatMsg, aliases: &AliasTable) -> (net: NetChatMsg)
    ensures
        net@ == chat_model(*msg, aliases@),
{
    let sender_alias = match msg.sender {
        Some(uid) => aliases.get(uid),
        None => None,
    };
    NetChatMsg {
        channel: msg.channel,
        sender_uid: msg.sender,
        sender_alias,
        text: render_content(&msg.content),
    }
}

/// Projects a list of messages, in order.
fn project_all(pending: &Vec<ChatMsg>, aliases: &AliasTable) -> (messages: Vec<NetChatMsg>)
    ensures
        models(messages@) == pending@.map_values(|msg: ChatMsg| chat_model(msg, aliases@)),
{
    let mut messages: Vec<NetChatMsg> = Vec::new();
    let mut i: usize = 0;
    while i < pending.len()
        invariant
            i <= pending.len(),
            messages@.len() == i,
            forall|j: int|
                0 <= j < i ==> (#[trigger] messages@[j])@ == chat_model(pending@[j], aliases@),
        decreases pending.len() - i,
    {
        messages.push(project_chat_msg(&pending[i], aliases));
        i += 1;
    }
    assert(models(messages@) =~= pending@.map_values(|msg: ChatMsg| chat_model(msg, aliases@)));
    messages
}

/// Projects the messages that reached the local player, in order; each goes to every client.
/// Without a simulation nothing is said. The player's messages are taken either way, so that
/// they never pile up.
pub fn broadcast_embedded_chat(
    sim_present: bool,
    player: Option<&mut EmbeddedPlayer>,
    aliases: &AliasTable,
) -> (messages: Vec<NetChatMsg>)
    ensures
        match player {
            Some(player) => {
                &&& models(messages@) == if sim_present {
                    (*player).pending_chat@.map_values(|msg: ChatMsg| chat_model(msg, aliases@))
                } else {
                    Seq::empty()
                }
                &&& final(player).pending_chat@.len() == 0
                &&& final(player).pending_dialogue == (*player).pending_dialogue
                &&& final(player).stage_model() == (*player).stage_model()
                &&& final(player).jumping == (*player).jumping
                &&& final(player).last_tick_wall == (*player).last_tick_wall
            },
            None => messages@.len() == 0,
        },
{
    let mut messages: Vec<NetChatMsg> = Vec::new();
    assert(models(messages@) =~= Seq::<ChatModel>::empty());
    if let Some(player) = player {
        let pending = player.drain_pending_chat();
        if sim_present {
            messages = project_all(&pending, aliases);
        }
    }
    messages
}

/// A message that the simulation would have sent to one player.
pub struct CapturedChat {
    pub recipient: u64,
    pub msg: ChatMsg,
}

/// A message to one client.
pub struct DirectedChat {
    pub client: u64,
    pub message: NetChatMsg,
}

/// A [`DirectedChat`] over models.
pub ghost struct DirectedModel {
    pub client: u64,
    pub message: ChatModel,
}

impl View for DirectedChat {
    type V = DirectedModel;

    open spec fn view(&self) -> DirectedModel {
        DirectedModel { client: self.client, message: self.message@ }
    }
}

/// The client of each player who is connected, by the player's identifier.
pub struct ActiveReplicaSessions(pub HashMap<u64, u64>);

/// The messages that go out, in order: each to the client of its recipient, where there is
/// one.
pub open spec fn directed(
    captured: Seq<CapturedChat>,
    active: Map<u64, u64>,
    aliases: Map<u64, Seq<char>>,
) -> Seq<DirectedModel>
    decreases captured.len(),
{
    if captured.len() == 0 {
        Seq::empty()
    } else {
        let before = directed(captured.drop_last(), active, aliases);
        let last = captured.last();
        if active.contains_key(last.recipient) {
            before.push(
                DirectedModel {
                    client: active[last.recipient],
                    message: chat_model(last.msg, aliases),
                },
            )
        } else {
            before
        }
    }
}

/// Sends each captured message to its recipient's client alone; one whose recipient has no
/// client is dropped.
pub fn broadcast_captured_chat(
    captured: &Vec<CapturedChat>,
    active: &ActiveReplicaSessions,
    aliases: &AliasTable,
) -> (sent: Vec<DirectedChat>)
    ensures
        models(sent@) == directed(captured@, active.0@, aliases@),
{
    let mut sent: Vec<DirectedChat> = Vec::new();
    let mut i: usize = 0;
    assert(models(sent@) =~= Seq::<DirectedModel>::empty());
    while i < captured.len()
        invariant
            i <= captured.len(),
            models(sent@) == directed(captured@.take(i as int), active.0@, aliases@),
        decreases captured.len() - i,
    {
        let ghost before = sent@;
        proof {
            assert(captured@.take(i as int + 1).drop_last() =~= captured@.take(i as int));
        }
        if let Some(client) = active.0.get(&captured[i].recipient) {
            let message = DirectedChat {
                client: *client,
                message: project_chat_msg(&captured[i].msg, aliases),
            };
            sent.push(message);
            assert(models(sent@) =~= models(before).push(message@));
        }
        i += 1;
    }
    assert(captured@.take(i as int) =~= captured@);
    sent
}

/// A captured message reaches no client but that of its recipient: whatever a client is sent
/// was captured for a player who is connected through it.
pub proof fn law_captured_chat_reaches_its_recipient_only(
    captured: Seq<CapturedChat>,
    active: Map<u64, u64>,
    aliases: Map<u64, Seq<char>>,
    k: int,
)
    requires
        0 <= k < directed(captured, active, aliases).len(),
    ensures
        exists|i: int|
            0 <= i < captured.len() && active.contains_key((#[trigger] captured[i]).recipient)
                && directed(captured, active, aliases)[k] == (DirectedModel {
                client: active[captured[i].recipient],
                message: chat_model(captured[i].msg, aliases),
            }),
    decreases captured.len(),
{
    let init = captured.drop_last();
    if k < directed(init, active, aliases).len() {
        law_captured_chat_reaches_its_recipient_only(init, active, aliases, k);
        let i = choose|i: int|
            0 <= i < init.len() && active.contains_key((#[trigger] init[i]).recipient) && directed(
                init,
                active,
                aliases,
            )[k] == (DirectedModel {
                client: active[init[i].recipient],
                message: chat_model(init[i].msg, aliases),
            });
        assert(captured[i] == init[i]);
    } else {
        assert(captured[captured.len() - 1] == captured.last());
    }
}

/// Every line that was captured for somebody with a client is sent to that client.
pub proof fn law_captured_chat_is_delivered(
    captured: Seq<CapturedChat>,
    active: Map<u64, u64>,
    aliases: Map<u64, Seq<char>>,
    i: int,
)
    requires
        0 <= i < captured.len(),
        active.contains_key(captured[i].recipient),
    ensures
        directed(captured, active, aliases).contains(
            DirectedModel {
                client: active[captured[i].recipient],
                message: chat_model(captured[i].msg, aliases),
            },
        ),
    decreases captured.len(),
{
    let init = captured.drop_last();
    let before = directed(init, active, aliases);
    let all = directed(captured, active, aliases);
    let sent = DirectedModel {
        client: active[captured[i].recipient],
        message: chat_model(captured[i].msg, aliases),
    };
    if i < init.len() {
        assert(init[i] == captured[i]);
        law_captured_chat_is_delivered(init, active, aliases, i);
        let k = before.index_of(sent);
        assert(all[k] == sent);
    } else {
        assert(all[before.len() as int] == sent);
    }
}

/// What the local player asks to be sent: a text on a channel, by the command that sends on
/// that channel where there is one, or a command of its own.
pub enum ChatSendRequest {
    Channel { send_command_name: Option<String>, text: String },
    Command { name: String, args: Vec<String> },
}

/// A command for the simulation's own chat parser.
pub struct ChatCommand {
    pub name: String,
    pub args: Vec<String>,
}

/// A [`ChatCommand`] over text.
pub ghost struct CommandModel {
    pub name: Seq<char>,
    pub args: Seq<Seq<char>>,
}

impl View for ChatCommand {
    type V = CommandModel;

    open spec fn view(&self) -> CommandModel {
        CommandModel { name: self.name@, args: models(self.args@) }
    }
}

/// The command that a request comes to. There is none before the player is in the game, none
/// for blank text or a blank name, and none for a channel that nobody can send on. Text is
/// sent without the white space around it; a command is passed on as it is.
pub open spec fn chat_command(in_game: bool, request: ChatSendRequest) -> Option<CommandModel> {
    if !in_game {
        None
    } else {
        match request {
            ChatSendRequest::Channel { send_command_name, text } => {
                if trimmed(text@).len() == 0 {
                    None
                } else {
                    match send_command_name {
                        Some(name) => Some(
                            CommandModel { name: name@, args: seq![trimmed(text@)] },
                        ),
                        None => None,
                    }
                }
            },
            ChatSendRequest::Command { name, args } => {
                if trimmed(name@).len() == 0 {
                    None
                } else {
                    Some(CommandModel { name: name@, args: models(args@) })
                }
            },
        }
    }
}

/// The model of an optional command.
pub open spec fn command_of(command: Option<ChatCommand>) -> Option<CommandModel> {
    match command {
        Some(command) => Some(command@),
        None => None,
    }
}

fn copy_args(args: &Vec<String>) -> (copy: Vec<String>)
    ensures
        models(copy@) == models(args@),
{
    let mut copy: Vec<String> = Vec::new();
    let mut i: usize = 0;
    while i < args.len()
        invariant
            i <= args.len(),
            copy@.len() == i,
            forall|j: int| 0 <= j < i ==> (#[trigger] copy@[j])@ == args@[j]@,
        decreases args.len() - i,
    {
        copy.push(args[i].clone());
        i += 1;
    }
    assert(models(copy@) =~= models(args@));
    copy
}

/// The command that a request comes to.
pub fn resolve_chat_send(in_game: bool, request: &ChatSendRequest) -> (command: Option<ChatCommand>)
    ensures
        command_of(command) == chat_command(in_game, *request),
{
    if !in_game {
        return None;
    }
    match request {
        ChatSendRequest::Channel { send_command_name, text } => {
            let text = trim(text.as_str());
            if text.as_str().unicode_len() == 0 {
                return None;
            }
            match send_command_name {
                Some(name) => {
                    let mut args: Vec<String> = Vec::new();
                    args.push(text);
                    assert(models(args@) =~= seq![text@]);
                    Some(ChatCommand { name: name.clone(), args })
                },
                None => None,
            }
        },
        ChatSendRequest::Command { name, args } => {
            let bare = trim(name.as_str());
            if bare.as_str().unicode_len() == 0 {
                return None;
            }
            Some(ChatCommand { name: name.clone(), args: copy_args(args) })
        },
    }
}

/// The commands that a list of requests comes to, in order.
pub open spec fn chat_commands(in_game: bool, requests: Seq<ChatSendRequest>) -> Seq<CommandModel>
    decreases requests.len(),
{
    if requests.len() == 0 {
        Seq::empty()
    } else {
        let before = chat_commands(in_game, requests.drop_last());
        match chat_command(in_game, requests.last()) {
            Some(command) => before.push(command),
            None => before,
        }
    }
}

/// Turns what the local player asks to be sent into commands. `in_game` is `None` without a
/// local player, and then all requests are dropped.
pub fn apply_chat_send_requests(
    in_game: Option<bool>,
    requests: &Vec<ChatSendRequest>,
) -> (commands: Vec<ChatCommand>)
    ensures
        models(commands@) == match in_game {
            Some(in_game) => chat_commands(in_game, requests@),
            None => Seq::empty(),
        },
{
    let mut commands: Vec<ChatCommand> = Vec::new();
    assert(models(commands@) =~= Seq::<CommandModel>::empty());
    let in_game = match in_game {
        Some(in_game) => in_game,
        None => {
            return commands;
        },
    };
    let mut i: usize = 0;
    while i < requests.len()
        invariant
            i <= requests.len(),
            models(commands@) == chat_commands(in_game, requests@.take(i as int)),
        decreases requests.len() - i,
    {
        let ghost before = commands@;
        proof {
            assert(requests@.take(i as int + 1).drop_last() =~= requests@.take(i as int));
        }
        if let Some(command) = resolve_chat_send(in_game, &requests[i]) {
            commands.push(command);
            assert(models(commands@) =~= models(before).push(command@));
        }
        i += 1;
    }
    assert(requests@.take(i as int) =~= requests@);
    commands
}

/// Nothing is sent before the player is in the game.
pub proof fn law_nothing_is_sent_before_in_game(requests: Seq<ChatSendRequest>)
    ensures
        chat_commands(false, requests).len() == 0,
    decreases requests.len(),
{
    if requests.len() > 0 {
        law_nothing_is_sent_before_in_game(requests.drop_last());
    }
}

/// A message is shown as it was said: in its own channel, from its own sender, under that
/// sender's name where it is known. Plain words are shown as they are, and anything else as its
/// descriptor in brackets.
pub proof fn law_message_is_shown_as_said(msg: ChatMsg, aliases: Map<u64, Seq<char>>)
    ensures
        ({
            let shown = chat_model(msg, aliases);
            &&& shown.channel == msg.channel
            &&& shown.sender_uid == msg.sender
            &&& shown.sender_alias is Some <==> msg.sender is Some && aliases.contains_key(
                msg.sender->0,
            )
            &&& shown.sender_alias is Some ==> shown.sender_alias->0 == aliases[msg.sender->0]
            &&& match msg.content {
                Content::Plain(text) => shown.text == text@,
                Content::Described(descriptor) => {
                    &&& shown.text.len() == descriptor@.len() + 2
                    &&& shown.text[0] == '['
                    &&& shown.text.last() == ']'
                    &&& shown.text.subrange(1, shown.text.len() - 1) == descriptor@
                },
            }
        }),
{
    reveal_strlit("[");
    reveal_strlit("]");
    if let Content::Described(descriptor) = msg.content {
        let text = chat_model(msg, aliases).text;
        assert(text.subrange(1, text.len() - 1) =~= descriptor@);
    }
}

/// Captured messages are delivered in the order of capture, each once, to the client that plays
/// its recipient, and none where no client does.
pub proof fn law_captured_chat_keeps_its_order(
    captured: Seq<CapturedChat>,
    active: Map<u64, u64>,
    aliases: Map<u64, Seq<char>>,
)
    ensures
        ({
            let sent = directed(captured, active, aliases);
            let heard = captured.filter(|chat: CapturedChat| active.contains_key(chat.recipient));
            &&& sent.len() == heard.len()
            &&& forall|k: int|
                #![trigger sent[k]]
                #![trigger heard[k]]
                0 <= k < sent.len() ==> sent[k].client == active[heard[k].recipient]
                    && sent[k].message == chat_model(heard[k].msg, aliases)
        }),
    decreases captured.len(),
{
    reveal(Seq::filter);
    if captured.len() > 0 {
        law_captured_chat_keeps_its_order(captured.drop_last(), active, aliases);
    }
}

/// What a request of a player in the game leads to. Words for a channel that can be spoken in
/// are sent with white space taken off their ends, as the one argument of the channel's command,
/// unless nothing is left of them. A command that has a name is sent as it is, with all its
/// arguments. Nothing else is sent.
pub proof fn law_request_becomes_its_command(request: ChatSendRequest)
    ensures
        match request {
            ChatSendRequest::Channel { send_command_name, text } => {
                let said = exists|i: int| 0 <= i < text@.len() && !white(#[trigger] text@[i]);
                &&& chat_command(true, request) is Some <==> said && send_command_name is Some
                &&& chat_command(true, request) is Some ==> {
                    let command = chat_command(true, request)->0;
                    &&& command.name == send_command_name->0@
                    &&& command.args.len() == 1
                    &&& command.args[0] == trimmed(text@)
                }
            },
            ChatSendRequest::Command { name, args } => {
                let named = exists|i: int| 0 <= i < name@.len() && !white(#[trigger] name@[i]);
                &&& chat_command(true, request) is Some <==> named
                &&& named ==> {
                    let command = chat_command(true, request)->0;
                    &&& command.name == name@
                    &&& command.args.len() == args@.len()
                    &&& forall|i: int|
                        0 <= i < args@.len() ==> #[trigger] command.args[i] == args@[i]@
                }
            },
        },
{
    match request {
        ChatSendRequest::Channel { send_command_name, text } => {
            lemma_blank(text@);
        },
        ChatSendRequest::Command { name, args } => {
            lemma_blank(name@);
        },
    }
}

/// Nothing is left of a text exactly where it holds white space only.
proof fn lemma_blank(text: Seq<char>)
    ensures
        trimmed(text).len() > 0 <==> exists|i: int| 0 <= i < text.len() && !white(#[trigger] text[i]),
{
    let kept = law_trimming_takes_white_ends(text);
    if trimmed(text).len() > 0 {
        assert(trimmed(text)[0] == text[kept.0]);
    }
}

/// Requests are answered one after the other, each on its own: those of a list are those of its
/// first part and then those of the rest.
pub proof fn law_requests_are_answered_in_turn(
    in_game: bool,
    first: Seq<ChatSendRequest>,
    rest: Seq<ChatSendRequest>,
)
    ensures
        chat_commands(in_game, first + rest) == chat_commands(in_game, first) + chat_commands(
            in_game,
            rest,
        ),
        forall|request: ChatSendRequest| #[trigger]
            chat_commands(in_game, seq![request]) == (match chat_command(in_game, request) {
                Some(command) => seq![command],
                None => Seq::empty(),
            }),
    decreases rest.len(),
{
    assert forall|request: ChatSendRequest| #[trigger]
        chat_commands(in_game, seq![request]) == (match chat_command(in_game, request) {
            Some(command) => seq![command],
            None => Seq::empty(),
        }) by {
        assert(seq![request].drop_last() =~= Seq::<ChatSendRequest>::empty());
        assert(chat_commands(in_game, seq![request].drop_last()).len() == 0);
        assert(chat_commands(in_game, seq![request]) =~= (match chat_command(in_game, request) {
            Some(command) => seq![command],
            None => Seq::empty(),
        }));
    }
    if rest.len() == 0 {
        assert(first + rest =~= first);
    } else {
        law_requests_are_answered_in_turn(in_game, first, rest.drop_last());
        assert((first + rest).drop_last() =~= first + rest.drop_last());
    }
    assert(chat_commands(in_game, first + rest) =~= chat_commands(in_game, first) + chat_commands(
        in_game,
        rest,
    ));
}

} // verus!
