//! Inbound envelopes: what each asks for, and what the hub does about it.

use vstd::prelude::*;
use crate::hub::{audience, participants, roster, set_room, ClientModel, Hub};
use crate::wire::{
    chat_json, chat_text, delivers_to, invite_json, invite_text, join_json, json_number_field,
    json_text_field, leave_json, number_field, text_field, text_model, Delivery,
};

verus! {

/// What an inbound envelope asks the hub to do.
pub enum Command {
    /// Send a chat message to everybody else.
    Chat { message: String },
    /// Put the sender into a voice room.
    JoinVoice { room_id: String },
    /// Take the sender out of a voice room.
    LeaveVoice { room_id: String },
    /// Invite one client into a voice room.
    VoiceInvite { target: u64, room_id: String },
    /// Hand the envelope as it came to one client.
    Relay { target: u64 },
    /// Nothing: the envelope is not one of the protocol.
    Ignore,
}

/// A command as mathematical values.
pub enum CommandModel {
    Chat { message: Seq<char> },
    JoinVoice { room_id: Seq<char> },
    LeaveVoice { room_id: Seq<char> },
    VoiceInvite { target: u64, room_id: Seq<char> },
    Relay { target: u64 },
    Ignore,
}

impl View for Command {
    type V = CommandModel;

    open spec fn view(&self) -> CommandModel {
        match *self {
            Command::Chat { message } => CommandModel::Chat { message: message@ },
            Command::JoinVoice { room_id } => CommandModel::JoinVoice { room_id: room_id@ },
            Command::LeaveVoice { room_id } => CommandModel::LeaveVoice { room_id: room_id@ },
            Command::VoiceInvite { target, room_id } => CommandModel::VoiceInvite {
                target,
                room_id: room_id@,
            },
            Command::Relay { target } => CommandModel::Relay { target },
            Command::Ignore => CommandModel::Ignore,
        }
    }
}

/// The command that an envelope with these members asks for. An envelope
/// whose `type` is missing or unknown, or that lacks a member that its type
/// needs, asks for nothing.
pub open spec fn command_of(
    kind: Option<Seq<char>>,
    message: Option<Seq<char>>,
    room_id: Option<Seq<char>>,
    target: Option<u64>,
) -> CommandModel {
    if kind == Some("chat"@) && message is Some {
        CommandModel::Chat { message: message->0 }
    } else if kind == Some("join-voice"@) && room_id is Some {
        CommandModel::JoinVoice { room_id: room_id->0 }
    } else if kind == Some("leave-voice"@) && room_id is Some {
        CommandModel::LeaveVoice { room_id: room_id->0 }
    } else if kind == Some("voice-invite"@) && target is Some && room_id is Some {
        CommandModel::VoiceInvite { target: target->0, room_id: room_id->0 }
    } else if (kind == Some("offer"@) || kind == Some("answer"@) || kind == Some("ice-candidate"@))
        && target is Some {
        CommandModel::Relay { target: target->0 }
    } else {
        CommandModel::Ignore
    }
}

/// The command that the JSON text `text` asks for: the one of its members
/// `type`, `message`, `roomId` and `targetUserId`.
pub open spec fn parsed(text: Seq<char>) -> CommandModel {
    command_of(
        json_text_field(text, "type"@),
        json_text_field(text, "message"@),
        json_text_field(text, "roomId"@),
        json_number_field(text, "targetUserId"@),
    )
}

fn is_word(kind: &Option<String>, word: &str) -> (same: bool)
    ensures
        same == (text_model(*kind) == Some(word@)),
{
    match kind {
        Some(k) => *k == word.to_owned(),
        None => false,
    }
}

impl Command {
    /// The command that an envelope with these members asks for.
    pub fn from_fields(
        kind: Option<String>,
        message: Option<String>,
        room_id: Option<String>,
        target: Option<u64>,
    ) -> (command: Command)
        ensures
            command@ == command_of(text_model(kind), text_model(message), text_model(room_id), target),
    {
        if is_word(&kind, "chat") && message.is_some() {
            Command::Chat { message: message.unwrap() }
        } else if is_word(&kind, "join-voice") && room_id.is_some() {
            Command::JoinVoice { room_id: room_id.unwrap() }
        } else if is_word(&kind, "leave-voice") && room_id.is_some() {
            Command::LeaveVoice { room_id: room_id.unwrap() }
        } else if is_word(&kind, "voice-invite") && target.is_some() && room_id.is_some() {
            Command::VoiceInvite { target: target.unwrap(), room_id: room_id.unwrap() }
        } else if (is_word(&kind, "offer") || is_word(&kind, "answer") || is_word(
            &kind,
            "ice-candidate",
        )) && target.is_some() {
            Command::Relay { target: target.unwrap() }
        } else {
            Command::Ignore
        }
    }

    /// The command that the JSON text `text` asks for. Text that is no JSON
    /// object asks for nothing.
    pub fn parse(text: &str) -> (command: Command)
        ensures
            command@ == parsed(text@),
    {
        Command::from_fields(
            text_field(text, "type"),
            text_field(text, "message"),
            text_field(text, "roomId"),
            number_field(text, "targetUserId"),
        )
    }
}

/// The deliveries hold `text` for `target` alone, or nothing where `target`
/// is not registered.
pub open spec fn unicast_of(
    deliveries: Seq<Delivery>,
    clients: Seq<ClientModel>,
    target: u64,
    text: Seq<char>,
) -> bool {
    if roster(clients).contains(target) {
        deliveries.len() == 1 && deliveries[0].to == target && deliveries[0].text@ == text
    } else {
        deliveries.len() == 0
    }
}

/// What `command` from `sender`, which came as the text `raw`, makes of the
/// clients `before`: the clients afterwards and the deliveries.
pub open spec fn outcome(
    before: Seq<ClientModel>,
    sender: u64,
    command: CommandModel,
    raw: Seq<char>,
    after: Seq<ClientModel>,
    deliveries: Seq<Delivery>,
) -> bool {
    match command {
        CommandModel::Chat { message } => {
            &&& after == before
            &&& delivers_to(deliveries, audience(before, None, Some(sender)), chat_json(sender, message))
        },
        CommandModel::JoinVoice { room_id } => {
            &&& after == set_room(before, sender, Some(room_id))
            &&& delivers_to(
                deliveries,
                audience(after, Some(room_id), Some(sender)),
                join_json(sender, room_id),
            )
        },
        CommandModel::LeaveVoice { room_id } => {
            &&& after == set_room(before, sender, None)
            &&& delivers_to(deliveries, participants(after, room_id), leave_json(sender, room_id))
        },
        CommandModel::VoiceInvite { target, room_id } => {
            &&& after == before
            &&& unicast_of(deliveries, before, target, invite_json(sender, room_id))
        },
        CommandModel::Relay { target } => {
            &&& after == before
            &&& unicast_of(deliveries, before, target, raw)
        },
        CommandModel::Ignore => {
            &&& after == before
            &&& deliveries.len() == 0
        },
    }
}

/// Carries out `command` for the client `sender`; `raw` is the text that the
/// command came as, which a relay hands on unchanged.
pub fn route(hub: &mut Hub, sender: u64, command: &Command, raw: &str) -> (deliveries: Vec<
    Delivery,
>)
    requires
        old(hub).wf(),
    ensures
        final(hub).wf(),
        final(hub).next_id() == old(hub).next_id(),
        outcome(old(hub)@, sender, command@, raw@, final(hub)@, deliveries@),
{
    match command {
        Command::Chat { message } => {
            let text = chat_text(sender, message.as_str());
            hub.broadcast_message_to_all(text.as_str(), Some(sender))
        },
        Command::JoinVoice { room_id } => hub.join(sender, room_id.as_str()),
        Command::LeaveVoice { room_id } => hub.leave(sender, room_id.as_str()),
        Command::VoiceInvite { target, room_id } => {
            let text = invite_text(sender, room_id.as_str());
            hub.unicast(*target, text.as_str())
        },
        Command::Relay { target } => hub.unicast(*target, raw),
        Command::Ignore => Vec::new(),
    }
}

/// Handles one inbound text message from the client `sender`: parses it and
/// carries out what it asks for. Text that is not an envelope of the protocol
/// changes nothing and is answered by nothing.
pub fn handle_message(hub: &mut Hub, sender: u64, text: &str) -> (deliveries: Vec<Delivery>)
    requires
        old(hub).wf(),
    ensures
        final(hub).wf(),
        final(hub).next_id() == old(hub).next_id(),
        outcome(old(hub)@, sender, parsed(text@), text@, final(hub)@, deliveries@),
{
    let command = Command::parse(text);
    route(hub, sender, &command, text)
}

} // verus!
