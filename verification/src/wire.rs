//! Outbound messages and the JSON text of the protocol's envelopes.

use vstd::prelude::*;

verus! {

/// One message to be sent: its text and the client that is to receive it.
pub struct Delivery {
    pub to: u64,
    pub text: String,
}

/// The characters of an optional string.
pub open spec fn text_model(text: Option<String>) -> Option<Seq<char>> {
    match text {
        Some(s) => Some(s@),
        None => None,
    }
}

/// The text that serde_json prints for the JSON object with three members:
/// the string `kind` under `kind_key`, the number `id` under `id_key` and the
/// string `text` under `text_key`, inserted in this order.
pub uninterp spec fn json_event(
    kind_key: Seq<char>,
    kind: Seq<char>,
    id_key: Seq<char>,
    id: u64,
    text_key: Seq<char>,
    text: Seq<char>,
) -> Seq<char>;

/// The text that serde_json prints for the JSON object with two members: the
/// string `kind` under `kind_key` and the array of the numbers `list` under
/// `list_key`, inserted in this order.
pub uninterp spec fn json_list(
    kind_key: Seq<char>,
    kind: Seq<char>,
    list_key: Seq<char>,
    list: Seq<u64>,
) -> Seq<char>;

/// The string that serde_json finds under `key` in the JSON document
/// `document`, if the document parses, is an object, has the key, and the
/// value there is a string.
pub uninterp spec fn json_text_field(document: Seq<char>, key: Seq<char>) -> Option<Seq<char>>;

/// The number that serde_json finds under `key` in the JSON document
/// `document`, if the document parses, is an object, has the key, and the
/// value there is an integer that fits in 64 unsigned bits.
pub uninterp spec fn json_number_field(document: Seq<char>, key: Seq<char>) -> Option<u64>;

/// Fills a `serde_json::Map` by three calls of `Map::insert`, each value made
/// by `serde_json::Value::from`, and prints it as `serde_json::Value::Object`
/// with `to_string`. The contract only names the text: it is a function of
/// the six arguments alone.
#[verifier::external_body]
fn encode_event(kind_key: &str, kind: &str, id_key: &str, id: u64, text_key: &str, text: &str) -> (json:
    String)
    ensures
        json@ == json_event(kind_key@, kind@, id_key@, id, text_key@, text@),
{
    let mut object = serde_json::Map::new();
    object.insert(kind_key.to_owned(), serde_json::Value::from(kind));
    object.insert(id_key.to_owned(), serde_json::Value::from(id));
    object.insert(text_key.to_owned(), serde_json::Value::from(text));
    serde_json::Value::Object(object).to_string()
}

/// Fills a `serde_json::Map` by two calls of `Map::insert`, each value made
/// by `serde_json::Value::from`, and prints it as `serde_json::Value::Object`
/// with `to_string`. The contract only names the text: it is a function of
/// the four arguments alone.
#[verifier::external_body]
fn encode_list(kind_key: &str, kind: &str, list_key: &str, list: &Vec<u64>) -> (json: String)
    ensures
        json@ == json_list(kind_key@, kind@, list_key@, list@),
{
    let mut object = serde_json::Map::new();
    object.insert(kind_key.to_owned(), serde_json::Value::from(kind));
    object.insert(list_key.to_owned(), serde_json::Value::from(list.as_slice()));
    serde_json::Value::Object(object).to_string()
}

/// Parses `document` with `serde_json::from_str` into a `serde_json::Value`
/// and reads the member `key` with `Value::get` and `Value::as_str`. The result
/// is `None` where the document does not parse, or `get` or `as_str` gives
/// `None`. The contract only names the result.
#[verifier::external_body]
pub(crate) fn text_field(document: &str, key: &str) -> (value: Option<String>)
    ensures
        text_model(value) == json_text_field(document@, key@),
{
    let parsed: serde_json::Value = serde_json::from_str(document).ok()?;
    Some(parsed.get(key)?.as_str()?.to_owned())
}

/// Parses `document` with `serde_json::from_str` into a `serde_json::Value`
/// and reads the member `key` with `Value::get` and `Value::as_u64`. The result
/// is `None` where the document does not parse, or `get` or `as_u64` gives
/// `None`. The contract only names the result.
#[verifier::external_body]
pub(crate) fn number_field(document: &str, key: &str) -> (value: Option<u64>)
    ensures
        value == json_number_field(document@, key@),
{
    let parsed: serde_json::Value = serde_json::from_str(document).ok()?;
    parsed.get(key)?.as_u64()
}

/// The text of the chat message that the other clients get from `sender`:
/// the object with `type`, `userId` and `message`.
pub open spec fn chat_json(sender: u64, message: Seq<char>) -> Seq<char> {
    json_event("type"@, "chat"@, "userId"@, sender, "message"@, message)
}

/// The text of the event that tells a room that `sender` joined it: the
/// object with `type`, `userId` and `roomId`.
pub open spec fn join_json(sender: u64, room: Seq<char>) -> Seq<char> {
    json_event("type"@, "join-voice"@, "userId"@, sender, "roomId"@, room)
}

/// The text of the event that tells a room that `sender` left it: the object
/// with `type`, `userId` and `roomId`.
pub open spec fn leave_json(sender: u64, room: Seq<char>) -> Seq<char> {
    json_event("type"@, "leave-voice"@, "userId"@, sender, "roomId"@, room)
}

/// The text of the invitation of `sender` into a room: the object with
/// `type`, `userId` and `roomId`.
pub open spec fn invite_json(sender: u64, room: Seq<char>) -> Seq<char> {
    json_event("type"@, "voice-invite"@, "userId"@, sender, "roomId"@, room)
}

/// The text of the roster message that lists `users`: the object with `type`
/// and `users`.
pub open spec fn user_list_json(users: Seq<u64>) -> Seq<char> {
    json_list("type"@, "userList"@, "users"@, users)
}

/// `{"type":"chat","userId":sender,"message":message}` as JSON text.
pub fn chat_text(sender: u64, message: &str) -> (text: String)
    ensures
        text@ == chat_json(sender, message@),
{
    encode_event("type", "chat", "userId", sender, "message", message)
}

/// `{"type":"join-voice","userId":sender,"roomId":room}` as JSON text.
pub fn join_text(sender: u64, room: &str) -> (text: String)
    ensures
        text@ == join_json(sender, room@),
{
    encode_event("type", "join-voice", "userId", sender, "roomId", room)
}

/// `{"type":"leave-voice","userId":sender,"roomId":room}` as JSON text.
pub fn leave_text(sender: u64, room: &str) -> (text: String)
    ensures
        text@ == leave_json(sender, room@),
{
    encode_event("type", "leave-voice", "userId", sender, "roomId", room)
}

/// `{"type":"voice-invite","userId":sender,"roomId":room}` as JSON text.
pub fn invite_text(sender: u64, room: &str) -> (text: String)
    ensures
        text@ == invite_json(sender, room@),
{
    encode_event("type", "voice-invite", "userId", sender, "roomId", room)
}

/// `{"type":"userList","users":users}` as JSON text.
pub fn user_list_text(users: &Vec<u64>) -> (text: String)
    ensures
        text@ == user_list_json(users@),
{
    encode_list("type", "userList", "users", users)
}

/// The recipients of the deliveries, in their order.
pub open spec fn recipients(deliveries: Seq<Delivery>) -> Seq<u64> {
    deliveries.map_values(|d: Delivery| d.to)
}

/// The deliveries carry `text` to each client of `targets` exactly once, and
/// to nobody else.
pub open spec fn delivers_to(deliveries: Seq<Delivery>, targets: Set<u64>, text: Seq<char>) -> bool {
    &&& recipients(deliveries).no_duplicates()
    &&& recipients(deliveries).to_set() == targets
    &&& forall|i: int| 0 <= i < deliveries.len() ==> (#[trigger] deliveries[i]).text@ == text
}

/// One delivery of `text` to each of `ids`, in their order.
pub fn deliver_each(ids: &Vec<u64>, text: &str) -> (deliveries: Vec<Delivery>)
    ensures
        recipients(deliveries@) == ids@,
        forall|i: int| 0 <= i < deliveries@.len() ==> (#[trigger] deliveries@[i]).text@ == text@,
{
    let mut deliveries: Vec<Delivery> = Vec::new();
    let mut i: usize = 0;
    while i < ids.len()
        invariant
            i <= ids.len(),
            recipients(deliveries@) == ids@.subrange(0, i as int),
            forall|k: int| 0 <= k < deliveries@.len() ==> (#[trigger] deliveries@[k]).text@ == text@,
        decreases ids.len() - i,
    {
        let ghost before = deliveries@;
        deliveries.push(Delivery { to: ids[i], text: text.to_owned() });
        proof {
            assert(recipients(deliveries@) =~= recipients(before).push(ids@[i as int]));
            assert(ids@.subrange(0, i as int + 1) =~= ids@.subrange(0, i as int).push(ids@[i as int]));
        }
        i += 1;
    }
    proof {
        assert(ids@.subrange(0, ids@.len() as int) =~= ids@);
    }
    deliveries
}

} // verus!
