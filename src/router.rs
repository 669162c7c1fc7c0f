//! Inbound frames: which ones are read, which messages are kept for replay,
//! and to whom a message goes.
use crate::room::{
    fan_out, join_plan, join_replays_history, keep_last, plan_of, texts_for, Delivery, Room,
};
use crate::wire::{parse_id, parse_user_id, same_text, status_text};
use vstd::prelude::*;

verus! {

#[verifier::external_type_specification]
#[verifier::external_body]
pub struct ExJsonError(serde_json::Error);

/// What serde_json reads of member `key` of the JSON text `text`: nothing if
/// the text is not JSON, else the member's text if it is a string member.
pub uninterp spec fn json_string_member(text: Seq<char>, key: Seq<char>) -> Option<
    Option<Seq<char>>,
>;

/// The text of an optional string.
pub open spec fn opt_view(s: Option<String>) -> Option<Seq<char>> {
    match s {
        Some(t) => Some(t@),
        None => None,
    }
}

/// Relies on serde_json::from_str into a serde_json::Value, then
/// Value::get and Value::as_str: the text parses or not, and the string
/// member `key` of what it holds, both depending on the two texts alone.
#[verifier::external_body]
fn string_member(text: &str, key: &str) -> (r: Result<Option<String>, serde_json::Error>)
    ensures
        r is Err <==> json_string_member(text@, key@) is None,
        r matches Ok(f) ==> json_string_member(text@, key@) == Some(opt_view(f)),
{
    serde_json::from_str::<serde_json::Value>(text).map(
        |v| v.get(key).and_then(serde_json::Value::as_str).map(String::from),
    )
}

/// Why a frame was not relayed.
#[derive(Clone, Copy, Debug, PartialEq, Eq, Structural)]
pub enum RouteError {
    /// The frame was text but not a JSON message.
    Malformed,
    /// The frame was neither text nor a keepalive response.
    NonText,
    /// The `to` field names no member of the room.
    NoRecipient,
}

impl RouteError {
    /// Whether the error ends the sender's connection: every one but a
    /// missing recipient does.
    pub fn is_fatal(&self) -> (r: bool)
        ensures
            r == !(*self is NoRecipient),
    {
        !matches!(self, RouteError::NoRecipient)
    }
}

/// One inbound frame, as the transport hands it over.
pub enum Frame {
    Text(String),
    Pong,
    Other,
}

/// Whether messages of type `ty` are kept in the room's history.
pub open spec fn is_durable(ty: Option<Seq<char>>) -> bool {
    ty == Some("playlist-new-media"@) || ty == Some("chat"@) || ty == Some("user-identified"@)
}

/// The history after a message `text` of type `ty` went through the room.
pub open spec fn history_after(h: Seq<Seq<char>>, text: Seq<char>, ty: Option<Seq<char>>) -> Seq<
    Seq<char>,
> {
    if is_durable(ty) {
        h.push(text)
    } else {
        h
    }
}

/// The deliveries of a message `text` from `me` with the given `to` field, in
/// a room with members `ids`; nothing where `to` names no member.
pub open spec fn route_plan(ids: Seq<u8>, me: u8, text: Seq<char>, to: Option<Seq<char>>) -> Option<
    Seq<(u8, Seq<char>)>,
> {
    match to {
        None => Some(fan_out(ids, me, text)),
        Some(t) => match parse_id(t) {
            Some(u) => if ids.contains(u) {
                Some(seq![(u, text)])
            } else {
                None
            },
            None => None,
        },
    }
}

fn durable(ty: &Option<String>) -> (r: bool)
    ensures
        r == is_durable(opt_view(*ty)),
{
    match ty {
        Some(t) => same_text(t.as_str(), "playlist-new-media") || same_text(t.as_str(), "chat")
            || same_text(t.as_str(), "user-identified"),
        None => false,
    }
}

/// Relays a message `text` from member `me` whose `type` and `to` string
/// fields are `msg_type` and `to`. A durable message is kept in the history
/// first, whether or not it reaches anyone.
pub fn route_message<S>(
    room: &mut Room<S>,
    me: u8,
    text: String,
    msg_type: Option<String>,
    to: Option<String>,
) -> (r: Result<Vec<Delivery>, RouteError>)
    requires
        old(room).wf(),
    ensures
        final(room).wf(),
        final(room).ids() == old(room).ids(),
        final(room).handles() == old(room).handles(),
        final(room).history_limit() == old(room).history_limit(),
        final(room).history() == keep_last(
            history_after(old(room).history(), text@, opt_view(msg_type)),
            old(room).history_limit(),
        ),
        match route_plan(old(room).ids(), me, text@, opt_view(to)) {
            Some(p) => r matches Ok(d) && plan_of(d@) == p,
            None => r == Err::<Vec<Delivery>, RouteError>(RouteError::NoRecipient),
        },
{
    if durable(&msg_type) {
        room.record(text.clone());
    }
    match to {
        None => Ok(room.broadcast(me, &text)),
        Some(t) => match parse_user_id(t.as_str()) {
            Some(u) => {
                if room.is_member(u) {
                    let mut d: Vec<Delivery> = Vec::new();
                    d.push(Delivery { to: u, text });
                    assert(plan_of(d@) =~= seq![(u, text@)]);
                    Ok(d)
                } else {
                    Err(RouteError::NoRecipient)
                }
            },
            None => Err(RouteError::NoRecipient),
        },
    }
}

/// Reads and relays a text frame `text` from member `me`: its string fields
/// `type` and `to` decide whether it is kept and to whom it goes. Text that is
/// not JSON changes nothing and is `Malformed`.
pub fn manage_message<S>(room: &mut Room<S>, me: u8, text: String) -> (r: Result<
    Vec<Delivery>,
    RouteError,
>)
    requires
        old(room).wf(),
    ensures
        final(room).wf(),
        final(room).ids() == old(room).ids(),
        final(room).handles() == old(room).handles(),
        final(room).history_limit() == old(room).history_limit(),
        ({
            let ty = json_string_member(text@, "type"@);
            let to = json_string_member(text@, "to"@);
            if ty is None || to is None {
                r == Err::<Vec<Delivery>, RouteError>(RouteError::Malformed) && final(room).history()
                    == old(room).history()
            } else {
                &&& final(room).history() == keep_last(
                    history_after(old(room).history(), text@, ty->0),
                    old(room).history_limit(),
                )
                &&& match route_plan(old(room).ids(), me, text@, to->0) {
                    Some(p) => r matches Ok(d) && plan_of(d@) == p,
                    None => r == Err::<Vec<Delivery>, RouteError>(RouteError::NoRecipient),
                }
            }
        }),
{
    let ty = match string_member(text.as_str(), "type") {
        Ok(f) => f,
        Err(_) => {
            return Err(RouteError::Malformed);
        },
    };
    let to = match string_member(text.as_str(), "to") {
        Ok(f) => f,
        Err(_) => {
            return Err(RouteError::Malformed);
        },
    };
    route_message(room, me, text, ty, to)
}

/// Handles one inbound frame from member `me`: a keepalive response is
/// consumed, a text frame is relayed, anything else is `NonText`.
pub fn handle_frame<S>(room: &mut Room<S>, me: u8, frame: Frame) -> (r: Result<
    Vec<Delivery>,
    RouteError,
>)
    requires
        old(room).wf(),
    ensures
        final(room).wf(),
        final(room).ids() == old(room).ids(),
        final(room).handles() == old(room).handles(),
        final(room).history_limit() == old(room).history_limit(),
        frame is Pong ==> (r matches Ok(d) && d@.len() == 0),
        frame is Pong ==> final(room).history() == old(room).history(),
        frame is Other ==> r == Err::<Vec<Delivery>, RouteError>(RouteError::NonText),
        frame is Other ==> final(room).history() == old(room).history(),
        frame is Text ==> ({
            let text = frame->Text_0;
            let ty = json_string_member(text@, "type"@);
            let to = json_string_member(text@, "to"@);
            if ty is None || to is None {
                r == Err::<Vec<Delivery>, RouteError>(RouteError::Malformed) && final(room).history()
                    == old(room).history()
            } else {
                &&& final(room).history() == keep_last(
                    history_after(old(room).history(), text@, ty->0),
                    old(room).history_limit(),
                )
                &&& match route_plan(old(room).ids(), me, text@, to->0) {
                    Some(p) => r matches Ok(d) && plan_of(d@) == p,
                    None => r == Err::<Vec<Delivery>, RouteError>(RouteError::NoRecipient),
                }
            }
        }),
{
    match frame {
        Frame::Text(text) => manage_message(room, me, text),
        Frame::Pong => Ok(Vec::new()),
        Frame::Other => Err(RouteError::NonText),
    }
}

/// A message of a durable type is replayed, after the earlier history, to
/// everyone who joins later; one of any other type is not replayed at all.
pub proof fn durable_messages_replayed(
    ids: Seq<u8>,
    h: Seq<Seq<char>>,
    text: Seq<char>,
    ty: Option<Seq<char>>,
    id: u8,
)
    ensures
        is_durable(ty) ==> texts_for(join_plan(ids, history_after(h, text, ty), id), id) == seq![
            status_text(id, ids),
        ] + h.push(text),
        !is_durable(ty) ==> texts_for(join_plan(ids, history_after(h, text, ty), id), id) == seq![
            status_text(id, ids),
        ] + h,
{
    join_replays_history(ids, history_after(h, text, ty), id);
}

} // verus!
