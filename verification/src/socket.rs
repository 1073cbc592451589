//! The wire protocol: message kinds with their fixed tags, the payloads of
//! join and client events, reply envelopes, and the per-message decisions
//! of the connection loop.

use vstd::prelude::*;

use crate::diff::obj_lookup;
use crate::json::{entries_dv, json_clone, json_dv, Json, JsonV};

verus! {

/// Protocol-reserved message kinds.
#[derive(Debug, Clone, Copy, PartialEq, Eq, Structural)]
pub enum ProtocolEvent {
    /// The connection will be closed.
    Close,
    /// A template diff.
    Diff,
    /// A channel has errored and needs to be reconnected.
    Error,
    /// A live view event.
    Event,
    /// Heartbeat.
    Heartbeat,
    /// Joining a channel.
    Join,
    /// Leaving a channel.
    Leave,
    /// Reply to a message sent by the client.
    Reply,
}

/// The fixed wire tag of each message kind.
pub open spec fn spec_tag(e: ProtocolEvent) -> Seq<char> {
    match e {
        ProtocolEvent::Close => "phx_close"@,
        ProtocolEvent::Diff => "diff"@,
        ProtocolEvent::Error => "phx_error"@,
        ProtocolEvent::Event => "event"@,
        ProtocolEvent::Heartbeat => "heartbeat"@,
        ProtocolEvent::Join => "phx_join"@,
        ProtocolEvent::Leave => "phx_leave"@,
        ProtocolEvent::Reply => "phx_reply"@,
    }
}

impl ProtocolEvent {
    /// The wire tag of this kind.
    pub fn tag(&self) -> (r: &'static str)
        ensures
            r@ == spec_tag(*self),
    {
        match self {
            ProtocolEvent::Close => "phx_close",
            ProtocolEvent::Diff => "diff",
            ProtocolEvent::Error => "phx_error",
            ProtocolEvent::Event => "event",
            ProtocolEvent::Heartbeat => "heartbeat",
            ProtocolEvent::Join => "phx_join",
            ProtocolEvent::Leave => "phx_leave",
            ProtocolEvent::Reply => "phx_reply",
        }
    }
}

/// A protocol message: correlation tokens, topic, kind and payload.
#[derive(Debug, PartialEq, Eq)]
pub struct Message {
    /// First correlation token.
    pub ref1: Option<String>,
    /// Second correlation token.
    pub ref2: Option<String>,
    /// The channel topic.
    pub topic: String,
    /// The message kind.
    pub event: ProtocolEvent,
    /// The JSON payload.
    pub payload: Json,
}

/// A client event parsed from an event message's payload.
#[derive(Debug, PartialEq, Eq)]
pub struct Event {
    /// The event name, matched against registered handlers.
    pub name: String,
    /// The event type: `json`, `form` or `internal`.
    pub ty: String,
    /// The event value.
    pub value: Json,
}

/// Mathematical value of an [`Event`].
#[verifier::ext_equal]
pub struct EventV {
    /// The event name.
    pub name: Seq<char>,
    /// The event type.
    pub ty: Seq<char>,
    /// The event value.
    pub value: JsonV,
}

impl DeepView for Event {
    type V = EventV;

    open spec fn deep_view(&self) -> EventV {
        EventV { name: self.name@, ty: self.ty@, value: json_dv(self.value) }
    }
}

/// The payload of a join message.
#[derive(Debug, PartialEq, Eq)]
pub struct JoinEvent {
    /// The address the client joined from.
    pub url: Option<String>,
    /// The address after a redirect.
    pub redirect: Option<String>,
    /// The join parameters.
    pub params: JoinEventParams,
    /// The signed session token embedded at page load.
    pub session: String,
    /// The static-tracking token.
    pub static_token: Option<String>,
}

/// The parameters of a join payload.
#[derive(Debug, PartialEq, Eq)]
pub struct JoinEventParams {
    /// The anti-forgery token presented by the client.
    pub csrf_token: String,
    /// How many times the client mounted.
    pub mounts: u32,
    /// The static assets the client tracks.
    pub track_static: Vec<String>,
}

/// Mathematical value of a [`JoinEvent`].
#[verifier::ext_equal]
pub struct JoinEventV {
    /// The address the client joined from.
    pub url: Option<Seq<char>>,
    /// The address after a redirect.
    pub redirect: Option<Seq<char>>,
    /// The join parameters.
    pub params: JoinEventParamsV,
    /// The signed session token.
    pub session: Seq<char>,
    /// The static-tracking token.
    pub static_token: Option<Seq<char>>,
}

/// Mathematical value of [`JoinEventParams`].
#[verifier::ext_equal]
pub struct JoinEventParamsV {
    /// The anti-forgery token.
    pub csrf_token: Seq<char>,
    /// How many times the client mounted.
    pub mounts: u32,
    /// The static assets the client tracks.
    pub track_static: Seq<Seq<char>>,
}

impl DeepView for JoinEventParams {
    type V = JoinEventParamsV;

    open spec fn deep_view(&self) -> JoinEventParamsV {
        JoinEventParamsV {
            csrf_token: self.csrf_token@,
            mounts: self.mounts,
            track_static: self.track_static.deep_view(),
        }
    }
}

impl DeepView for JoinEvent {
    type V = JoinEventV;

    open spec fn deep_view(&self) -> JoinEventV {
        JoinEventV {
            url: self.url.deep_view(),
            redirect: self.redirect.deep_view(),
            params: self.params.deep_view(),
            session: self.session@,
            static_token: self.static_token.deep_view(),
        }
    }
}

impl JoinEvent {
    /// The address to mount at: the join address, or the redirect address
    /// when there is none.
    pub fn url(&self) -> (r: Option<&String>)
        ensures
            match r {
                Some(u) => if self.url is Some {
                    *u == self.url->0
                } else {
                    self.redirect == Some(*u)
                },
                None => self.url is None && self.redirect is None,
            },
    {
        match &self.url {
            Some(u) => Some(u),
            None => match &self.redirect {
                Some(u) => Some(u),
                None => None,
            },
        }
    }
}

/// Reply status on the wire.
#[derive(Debug, Clone, Copy, PartialEq, Eq, Structural)]
pub enum Status {
    /// Success.
    Okay,
    /// Failure.
    Error,
}

/// The fixed wire tag of each status.
pub open spec fn spec_status_tag(s: Status) -> Seq<char> {
    match s {
        Status::Okay => "ok"@,
        Status::Error => "error"@,
    }
}

impl Status {
    /// The wire tag of this status.
    pub fn tag(&self) -> (r: &'static str)
        ensures
            r@ == spec_status_tag(*self),
    {
        match self {
            Status::Okay => "ok",
            Status::Error => "error",
        }
    }
}

/// A message as the transport loop sees it.
#[derive(Debug, PartialEq, Eq)]
pub enum SocketMessage {
    /// A protocol message.
    Event(Message),
    /// The transport closed.
    Close,
    /// A transport-level ping.
    Ping(Vec<u8>),
    /// A transport-level pong.
    Pong(Vec<u8>),
}

/// A payload that could not be decoded; the message carrying it is dropped
/// and the session kept.
#[derive(Debug, Clone, Copy, PartialEq, Eq, Structural)]
pub enum DecodeError {
    /// The payload does not have the expected shape.
    Invalid,
}

/// The reply envelope: a status tag and a response value.
pub open spec fn spec_reply_payload(status: Status, response: JsonV) -> JsonV {
    JsonV::Obj(
        seq![("status"@, JsonV::Text(spec_status_tag(status))), ("response"@, response)],
    )
}

/// Builds the reply envelope `{ status, response }`.
pub fn reply_payload(status: Status, response: Json) -> (r: Json)
    ensures
        r.deep_view() == spec_reply_payload(status, response.deep_view()),
{
    let mut entries: Vec<(String, Json)> = Vec::new();
    entries.push(("status".to_owned(), Json::Text(status.tag().to_owned())));
    entries.push(("response".to_owned(), response));
    proof {
        crate::json::lemma_entries_dv_len_index(entries@);
        assert(entries_dv(entries@) =~~= spec_reply_payload(status, json_dv(response))->Obj_0);
    }
    Json::Obj(entries)
}

/// An object with one entry.
pub fn singleton_obj(key: &str, value: Json) -> (r: Json)
    ensures
        r.deep_view() == JsonV::Obj(seq![(key@, json_dv(value))]),
{
    let mut entries: Vec<(String, Json)> = Vec::new();
    entries.push((key.to_owned(), value));
    proof {
        crate::json::lemma_entries_dv_len_index(entries@);
        assert(entries_dv(entries@) =~~= seq![(key@, json_dv(value))]);
    }
    Json::Obj(entries)
}

/// The empty JSON object, the acknowledgement for heartbeats and handled
/// events without a visible change.
pub fn empty_obj() -> (r: Json)
    ensures
        r.deep_view() == JsonV::Obj(Seq::empty()),
{
    let entries: Vec<(String, Json)> = Vec::new();
    proof {
        assert(entries_dv(entries@) =~= Seq::<(Seq<char>, JsonV)>::empty());
    }
    Json::Obj(entries)
}

impl Message {
    /// Turns this message into a success reply carrying `response`.
    pub fn reply_ok(&mut self, response: Json)
        ensures
            final(self).ref1 == old(self).ref1,
            final(self).ref2 == old(self).ref2,
            final(self).topic == old(self).topic,
            final(self).event == ProtocolEvent::Reply,
            final(self).payload.deep_view() == spec_reply_payload(
                Status::Okay,
                response.deep_view(),
            ),
    {
        self.event = ProtocolEvent::Reply;
        self.payload = reply_payload(Status::Okay, response);
    }

    /// Turns this message into an error reply carrying `response`.
    pub fn reply_err(&mut self, response: Json)
        ensures
            final(self).ref1 == old(self).ref1,
            final(self).ref2 == old(self).ref2,
            final(self).topic == old(self).topic,
            final(self).event == ProtocolEvent::Reply,
            final(self).payload.deep_view() == spec_reply_payload(
                Status::Error,
                response.deep_view(),
            ),
    {
        self.event = ProtocolEvent::Reply;
        self.payload = reply_payload(Status::Error, response);
    }
}

/// What an event payload parses to, if it has the expected shape: an
/// object holding an `event` name, a `type` and a `value`.
pub open spec fn spec_parse_event(j: JsonV) -> Option<EventV> {
    match j {
        JsonV::Obj(es) => {
            match (obj_lookup(es, "event"@), obj_lookup(es, "type"@), obj_lookup(es, "value"@)) {
                (Some(JsonV::Text(n)), Some(JsonV::Text(t)), Some(v)) => Some(
                    EventV { name: n, ty: t, value: v },
                ),
                _ => None,
            }
        },
        _ => None,
    }
}

impl Message {
    /// Takes the payload out and parses it as a client event; the payload
    /// is replaced by null either way.
    pub fn take_event(&mut self) -> (r: Result<Event, DecodeError>)
        ensures
            final(self).ref1 == old(self).ref1,
            final(self).ref2 == old(self).ref2,
            final(self).topic == old(self).topic,
            final(self).event == old(self).event,
            final(self).payload == Json::Null,
            match spec_parse_event(old(self).payload.deep_view()) {
                Some(ev) => r matches Ok(e) && e.deep_view() == ev,
                None => r == Result::<Event, DecodeError>::Err(DecodeError::Invalid),
            },
    {
        let mut payload = Json::Null;
        std::mem::swap(&mut payload, &mut self.payload);
        match &payload {
            Json::Obj(entries) => {
                let name = match crate::diff::obj_find(entries, &"event".to_owned()) {
                    Some(i) => match &entries[i].1 {
                        Json::Text(s) => s.clone(),
                        _ => {
                            return Err(DecodeError::Invalid);
                        },
                    },
                    None => {
                        return Err(DecodeError::Invalid);
                    },
                };
                let ty = match crate::diff::obj_find(entries, &"type".to_owned()) {
                    Some(i) => match &entries[i].1 {
                        Json::Text(s) => s.clone(),
                        _ => {
                            return Err(DecodeError::Invalid);
                        },
                    },
                    None => {
                        return Err(DecodeError::Invalid);
                    },
                };
                let value = match crate::diff::obj_find(entries, &"value".to_owned()) {
                    Some(i) => json_clone(&entries[i].1),
                    None => {
                        return Err(DecodeError::Invalid);
                    },
                };
                Ok(Event { name, ty, value })
            },
            _ => Err(DecodeError::Invalid),
        }
    }
}

/// What the connection loop does with one received transport message while
/// waiting for a join.
#[derive(Debug, Clone, Copy, PartialEq, Eq, Structural)]
pub enum WaitDecision {
    /// A join message arrived: accept the session.
    Accept,
    /// The client left or the transport closed: terminate.
    Terminate,
    /// Anything else is ignored while waiting.
    Ignore,
}

/// Decides what to do with one transport message while waiting for a join:
/// only a join message advances; leave, close and transport close
/// terminate; everything else is ignored.
pub fn wait_for_join_step(m: &SocketMessage) -> (r: WaitDecision)
    ensures
        r == WaitDecision::Accept <==> (m matches SocketMessage::Event(msg)
            && msg.event == ProtocolEvent::Join),
        r == WaitDecision::Terminate <==> (m == SocketMessage::Close || (
        m matches SocketMessage::Event(msg) && (msg.event == ProtocolEvent::Close || msg.event
            == ProtocolEvent::Leave))),
{
    match m {
        SocketMessage::Event(msg) => match msg.event {
            ProtocolEvent::Join => WaitDecision::Accept,
            ProtocolEvent::Close => WaitDecision::Terminate,
            ProtocolEvent::Leave => WaitDecision::Terminate,
            _ => WaitDecision::Ignore,
        },
        SocketMessage::Close => WaitDecision::Terminate,
        SocketMessage::Ping(_) => WaitDecision::Ignore,
        SocketMessage::Pong(_) => WaitDecision::Ignore,
    }
}

/// What the connection loop does with one protocol message once joined.
#[derive(Debug, Clone, Copy, PartialEq, Eq, Structural)]
pub enum MessageAction {
    /// Stop the loop and release the session.
    Stop,
    /// Keep the loop running; nothing to do.
    Continue,
    /// Decode the payload and dispatch the client event.
    DispatchEvent,
    /// Reply immediately with an empty acknowledgement.
    ReplyHeartbeat,
}

/// Decides what to do with one protocol message once joined: close, join
/// and leave stop the session; an event is dispatched; a heartbeat is
/// acknowledged at once; diff, error and reply messages need nothing.
pub fn handle_message_decision(event: ProtocolEvent) -> (r: MessageAction)
    ensures
        r == MessageAction::Stop <==> (event == ProtocolEvent::Close || event
            == ProtocolEvent::Join || event == ProtocolEvent::Leave),
        r == MessageAction::DispatchEvent <==> event == ProtocolEvent::Event,
        r == MessageAction::ReplyHeartbeat <==> event == ProtocolEvent::Heartbeat,
{
    match event {
        ProtocolEvent::Close => MessageAction::Stop,
        ProtocolEvent::Diff => MessageAction::Continue,
        ProtocolEvent::Error => MessageAction::Continue,
        ProtocolEvent::Event => MessageAction::DispatchEvent,
        ProtocolEvent::Heartbeat => MessageAction::ReplyHeartbeat,
        ProtocolEvent::Join => MessageAction::Stop,
        ProtocolEvent::Leave => MessageAction::Stop,
        ProtocolEvent::Reply => MessageAction::Continue,
    }
}


/// What an optional string field parses to: absent or null is `None`, text
/// is `Some`, anything else fails the whole parse.
pub open spec fn opt_str_field(es: Seq<(Seq<char>, JsonV)>, k: Seq<char>) -> Option<
    Option<Seq<char>>,
> {
    match obj_lookup(es, k) {
        None => Some(None),
        Some(JsonV::Null) => Some(None),
        Some(JsonV::Text(s)) => Some(Some(s)),
        Some(_) => None,
    }
}

/// Whether every element is a text value.
pub open spec fn all_texts(a: Seq<JsonV>) -> bool {
    forall|i: int| 0 <= i < a.len() ==> (#[trigger] a[i]) is Text
}

/// The texts of a sequence of text values.
pub open spec fn texts_of(a: Seq<JsonV>) -> Seq<Seq<char>> {
    Seq::new(a.len(), |i: int| a[i]->Text_0)
}

/// What a join payload's params object parses to: a required anti-forgery
/// token, a required mount count, and an optional list of tracked assets.
pub open spec fn spec_parse_join_params(j: JsonV) -> Option<JoinEventParamsV> {
    match j {
        JsonV::Obj(es) => {
            match (obj_lookup(es, "_csrf_token"@), obj_lookup(es, "_mounts"@)) {
                (Some(JsonV::Text(cs)), Some(JsonV::Num(n))) => {
                    if n <= u32::MAX {
                        match obj_lookup(es, "_track_static"@) {
                            None => Some(
                                JoinEventParamsV {
                                    csrf_token: cs,
                                    mounts: n as u32,
                                    track_static: Seq::empty(),
                                },
                            ),
                            Some(JsonV::Arr(a)) => if all_texts(a) {
                                Some(
                                    JoinEventParamsV {
                                        csrf_token: cs,
                                        mounts: n as u32,
                                        track_static: texts_of(a),
                                    },
                                )
                            } else {
                                None
                            },
                            Some(_) => None,
                        }
                    } else {
                        None
                    }
                },
                _ => None,
            }
        },
        _ => None,
    }
}

/// What a join payload parses to, if it has the expected shape.
pub open spec fn spec_parse_join(j: JsonV) -> Option<JoinEventV> {
    match j {
        JsonV::Obj(es) => {
            match (opt_str_field(es, "url"@), opt_str_field(es, "redirect"@), opt_str_field(
                es,
                "static"@,
            )) {
                (Some(url), Some(redirect), Some(static_token)) => {
                    match obj_lookup(es, "session"@) {
                        Some(JsonV::Text(session)) => {
                            match obj_lookup(es, "params"@) {
                                Some(pj) => match spec_parse_join_params(pj) {
                                    Some(params) => Some(
                                        JoinEventV {
                                            url,
                                            redirect,
                                            params,
                                            session,
                                            static_token,
                                        },
                                    ),
                                    None => None,
                                },
                                None => None,
                            }
                        },
                        _ => None,
                    }
                },
                _ => None,
            }
        },
        _ => None,
    }
}

/// Reads an optional string field.
fn get_opt_str(entries: &Vec<(String, Json)>, key: &str) -> (r: Result<
    Option<String>,
    DecodeError,
>)
    ensures
        match opt_str_field(entries_dv(entries@), key@) {
            Some(v) => r matches Ok(s) && s.deep_view() == v,
            None => r is Err,
        },
{
    match crate::diff::obj_find(entries, &key.to_owned()) {
        Some(i) => match &entries[i].1 {
            Json::Null => Ok(None),
            Json::Text(s) => Ok(Some(s.clone())),
            _ => Err(DecodeError::Invalid),
        },
        None => Ok(None),
    }
}

/// Parses a join payload's params object.
#[verifier::loop_isolation(false)]
fn parse_join_params(p: &Json) -> (r: Result<JoinEventParams, DecodeError>)
    ensures
        match spec_parse_join_params(p.deep_view()) {
            Some(v) => r matches Ok(params) && params.deep_view() == v,
            None => r is Err,
        },
{
    let entries = match p {
        Json::Obj(entries) => entries,
        _ => {
            return Err(DecodeError::Invalid);
        },
    };
    let csrf_token = match crate::diff::obj_find(entries, &"_csrf_token".to_owned()) {
        Some(i) => match &entries[i].1 {
            Json::Text(s) => s.clone(),
            _ => {
                return Err(DecodeError::Invalid);
            },
        },
        None => {
            return Err(DecodeError::Invalid);
        },
    };
    let mounts_num = match crate::diff::obj_find(entries, &"_mounts".to_owned()) {
        Some(i) => match &entries[i].1 {
            Json::Num(n) => *n,
            _ => {
                return Err(DecodeError::Invalid);
            },
        },
        None => {
            return Err(DecodeError::Invalid);
        },
    };
    if mounts_num > u32::MAX as u64 {
        return Err(DecodeError::Invalid);
    }
    let mounts = mounts_num as u32;
    let mut track_static: Vec<String> = Vec::new();
    match crate::diff::obj_find(entries, &"_track_static".to_owned()) {
        Some(i) => match &entries[i].1 {
            Json::Arr(a) => {
                proof {
                    crate::json::lemma_json_seq_dv_len_index(a@);
                }
                let n = a.len();
                let mut k: usize = 0;
                while k < n
                    invariant
                        k <= n,
                        n == a@.len(),
                        track_static@.len() == k,
                        forall|m: int|
                            0 <= m < k ==> (#[trigger] crate::json::json_seq_dv(a@)[m]) is Text
                                && track_static@[m]@ == crate::json::json_seq_dv(a@)[m]->Text_0,
                    decreases n - k,
                {
                    match &a[k] {
                        Json::Text(s) => {
                            track_static.push(s.clone());
                        },
                        _ => {
                            proof {
                                assert(!(crate::json::json_seq_dv(a@)[k as int] is Text));
                            }
                            return Err(DecodeError::Invalid);
                        },
                    }
                    k = k + 1;
                }
                proof {
                    assert(all_texts(crate::json::json_seq_dv(a@)));
                    assert(track_static.deep_view() =~= texts_of(crate::json::json_seq_dv(a@)));
                }
            },
            _ => {
                return Err(DecodeError::Invalid);
            },
        },
        None => {
            proof {
                assert(track_static.deep_view() =~= Seq::<Seq<char>>::empty());
            }
        },
    }
    Ok(JoinEventParams { csrf_token, mounts, track_static })
}

impl Message {
    /// Takes the payload out and parses it as a join payload; the payload
    /// is replaced by null either way.
    pub fn take_join_event(&mut self) -> (r: Result<JoinEvent, DecodeError>)
        ensures
            final(self).ref1 == old(self).ref1,
            final(self).ref2 == old(self).ref2,
            final(self).topic == old(self).topic,
            final(self).event == old(self).event,
            final(self).payload == Json::Null,
            match spec_parse_join(old(self).payload.deep_view()) {
                Some(v) => r matches Ok(j) && j.deep_view() == v,
                None => r == Result::<JoinEvent, DecodeError>::Err(DecodeError::Invalid),
            },
    {
        let mut payload = Json::Null;
        std::mem::swap(&mut payload, &mut self.payload);
        let entries = match &payload {
            Json::Obj(entries) => entries,
            _ => {
                return Err(DecodeError::Invalid);
            },
        };
        let url = match get_opt_str(entries, "url") {
            Ok(v) => v,
            Err(e) => {
                return Err(e);
            },
        };
        let redirect = match get_opt_str(entries, "redirect") {
            Ok(v) => v,
            Err(e) => {
                return Err(e);
            },
        };
        let static_token = match get_opt_str(entries, "static") {
            Ok(v) => v,
            Err(e) => {
                return Err(e);
            },
        };
        let session = match crate::diff::obj_find(entries, &"session".to_owned()) {
            Some(i) => match &entries[i].1 {
                Json::Text(s) => s.clone(),
                _ => {
                    return Err(DecodeError::Invalid);
                },
            },
            None => {
                return Err(DecodeError::Invalid);
            },
        };
        let params = match crate::diff::obj_find(entries, &"params".to_owned()) {
            Some(i) => match parse_join_params(&entries[i].1) {
                Ok(p) => p,
                Err(e) => {
                    return Err(e);
                },
            },
            None => {
                return Err(DecodeError::Invalid);
            },
        };
        Ok(JoinEvent { url, redirect, params, session, static_token })
    }
}

} // verus!
