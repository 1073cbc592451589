use base64::Engine;
use hmac::Mac;
use live_view::session::LiveViewManagerResult;
use jwt::SignWithKey;
use live_view::builder::RenderedBuilder;
use live_view::csrf::{check_join_token, mask_with, CsrfToken};
use live_view::json::Json;
use live_view::rendered::{Dynamic, Dynamics, Rendered};
use live_view::session::{
    event_reply, join_reply, route, EventHandlerError, EventList, LiveView, LiveViewMaudError,
    LiveViewSession, SessionState,
};
use live_view::socket::{
    handle_message_decision, wait_for_join_step, DecodeError, Event, JoinEvent, JoinEventParams,
    Message, MessageAction, ProtocolEvent, SocketMessage, Status, WaitDecision,
};
use live_view::template::TemplateProcess;

fn txt(s: &str) -> Json {
    Json::Text(s.to_string())
}

fn obj(entries: Vec<(&str, Json)>) -> Json {
    Json::Obj(entries.into_iter().map(|(k, v)| (k.to_string(), v)).collect())
}

struct Counter {
    count: u64,
}

struct CounterEvents;

impl EventList<Counter> for CounterEvents {
    fn handle_event(
        state: &mut Counter,
        event: Event,
    ) -> Result<bool, live_view::session::DeserializeEventError> {
        if event.name == "incr" {
            state.count += 1;
            Ok(true)
        } else {
            Ok(false)
        }
    }
}

impl LiveView for Counter {
    type Events = CounterEvents;

    fn render(&self) -> Rendered {
        let mut b = RenderedBuilder::new();
        b.push_static("Count is ");
        b.push_dynamic(self.count.to_string());
        b.build()
    }
}

fn secret() -> Vec<u8> {
    b"liveview-debug-secret-csrf-token".to_vec()
}

fn signed_session(secret: &[u8], csrf_token: &str) -> String {
    let key: hmac::Hmac<sha2::Sha256> = hmac::Hmac::new_from_slice(secret).unwrap();
    let mut claims = std::collections::BTreeMap::new();
    claims.insert("csrf_token".to_string(), csrf_token.to_string());
    claims.sign_with_key(&key).unwrap()
}

fn join_event(session: String, csrf_token: &str) -> JoinEvent {
    JoinEvent {
        url: Some("http://localhost/".to_string()),
        redirect: None,
        params: JoinEventParams {
            csrf_token: csrf_token.to_string(),
            mounts: 0,
            track_static: vec![],
        },
        session,
        static_token: None,
    }
}

#[test]
fn join_with_wrong_token_is_fatal() {
    let secret = secret();
    let good = signed_session(&secret, "expected-token");
    let join = join_event(good, "some-other-token");
    let mut session: LiveViewSession<Counter> = LiveViewSession::new();
    let r = session.verify_join(&join, &secret);
    assert_eq!(r, Err(LiveViewMaudError::InvalidCsrfToken));
    assert_eq!(session.state, SessionState::Closed);
    assert!(session.last_render.is_none());
}

#[test]
fn join_with_unsigned_token_is_fatal() {
    let secret = secret();
    let join = join_event("not-a-signed-token".to_string(), "tok");
    let mut session: LiveViewSession<Counter> = LiveViewSession::new();
    let r = session.verify_join(&join, &secret);
    assert_eq!(r, Err(LiveViewMaudError::InvalidCsrfToken));
    assert_eq!(session.state, SessionState::Closed);
}

#[test]
fn join_without_url_is_fatal() {
    let secret = secret();
    let good = signed_session(&secret, "tok");
    let mut join = join_event(good, "tok");
    join.url = None;
    join.redirect = None;
    let mut session: LiveViewSession<Counter> = LiveViewSession::new();
    let r = session.verify_join(&join, &secret);
    assert_eq!(r, Err(LiveViewMaudError::MissingUrl));
    assert_eq!(session.state, SessionState::Closed);
}

#[test]
fn join_with_matching_token_succeeds() {
    let secret = secret();
    let good = signed_session(&secret, "tok");
    let join = join_event(good, "tok");
    let mut session: LiveViewSession<Counter> = LiveViewSession::new();
    let r = session.verify_join(&join, &secret);
    assert_eq!(r, Ok(()));
    assert_eq!(session.state, SessionState::AwaitingJoin);

    let reply = session.complete_join(Counter { count: 0 });
    assert_eq!(session.state, SessionState::Joined);
    assert_eq!(
        reply,
        obj(vec![
            ("s", Json::Arr(vec![txt("Count is "), txt("")])),
            ("0", txt("0")),
        ])
    );
    assert_eq!(
        join_reply(reply),
        obj(vec![(
            "rendered",
            obj(vec![
                ("s", Json::Arr(vec![txt("Count is "), txt("")])),
                ("0", txt("0")),
            ]),
        )])
    );
}

fn joined_session() -> LiveViewSession<Counter> {
    let secret = secret();
    let good = signed_session(&secret, "tok");
    let join = join_event(good, "tok");
    let mut session: LiveViewSession<Counter> = LiveViewSession::new();
    session.verify_join(&join, &secret).unwrap();
    session.complete_join(Counter { count: 0 });
    session
}

#[test]
fn heartbeat_leaves_session_untouched() {
    let session = joined_session();
    let ack = session.heartbeat();
    assert_eq!(ack, obj(vec![]));
    assert_eq!(session.state, SessionState::Joined);
    assert_eq!(session.app.as_ref().unwrap().count, 0);
    let expected_render = Counter { count: 0 }.render();
    assert_eq!(session.last_render.as_ref().unwrap(), &expected_render);
    let mut msg = Message {
        ref1: Some("1".to_string()),
        ref2: None,
        topic: "lv:topic".to_string(),
        event: ProtocolEvent::Heartbeat,
        payload: Json::Null,
    };
    msg.reply_ok(ack);
    assert_eq!(msg.event, ProtocolEvent::Reply);
    assert_eq!(
        msg.payload,
        obj(vec![("status", txt("ok")), ("response", obj(vec![]))])
    );
}

#[test]
fn unknown_event_is_nonfatal() {
    let mut session = joined_session();
    let event = Event {
        name: "does-not-exist".to_string(),
        ty: "json".to_string(),
        value: Json::Null,
    };
    let r = session.handle_event(event);
    assert_eq!(r, Err(EventHandlerError::UnknownEvent));
    assert_eq!(session.state, SessionState::Joined);
    assert_eq!(session.app.as_ref().unwrap().count, 0);
    let expected_render = Counter { count: 0 }.render();
    assert_eq!(session.last_render.as_ref().unwrap(), &expected_render);
    assert_eq!(
        EventHandlerError::UnknownEvent.message(),
        "unknown event".to_string()
    );
}

#[test]
fn handled_event_replies_with_diff() {
    let mut session = joined_session();
    let event = Event {
        name: "incr".to_string(),
        ty: "json".to_string(),
        value: Json::Null,
    };
    let r = session.handle_event(event);
    assert_eq!(r, Ok(Some(obj(vec![("0", txt("1"))]))));
    assert_eq!(session.app.as_ref().unwrap().count, 1);
    assert_eq!(
        event_reply(Some(obj(vec![("0", txt("1"))]))),
        obj(vec![("diff", obj(vec![("0", txt("1"))]))])
    );
    assert_eq!(event_reply(None), obj(vec![]));
}

#[test]
fn wait_for_join_decisions() {
    let msg = |event: ProtocolEvent| {
        SocketMessage::Event(Message {
            ref1: None,
            ref2: None,
            topic: "lv:topic".to_string(),
            event,
            payload: Json::Null,
        })
    };
    assert_eq!(wait_for_join_step(&msg(ProtocolEvent::Join)), WaitDecision::Accept);
    assert_eq!(wait_for_join_step(&msg(ProtocolEvent::Close)), WaitDecision::Terminate);
    assert_eq!(wait_for_join_step(&msg(ProtocolEvent::Leave)), WaitDecision::Terminate);
    assert_eq!(wait_for_join_step(&SocketMessage::Close), WaitDecision::Terminate);
    assert_eq!(wait_for_join_step(&msg(ProtocolEvent::Heartbeat)), WaitDecision::Ignore);
    assert_eq!(wait_for_join_step(&SocketMessage::Ping(vec![1])), WaitDecision::Ignore);
    assert_eq!(wait_for_join_step(&SocketMessage::Pong(vec![2])), WaitDecision::Ignore);
}

#[test]
fn handle_message_decisions() {
    assert_eq!(handle_message_decision(ProtocolEvent::Close), MessageAction::Stop);
    assert_eq!(handle_message_decision(ProtocolEvent::Join), MessageAction::Stop);
    assert_eq!(handle_message_decision(ProtocolEvent::Leave), MessageAction::Stop);
    assert_eq!(handle_message_decision(ProtocolEvent::Diff), MessageAction::Continue);
    assert_eq!(handle_message_decision(ProtocolEvent::Error), MessageAction::Continue);
    assert_eq!(handle_message_decision(ProtocolEvent::Reply), MessageAction::Continue);
    assert_eq!(
        handle_message_decision(ProtocolEvent::Event),
        MessageAction::DispatchEvent
    );
    assert_eq!(
        handle_message_decision(ProtocolEvent::Heartbeat),
        MessageAction::ReplyHeartbeat
    );
}

#[test]
fn protocol_tags() {
    assert_eq!(ProtocolEvent::Close.tag(), "phx_close");
    assert_eq!(ProtocolEvent::Diff.tag(), "diff");
    assert_eq!(ProtocolEvent::Error.tag(), "phx_error");
    assert_eq!(ProtocolEvent::Event.tag(), "event");
    assert_eq!(ProtocolEvent::Heartbeat.tag(), "heartbeat");
    assert_eq!(ProtocolEvent::Join.tag(), "phx_join");
    assert_eq!(ProtocolEvent::Leave.tag(), "phx_leave");
    assert_eq!(ProtocolEvent::Reply.tag(), "phx_reply");
    assert_eq!(Status::Okay.tag(), "ok");
    assert_eq!(Status::Error.tag(), "error");
}

#[test]
fn take_event_parses_payload() {
    let mut msg = Message {
        ref1: None,
        ref2: None,
        topic: "lv:topic".to_string(),
        event: ProtocolEvent::Event,
        payload: obj(vec![
            ("event", txt("incr")),
            ("type", txt("json")),
            ("value", obj(vec![("n", Json::Num(2))])),
        ]),
    };
    let event = msg.take_event().unwrap();
    assert_eq!(event.name, "incr");
    assert_eq!(event.ty, "json");
    assert_eq!(event.value, obj(vec![("n", Json::Num(2))]));
    assert_eq!(msg.payload, Json::Null);

    let mut bad = Message {
        ref1: None,
        ref2: None,
        topic: "lv:topic".to_string(),
        event: ProtocolEvent::Event,
        payload: obj(vec![("event", txt("incr"))]),
    };
    assert_eq!(bad.take_event(), Err(DecodeError::Invalid));

    let mut not_obj = Message {
        ref1: None,
        ref2: None,
        topic: "lv:topic".to_string(),
        event: ProtocolEvent::Event,
        payload: txt("nope"),
    };
    assert_eq!(not_obj.take_event(), Err(DecodeError::Invalid));
}

#[test]
fn take_join_event_parses_payload() {
    let mut msg = Message {
        ref1: None,
        ref2: None,
        topic: "lv:topic".to_string(),
        event: ProtocolEvent::Join,
        payload: obj(vec![
            ("url", txt("http://localhost/")),
            (
                "params",
                obj(vec![
                    ("_csrf_token", txt("tok")),
                    ("_mounts", Json::Num(1)),
                    ("_track_static", Json::Arr(vec![txt("app.css")])),
                ]),
            ),
            ("session", txt("signed")),
            ("static", Json::Null),
        ]),
    };
    let join = msg.take_join_event().unwrap();
    assert_eq!(join.url.as_deref(), Some("http://localhost/"));
    assert_eq!(join.redirect, None);
    assert_eq!(join.params.csrf_token, "tok");
    assert_eq!(join.params.mounts, 1);
    assert_eq!(join.params.track_static, vec!["app.css".to_string()]);
    assert_eq!(join.session, "signed");
    assert_eq!(join.static_token, None);
    assert_eq!(join.url(), Some(&"http://localhost/".to_string()));

    let mut missing_params = Message {
        ref1: None,
        ref2: None,
        topic: "lv:topic".to_string(),
        event: ProtocolEvent::Join,
        payload: obj(vec![("session", txt("signed"))]),
    };
    assert_eq!(missing_params.take_join_event(), Err(DecodeError::Invalid));
}

#[test]
fn join_url_falls_back_to_redirect() {
    let mut join = join_event("s".to_string(), "tok");
    join.url = None;
    join.redirect = Some("http://fallback/".to_string());
    assert_eq!(join.url(), Some(&"http://fallback/".to_string()));
}

#[test]
fn route_picks_first_match() {
    let registered = vec!["incr".to_string(), "decr".to_string(), "incr".to_string()];
    assert_eq!(route(&registered, &"incr".to_string()), Some(0));
    assert_eq!(route(&registered, &"decr".to_string()), Some(1));
    assert_eq!(route(&registered, &"reset".to_string()), None);
}

#[test]
fn check_join_token_matches_real_signature() {
    let secret = secret();
    let session = signed_session(&secret, "the-token");
    assert!(check_join_token(&secret, &session, &"the-token".to_string()));
    assert!(!check_join_token(&secret, &session, &"another".to_string()));
    let other_secret = b"another-secret".to_vec();
    assert!(!check_join_token(&other_secret, &session, &"the-token".to_string()));
}

#[test]
fn masking_combines_and_reencodes() {
    let masked = mask_with("ab", "cd");
    let expected_prefix =
        base64::engine::general_purpose::URL_SAFE.encode([b'a' & b'c', b'b' & b'd']);
    assert_eq!(masked, format!("{}cd", expected_prefix));
    assert_ne!(masked, "ab");
}

#[test]
fn generated_token_shape() {
    let token = CsrfToken::generate();
    assert_eq!(token.unmasked.len(), 24);
    assert_eq!(token.masked.len(), 56);
    assert_ne!(token.masked, token.unmasked);
}

#[test]
fn template_render_splices_tokens() {
    let t = TemplateProcess {
        html_parts: [
            "<html><head>".to_string(),
            "</head><body>".to_string(),
            "</body></html>".to_string(),
        ],
    };
    let page = t.render("CSRF", "SESSION", "ID", "Hello");
    assert_eq!(
        page,
        "<html><head><meta name=\"csrf-token\" content=\"CSRF\" /></head><body>\
         <div data-phx-main=\"true\" data-phx-static=\"\" data-phx-session=SESSION id=ID>\
         Hello</div></body></html>"
    );
}

#[test]
fn manager_result_collapses() {
    let ok: LiveViewManagerResult<u32, String> = LiveViewManagerResult::Okay(3);
    assert_eq!(ok.into_result(), Ok(3));
    let err: LiveViewManagerResult<u32, String> =
        LiveViewManagerResult::Error("bad".to_string());
    assert_eq!(err.into_result(), Err("bad".to_string()));
    let fatal: LiveViewManagerResult<u32, String> =
        LiveViewManagerResult::FatalError("worse".to_string());
    assert_eq!(fatal.into_result(), Err("worse".to_string()));
}
