//! The per-connection session: the live view traits, the event router, and
//! the protocol state machine that decides when to render and diff.

use vstd::prelude::*;

use crate::encode::{spec_encode, spec_rendered_diff};
use crate::json::Json;
use crate::rendered::Rendered;
use crate::socket::{Event, JoinEvent};

verus! {

/// A live view: an application state that renders itself to a tree.
///
/// Implemented by the application; nothing is assumed of its behaviour.
pub trait LiveView: Sized {
    /// The closed list of events registered with this live view.
    type Events: EventList<Self>;

    /// Renders the current state as a tree.
    fn render(&self) -> Rendered;
}

/// A handler for one event type of a live view.
pub trait LiveViewEvent<E> {
    /// Handles the event, mutating the application state.
    fn handle(state: &mut Self, event: E);
}

/// Routes an incoming client event to the registered handler list.
pub trait EventList<T> {
    /// Handles an event; the result says whether any handler matched.
    fn handle_event(state: &mut T, event: Event) -> Result<bool, DeserializeEventError>;
}

impl<T> EventList<T> for () {
    /// The empty list matches nothing.
    fn handle_event(_state: &mut T, _event: Event) -> Result<bool, DeserializeEventError> {
        Ok(false)
    }
}

/// Failure to decode an event payload for its handler.
#[derive(Debug, PartialEq, Eq)]
pub enum DeserializeEventError {
    /// A form-encoded value could not be decoded.
    Form(String),
    /// A JSON value could not be decoded.
    Json(String),
}

/// An error while handling a message for a session.
#[derive(Debug, PartialEq, Eq)]
pub enum EventHandlerError {
    /// The event payload could not be decoded for its handler.
    DeserializeEvent,
    /// An outgoing event could not be encoded.
    SerializeEvent,
    /// The manager failed.
    ManagerError(String),
    /// No session was mounted yet.
    NotMounted,
    /// The transport failed.
    SocketError(String),
    /// No registered handler matches the event's name.
    UnknownEvent,
}

impl EventHandlerError {
    /// A human-readable description.
    pub fn message(self) -> (r: String)
        ensures
            match self {
                EventHandlerError::DeserializeEvent => r@ == "deserialize event failed"@,
                EventHandlerError::SerializeEvent => r@ == "serialize event failed"@,
                EventHandlerError::ManagerError(s) => r@ == "manager error: "@ + s@,
                EventHandlerError::NotMounted => r@ == "not mounted"@,
                EventHandlerError::SocketError(s) => r@ == "socket error: "@ + s@,
                EventHandlerError::UnknownEvent => r@ == "unknown event"@,
            },
    {
        match self {
            EventHandlerError::DeserializeEvent => "deserialize event failed".to_owned(),
            EventHandlerError::SerializeEvent => "serialize event failed".to_owned(),
            EventHandlerError::ManagerError(s) => "manager error: ".to_owned().concat(s.as_str()),
            EventHandlerError::NotMounted => "not mounted".to_owned(),
            EventHandlerError::SocketError(s) => "socket error: ".to_owned().concat(s.as_str()),
            EventHandlerError::UnknownEvent => "unknown event".to_owned(),
        }
    }
}

/// A fatal error while establishing a session.
#[derive(Debug, Clone, Copy, PartialEq, Eq, Structural)]
pub enum LiveViewMaudError {
    /// The anti-forgery token does not match the signed session token.
    InvalidCsrfToken,
    /// The join address could not be parsed.
    InvalidUrl,
    /// The join payload names no address.
    MissingUrl,
}

impl LiveViewMaudError {
    /// A human-readable description.
    pub fn message(self) -> (r: String)
        ensures
            match self {
                LiveViewMaudError::InvalidCsrfToken => r@ == "invalid csrf token"@,
                LiveViewMaudError::InvalidUrl => r@ == "invalid url"@,
                LiveViewMaudError::MissingUrl => r@ == "missing url"@,
            },
    {
        match self {
            LiveViewMaudError::InvalidCsrfToken => "invalid csrf token".to_owned(),
            LiveViewMaudError::InvalidUrl => "invalid url".to_owned(),
            LiveViewMaudError::MissingUrl => "missing url".to_owned(),
        }
    }
}

/// A manager's reply: success, a recoverable error reported to the one
/// client, or a fatal error that closes the connection.
#[derive(Debug, PartialEq, Eq)]
pub enum LiveViewManagerResult<T, E> {
    /// Success.
    Okay(T),
    /// A recoverable error: reply and keep the session.
    Error(E),
    /// A fatal error: close the connection.
    FatalError(E),
}

impl<T, E> LiveViewManagerResult<T, E> {
    /// Collapses the two error flavours into one.
    pub fn into_result(self) -> (r: Result<T, E>)
        ensures
            match self {
                LiveViewManagerResult::Okay(v) => r == Result::<T, E>::Ok(v),
                LiveViewManagerResult::Error(e) => r == Result::<T, E>::Err(e),
                LiveViewManagerResult::FatalError(e) => r == Result::<T, E>::Err(e),
            },
    {
        match self {
            LiveViewManagerResult::Okay(value) => Ok(value),
            LiveViewManagerResult::Error(err) => Err(err),
            LiveViewManagerResult::FatalError(err) => Err(err),
        }
    }
}

/// Routes an event name to the first registered handler with that name.
pub fn route(registered: &Vec<String>, name: &String) -> (r: Option<usize>)
    ensures
        match r {
            Some(i) => i < registered@.len() && registered@[i as int]@ == name@ && forall|j: int|
                0 <= j < i ==> registered@[j]@ != name@,
            None => forall|j: int| 0 <= j < registered@.len() ==> registered@[j]@ != name@,
        },
{
    let n = registered.len();
    let mut i: usize = 0;
    while i < n
        invariant
            i <= n,
            n == registered@.len(),
            forall|j: int| 0 <= j < i ==> registered@[j]@ != name@,
        decreases n - i,
    {
        if registered[i].eq(name) {
            return Some(i);
        }
        i = i + 1;
    }
    None
}

/// The lifecycle of a session.
#[derive(Debug, Clone, Copy, PartialEq, Eq, Structural)]
pub enum SessionState {
    /// Connected; only a join advances.
    AwaitingJoin,
    /// Joined; events are dispatched.
    Joined,
    /// Terminal.
    Closed,
}

/// The per-connection state machine: the application state and the last
/// rendered tree, owned by exactly one connection.
pub struct LiveViewSession<T> {
    /// Where the session stands in its lifecycle.
    pub state: SessionState,
    /// The mounted application state, once joined.
    pub app: Option<T>,
    /// The last tree sent to the client, once joined.
    pub last_render: Option<Rendered>,
}

impl<T: LiveView> LiveViewSession<T> {
    /// A fresh session awaiting its join.
    pub fn new() -> (r: LiveViewSession<T>)
        ensures
            r.state == SessionState::AwaitingJoin,
            r.app is None,
            r.last_render is None,
    {
        LiveViewSession { state: SessionState::AwaitingJoin, app: None, last_render: None }
    }

    /// Verifies a join request: the anti-forgery token must match the
    /// claim of the signed session token, and the payload must name an
    /// address. A failure is fatal and closes the session without a reply.
    pub fn verify_join(&mut self, join: &JoinEvent, secret: &Vec<u8>) -> (r: Result<
        (),
        LiveViewMaudError,
    >)
        requires
            old(self).state == SessionState::AwaitingJoin,
        ensures
            final(self).app == old(self).app,
            final(self).last_render == old(self).last_render,
            r == Result::<(), LiveViewMaudError>::Err(LiveViewMaudError::InvalidCsrfToken)
                <==> crate::csrf::session_claim_of(secret@, join.session@) != Some(
                join.params.csrf_token@,
            ),
            r == Result::<(), LiveViewMaudError>::Err(LiveViewMaudError::MissingUrl) <==> (
            crate::csrf::session_claim_of(secret@, join.session@) == Some(
                join.params.csrf_token@,
            ) && join.url is None && join.redirect is None),
            r is Ok <==> (crate::csrf::session_claim_of(secret@, join.session@) == Some(
                join.params.csrf_token@,
            ) && !(join.url is None && join.redirect is None)),
            final(self).state == if r is Ok {
                SessionState::AwaitingJoin
            } else {
                SessionState::Closed
            },
    {
        if !crate::csrf::check_join_token(secret, &join.session, &join.params.csrf_token) {
            self.state = SessionState::Closed;
            return Err(LiveViewMaudError::InvalidCsrfToken);
        }
        match join.url() {
            Some(_) => Ok(()),
            None => {
                self.state = SessionState::Closed;
                Err(LiveViewMaudError::MissingUrl)
            },
        }
    }

    /// Closes the session on a fatal error outside this machine, such as
    /// an unparsable join address.
    pub fn fail_join(&mut self)
        ensures
            final(self).state == SessionState::Closed,
            final(self).app == old(self).app,
            final(self).last_render == old(self).last_render,
    {
        self.state = SessionState::Closed;
    }

    /// Completes a verified join: stores the mounted application state,
    /// renders it once, stores the tree, and returns its full encoding as
    /// the reply.
    pub fn complete_join(&mut self, app: T) -> (r: Json)
        requires
            old(self).state == SessionState::AwaitingJoin,
        ensures
            final(self).state == SessionState::Joined,
            final(self).app is Some,
            final(self).last_render is Some,
            r.deep_view() == spec_encode(final(self).last_render->0.deep_view()),
    {
        let rendered = app.render();
        let reply = rendered.into_json();
        self.last_render = Some(rendered);
        self.app = Some(app);
        self.state = SessionState::Joined;
        reply
    }

    /// Acknowledges a heartbeat: the reply is an empty object, and the
    /// session is untouched — this method only reads it.
    pub fn heartbeat(&self) -> (r: Json)
        ensures
            r.deep_view() == crate::json::JsonV::Obj(Seq::empty()),
    {
        crate::socket::empty_obj()
    }

    /// Finishes an event after its dispatch: the routing outcome alone
    /// decides the reply. A handled event re-renders, diffs against the
    /// stored tree, replaces it, and returns the patch; an unmatched name
    /// or an undecodable value is a non-fatal error that leaves the stored
    /// tree alone.
    pub fn finish_event(&mut self, handled: Result<bool, DeserializeEventError>) -> (r: Result<
        Option<Json>,
        EventHandlerError,
    >)
        requires
            old(self).state == SessionState::Joined,
            old(self).app is Some,
            old(self).last_render is Some,
        ensures
            final(self).state == SessionState::Joined,
            final(self).app == old(self).app,
            final(self).last_render is Some,
            match handled {
                Ok(true) => r matches Ok(d) && d.deep_view() == spec_rendered_diff(
                    old(self).last_render->0.deep_view(),
                    final(self).last_render->0.deep_view(),
                ),
                Ok(false) => r == Result::<Option<Json>, EventHandlerError>::Err(
                    EventHandlerError::UnknownEvent,
                ) && final(self).last_render == old(self).last_render,
                Err(_) => r == Result::<Option<Json>, EventHandlerError>::Err(
                    EventHandlerError::DeserializeEvent,
                ) && final(self).last_render == old(self).last_render,
            },
    {
        match handled {
            Ok(true) => {
                let app = self.app.take().unwrap();
                let new_render = app.render();
                let d = match &self.last_render {
                    Some(prev) => prev.diff(&new_render),
                    None => None,
                };
                self.last_render = Some(new_render);
                self.app = Some(app);
                Ok(d)
            },
            Ok(false) => Err(EventHandlerError::UnknownEvent),
            Err(_) => Err(EventHandlerError::DeserializeEvent),
        }
    }

    /// Dispatches a client event once joined: the event is routed to the
    /// registered handlers, and the outcome finished with
    /// [`LiveViewSession::finish_event`].
    pub fn handle_event(&mut self, event: Event) -> (r: Result<Option<Json>, EventHandlerError>)
        requires
            old(self).state == SessionState::Joined,
            old(self).app is Some,
            old(self).last_render is Some,
        ensures
            final(self).state == SessionState::Joined,
            final(self).app is Some,
            final(self).last_render is Some,
            r matches Err(e) ==> (e == EventHandlerError::UnknownEvent || e
                == EventHandlerError::DeserializeEvent) && final(self).last_render == old(
                self,
            ).last_render,
            r matches Ok(d) ==> d.deep_view() == spec_rendered_diff(
                old(self).last_render->0.deep_view(),
                final(self).last_render->0.deep_view(),
            ),
    {
        let mut app = self.app.take().unwrap();
        let handled = <T::Events as EventList<T>>::handle_event(&mut app, event);
        self.app = Some(app);
        self.finish_event(handled)
    }
}

/// The reply payload for a handled event: the patch under `"diff"`, or an
/// empty object when nothing visible changed.
pub fn event_reply(d: Option<Json>) -> (r: Json)
    ensures
        match d {
            Some(patch) => r.deep_view() == crate::json::JsonV::Obj(
                seq![("diff"@, crate::json::json_dv(patch))],
            ),
            None => r.deep_view() == crate::json::JsonV::Obj(Seq::empty()),
        },
{
    match d {
        Some(patch) => crate::socket::singleton_obj("diff", patch),
        None => crate::socket::empty_obj(),
    }
}

/// The reply payload for a completed join: the full encoding under
/// `"rendered"`.
pub fn join_reply(rendered: Json) -> (r: Json)
    ensures
        r.deep_view() == crate::json::JsonV::Obj(
            seq![("rendered"@, crate::json::json_dv(rendered))],
        ),
{
    crate::socket::singleton_obj("rendered", rendered)
}

} // verus!
