//! The server's side of one connection, as a state machine.
//!
//! A session learns its client's name from the first line, greets it, and
//! from then on publishes what the client says and passes on what the others
//! say. It performs no I/O itself: the caller reports each event and carries
//! out the action that `Session::step` answers with.

use crate::text::{trim, trimmed};
use crate::wire::{relay, relay_message, welcome, welcome_text};
use crate::wire::{Incoming, IncomingView, Message, MessageView};
use vstd::prelude::*;
use vstd::string::StringExecFns;

verus! {

/// Where a session stands.
#[derive(Debug, PartialEq, Eq)]
pub enum Session {
    /// The connection is open and the client has yet to say its name.
    Accepted,
    /// The name is known and the greeting is being written.
    Named { username: String },
    /// The client has been greeted and takes part in the chat.
    Active { username: String },
    /// The session is over.
    Closed,
}

/// What a `Session` stands for in contracts.
pub ghost enum SessionView {
    Accepted,
    Named { username: Seq<char> },
    Active { username: Seq<char> },
    Closed,
}

impl View for Session {
    type V = SessionView;

    open spec fn view(&self) -> SessionView {
        match self {
            Session::Accepted => SessionView::Accepted,
            Session::Named { username } => SessionView::Named { username: username@ },
            Session::Active { username } => SessionView::Active { username: username@ },
            Session::Closed => SessionView::Closed,
        }
    }
}

/// What happened on a session's connection or in the hub.
#[derive(Debug, PartialEq, Eq)]
pub enum Event {
    /// A read from the client's socket has ended.
    Inbound(Incoming),
    /// The hub has handed over a message.
    Delivery(Message),
    /// The write that the session asked for has ended: `true` if every byte
    /// went out.
    Written(bool),
}

/// What an `Event` stands for in contracts.
pub ghost enum EventView {
    Inbound(IncomingView),
    Delivery(MessageView),
    Written(bool),
}

impl View for Event {
    type V = EventView;

    open spec fn view(&self) -> EventView {
        match self {
            Event::Inbound(incoming) => EventView::Inbound(incoming@),
            Event::Delivery(m) => EventView::Delivery(m@),
            Event::Written(ok) => EventView::Written(*ok),
        }
    }
}

/// What a session asks its caller to do.
#[derive(Debug, PartialEq, Eq)]
pub enum Action {
    /// Nothing.
    Idle,
    /// Write these characters to the client's socket, then report how the
    /// write ended.
    Send(String),
    /// Publish this message to the hub.
    Publish(Message),
    /// Close the socket and release the hub subscription. A session that
    /// ends after the greeting is announced on the server's own output; one
    /// that ends before is not.
    Close { announce: bool },
}

/// What an `Action` stands for in contracts.
pub ghost enum ActionView {
    Idle,
    Send(Seq<char>),
    Publish(MessageView),
    Close { announce: bool },
}

impl View for Action {
    type V = ActionView;

    open spec fn view(&self) -> ActionView {
        match self {
            Action::Idle => ActionView::Idle,
            Action::Send(text) => ActionView::Send(text@),
            Action::Publish(m) => ActionView::Publish(m@),
            Action::Close { announce } => ActionView::Close { announce: *announce },
        }
    }
}

/// The session's rules: the state that follows `s` on `e`, and what the
/// session asks for.
///
/// The first line read is the client's name, with the whitespace around it
/// removed; a blank line gives the empty name, which is taken like any
/// other. The end of the input, or a failed read or write, ends the
/// session. An event that the state does not wait for changes nothing and
/// asks for nothing.
pub open spec fn step(s: SessionView, e: EventView) -> (SessionView, ActionView) {
    match (s, e) {
        (SessionView::Accepted, EventView::Inbound(IncomingView::Line(line))) => (
            SessionView::Named { username: trimmed(line) },
            ActionView::Send(welcome_text(trimmed(line))),
        ),
        (SessionView::Accepted, EventView::Inbound(_)) => (
            SessionView::Closed,
            ActionView::Close { announce: false },
        ),
        (SessionView::Named { username }, EventView::Written(true)) => (
            SessionView::Active { username },
            ActionView::Idle,
        ),
        (SessionView::Named { username }, EventView::Written(false)) => (
            SessionView::Closed,
            ActionView::Close { announce: false },
        ),
        (SessionView::Active { username }, EventView::Inbound(IncomingView::Line(line))) => (
            s,
            if trimmed(line).len() > 0 {
                ActionView::Publish(relay_message(username, trimmed(line)))
            } else {
                ActionView::Idle
            },
        ),
        (SessionView::Active { username }, EventView::Inbound(_)) => (
            SessionView::Closed,
            ActionView::Close { announce: true },
        ),
        (SessionView::Active { username }, EventView::Delivery(m)) => (
            s,
            if m.sender != username {
                ActionView::Send(m.text)
            } else {
                ActionView::Idle
            },
        ),
        (SessionView::Active { username }, EventView::Written(false)) => (
            SessionView::Closed,
            ActionView::Close { announce: true },
        ),
        _ => (s, ActionView::Idle),
    }
}

impl Session {
    /// The session of a connection that was just accepted.
    pub fn new() -> (session: Session)
        ensures
            session@ == SessionView::Accepted,
    {
        Session::Accepted
    }

    /// Takes `event` into account and says what to do about it.
    pub fn step(&mut self, event: Event) -> (action: Action)
        ensures
            (final(self)@, action@) == step(old(self)@, event@),
    {
        let mut state = Session::Closed;
        std::mem::swap(self, &mut state);
        let (next, action) = advance(state, event);
        *self = next;
        action
    }

    /// The client's name, once it is known and for as long as the session
    /// lasts.
    pub fn username(&self) -> (name: Option<&str>)
        ensures
            match name {
                Some(n) => self@ == (SessionView::Named { username: n@ }) || self@ == (
                SessionView::Active { username: n@ }),
                None => self@ is Accepted || self@ is Closed,
            },
    {
        match self {
            Session::Named { username } => Some(username.as_str()),
            Session::Active { username } => Some(username.as_str()),
            _ => None,
        }
    }

    /// Whether the session takes messages from the hub: only once the client
    /// has been greeted.
    pub fn is_active(&self) -> (b: bool)
        ensures
            b == (self@ is Active),
    {
        match self {
            Session::Active { .. } => true,
            _ => false,
        }
    }

    /// Whether the session is over.
    pub fn is_closed(&self) -> (b: bool)
        ensures
            b == (self@ is Closed),
    {
        match self {
            Session::Closed => true,
            _ => false,
        }
    }
}

/// The state and the action that follow `state` on `event`.
fn advance(state: Session, event: Event) -> (r: (Session, Action))
    ensures
        (r.0@, r.1@) == step(state@, event@),
{
    match state {
        Session::Accepted => match event {
            Event::Inbound(Incoming::Line(line)) => {
                let username = String::from_str(trim(line.as_str()));
                let greeting = welcome(username.as_str());
                (Session::Named { username }, Action::Send(greeting))
            },
            Event::Inbound(_) => (Session::Closed, Action::Close { announce: false }),
            _ => (Session::Accepted, Action::Idle),
        },
        Session::Named { username } => match event {
            Event::Written(true) => (Session::Active { username }, Action::Idle),
            Event::Written(false) => (Session::Closed, Action::Close { announce: false }),
            _ => (Session::Named { username }, Action::Idle),
        },
        Session::Active { username } => match event {
            Event::Inbound(Incoming::Line(line)) => {
                let body = trim(line.as_str());
                let action = if body.is_empty() {
                    Action::Idle
                } else {
                    Action::Publish(relay(username.as_str(), body))
                };
                (Session::Active { username }, action)
            },
            Event::Inbound(_) => (Session::Closed, Action::Close { announce: true }),
            Event::Delivery(m) => {
                let action = if m.sender == username {
                    Action::Idle
                } else {
                    Action::Send(m.text)
                };
                (Session::Active { username }, action)
            },
            Event::Written(false) => (Session::Closed, Action::Close { announce: true }),
            Event::Written(true) => (Session::Active { username }, Action::Idle),
        },
        Session::Closed => (Session::Closed, Action::Idle),
    }
}

} // verus!
