//! One connection of the server: a session and its place in the hub.
//!
//! A `Connection` carries out on the hub what its session decides, and
//! leaves to the caller only what touches the socket.

use crate::hub::{published, Hub, Pending, Subscription};
use crate::session::{step, Action, ActionView, Event, EventView, Session, SessionView};
use crate::wire::MessageView;
use vstd::prelude::*;

verus! {

/// What the caller has to do after a connection has handled an event.
#[derive(Debug, PartialEq, Eq)]
pub enum Output {
    /// Nothing.
    Nothing,
    /// Write these characters to the client's socket, then report how the
    /// write ended.
    Write(String),
    /// A message went to the hub: let the other connections know that
    /// there is something to receive.
    Published,
    /// Close the socket. The place in the hub is already given up. If
    /// `announce`, say on the server's own output that the user has left.
    Close { announce: bool },
}

/// What an `Output` stands for in contracts.
pub ghost enum OutputView {
    Nothing,
    Write(Seq<char>),
    Published,
    Close { announce: bool },
}

impl View for Output {
    type V = OutputView;

    open spec fn view(&self) -> OutputView {
        match self {
            Output::Nothing => OutputView::Nothing,
            Output::Write(text) => OutputView::Write(text@),
            Output::Published => OutputView::Published,
            Output::Close { announce } => OutputView::Close { announce: *announce },
        }
    }
}

/// A session together with its place in the hub, which it holds until the
/// session is over.
pub struct Connection {
    session: Session,
    place: Option<Subscription>,
}

/// What a `Connection` stands for in contracts.
pub ghost struct ConnectionView {
    pub session: SessionView,
    pub place: Option<int>,
}

impl View for Connection {
    type V = ConnectionView;

    closed spec fn view(&self) -> ConnectionView {
        ConnectionView {
            session: self.session@,
            place: match self.place {
                Some(place) => Some(place@),
                None => None,
            },
        }
    }
}

/// What the caller is asked to do for `action`.
pub open spec fn output_of(action: ActionView) -> OutputView {
    match action {
        ActionView::Idle => OutputView::Nothing,
        ActionView::Send(text) => OutputView::Write(text),
        ActionView::Publish(_) => OutputView::Published,
        ActionView::Close { announce } => OutputView::Close { announce },
    }
}

/// What `action` does to the hub: a message that is published goes to
/// every subscription, and nothing else changes anything.
pub open spec fn hub_after(hub: Pending, action: ActionView) -> Pending {
    match action {
        ActionView::Publish(m) => published(hub, m),
        _ => hub,
    }
}

/// How many messages at the front of `pending` are `username`'s own.
pub open spec fn own_run(username: Seq<char>, pending: Seq<MessageView>) -> int
    decreases pending.len(),
{
    if pending.len() > 0 && pending[0].sender == username {
        1 + own_run(username, pending.drop_first())
    } else {
        0
    }
}

/// What the hub has for an active connection that asks: the text of the
/// oldest pending message that somebody else sent, and the hub with that
/// message and the connection's own before it taken off. A connection that
/// is not active, or has no place in the hub, gets nothing and changes
/// nothing.
pub open spec fn delivery(hub: Pending, c: ConnectionView) -> (Option<Seq<char>>, Pending) {
    if c.session is Active && c.place is Some && hub.dom().contains(c.place->0) {
        let k = c.place->0;
        let pending = hub[k];
        let own = own_run(c.session->Active_username, pending);
        if own < pending.len() {
            (Some(pending[own].text), hub.insert(k, pending.skip(own + 1)))
        } else {
            (None, hub.insert(k, Seq::empty()))
        }
    } else {
        (None, hub)
    }
}

/// If the first `n` of `pending` are `username`'s own and the next is not,
/// or there is no next, then `n` is the length of the run of its own.
proof fn lemma_own_run(username: Seq<char>, pending: Seq<MessageView>, n: int)
    requires
        0 <= n <= pending.len(),
        forall|i: int| 0 <= i < n ==> (#[trigger] pending[i]).sender == username,
        n < pending.len() ==> pending[n].sender != username,
    ensures
        own_run(username, pending) == n,
    decreases n,
{
    if n > 0 {
        let rest = pending.drop_first();
        assert forall|i: int| 0 <= i < n - 1 implies (#[trigger] rest[i]).sender == username by {
            assert(rest[i] == pending[i + 1]);
        }
        if n - 1 < rest.len() {
            assert(rest[n - 1] == pending[n]);
        }
        lemma_own_run(username, rest, n - 1);
        assert(pending[0].sender == username);
    }
}

impl Connection {
    /// Opens the connection for a socket that was just accepted: a new
    /// session, subscribed to `hub` from now on.
    pub fn open(hub: &mut Hub) -> (connection: Connection)
        ensures
            connection@.session == SessionView::Accepted,
            connection@.place is Some,
            !old(hub)@.dom().contains(connection@.place->0),
            final(hub)@ == old(hub)@.insert(connection@.place->0, Seq::empty()),
    {
        let place = hub.subscribe();
        Connection { session: Session::new(), place: Some(place) }
    }

    /// Takes `event` into account: lets the session decide, publishes to
    /// `hub` what the session publishes, gives up the place in `hub` when
    /// the session is over, and says what is left for the caller to do.
    pub fn handle(&mut self, hub: &mut Hub, event: Event) -> (output: Output)
        ensures
            final(self)@.session == step(old(self)@.session, event@).0,
            output@ == output_of(step(old(self)@.session, event@).1),
            final(self)@.session is Closed ==> final(self)@.place is None,
            !(final(self)@.session is Closed) ==> final(self)@.place == old(self)@.place,
            final(hub)@ == (if final(self)@.session is Closed && old(self)@.place is Some {
                old(hub)@.remove(old(self)@.place->0)
            } else {
                hub_after(old(hub)@, step(old(self)@.session, event@).1)
            }),
    {
        let action = self.session.step(event);
        let output = match action {
            Action::Idle => Output::Nothing,
            Action::Send(text) => Output::Write(text),
            Action::Publish(m) => {
                hub.publish(m);
                Output::Published
            },
            Action::Close { announce } => Output::Close { announce },
        };
        if self.session.is_closed() {
            match self.place.take() {
                Some(place) => {
                    hub.unsubscribe(place);
                },
                None => {},
            }
        }
        output
    }

    /// Takes from `hub` the next message to pass on to the client, if the
    /// connection is active and there is one, and hands out its text to
    /// write to the socket. What the client itself said is taken off the
    /// hub on the way and never handed out.
    pub fn next_delivery(&mut self, hub: &mut Hub) -> (text: Option<String>)
        ensures
            final(self)@ == old(self)@,
            match text {
                Some(t) => Some(t@),
                None => None,
            } == delivery(old(hub)@, old(self)@).0,
            final(hub)@ == delivery(old(hub)@, old(self)@).1,
    {
        if !self.session.is_active() {
            return None;
        }
        let place = match &self.place {
            Some(place) => place,
            None => {
                return None;
            },
        };
        let ghost before = hub@;
        let ghost k = place@;
        let ghost known = before.dom().contains(k);
        let ghost pending = before[k];
        let ghost username = self.session@->Active_username;
        let ghost taken: int = 0;
        assert(pending.skip(0) =~= pending);
        assert(known ==> before =~= before.insert(k, pending.skip(0)));
        loop
            invariant
                self@ == old(self)@,
                self@.session == (SessionView::Active { username }),
                self@.place == Some(k),
                place@ == k,
                before == old(hub)@,
                known == before.dom().contains(k),
                pending == before[k],
                !known ==> hub@ == before,
                known ==> 0 <= taken <= pending.len(),
                known ==> hub@ == before.insert(k, pending.skip(taken)),
                forall|i: int| 0 <= i < taken ==> (#[trigger] pending[i]).sender == username,
            decreases
                    (if hub@.dom().contains(k) {
                        hub@[k].len()
                    } else {
                        0
                    }),
        {
            match hub.receive(place) {
                None => {
                    proof {
                        if known {
                            assert(pending.skip(taken).len() == 0);
                            lemma_own_run(username, pending, taken);
                            assert(pending.skip(taken) =~= Seq::<MessageView>::empty());
                        }
                    }
                    return None;
                },
                Some(m) => {
                    proof {
                        assert(pending.skip(taken).first() == pending[taken]);
                        assert(pending.skip(taken).drop_first() =~= pending.skip(taken + 1));
                        assert(hub@ =~= before.insert(k, pending.skip(taken + 1)));
                    }
                    match self.session.step(Event::Delivery(m)) {
                        Action::Send(text) => {
                            proof {
                                lemma_own_run(username, pending, taken);
                            }
                            return Some(text);
                        },
                        _ => {
                            proof {
                                taken = taken + 1;
                            }
                        },
                    }
                },
            }
        }
    }

    /// Whether the hub has anything for the connection to take: whether it
    /// is active and its place has a message pending, its own or another's.
    pub fn has_pending(&self, hub: &Hub) -> (b: bool)
        ensures
            b == (self@.session is Active && self@.place is Some && hub@.dom().contains(
                self@.place->0,
            ) && hub@[self@.place->0].len() > 0),
    {
        if !self.session.is_active() {
            return false;
        }
        match &self.place {
            Some(place) => hub.backlog(place) > 0,
            None => false,
        }
    }

    /// The client's name, once it is known and for as long as the session
    /// lasts.
    pub fn username(&self) -> (name: Option<&str>)
        ensures
            match name {
                Some(n) => self@.session == (SessionView::Named { username: n@ }) || self@.session
                    == (SessionView::Active { username: n@ }),
                None => self@.session is Accepted || self@.session is Closed,
            },
    {
        self.session.username()
    }

    /// Whether the connection takes messages from the hub.
    pub fn is_active(&self) -> (b: bool)
        ensures
            b == (self@.session is Active),
    {
        self.session.is_active()
    }

    /// Whether the connection is over.
    pub fn is_closed(&self) -> (b: bool)
        ensures
            b == (self@.session is Closed),
    {
        self.session.is_closed()
    }
}

} // verus!
