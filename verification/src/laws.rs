//! What holds of hub and sessions together, whatever the clients do.

use crate::client::{mentions, shown, DisplayView};
use crate::connection::{delivery, own_run, ConnectionView};
use crate::hub::{keep_last, published, published_all, within_capacity, Pending, CAPACITY};
use crate::session::{step, ActionView, EventView, SessionView};
use crate::text::{is_blank, is_tight, is_whitespace, trimmed};
use crate::text::{lemma_trimmed_blank, lemma_trimmed_is_tight, lemma_trimmed_padded};
use crate::wire::{framed, relay_message, relay_text, welcome_text, IncomingView, MessageView};
use vstd::prelude::*;

verus! {

/// Publishing does not change who is subscribed.
pub proof fn law_publishing_keeps_subscribers(p: Pending, ms: Seq<MessageView>)
    ensures
        published_all(p, ms).dom() == p.dom(),
    decreases ms.len(),
{
    if ms.len() > 0 {
        law_publishing_keeps_subscribers(p, ms.drop_last());
    }
    assert(published_all(p, ms).dom() =~= p.dom());
}

/// The capacity is fixed. Whatever was pending before, after a publish no
/// subscription has more than `CAPACITY` messages pending, and later
/// publishes keep it so.
pub proof fn law_capacity_is_kept(p: Pending, ms: Seq<MessageView>)
    requires
        within_capacity(p) || ms.len() > 0,
    ensures
        within_capacity(published_all(p, ms)),
    decreases ms.len(),
{
    if ms.len() > 1 {
        law_capacity_is_kept(p, ms.drop_last());
    }
}

/// The lag rule. After any run of publishes a subscription has pending what
/// it had before followed by what was published, in that order and each
/// message once; only if that is more than `CAPACITY` messages has it lost
/// the oldest of them.
pub proof fn law_hub_keeps_newest(p: Pending, ms: Seq<MessageView>, k: int)
    requires
        p.dom().contains(k),
        p[k].len() <= CAPACITY,
    ensures
        published_all(p, ms)[k] == keep_last(p[k] + ms, CAPACITY as int),
    decreases ms.len(),
{
    if ms.len() == 0 {
        assert(p[k] + ms =~= p[k]);
    } else {
        let front = ms.drop_last();
        law_hub_keeps_newest(p, front, k);
        law_publishing_keeps_subscribers(p, front);
        let all = p[k] + front;
        assert(all.push(ms.last()) =~= p[k] + ms);
        assert(keep_last(keep_last(all, CAPACITY as int).push(ms.last()), CAPACITY as int)
            =~= keep_last(all.push(ms.last()), CAPACITY as int));
    }
}

/// Fan-out. A subscription that has nothing pending when a run of no more
/// than `CAPACITY` publishes begins has exactly that run pending after it:
/// every message, once, in the order of publication.
pub proof fn law_fan_out(p: Pending, ms: Seq<MessageView>, k: int)
    requires
        p.dom().contains(k),
        p[k].len() == 0,
        ms.len() <= CAPACITY,
    ensures
        published_all(p, ms).dom().contains(k),
        published_all(p, ms)[k] == ms,
{
    law_hub_keeps_newest(p, ms, k);
    law_publishing_keeps_subscribers(p, ms);
    assert(p[k] + ms =~= ms);
}

/// Resilience. What a subscription receives depends on no other
/// subscription: whoever else has left, was never there or has stopped
/// reading, the same publishes leave it the same messages.
pub proof fn law_subscribers_are_isolated(p: Pending, q: Pending, ms: Seq<MessageView>, k: int)
    requires
        p.dom().contains(k),
        q.dom().contains(k),
        p[k] == q[k],
    ensures
        published_all(p, ms)[k] == published_all(q, ms)[k],
    decreases ms.len(),
{
    if ms.len() > 0 {
        let front = ms.drop_last();
        law_subscribers_are_isolated(p, q, front, k);
        law_publishing_keeps_subscribers(p, front);
        law_publishing_keeps_subscribers(q, front);
    }
}

/// Resilience, for a client that is gone: dropping one subscription changes
/// nothing of what later publishes bring to any other.
pub proof fn law_departure_is_isolated(p: Pending, gone: int, ms: Seq<MessageView>, k: int)
    requires
        p.dom().contains(k),
        k != gone,
    ensures
        published_all(p.remove(gone), ms).dom().contains(k),
        published_all(p.remove(gone), ms)[k] == published_all(p, ms)[k],
{
    law_subscribers_are_isolated(p.remove(gone), p, ms, k);
    law_publishing_keeps_subscribers(p.remove(gone), ms);
}

/// Where a session that starts in `s` ends up after `events`, and the
/// actions it asks for on the way, one for each event.
pub open spec fn run(s: SessionView, events: Seq<EventView>) -> (SessionView, Seq<ActionView>)
    decreases events.len(),
{
    if events.len() == 0 {
        (s, Seq::empty())
    } else {
        let (mid, actions) = run(s, events.drop_last());
        let (end, action) = step(mid, events.last());
        (end, actions.push(action))
    }
}

/// The texts that `actions` send to the client, in order.
pub open spec fn sends(actions: Seq<ActionView>) -> Seq<Seq<char>>
    decreases actions.len(),
{
    if actions.len() == 0 {
        Seq::empty()
    } else {
        let front = sends(actions.drop_last());
        match actions.last() {
            ActionView::Send(text) => front.push(text),
            _ => front,
        }
    }
}

/// The events of the hub handing over each of `ms` in turn.
pub open spec fn deliveries(ms: Seq<MessageView>) -> Seq<EventView> {
    Seq::new(ms.len(), |i: int| EventView::Delivery(ms[i]))
}

/// The texts of those of `ms` that `username` did not send, in order.
pub open spec fn from_others(username: Seq<char>, ms: Seq<MessageView>) -> Seq<Seq<char>>
    decreases ms.len(),
{
    if ms.len() == 0 {
        Seq::empty()
    } else {
        let front = from_others(username, ms.drop_last());
        if ms.last().sender != username {
            front.push(ms.last().text)
        } else {
            front
        }
    }
}

/// Running `first` and then `second` is running one after the other.
pub proof fn lemma_run_concat(s: SessionView, first: Seq<EventView>, second: Seq<EventView>)
    ensures
        run(s, first + second).0 == run(run(s, first).0, second).0,
        run(s, first + second).1 == run(s, first).1 + run(run(s, first).0, second).1,
    decreases second.len(),
{
    if second.len() == 0 {
        assert(first + second =~= first);
        assert(run(s, first).1 + Seq::<ActionView>::empty() =~= run(s, first).1);
    } else {
        let all = first + second;
        assert(all.drop_last() =~= first + second.drop_last());
        assert(all.last() == second.last());
        lemma_run_concat(s, first, second.drop_last());
        let mid = run(s, first).0;
        let (before, actions) = run(mid, second.drop_last());
        let action = step(before, second.last()).1;
        assert(run(s, first).1 + actions.push(action) =~= (run(s, first).1 + actions).push(
            action,
        ));
    }
}

/// What two runs of actions send is what the first sends, then what the
/// second sends.
pub proof fn lemma_sends_concat(first: Seq<ActionView>, second: Seq<ActionView>)
    ensures
        sends(first + second) == sends(first) + sends(second),
    decreases second.len(),
{
    if second.len() == 0 {
        assert(first + second =~= first);
        assert(sends(first) + sends(second) =~= sends(first));
    } else {
        let all = first + second;
        assert(all.drop_last() =~= first + second.drop_last());
        assert(all.last() == second.last());
        lemma_sends_concat(first, second.drop_last());
        match second.last() {
            ActionView::Send(text) => {
                assert(sends(first) + sends(second.drop_last()).push(text) =~= (sends(first)
                    + sends(second.drop_last())).push(text));
            },
            _ => {},
        }
    }
}

/// Self-echo suppression. When the hub hands an active session any run of
/// messages, the session stays active and sends its client the text of each
/// message that somebody else sent, once and in order, and nothing of what
/// the client itself said.
pub proof fn law_passes_on_what_others_said(username: Seq<char>, ms: Seq<MessageView>)
    ensures
        run(SessionView::Active { username }, deliveries(ms)).0 == (SessionView::Active {
            username,
        }),
        sends(run(SessionView::Active { username }, deliveries(ms)).1) == from_others(
            username,
            ms,
        ),
    decreases ms.len(),
{
    if ms.len() > 0 {
        law_passes_on_what_others_said(username, ms.drop_last());
        assert(deliveries(ms).drop_last() =~= deliveries(ms.drop_last()));
        assert(deliveries(ms).last() == EventView::Delivery(ms.last()));
        let active = SessionView::Active { username };
        let front = run(active, deliveries(ms.drop_last())).1;
        let action = step(active, EventView::Delivery(ms.last())).1;
        assert(run(active, deliveries(ms)).1 == front.push(action));
        assert(front.push(action).drop_last() =~= front);
    } else {
        assert(deliveries(ms) =~= Seq::<EventView>::empty());
    }
}

/// A session sends its client a message from the hub exactly when the
/// session is active and somebody else sent the message; what it sends is
/// then the message's text, unchanged.
pub proof fn law_no_self_echo(s: SessionView, m: MessageView)
    ensures
        step(s, EventView::Delivery(m)).1 == (if s is Active && s->Active_username != m.sender {
            ActionView::Send(m.text)
        } else {
            ActionView::Idle
        }),
        step(s, EventView::Delivery(m)).0 == s,
{
}

/// How every line that `username` says begins when it reaches the others.
pub open spec fn own_prefix(username: Seq<char>) -> Seq<char> {
    username + ": "@
}

/// The name a session goes by, once it has one.
pub open spec fn username_of(s: SessionView) -> Option<Seq<char>> {
    match s {
        SessionView::Named { username } => Some(username),
        SessionView::Active { username } => Some(username),
        _ => None,
    }
}

/// A client is never sent a line that begins with its own name and `": "`,
/// as its own lines do when they reach the others. Left out are the lines
/// of somebody else whose name, or name and words, begin with just that.
pub proof fn law_never_sent_own_prefix(username: Seq<char>, sender: Seq<char>, body: Seq<char>)
    requires
        sender == username || !own_prefix(username).is_prefix_of(relay_text(sender, body)),
    ensures
        match step(
            SessionView::Active { username },
            EventView::Delivery(relay_message(sender, body)),
        ).1 {
            ActionView::Send(text) => !own_prefix(username).is_prefix_of(text),
            _ => true,
        },
{
}

/// Names without a colon keep apart: no line of one client begins with the
/// name of another and `": "`.
pub proof fn law_plain_names_keep_apart(
    username: Seq<char>,
    sender: Seq<char>,
    body: Seq<char>,
)
    requires
        sender != username,
        !username.contains(':'),
        !sender.contains(':'),
    ensures
        !own_prefix(username).is_prefix_of(relay_text(sender, body)),
{
    reveal_strlit(": ");
    reveal_strlit("\n");
    let own = own_prefix(username);
    let line = relay_text(sender, body);
    if own.is_prefix_of(line) {
        assert(own =~= line.subrange(0, own.len() as int));
        if username.len() < sender.len() {
            let i = username.len() as int;
            assert(own[i] == ':');
            assert(line.subrange(0, own.len() as int)[i] == line[i]);
            assert(line[i] == sender[i]);
            assert(sender.contains(sender[i]));
        } else if username.len() > sender.len() {
            let i = sender.len() as int;
            assert(line[i] == ':');
            assert(line.subrange(0, own.len() as int)[i] == line[i]);
            assert(own[i] == username[i]);
            assert(username.contains(username[i]));
        } else {
            assert forall|i: int| 0 <= i < username.len() implies username[i] == sender[i] by {
                assert(own[i] == username[i]);
                assert(line.subrange(0, own.len() as int)[i] == line[i]);
                assert(line[i] == sender[i]);
            }
            assert(username =~= sender);
        }
    }
}

/// Framing round trip. When an active session reads a line of text ended by
/// a newline, where the text is not empty and neither starts nor ends with
/// whitespace, it publishes the text with its name in front; the hub puts
/// that message last in what each subscription has pending; and a session
/// of any other name that is handed the message sends its client the
/// sender's name, `": "`, the text and a newline.
pub proof fn law_framing_round_trip(
    sender: Seq<char>,
    text: Seq<char>,
    peer: Seq<char>,
    p: Pending,
    k: int,
)
    requires
        text.len() > 0,
        is_tight(text),
        peer != sender,
        p.dom().contains(k),
    ensures
        step(
            SessionView::Active { username: sender },
            EventView::Inbound(IncomingView::Line(framed(text))),
        ) == (
            SessionView::Active { username: sender },
            ActionView::Publish(relay_message(sender, text)),
        ),
        published(p, relay_message(sender, text)).dom().contains(k),
        published(p, relay_message(sender, text))[k].len() > 0,
        published(p, relay_message(sender, text))[k].last() == relay_message(sender, text),
        step(
            SessionView::Active { username: peer },
            EventView::Delivery(relay_message(sender, text)),
        ).1 == ActionView::Send(sender + ": "@ + text + "\n"@),
{
    reveal_strlit("\n");
    let newline = "\n"@;
    assert(is_whitespace(newline[0]));
    assert(is_blank(newline));
    lemma_trimmed_padded(Seq::empty(), text, newline);
    assert(Seq::<char>::empty() + text + newline =~= framed(text));
}

/// Blank-line suppression. A line of nothing but whitespace is never
/// published, wherever the session stands; and an active session publishes
/// every other line.
pub proof fn law_blank_lines_are_dropped(s: SessionView, line: Seq<char>)
    ensures
        is_blank(line) ==> !(step(s, EventView::Inbound(IncomingView::Line(line))).1 is Publish),
        !is_blank(line) && s is Active ==> step(s, EventView::Inbound(IncomingView::Line(line))).1
            == ActionView::Publish(relay_message(s->Active_username, trimmed(line))),
{
    lemma_trimmed_blank(line);
}

/// Only a session that has greeted its client publishes or passes anything
/// on: until then the one thing it sends is the greeting.
pub proof fn law_greeting_precedes_chat(s: SessionView, e: EventView)
    ensures
        step(s, e).1 is Publish ==> s is Active,
        step(s, e).1 is Send && !(s is Active) ==> s is Accepted && step(s, e).0 is Named
            && step(s, e).1 == ActionView::Send(welcome_text(username_of(step(s, e).0)->0)),
{
}

/// Welcome law. Whatever else happens before and after, the first thing a
/// session sends its client is the greeting for the name in the first line
/// that the client sent, with the whitespace around it removed.
pub proof fn law_welcome_comes_first(
    before: Seq<EventView>,
    line: Seq<char>,
    after: Seq<EventView>,
)
    requires
        forall|i: int| 0 <= i < before.len() ==> !(#[trigger] before[i] is Inbound),
    ensures
        sends(
            run(
                SessionView::Accepted,
                before + seq![EventView::Inbound(IncomingView::Line(line))] + after,
            ).1,
        ).len() > 0,
        sends(
            run(
                SessionView::Accepted,
                before + seq![EventView::Inbound(IncomingView::Line(line))] + after,
            ).1,
        ).first() == welcome_text(trimmed(line)),
{
    let start = SessionView::Accepted;
    let hello = seq![EventView::Inbound(IncomingView::Line(line))];
    lemma_waits_for_name(before);
    lemma_run_concat(start, before, hello);
    lemma_run_concat(start, before + hello, after);
    let said = run(start, hello);
    assert(hello.drop_last() =~= Seq::<EventView>::empty());
    assert(run(start, hello.drop_last()).1 =~= Seq::<ActionView>::empty());
    let greeting = ActionView::Send(welcome_text(trimmed(line)));
    assert(said.1 =~= seq![greeting]);
    assert(said.1.drop_last() =~= Seq::<ActionView>::empty());
    assert(sends(Seq::<ActionView>::empty()) =~= Seq::<Seq<char>>::empty());
    assert(said.1.last() == greeting);
    assert(sends(said.1) =~= seq![welcome_text(trimmed(line))]);
    let head = run(start, before).1 + said.1;
    let tail = run(said.0, after).1;
    lemma_sends_concat(run(start, before).1, said.1);
    lemma_sends_concat(head, tail);
    assert(sends(run(start, before).1) + sends(said.1) =~= sends(said.1));
}

/// A session that has not read anything from its client stays as it was
/// accepted and sends nothing.
proof fn lemma_waits_for_name(events: Seq<EventView>)
    requires
        forall|i: int| 0 <= i < events.len() ==> !(#[trigger] events[i] is Inbound),
    ensures
        run(SessionView::Accepted, events).0 == SessionView::Accepted,
        sends(run(SessionView::Accepted, events).1) == Seq::<Seq<char>>::empty(),
    decreases events.len(),
{
    if events.len() > 0 {
        let front = events.drop_last();
        assert forall|i: int| 0 <= i < front.len() implies !(#[trigger] front[i] is Inbound) by {
            assert(front[i] == events[i]);
        }
        lemma_waits_for_name(front);
        assert(!(events[events.len() - 1] is Inbound));
        let actions = run(SessionView::Accepted, front).1;
        assert(actions.push(ActionView::Idle).drop_last() =~= actions);
    }
}

/// A session goes by one name for as long as it lasts: once it has a name,
/// whatever happens it either keeps that name or is over, and once over it
/// stays so.
pub proof fn law_username_is_fixed(s: SessionView, events: Seq<EventView>)
    ensures
        username_of(s) is Some ==> run(s, events).0 is Closed || username_of(run(s, events).0)
            == username_of(s),
        s is Closed ==> run(s, events).0 is Closed,
    decreases events.len(),
{
    if events.len() > 0 {
        law_username_is_fixed(s, events.drop_last());
    }
}

/// Fan-out, end to end. Of any run of no more than `CAPACITY` messages
/// published while a subscription has nothing pending, the session that
/// holds the subscription sends its client the text of each message that
/// somebody of another name sent: every one of them, once, in the order of
/// publication.
pub proof fn law_chat_fan_out(p: Pending, ms: Seq<MessageView>, k: int, username: Seq<char>)
    requires
        p.dom().contains(k),
        p[k].len() == 0,
        ms.len() <= CAPACITY,
    ensures
        sends(run(SessionView::Active { username }, deliveries(published_all(p, ms)[k])).1)
            == from_others(username, ms),
{
    law_fan_out(p, ms, k);
    law_passes_on_what_others_said(username, ms);
}

/// From one terminal to another. What a session publishes for a line that
/// its client said, a client that receives it shows as the speaker's name,
/// `": "` and the words, without the newline: set off if that mentions the
/// reader, plain if not.
pub proof fn law_shown_as_said(name_line: Seq<char>, said_line: Seq<char>, reader: Seq<char>)
    requires
        !is_blank(said_line),
    ensures
        shown(
            reader,
            IncomingView::Line(relay_text(trimmed(name_line), trimmed(said_line))),
        ) == (if mentions(trimmed(name_line) + ": "@ + trimmed(said_line), reader) {
            DisplayView::Highlight(trimmed(name_line) + ": "@ + trimmed(said_line))
        } else {
            DisplayView::Plain(trimmed(name_line) + ": "@ + trimmed(said_line))
        }),
{
    reveal_strlit(": ");
    reveal_strlit("\n");
    let name = trimmed(name_line);
    let words = trimmed(said_line);
    let text = name + ": "@ + words;
    lemma_trimmed_blank(said_line);
    lemma_trimmed_is_tight(name_line);
    lemma_trimmed_is_tight(said_line);
    assert(text.last() == words.last());
    if name.len() > 0 {
        assert(text[0] == name[0]);
    } else {
        assert(text[0] == ':');
    }
    let newline = "\n"@;
    assert(is_whitespace(newline[0]));
    lemma_trimmed_padded(Seq::empty(), text, newline);
    assert(Seq::<char>::empty() + text + newline =~= relay_text(name, words));
}

/// The messages that `actions` publish, in order.
pub open spec fn publishes(actions: Seq<ActionView>) -> Seq<MessageView>
    decreases actions.len(),
{
    if actions.len() == 0 {
        Seq::empty()
    } else {
        let front = publishes(actions.drop_last());
        match actions.last() {
            ActionView::Publish(m) => front.push(m),
            _ => front,
        }
    }
}

/// The events of each of `lines` being read from the client in turn.
pub open spec fn readings(lines: Seq<Seq<char>>) -> Seq<EventView> {
    Seq::new(lines.len(), |i: int| EventView::Inbound(IncomingView::Line(lines[i])))
}

/// What `username` says to the others with `lines`: for each line that is
/// not blank, in order, a message with the name and the trimmed line.
pub open spec fn spoken(username: Seq<char>, lines: Seq<Seq<char>>) -> Seq<MessageView>
    decreases lines.len(),
{
    if lines.len() == 0 {
        Seq::empty()
    } else {
        let front = spoken(username, lines.drop_last());
        if is_blank(lines.last()) {
            front
        } else {
            front.push(relay_message(username, trimmed(lines.last())))
        }
    }
}

/// The texts of `ms`, in order.
pub open spec fn texts(ms: Seq<MessageView>) -> Seq<Seq<char>> {
    Seq::new(ms.len(), |i: int| ms[i].text)
}

/// An active session that reads any run of lines stays active and publishes
/// one message for each line that is not blank, in order, and nothing for
/// the blank ones.
pub proof fn law_publishes_what_was_said(username: Seq<char>, lines: Seq<Seq<char>>)
    ensures
        run(SessionView::Active { username }, readings(lines)).0 == (SessionView::Active {
            username,
        }),
        publishes(run(SessionView::Active { username }, readings(lines)).1) == spoken(
            username,
            lines,
        ),
    decreases lines.len(),
{
    let active = SessionView::Active { username };
    if lines.len() > 0 {
        law_publishes_what_was_said(username, lines.drop_last());
        lemma_trimmed_blank(lines.last());
        assert(readings(lines).drop_last() =~= readings(lines.drop_last()));
        assert(readings(lines).last() == EventView::Inbound(IncomingView::Line(lines.last())));
        let front = run(active, readings(lines.drop_last())).1;
        let action = step(active, readings(lines).last()).1;
        assert(run(active, readings(lines)).1 == front.push(action));
        assert(front.push(action).drop_last() =~= front);
    } else {
        assert(readings(lines) =~= Seq::<EventView>::empty());
    }
}

/// Everything that one client says is from somebody else for a client of
/// another name.
pub proof fn lemma_spoken_by_another(speaker: Seq<char>, lines: Seq<Seq<char>>, peer: Seq<char>)
    requires
        peer != speaker,
    ensures
        from_others(peer, spoken(speaker, lines)) == texts(spoken(speaker, lines)),
        from_others(speaker, spoken(speaker, lines)) == Seq::<Seq<char>>::empty(),
    decreases lines.len(),
{
    if lines.len() > 0 {
        lemma_spoken_by_another(speaker, lines.drop_last(), peer);
        let front = spoken(speaker, lines.drop_last());
        if !is_blank(lines.last()) {
            let m = relay_message(speaker, trimmed(lines.last()));
            assert(front.push(m).drop_last() =~= front);
            assert(texts(front.push(m)) =~= texts(front).push(m.text));
        }
    } else {
        assert(texts(Seq::<MessageView>::empty()) =~= Seq::<Seq<char>>::empty());
    }
}

/// From one client to all the others. When a client says any run of lines
/// that gives no more than `CAPACITY` messages, a session of another name
/// whose subscription had nothing pending sends its client every one of
/// those messages, once and in order; and the speaker's own session, in the
/// same place, sends nothing.
pub proof fn law_heard_by_everyone_else(
    p: Pending,
    k: int,
    speaker: Seq<char>,
    lines: Seq<Seq<char>>,
    peer: Seq<char>,
)
    requires
        p.dom().contains(k),
        p[k].len() == 0,
        spoken(speaker, lines).len() <= CAPACITY,
        peer != speaker,
    ensures
        sends(
            run(
                SessionView::Active { username: peer },
                deliveries(published_all(p, spoken(speaker, lines))[k]),
            ).1,
        ) == texts(spoken(speaker, lines)),
        sends(
            run(
                SessionView::Active { username: speaker },
                deliveries(published_all(p, spoken(speaker, lines))[k]),
            ).1,
        ) == Seq::<Seq<char>>::empty(),
{
    let ms = spoken(speaker, lines);
    law_chat_fan_out(p, ms, k, peer);
    law_chat_fan_out(p, ms, k, speaker);
    lemma_spoken_by_another(speaker, lines, peer);
}

/// What the run of its own at the front of `pending` is: every message in
/// it is `username`'s, and the one behind it, if there is one, is not.
proof fn lemma_own_run_ends(username: Seq<char>, pending: Seq<MessageView>)
    ensures
        0 <= own_run(username, pending) <= pending.len(),
        forall|i: int|
            0 <= i < own_run(username, pending) ==> (#[trigger] pending[i]).sender == username,
        own_run(username, pending) < pending.len() ==> pending[own_run(
            username,
            pending,
        )].sender != username,
    decreases pending.len(),
{
    if pending.len() > 0 && pending[0].sender == username {
        let rest = pending.drop_first();
        lemma_own_run_ends(username, rest);
        let n = own_run(username, rest);
        assert forall|i: int| 0 <= i < n + 1 implies (#[trigger] pending[i]).sender
            == username by {
            if i > 0 {
                assert(pending[i] == rest[i - 1]);
            }
        }
        if n < rest.len() {
            assert(rest[n] == pending[n + 1]);
        }
    }
}

/// What is from others in two runs of messages is what is from others in
/// the first, then what is from others in the second.
proof fn lemma_from_others_concat(
    username: Seq<char>,
    first: Seq<MessageView>,
    second: Seq<MessageView>,
)
    ensures
        from_others(username, first + second) == from_others(username, first) + from_others(
            username,
            second,
        ),
    decreases second.len(),
{
    if second.len() == 0 {
        assert(first + second =~= first);
        assert(from_others(username, first) + from_others(username, second) =~= from_others(
            username,
            first,
        ));
    } else {
        let all = first + second;
        assert(all.drop_last() =~= first + second.drop_last());
        assert(all.last() == second.last());
        lemma_from_others_concat(username, first, second.drop_last());
        let a = from_others(username, first);
        let b = from_others(username, second.drop_last());
        assert(a + b.push(second.last().text) =~= (a + b).push(second.last().text));
    }
}

/// Nothing is from others in a run of `username`'s own messages.
proof fn lemma_nothing_from_oneself(username: Seq<char>, ms: Seq<MessageView>)
    requires
        forall|i: int| 0 <= i < ms.len() ==> (#[trigger] ms[i]).sender == username,
    ensures
        from_others(username, ms) == Seq::<Seq<char>>::empty(),
    decreases ms.len(),
{
    if ms.len() > 0 {
        let front = ms.drop_last();
        assert forall|i: int| 0 <= i < front.len() implies (#[trigger] front[i]).sender
            == username by {
            assert(front[i] == ms[i]);
        }
        lemma_nothing_from_oneself(username, front);
        assert(ms[ms.len() - 1].sender == username);
    }
}

/// What an active connection takes from the hub, one call after the other,
/// is what is from others among its pending messages: each call hands out
/// the first of them and leaves the rest, until none is left.
pub proof fn law_deliveries_are_from_others(hub: Pending, c: ConnectionView)
    requires
        c.session is Active,
        c.place is Some,
        hub.dom().contains(c.place->0),
    ensures
        delivery(hub, c).1.dom() == hub.dom(),
        from_others(c.session->Active_username, hub[c.place->0]).len() == 0 ==> {
            &&& delivery(hub, c).0 is None
            &&& delivery(hub, c).1[c.place->0].len() == 0
        },
        from_others(c.session->Active_username, hub[c.place->0]).len() > 0 ==> {
            &&& delivery(hub, c).0 == Some(
                from_others(c.session->Active_username, hub[c.place->0]).first(),
            )
            &&& from_others(c.session->Active_username, delivery(hub, c).1[c.place->0])
                == from_others(c.session->Active_username, hub[c.place->0]).drop_first()
        },
{
    let k = c.place->0;
    let username = c.session->Active_username;
    let pending = hub[k];
    let own = own_run(username, pending);
    lemma_own_run_ends(username, pending);
    let mine = pending.take(own);
    lemma_nothing_from_oneself(username, mine);
    assert(delivery(hub, c).1.dom() =~= hub.dom());
    if own < pending.len() {
        let next = seq![pending[own]];
        let rest = pending.skip(own + 1);
        assert(pending =~= mine + next + rest);
        lemma_from_others_concat(username, mine + next, rest);
        lemma_from_others_concat(username, mine, next);
        assert(next.drop_last() =~= Seq::<MessageView>::empty());
        assert(from_others(username, next.drop_last()) =~= Seq::<Seq<char>>::empty());
        assert(from_others(username, next) =~= seq![pending[own].text]);
        let heard = from_others(username, pending);
        assert(heard =~= seq![pending[own].text] + from_others(username, rest));
        assert(heard.drop_first() =~= from_others(username, rest));
    } else {
        assert(pending =~= mine);
    }
}

/// One thing that happens at the hub, as one connection sees it.
pub ghost enum Turn {
    /// Somebody publishes this message.
    Published(MessageView),
    /// The connection takes its next delivery.
    Taken,
    /// Another connection takes its next delivery.
    TakenBy(ConnectionView),
}

/// What running `turns` in order gives for connection `c`, starting from
/// `hub`.
pub ghost struct Replay {
    /// What is pending in the end.
    pub hub: Pending,
    /// The texts handed out to `c` for its client, in order.
    pub heard: Seq<Seq<char>>,
    /// The messages that were published, in order.
    pub published: Seq<MessageView>,
    /// Whether `c` lost a message: whether one was published while `c` had
    /// `CAPACITY` pending.
    pub lagged: bool,
}

/// Runs `turns` in order for connection `c`, starting from `hub`.
pub open spec fn replay(hub: Pending, c: ConnectionView, turns: Seq<Turn>) -> Replay
    decreases turns.len(),
{
    if turns.len() == 0 {
        Replay { hub, heard: Seq::empty(), published: Seq::empty(), lagged: false }
    } else {
        let r = replay(hub, c, turns.drop_last());
        match turns.last() {
            Turn::Published(m) => Replay {
                hub: published(r.hub, m),
                heard: r.heard,
                published: r.published.push(m),
                lagged: r.lagged || r.hub[c.place->0].len() >= CAPACITY,
            },
            Turn::Taken => Replay {
                hub: delivery(r.hub, c).1,
                heard: match delivery(r.hub, c).0 {
                    Some(text) => r.heard.push(text),
                    None => r.heard,
                },
                published: r.published,
                lagged: r.lagged,
            },
            Turn::TakenBy(other) => Replay {
                hub: delivery(r.hub, other).1,
                heard: r.heard,
                published: r.published,
                lagged: r.lagged,
            },
        }
    }
}

/// Fan-out, however publishing and receiving take turns. Let any clients
/// publish, an active connection take its deliveries and other connections
/// take theirs, in any order. As long as the connection has not lagged,
/// what it was handed for its client, followed by what is still to come
/// from what it has pending, is what others sent among the messages it had
/// pending at the start and those published since: every one of them,
/// once, in the order of publication, and none of its own.
pub proof fn law_fan_out_in_any_order(hub: Pending, c: ConnectionView, turns: Seq<Turn>)
    requires
        c.session is Active,
        c.place is Some,
        hub.dom().contains(c.place->0),
        forall|i: int|
            0 <= i < turns.len() ==> (#[trigger] turns[i] matches Turn::TakenBy(other)
                ==> other.place != c.place),
    ensures
        replay(hub, c, turns).hub.dom().contains(c.place->0),
        !replay(hub, c, turns).lagged ==> replay(hub, c, turns).heard + from_others(
            c.session->Active_username,
            replay(hub, c, turns).hub[c.place->0],
        ) == from_others(
            c.session->Active_username,
            hub[c.place->0] + replay(hub, c, turns).published,
        ),
    decreases turns.len(),
{
    let k = c.place->0;
    let username = c.session->Active_username;
    if turns.len() == 0 {
        assert(hub[k] + Seq::<MessageView>::empty() =~= hub[k]);
        assert(Seq::<Seq<char>>::empty() + from_others(username, hub[k]) =~= from_others(
            username,
            hub[k],
        ));
    } else {
        let front = turns.drop_last();
        assert forall|i: int| 0 <= i < front.len() implies (#[trigger] front[i] matches
            Turn::TakenBy(other) ==> other.place != c.place) by {
            assert(front[i] == turns[i]);
        }
        law_fan_out_in_any_order(hub, c, front);
        let r = replay(hub, c, front);
        let now = replay(hub, c, turns);
        match turns.last() {
            Turn::Published(m) => {
                if !now.lagged {
                    let one = seq![m];
                    assert(now.hub[k] =~= r.hub[k] + one);
                    assert(hub[k] + now.published =~= (hub[k] + r.published) + one);
                    lemma_from_others_concat(username, r.hub[k], one);
                    lemma_from_others_concat(username, hub[k] + r.published, one);
                    assert(r.heard + (from_others(username, r.hub[k]) + from_others(
                        username,
                        one,
                    )) =~= (r.heard + from_others(username, r.hub[k])) + from_others(
                        username,
                        one,
                    ));
                }
            },
            Turn::Taken => {
                law_deliveries_are_from_others(r.hub, c);
                let waiting = from_others(username, r.hub[k]);
                if waiting.len() > 0 {
                    assert(r.heard.push(waiting.first()) + waiting.drop_first() =~= r.heard
                        + waiting);
                } else {
                    assert(now.hub[k] =~= Seq::<MessageView>::empty());
                }
            },
            Turn::TakenBy(other) => {
                assert(turns[turns.len() - 1] == Turn::TakenBy(other));
                assert(other.place != c.place);
                assert(delivery(r.hub, other).1.dom().contains(k));
                assert(delivery(r.hub, other).1[k] == r.hub[k]);
            },
        }
    }
}

} // verus!
