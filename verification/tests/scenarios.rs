use chat_app::client::{hello, on_server_line, Display};
use chat_app::connection::{Connection, Output};
use chat_app::framer::Framer;
use chat_app::hub::{Hub, Subscription};
use chat_app::session::{Action, Event, Session};
use chat_app::wire::{frame, Incoming};

/// One connected client as the server sees it, with what was written to its
/// socket.
struct Peer {
    session: Session,
    place: Subscription,
    socket: Vec<String>,
}

fn connect(hub: &mut Hub, username: &str) -> Peer {
    let place = hub.subscribe();
    let mut session = Session::new();
    let mut socket = Vec::new();
    match session.step(Event::Inbound(Incoming::Line(hello(username)))) {
        Action::Send(text) => socket.push(text),
        other => panic!("no greeting: {:?}", other),
    }
    assert_eq!(session.step(Event::Written(true)), Action::Idle);
    Peer { session, place, socket }
}

fn says(hub: &mut Hub, peer: &mut Peer, text: &str) {
    match peer.session.step(Event::Inbound(Incoming::Line(frame(text)))) {
        Action::Publish(m) => hub.publish(m),
        Action::Idle => {}
        other => panic!("unexpected action: {:?}", other),
    }
}

fn catch_up(hub: &mut Hub, peer: &mut Peer) {
    while let Some(m) = hub.receive(&peer.place) {
        match peer.session.step(Event::Delivery(m)) {
            Action::Send(text) => {
                peer.socket.push(text);
                assert_eq!(peer.session.step(Event::Written(true)), Action::Idle);
            }
            Action::Idle => {}
            other => panic!("unexpected action: {:?}", other),
        }
    }
}

#[test]
fn two_party_echo() {
    let mut hub = Hub::new();
    let mut alice = connect(&mut hub, "alice");
    let mut bob = connect(&mut hub, "bob");
    says(&mut hub, &mut alice, "hello");
    catch_up(&mut hub, &mut alice);
    catch_up(&mut hub, &mut bob);
    assert_eq!(bob.socket, vec!["Welcome to the chat, bob!\n", "alice: hello\n"]);
    assert_eq!(alice.socket, vec!["Welcome to the chat, alice!\n"]);
}

#[test]
fn three_party_fan_out() {
    let mut hub = Hub::new();
    let mut a = connect(&mut hub, "a");
    let mut b = connect(&mut hub, "b");
    let mut c = connect(&mut hub, "c");
    says(&mut hub, &mut b, "hi");
    catch_up(&mut hub, &mut a);
    catch_up(&mut hub, &mut b);
    catch_up(&mut hub, &mut c);
    assert_eq!(a.socket, vec!["Welcome to the chat, a!\n", "b: hi\n"]);
    assert_eq!(c.socket, vec!["Welcome to the chat, c!\n", "b: hi\n"]);
    assert_eq!(b.socket, vec!["Welcome to the chat, b!\n"]);
}

#[test]
fn mention_highlight() {
    let received = Incoming::Line(String::from("bob: hey @alice\n"));
    assert_eq!(
        on_server_line("alice", &received),
        Display::Highlight(String::from("bob: hey @alice"))
    );
    assert_eq!(on_server_line("carol", &received), Display::Plain(String::from("bob: hey @alice")));
}

#[test]
fn disconnect_isolation() {
    let mut hub = Hub::new();
    let mut a = connect(&mut hub, "a");
    let mut b = connect(&mut hub, "b");
    let mut c = connect(&mut hub, "c");
    assert_eq!(a.session.step(Event::Inbound(Incoming::Failed)), Action::Close { announce: true });
    hub.unsubscribe(a.place);
    says(&mut hub, &mut b, "still here?");
    catch_up(&mut hub, &mut c);
    catch_up(&mut hub, &mut b);
    assert_eq!(c.socket, vec!["Welcome to the chat, c!\n", "b: still here?\n"]);
    assert_eq!(b.socket, vec!["Welcome to the chat, b!\n"]);
}

#[test]
fn dead_client_that_never_unsubscribes_holds_nobody_up() {
    let mut hub = Hub::new();
    let _dead = connect(&mut hub, "a");
    let mut b = connect(&mut hub, "b");
    let mut c = connect(&mut hub, "c");
    for n in 0..500 {
        says(&mut hub, &mut b, &format!("line {}", n));
        catch_up(&mut hub, &mut c);
    }
    assert_eq!(c.socket.len(), 501);
    assert_eq!(c.socket[500], "b: line 499\n");
}

#[test]
fn slow_consumer() {
    let mut hub = Hub::new();
    let mut slow = connect(&mut hub, "slow");
    let mut quick = connect(&mut hub, "quick");
    let mut talker = connect(&mut hub, "talker");
    for n in 0..150 {
        says(&mut hub, &mut talker, &format!("line {}", n));
        catch_up(&mut hub, &mut quick);
    }
    catch_up(&mut hub, &mut slow);
    assert_eq!(quick.socket.len(), 151);
    for n in 0..150 {
        assert_eq!(quick.socket[n + 1], format!("talker: line {}\n", n));
    }
    assert_eq!(slow.socket.len(), 101);
    assert_eq!(slow.socket[0], "Welcome to the chat, slow!\n");
    for n in 0..100 {
        assert_eq!(slow.socket[n + 1], format!("talker: line {}\n", n + 50));
    }
}

#[test]
fn blank_line_drop() {
    let mut hub = Hub::new();
    let mut alice = connect(&mut hub, "alice");
    let mut bob = connect(&mut hub, "bob");
    assert_eq!(
        alice.session.step(Event::Inbound(Incoming::Line(String::from("   \n")))),
        Action::Idle
    );
    assert_eq!(hub.backlog(&bob.place), 0);
    catch_up(&mut hub, &mut bob);
    assert_eq!(bob.socket, vec!["Welcome to the chat, bob!\n"]);
}

#[test]
fn fan_out_to_every_other_client() {
    let names = ["ann", "ben", "cy", "dee", "ed"];
    let mut hub = Hub::new();
    let mut peers: Vec<Peer> = names.iter().map(|name| connect(&mut hub, name)).collect();
    for round in 0..3 {
        for i in 0..peers.len() {
            says(&mut hub, &mut peers[i], &format!("round {}", round));
        }
    }
    for j in 0..peers.len() {
        catch_up(&mut hub, &mut peers[j]);
        let mut expected = vec![format!("Welcome to the chat, {}!\n", names[j])];
        for round in 0..3 {
            for i in 0..names.len() {
                if i != j {
                    expected.push(format!("{}: round {}\n", names[i], round));
                }
            }
        }
        assert_eq!(peers[j].socket, expected);
    }
}

#[test]
fn no_client_receives_its_own_prefix() {
    let names = ["ann", "ben", "cy"];
    let mut hub = Hub::new();
    let mut peers: Vec<Peer> = names.iter().map(|name| connect(&mut hub, name)).collect();
    for i in 0..peers.len() {
        says(&mut hub, &mut peers[i], "one");
        says(&mut hub, &mut peers[i], "two");
    }
    for j in 0..peers.len() {
        catch_up(&mut hub, &mut peers[j]);
        let own = format!("{}: ", names[j]);
        assert_eq!(peers[j].socket.len(), 5);
        for text in &peers[j].socket {
            assert!(!text.starts_with(&own));
        }
    }
}

#[test]
fn a_name_that_begins_like_another_can_look_like_an_echo() {
    let mut hub = Hub::new();
    let mut al = connect(&mut hub, "al");
    let mut other = connect(&mut hub, "al: x");
    says(&mut hub, &mut other, "hi");
    catch_up(&mut hub, &mut al);
    assert_eq!(al.socket, vec!["Welcome to the chat, al!\n", "al: x: hi\n"]);
}

#[test]
fn clients_of_one_name_do_not_hear_each_other() {
    let mut hub = Hub::new();
    let mut first = connect(&mut hub, "bob");
    let mut second = connect(&mut hub, "bob");
    let mut third = connect(&mut hub, "eve");
    says(&mut hub, &mut first, "hi");
    catch_up(&mut hub, &mut second);
    catch_up(&mut hub, &mut third);
    assert_eq!(second.socket, vec!["Welcome to the chat, bob!\n"]);
    assert_eq!(third.socket, vec!["Welcome to the chat, eve!\n", "bob: hi\n"]);
}

#[test]
fn framing_round_trip() {
    let texts = ["hello", "a b  c", "x", "päivää, maailma!", "@bob: see: this", "100%"];
    for text in texts {
        let mut hub = Hub::new();
        let mut sender = connect(&mut hub, "sam");
        let mut peer = connect(&mut hub, "pat");
        says(&mut hub, &mut sender, text);
        catch_up(&mut hub, &mut peer);
        assert_eq!(peer.socket[1], format!("sam: {}\n", text));
        assert_eq!(peer.socket.len(), 2);
    }
}

#[test]
fn welcome_is_the_first_thing_a_client_receives() {
    let mut hub = Hub::new();
    let mut early = connect(&mut hub, "early");
    says(&mut hub, &mut early, "anyone?");
    let place = hub.subscribe();
    says(&mut hub, &mut early, "hello?");
    let mut session = Session::new();
    let greeting = session.step(Event::Inbound(Incoming::Line(String::from(" late \n"))));
    assert_eq!(greeting, Action::Send(String::from("Welcome to the chat, late!\n")));
    let mut late = Peer { session, place, socket: vec![String::from("Welcome to the chat, late!\n")] };
    assert_eq!(late.session.step(Event::Written(true)), Action::Idle);
    catch_up(&mut hub, &mut late);
    assert_eq!(late.socket, vec!["Welcome to the chat, late!\n", "early: hello?\n"]);
}

#[test]
fn messages_of_one_sender_arrive_in_order() {
    let mut hub = Hub::new();
    let mut a = connect(&mut hub, "a");
    let mut b = connect(&mut hub, "b");
    for n in 0..20 {
        says(&mut hub, &mut a, &format!("{}", n));
    }
    catch_up(&mut hub, &mut b);
    for n in 0..20 {
        assert_eq!(b.socket[n + 1], format!("a: {}\n", n));
    }
}

#[test]
fn what_is_said_is_shown_with_the_speakers_name() {
    let mut hub = Hub::new();
    let mut alice = connect(&mut hub, " alice ");
    let mut bob = connect(&mut hub, "bob");
    says(&mut hub, &mut alice, "  good morning @bob  ");
    says(&mut hub, &mut alice, "and to everybody else");
    catch_up(&mut hub, &mut bob);
    let shown: Vec<Display> = bob
        .socket
        .iter()
        .map(|text| on_server_line("bob", &Incoming::Line(text.to_string())))
        .collect();
    assert_eq!(
        shown,
        vec![
            Display::Plain(String::from("Welcome to the chat, bob!")),
            Display::Highlight(String::from("alice: good morning @bob")),
            Display::Plain(String::from("alice: and to everybody else")),
        ]
    );
}

/// Serves the bytes that arrive in `pieces`, the connection ending behind
/// the last of them; gives back what was written to the socket.
fn serve(hub: &mut Hub, pieces: &[&[u8]]) -> (Connection, Vec<u8>) {
    let mut connection = Connection::open(hub);
    let mut framer = Framer::new();
    let mut socket: Vec<u8> = Vec::new();
    for (i, piece) in pieces.iter().enumerate() {
        framer.feed(piece);
        let ended = i + 1 == pieces.len();
        while let Some(incoming) = framer.read(ended) {
            let mut output = connection.handle(hub, Event::Inbound(incoming));
            while let Output::Write(text) = output {
                socket.extend_from_slice(text.as_bytes());
                output = connection.handle(hub, Event::Written(true));
            }
            if connection.is_closed() {
                break;
            }
        }
    }
    (connection, socket)
}

#[test]
fn bytes_in_pieces_come_out_as_lines_for_the_peers() {
    let mut hub = Hub::new();
    let mut bob = connect(&mut hub, "bob");
    let pieces: [&[u8]; 5] = [b"ali", b"ce\nhel", b"lo\n", b"   \n\nby", b"e\n"];
    let (connection, socket) = serve(&mut hub, &pieces);
    assert!(connection.is_closed());
    catch_up(&mut hub, &mut bob);
    assert_eq!(socket, b"Welcome to the chat, alice!\n");
    assert_eq!(
        bob.socket.concat().as_bytes(),
        b"Welcome to the chat, bob!\nalice: hello\nalice: bye\n"
    );
}

#[test]
fn a_name_cut_short_by_the_end_is_not_greeted() {
    let mut hub = Hub::new();
    let pieces: [&[u8]; 1] = [b"ali"];
    let (connection, socket) = serve(&mut hub, &pieces);
    assert!(connection.is_closed());
    assert_eq!(connection.username(), None);
    assert_eq!(socket, b"");
    assert_eq!(hub.held(), 0);
}

#[test]
fn words_cut_short_by_the_end_are_not_published() {
    let mut hub = Hub::new();
    let mut bob = connect(&mut hub, "bob");
    let pieces: [&[u8]; 2] = [b"alice\nhello\nby", b"e"];
    let (connection, socket) = serve(&mut hub, &pieces);
    assert!(connection.is_closed());
    catch_up(&mut hub, &mut bob);
    assert_eq!(socket, b"Welcome to the chat, alice!\n");
    assert_eq!(bob.socket, vec!["Welcome to the chat, bob!\n", "alice: hello\n"]);
}

#[test]
fn a_line_cut_short_by_the_end_is_not_shown() {
    let mut framer = Framer::new();
    framer.feed(b"bob: hi\nbob: by");
    let mut shown = Vec::new();
    loop {
        let incoming = framer.read(true).unwrap();
        let display = on_server_line("alice", &incoming);
        let ends = display.ends_reader();
        shown.push(display);
        if ends {
            break;
        }
    }
    assert_eq!(shown, vec![Display::Plain(String::from("bob: hi")), Display::ConnectionClosed]);
}
