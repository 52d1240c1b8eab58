//! The wire protocol: newline-terminated lines of text, and the message that
//! the hub carries for each line a client publishes.

use vstd::prelude::*;
use vstd::string::StringExecFns;

verus! {

/// The port the server listens on when none is given.
pub const DEFAULT_PORT: u16 = 8080;

/// A line as the hub carries it: the bytes to put on the wire, tagged with
/// the username of the session that published it.
#[derive(Debug, PartialEq, Eq)]
pub struct Message {
    pub text: String,
    pub sender: String,
}

/// What a `Message` stands for in contracts.
pub ghost struct MessageView {
    pub text: Seq<char>,
    pub sender: Seq<char>,
}

impl View for Message {
    type V = MessageView;

    open spec fn view(&self) -> MessageView {
        MessageView { text: self.text@, sender: self.sender@ }
    }
}

impl Message {
    /// A copy of the message.
    pub fn duplicate(&self) -> (m: Message)
        ensures
            m@ == self@,
    {
        Message { text: self.text.clone(), sender: self.sender.clone() }
    }
}

/// What reading one line from a socket or a terminal gave.
#[derive(Debug, PartialEq, Eq)]
pub enum Incoming {
    /// A line, as it was read.
    Line(String),
    /// The other side has closed: nothing more will come.
    Eof,
    /// The read failed.
    Failed,
}

/// What an `Incoming` stands for in contracts.
pub ghost enum IncomingView {
    Line(Seq<char>),
    Eof,
    Failed,
}

impl View for Incoming {
    type V = IncomingView;

    open spec fn view(&self) -> IncomingView {
        match self {
            Incoming::Line(line) => IncomingView::Line(line@),
            Incoming::Eof => IncomingView::Eof,
            Incoming::Failed => IncomingView::Failed,
        }
    }
}

/// `text` followed by the newline that ends a frame.
pub open spec fn framed(text: Seq<char>) -> Seq<char> {
    text + "\n"@
}

/// The greeting the server sends once it knows a client's name.
pub open spec fn welcome_text(username: Seq<char>) -> Seq<char> {
    "Welcome to the chat, "@ + username + "!\n"@
}

/// The line that peers receive when `sender` says `body`.
pub open spec fn relay_text(sender: Seq<char>, body: Seq<char>) -> Seq<char> {
    sender + ": "@ + body + "\n"@
}

/// The message that a session named `sender` publishes for `body`.
pub open spec fn relay_message(sender: Seq<char>, body: Seq<char>) -> MessageView {
    MessageView { text: relay_text(sender, body), sender }
}

/// The text that marks a mention of `username`.
pub open spec fn mention_text(username: Seq<char>) -> Seq<char> {
    "@"@ + username
}

/// Ends `text` with a newline, ready to be written to a socket.
pub fn frame(text: &str) -> (line: String)
    ensures
        line@ == framed(text@),
{
    let mut line = String::from_str(text);
    line.append("\n");
    line
}

/// Builds the greeting for `username`.
pub fn welcome(username: &str) -> (line: String)
    ensures
        line@ == welcome_text(username@),
{
    let mut line = String::from_str("Welcome to the chat, ");
    line.append(username);
    line.append("!\n");
    line
}

/// Builds the message that carries `body` from `sender` to its peers.
pub fn relay(sender: &str, body: &str) -> (m: Message)
    ensures
        m@ == relay_message(sender@, body@),
{
    let mut text = String::from_str(sender);
    text.append(": ");
    text.append(body);
    text.append("\n");
    Message { text, sender: String::from_str(sender) }
}

/// Builds the text whose presence in a line marks a mention of `username`.
pub fn mention(username: &str) -> (tag: String)
    ensures
        tag@ == mention_text(username@),
{
    let mut tag = String::from_str("@");
    tag.append(username);
    tag
}

/// The character for one decimal digit.
pub open spec fn digit(d: nat) -> char {
    if d == 0 {
        '0'
    } else if d == 1 {
        '1'
    } else if d == 2 {
        '2'
    } else if d == 3 {
        '3'
    } else if d == 4 {
        '4'
    } else if d == 5 {
        '5'
    } else if d == 6 {
        '6'
    } else if d == 7 {
        '7'
    } else if d == 8 {
        '8'
    } else {
        '9'
    }
}

/// `n` written in decimal, without leading zeros.
pub open spec fn decimal(n: nat) -> Seq<char>
    decreases n,
{
    if n < 10 {
        seq![digit(n)]
    } else {
        decimal(n / 10).push(digit(n % 10))
    }
}

/// The address the server binds: every interface, at `port`.
pub open spec fn listen_text(port: u16) -> Seq<char> {
    "0.0.0.0:"@ + decimal(port as nat)
}

/// The text of one decimal digit.
fn digit_str(d: u16) -> (text: &'static str)
    requires
        d < 10,
    ensures
        text@ == seq![digit(d as nat)],
{
    proof {
        reveal_strlit("0");
        reveal_strlit("1");
        reveal_strlit("2");
        reveal_strlit("3");
        reveal_strlit("4");
        reveal_strlit("5");
        reveal_strlit("6");
        reveal_strlit("7");
        reveal_strlit("8");
        reveal_strlit("9");
    }
    let text = if d == 0 {
        "0"
    } else if d == 1 {
        "1"
    } else if d == 2 {
        "2"
    } else if d == 3 {
        "3"
    } else if d == 4 {
        "4"
    } else if d == 5 {
        "5"
    } else if d == 6 {
        "6"
    } else if d == 7 {
        "7"
    } else if d == 8 {
        "8"
    } else {
        "9"
    };
    assert(text@ =~= seq![digit(d as nat)]);
    text
}

/// Appends `n` in decimal to `out`.
fn push_decimal(out: &mut String, n: u16)
    ensures
        final(out)@ == old(out)@ + decimal(n as nat),
    decreases n,
{
    if n >= 10 {
        push_decimal(out, n / 10);
    }
    out.append(digit_str(n % 10));
    proof {
        let d = seq![digit((n % 10) as nat)];
        if n >= 10 {
            assert(old(out)@ + decimal((n / 10) as nat) + d =~= old(out)@ + decimal(
                (n / 10) as nat,
            ).push(digit((n % 10) as nat)));
        }
    }
}

/// Builds the address the server binds for `port`.
pub fn listen_address(port: u16) -> (address: String)
    ensures
        address@ == listen_text(port),
{
    let mut address = String::from_str("0.0.0.0:");
    push_decimal(&mut address, port);
    address
}

} // verus!
