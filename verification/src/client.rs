//! The client's decisions: what to show of a line that the server sent, what
//! to pass on of a line that the user typed, and whom to stop when one of
//! the client's activities ends.

use crate::text::{contains, occurs_in, trim, trimmed};
use crate::wire::{frame, framed, mention, mention_text, Incoming, IncomingView};
use vstd::prelude::*;
use vstd::string::StringExecFns;

verus! {

/// What the reader shows for one read from the server.
#[derive(Debug, PartialEq, Eq)]
pub enum Display {
    /// Nothing: the line was blank.
    Nothing,
    /// The line as it is.
    Plain(String),
    /// The line set off from the others, because it mentions the user.
    Highlight(String),
    /// A notice that the server has closed the connection. The reader ends.
    ConnectionClosed,
    /// A notice that reading from the server failed. The reader ends.
    ReadError,
}

/// What a `Display` stands for in contracts.
pub ghost enum DisplayView {
    Nothing,
    Plain(Seq<char>),
    Highlight(Seq<char>),
    ConnectionClosed,
    ReadError,
}

impl View for Display {
    type V = DisplayView;

    open spec fn view(&self) -> DisplayView {
        match self {
            Display::Nothing => DisplayView::Nothing,
            Display::Plain(line) => DisplayView::Plain(line@),
            Display::Highlight(line) => DisplayView::Highlight(line@),
            Display::ConnectionClosed => DisplayView::ConnectionClosed,
            Display::ReadError => DisplayView::ReadError,
        }
    }
}

/// What the input activity does with one read from the terminal.
#[derive(Debug, PartialEq, Eq)]
pub enum Typed {
    /// Nothing: the line was blank.
    Skip,
    /// Queue this message for the writer.
    Forward(String),
    /// The input has ended. The activity ends.
    End,
    /// Reading the input failed: report it. The activity ends.
    InputError,
}

/// What a `Typed` stands for in contracts.
pub ghost enum TypedView {
    Skip,
    Forward(Seq<char>),
    End,
    InputError,
}

impl View for Typed {
    type V = TypedView;

    open spec fn view(&self) -> TypedView {
        match self {
            Typed::Skip => TypedView::Skip,
            Typed::Forward(message) => TypedView::Forward(message@),
            Typed::End => TypedView::End,
            Typed::InputError => TypedView::InputError,
        }
    }
}

/// Whether `line` mentions `username`: whether `@` followed by the name
/// occurs anywhere in it, whatever comes before or after.
pub open spec fn mentions(line: Seq<char>, username: Seq<char>) -> bool {
    occurs_in(mention_text(username), line)
}

/// The reader's rule for one read from the server, for a user named
/// `username`.
pub open spec fn shown(username: Seq<char>, incoming: IncomingView) -> DisplayView {
    match incoming {
        IncomingView::Line(line) => {
            let text = trimmed(line);
            if text.len() == 0 {
                DisplayView::Nothing
            } else if mentions(text, username) {
                DisplayView::Highlight(text)
            } else {
                DisplayView::Plain(text)
            }
        },
        IncomingView::Eof => DisplayView::ConnectionClosed,
        IncomingView::Failed => DisplayView::ReadError,
    }
}

/// The input activity's rule for one read from the terminal.
pub open spec fn entered(incoming: IncomingView) -> TypedView {
    match incoming {
        IncomingView::Line(line) => if trimmed(line).len() == 0 {
            TypedView::Skip
        } else {
            TypedView::Forward(trimmed(line))
        },
        IncomingView::Eof => TypedView::End,
        IncomingView::Failed => TypedView::InputError,
    }
}

/// The first frame a client sends: its name, ended by a newline.
pub fn hello(username: &str) -> (line: String)
    ensures
        line@ == framed(username@),
{
    frame(username)
}

/// Decides what the reader shows for `incoming`.
pub fn on_server_line(username: &str, incoming: &Incoming) -> (display: Display)
    ensures
        display@ == shown(username@, incoming@),
{
    match incoming {
        Incoming::Line(line) => {
            let text = trim(line.as_str());
            if text.is_empty() {
                Display::Nothing
            } else {
                let tag = mention(username);
                if contains(text, tag.as_str()) {
                    Display::Highlight(String::from_str(text))
                } else {
                    Display::Plain(String::from_str(text))
                }
            }
        },
        Incoming::Eof => Display::ConnectionClosed,
        Incoming::Failed => Display::ReadError,
    }
}

/// Decides what the input activity does with `incoming`.
pub fn on_input(incoming: &Incoming) -> (typed: Typed)
    ensures
        typed@ == entered(incoming@),
{
    match incoming {
        Incoming::Line(line) => {
            let text = trim(line.as_str());
            if text.is_empty() {
                Typed::Skip
            } else {
                Typed::Forward(String::from_str(text))
            }
        },
        Incoming::Eof => Typed::End,
        Incoming::Failed => Typed::InputError,
    }
}

/// Decides what the input activity does with `incoming`, given whether the
/// client is `closing`: whether its reader or writer has ended. While the
/// client is closing, the read that the activity was in is its last:
/// whatever it gave is not passed on, and the activity ends.
pub fn on_input_while(closing: bool, incoming: &Incoming) -> (typed: Typed)
    ensures
        typed@ == (if closing {
            TypedView::End
        } else {
            entered(incoming@)
        }),
{
    if closing {
        Typed::End
    } else {
        on_input(incoming)
    }
}

impl Display {
    /// Whether the reader ends after showing this.
    pub fn ends_reader(&self) -> (b: bool)
        ensures
            b == (self@ is ConnectionClosed || self@ is ReadError),
    {
        match self {
            Display::ConnectionClosed => true,
            Display::ReadError => true,
            _ => false,
        }
    }
}

impl Typed {
    /// Whether the input activity ends after this.
    pub fn ends_input(&self) -> (b: bool)
        ensures
            b == (self@ is End || self@ is InputError),
    {
        match self {
            Typed::End => true,
            Typed::InputError => true,
            _ => false,
        }
    }
}

/// One of the two activities that hold the client's socket.
#[derive(Clone, Copy, Debug, PartialEq, Eq, Structural)]
pub enum Activity {
    /// Reads lines from the server and shows them.
    Reader,
    /// Writes the queued messages to the server.
    Writer,
}

/// One thing the client does on its way out.
#[derive(Clone, Copy, Debug, PartialEq, Eq, Structural)]
pub enum Step {
    /// Tell the input activity that the client is closing: the read it is
    /// in is its last.
    EndInput,
    /// Cancel this activity.
    Cancel(Activity),
    /// Wait until the input activity has finished the read it is in.
    AwaitInput,
    /// Close the queue between input and writer.
    CloseQueue,
    /// Leave with this exit code.
    Exit(u8),
}

/// The activity that is not `activity`.
pub open spec fn sibling(activity: Activity) -> Activity {
    match activity {
        Activity::Reader => Activity::Writer,
        Activity::Writer => Activity::Reader,
    }
}

/// The client's shutdown rule: once reader or writer has ended, for
/// whatever reason, the input activity is told that the read it is in is
/// its last, the other of the two is cancelled, the input activity is let
/// to finish that read, the queue is closed, and the client leaves with
/// success.
pub open spec fn shutdown_plan(finished: Activity) -> Seq<Step> {
    seq![
        Step::EndInput,
        Step::Cancel(sibling(finished)),
        Step::AwaitInput,
        Step::CloseQueue,
        Step::Exit(0),
    ]
}

/// What the client does, in order, once `finished` has ended.
pub fn shutdown(finished: Activity) -> (plan: Vec<Step>)
    ensures
        plan@ == shutdown_plan(finished),
{
    let other = match finished {
        Activity::Reader => Activity::Writer,
        Activity::Writer => Activity::Reader,
    };
    let mut plan: Vec<Step> = Vec::new();
    plan.push(Step::EndInput);
    plan.push(Step::Cancel(other));
    plan.push(Step::AwaitInput);
    plan.push(Step::CloseQueue);
    plan.push(Step::Exit(0));
    assert(plan@ =~= shutdown_plan(finished));
    plan
}

} // verus!
