//! Framing: cutting the bytes that arrive on a connection into lines.
//!
//! Bytes come in whatever pieces the network delivers them. A `Framer`
//! collects them and hands out one line at a time: the bytes up to and
//! including the next newline.

use crate::wire::{Incoming, IncomingView};
use std::collections::VecDeque;
use vstd::prelude::*;
use vstd::utf8::{decode_utf8, valid_utf8};

verus! {

/// The byte that ends a line.
pub const NEWLINE: u8 = 10;

/// Whether `line` is one whole line: it ends with a newline and holds no
/// other.
pub open spec fn is_line(line: Seq<u8>) -> bool {
    &&& line.len() > 0
    &&& line.last() == NEWLINE
    &&& !line.drop_last().contains(NEWLINE)
}

/// What a framer has to offer.
#[derive(Debug, PartialEq, Eq)]
pub enum Frame {
    /// The next line, with the newline that ends it.
    Line(Vec<u8>),
    /// No whole line has arrived yet.
    Incomplete,
    /// The connection has ended and no whole line is left. Bytes that came
    /// behind the last newline are no line, and are dropped.
    End,
}

/// What a `Frame` stands for in contracts.
pub ghost enum FrameView {
    Line(Seq<u8>),
    Incomplete,
    End,
}

impl View for Frame {
    type V = FrameView;

    open spec fn view(&self) -> FrameView {
        match self {
            Frame::Line(line) => FrameView::Line(line@),
            Frame::Incomplete => FrameView::Incomplete,
            Frame::End => FrameView::End,
        }
    }
}

/// The text that `String::from_utf8_lossy` makes of `bytes`: the characters
/// that the bytes encode where they are UTF-8, and a best effort where they
/// are not.
pub uninterp spec fn lossy_text(bytes: Seq<u8>) -> Seq<char>;

/// Whether `text` is what `bytes` read as.
pub open spec fn reads_as(bytes: Seq<u8>, text: Seq<char>) -> bool {
    &&& text == lossy_text(bytes)
    &&& valid_utf8(bytes) ==> text == decode_utf8(bytes)
}

/// Calls `String::from_utf8_lossy` and takes the text as a `String`. What
/// comes back depends on the bytes alone, and for bytes that are UTF-8 it
/// is the characters they encode. Assumed, not proved; of what comes back
/// for other bytes, where the standard library puts U+FFFD in place of what
/// it cannot decode, nothing more is assumed.
#[verifier::external_body]
fn decode_lossy(bytes: &[u8]) -> (text: String)
    ensures
        text@ == lossy_text(bytes@),
        valid_utf8(bytes@) ==> text@ == decode_utf8(bytes@),
{
    String::from_utf8_lossy(bytes).into_owned()
}

/// No stream of bytes begins with two different lines: the first line is
/// the shortest run that ends with a newline.
pub proof fn law_first_line_is_unique(
    line: Seq<u8>,
    rest: Seq<u8>,
    other: Seq<u8>,
    other_rest: Seq<u8>,
)
    requires
        is_line(line),
        is_line(other),
        line + rest == other + other_rest,
    ensures
        line == other,
        rest == other_rest,
{
    let stream = line + rest;
    if line.len() < other.len() {
        let i = line.len() - 1;
        assert(stream[i] == line[i]);
        assert((other + other_rest)[i] == other.drop_last()[i]);
    } else if other.len() < line.len() {
        let i = other.len() - 1;
        assert((other + other_rest)[i] == other[i]);
        assert(stream[i] == line.drop_last()[i]);
    }
    assert(line =~= stream.subrange(0, line.len() as int));
    assert(other =~= (other + other_rest).subrange(0, other.len() as int));
    assert(rest =~= stream.subrange(line.len() as int, stream.len() as int));
    assert(other_rest =~= (other + other_rest).subrange(
        other.len() as int,
        stream.len() as int,
    ));
}

/// The bytes received on a connection and not yet handed out as lines.
pub struct Framer {
    pending: VecDeque<u8>,
    scanned: usize,
}

impl View for Framer {
    type V = Seq<u8>;

    closed spec fn view(&self) -> Seq<u8> {
        self.pending@
    }
}

impl Framer {
    /// The first `scanned` bytes are known to hold no newline.
    #[verifier::type_invariant]
    spec fn wf(self) -> bool {
        &&& self.scanned <= self.pending@.len()
        &&& forall|k: int| 0 <= k < self.scanned ==> self.pending@[k] != NEWLINE
    }

    /// A framer that has not received anything.
    pub fn new() -> (framer: Framer)
        ensures
            framer@ == Seq::<u8>::empty(),
    {
        Framer { pending: VecDeque::new(), scanned: 0 }
    }

    /// Takes in bytes that have arrived, behind those already there.
    pub fn feed(&mut self, bytes: &[u8])
        ensures
            final(self)@ == old(self)@ + bytes@,
    {
        proof {
            use_type_invariant(&*self);
        }
        let scanned: usize = self.scanned;
        self.scanned = 0;
        let mut pending: VecDeque<u8> = VecDeque::new();
        std::mem::swap(&mut pending, &mut self.pending);
        let ghost before = pending@;
        let n: usize = bytes.len();
        let mut i: usize = 0;
        while i < n
            invariant
                i <= n,
                n == bytes@.len(),
                pending@ == before + bytes@.subrange(0, i as int),
            decreases n - i,
        {
            pending.push_back(bytes[i]);
            i += 1;
            assert(pending@ =~= before + bytes@.subrange(0, i as int));
        }
        assert(bytes@.subrange(0, n as int) =~= bytes@);
        std::mem::swap(&mut pending, &mut self.pending);
        self.scanned = scanned;
    }

    /// Hands out what comes next, given whether the connection has `ended`.
    /// As long as a whole line is there, that is the next line, and the
    /// bytes behind it stay. Failing that, an open connection has nothing
    /// yet; one that has ended has come to its end, and what it left
    /// behind its last newline is dropped.
    pub fn poll(&mut self, ended: bool) -> (frame: Frame)
        ensures
            match frame@ {
                FrameView::Line(line) => is_line(line) && old(self)@ == line + final(self)@,
                FrameView::Incomplete => {
                    &&& !ended
                    &&& !old(self)@.contains(NEWLINE)
                    &&& final(self)@ == old(self)@
                },
                FrameView::End => {
                    &&& ended
                    &&& !old(self)@.contains(NEWLINE)
                    &&& final(self)@.len() == 0
                },
            },
    {
        match self.next_line() {
            Some(line) => Frame::Line(line),
            None => {
                if ended {
                    self.discard();
                    Frame::End
                } else {
                    Frame::Incomplete
                }
            },
        }
    }

    /// What reading a line from the connection gives, given whether the
    /// connection has `ended`: the next line as text, the end of the
    /// connection, or nothing as long as the line is incomplete. Bytes that
    /// are not UTF-8 do not fail the read. A line that the end of the
    /// connection cuts short is no line: the read gives the end.
    pub fn read(&mut self, ended: bool) -> (r: Option<Incoming>)
        ensures
            match r {
                Some(incoming) => match incoming@ {
                    IncomingView::Line(text) => exists|line: Seq<u8>|
                        {
                            &&& old(self)@ == #[trigger] (line + final(self)@)
                            &&& is_line(line)
                            &&& reads_as(line, text)
                        },
                    IncomingView::Eof => {
                        &&& ended
                        &&& !old(self)@.contains(NEWLINE)
                        &&& final(self)@.len() == 0
                    },
                    IncomingView::Failed => false,
                },
                None => {
                    &&& !ended
                    &&& !old(self)@.contains(NEWLINE)
                    &&& final(self)@ == old(self)@
                },
            },
    {
        match self.poll(ended) {
            Frame::Line(line) => Some(Incoming::Line(decode_lossy(line.as_slice()))),
            Frame::Incomplete => None,
            Frame::End => Some(Incoming::Eof),
        }
    }

    /// Hands out the next line, newline included, if a whole one has
    /// arrived; the bytes behind it stay. Without a newline among the bytes
    /// there is no line yet, and nothing changes.
    fn next_line(&mut self) -> (r: Option<Vec<u8>>)
        ensures
            match r {
                Some(line) => is_line(line@) && old(self)@ == line@ + final(self)@,
                None => !old(self)@.contains(NEWLINE) && final(self)@ == old(self)@,
            },
    {
        proof {
            use_type_invariant(&*self);
        }
        let n: usize = self.pending.len();
        let mut end: usize = self.scanned;
        while end < n && self.pending[end] != NEWLINE
            invariant
                end <= n,
                n == self.pending@.len(),
                forall|k: int| 0 <= k < end ==> self.pending@[k] != NEWLINE,
            decreases n - end,
        {
            end += 1;
        }
        if end == n {
            self.scanned = n;
            return None;
        }
        self.scanned = 0;
        let mut pending: VecDeque<u8> = VecDeque::new();
        std::mem::swap(&mut pending, &mut self.pending);
        let ghost before = pending@;
        let mut line: Vec<u8> = Vec::new();
        let mut k: usize = 0;
        while k <= end
            invariant
                k <= end + 1,
                end < n,
                n == before.len(),
                line@ == before.subrange(0, k as int),
                pending@ == before.subrange(k as int, before.len() as int),
            decreases end + 1 - k,
        {
            match pending.pop_front() {
                Some(byte) => {
                    line.push(byte);
                },
                None => {},
            }
            k += 1;
            assert(line@ =~= before.subrange(0, k as int));
            assert(pending@ =~= before.subrange(k as int, before.len() as int));
        }
        assert(before =~= line@ + pending@);
        assert(line@.last() == before[end as int]);
        std::mem::swap(&mut pending, &mut self.pending);
        Some(line)
    }

    /// Drops whatever has arrived and was not handed out.
    fn discard(&mut self)
        ensures
            final(self)@ == Seq::<u8>::empty(),
    {
        self.scanned = 0;
        let mut pending: VecDeque<u8> = VecDeque::new();
        std::mem::swap(&mut pending, &mut self.pending);
    }
}

} // verus!
