//! Frames shared by the sidecars' control channels: command acknowledgements,
//! log lines, and the bounded ring of recent log lines a freshly connected
//! panel is replayed.

use vstd::prelude::*;

use crate::text::owned;

verus! {

broadcast use vstd::string::group_string_axioms;

/// Acknowledgement of a control command.
pub struct AckFrame {
    pub cmd: String,
    pub ok: bool,
    pub message: String,
}

/// Build an acknowledgement.
pub fn ack(cmd: &str, ok: bool, message: &str) -> (a: AckFrame)
    ensures
        a.cmd@ == cmd@,
        a.ok == ok,
        a.message@ == message@,
{
    AckFrame { cmd: owned(cmd), ok, message: owned(message) }
}

/// A log line pushed to the panel.
pub struct LogFrame {
    /// `stdout`, `stderr`, or the sidecar's own stream.
    pub stream: &'static str,
    pub line: String,
}

/// One buffered log line.
pub struct LogLine {
    pub stream: &'static str,
    pub line: String,
}

impl LogLine {
    pub open spec fn view(&self) -> (Seq<char>, Seq<char>) {
        (self.stream@, self.line@)
    }
}

/// How many recent log lines are kept.
pub const LOG_RING_CAP: usize = 200;

/// View of buffered log lines.
pub open spec fn lines_view(v: Seq<LogLine>) -> Seq<(Seq<char>, Seq<char>)> {
    v.map_values(|l: LogLine| l.view())
}

/// The most recent log lines, oldest first, at most [`LOG_RING_CAP`].
pub struct LogRing {
    lines: Vec<LogLine>,
}

impl LogRing {
    /// The buffered lines as `(stream, line)` pairs, oldest first.
    pub closed spec fn view(&self) -> Seq<(Seq<char>, Seq<char>)> {
        lines_view(self.lines@)
    }

    /// An empty ring.
    pub fn new() -> (r: LogRing)
        ensures
            r@ == Seq::<(Seq<char>, Seq<char>)>::empty(),
    {
        let r = LogRing { lines: Vec::new() };
        assert(r@ =~= Seq::<(Seq<char>, Seq<char>)>::empty());
        r
    }

    /// Append a line, dropping the oldest when the ring is full.
    pub fn push(&mut self, stream: &'static str, line: String)
        ensures
            final(self)@ == (if old(self)@.len() >= LOG_RING_CAP {
                old(self)@.drop_first()
            } else {
                old(self)@
            }).push((stream@, line@)),
            old(self)@.len() <= LOG_RING_CAP ==> final(self)@.len() <= LOG_RING_CAP,
    {
        let ghost before = self.lines@;
        if self.lines.len() >= LOG_RING_CAP {
            let _ = self.lines.remove(0);
            assert(lines_view(self.lines@) =~= lines_view(before).drop_first());
        }
        let ghost mid = self.lines@;
        self.lines.push(LogLine { stream, line });
        assert(lines_view(self.lines@) =~= lines_view(mid).push((stream@, line@)));
    }

    /// The buffered lines, oldest first.
    pub fn lines(&self) -> (s: &[LogLine])
        ensures
            lines_view(s@) == self@,
    {
        self.lines.as_slice()
    }
}

/// Law: the ring never holds more than [`LOG_RING_CAP`] lines, and after a
/// push its last line is the one pushed.
pub proof fn lemma_ring_push(before: Seq<(Seq<char>, Seq<char>)>, entry: (Seq<char>, Seq<char>))
    requires
        before.len() <= LOG_RING_CAP,
    ensures
        ({
            let after = (if before.len() >= LOG_RING_CAP {
                before.drop_first()
            } else {
                before
            }).push(entry);
            &&& after.len() <= LOG_RING_CAP
            &&& after.last() == entry
            &&& after.drop_last() == before.skip(before.len() + 1 - after.len())
        }),
{
    let after = (if before.len() >= LOG_RING_CAP {
        before.drop_first()
    } else {
        before
    }).push(entry);
    if before.len() >= LOG_RING_CAP {
        assert(after.drop_last() =~= before.skip(1));
    } else {
        assert(after.drop_last() =~= before.skip(0));
    }
}

} // verus!
