//! The log of a node: lines are printed at once, or kept in a ring of the
//! last hundred for the dashboard.

use vstd::prelude::*;
use vstd::string::StringExecFns;

verus! {

/// Most lines that the ring keeps; the oldest leaves when one more comes.
pub const MAX_LOG_LINES: usize = 100;

/// The ring after `line` was appended to it.
pub open spec fn ring_after(ring: Seq<Seq<char>>, line: Seq<char>) -> Seq<Seq<char>> {
    if ring.len() + 1 > MAX_LOG_LINES {
        ring.push(line).drop_first()
    } else {
        ring.push(line)
    }
}

/// A line of the ring: the time of day, a blank and the message.
pub open spec fn stamped(stamp: Seq<char>, message: Seq<char>) -> Seq<char> {
    stamp + " "@ + message
}

/// The log of a node.
pub struct Logger {
    logs: Vec<String>,
    tui_mode: bool,
}

impl Logger {
    /// The lines that the ring holds, oldest first.
    pub closed spec fn lines(&self) -> Seq<Seq<char>> {
        self.logs@.map_values(|s: String| s@)
    }

    /// Whether lines are kept for the dashboard and not printed.
    pub closed spec fn keeps(&self) -> bool {
        self.tui_mode
    }

    /// The ring holds at most `MAX_LOG_LINES` lines.
    pub open spec fn wf(&self) -> bool {
        self.lines().len() <= MAX_LOG_LINES
    }

    /// An empty log; `tui_mode` says whether lines are kept for the dashboard.
    pub fn new(tui_mode: bool) -> (l: Self)
        ensures
            l.wf(),
            l.keeps() == tui_mode,
            l.lines() == Seq::<Seq<char>>::empty(),
    {
        let l = Self { logs: Vec::new(), tui_mode };
        assert(l.lines() =~= Seq::empty());
        l
    }

    /// Logs `message`. A logger that keeps its lines appends the message,
    /// with the time of day `stamp` before it, to the ring; any other hands
    /// the message back to be printed.
    pub fn log(&mut self, stamp: &str, message: String) -> (print: Option<String>)
        requires
            old(self).wf(),
        ensures
            final(self).wf(),
            final(self).keeps() == old(self).keeps(),
            old(self).keeps() ==> print is None && final(self).lines() == ring_after(
                old(self).lines(),
                stamped(stamp@, message@),
            ),
            !old(self).keeps() ==> print is Some && print->0@ == message@ && final(self).lines()
                == old(self).lines(),
    {
        if self.tui_mode {
            let line = stamp.to_owned().concat(" ").concat(message.as_str());
            self.logs.push(line);
            if self.logs.len() > MAX_LOG_LINES {
                self.logs.remove(0);
            }
            assert(self.lines() =~= ring_after(old(self).lines(), stamped(stamp@, message@)));
            None
        } else {
            Some(message)
        }
    }

    fn log_with(&mut self, stamp: &str, prefix: &str, message: &str) -> (print: Option<String>)
        requires
            old(self).wf(),
        ensures
            final(self).wf(),
            final(self).keeps() == old(self).keeps(),
            old(self).keeps() ==> print is None && final(self).lines() == ring_after(
                old(self).lines(),
                stamped(stamp@, prefix@ + message@),
            ),
            !old(self).keeps() ==> print is Some && print->0@ == prefix@ + message@
                && final(self).lines() == old(self).lines(),
    {
        self.log(stamp, prefix.to_owned().concat(message))
    }

    /// Logs `message` as it is.
    pub fn info(&mut self, stamp: &str, message: &str) -> (print: Option<String>)
        requires
            old(self).wf(),
        ensures
            final(self).wf(),
            final(self).keeps() == old(self).keeps(),
            old(self).keeps() ==> print is None && final(self).lines() == ring_after(
                old(self).lines(),
                stamped(stamp@, message@),
            ),
            !old(self).keeps() ==> print is Some && print->0@ == message@ && final(self).lines()
                == old(self).lines(),
    {
        self.log(stamp, message.to_owned())
    }

    /// Logs `message` behind the mark of a success.
    pub fn success(&mut self, stamp: &str, message: &str) -> (print: Option<String>)
        requires
            old(self).wf(),
        ensures
            final(self).wf(),
            final(self).keeps() == old(self).keeps(),
            old(self).keeps() ==> print is None && final(self).lines() == ring_after(
                old(self).lines(),
                stamped(stamp@, "✅ "@ + message@),
            ),
            !old(self).keeps() ==> print is Some && print->0@ == "✅ "@ + message@
                && final(self).lines() == old(self).lines(),
    {
        self.log_with(stamp, "✅ ", message)
    }

    /// Logs `message` behind the mark of a warning.
    pub fn warning(&mut self, stamp: &str, message: &str) -> (print: Option<String>)
        requires
            old(self).wf(),
        ensures
            final(self).wf(),
            final(self).keeps() == old(self).keeps(),
            old(self).keeps() ==> print is None && final(self).lines() == ring_after(
                old(self).lines(),
                stamped(stamp@, "⚠️ "@ + message@),
            ),
            !old(self).keeps() ==> print is Some && print->0@ == "⚠️ "@ + message@
                && final(self).lines() == old(self).lines(),
    {
        self.log_with(stamp, "⚠️ ", message)
    }

    /// Logs `message` behind the mark of a failure.
    pub fn error(&mut self, stamp: &str, message: &str) -> (print: Option<String>)
        requires
            old(self).wf(),
        ensures
            final(self).wf(),
            final(self).keeps() == old(self).keeps(),
            old(self).keeps() ==> print is None && final(self).lines() == ring_after(
                old(self).lines(),
                stamped(stamp@, "❌ "@ + message@),
            ),
            !old(self).keeps() ==> print is Some && print->0@ == "❌ "@ + message@
                && final(self).lines() == old(self).lines(),
    {
        self.log_with(stamp, "❌ ", message)
    }

    /// Logs `message` behind the mark of a ping.
    pub fn ping(&mut self, stamp: &str, message: &str) -> (print: Option<String>)
        requires
            old(self).wf(),
        ensures
            final(self).wf(),
            final(self).keeps() == old(self).keeps(),
            old(self).keeps() ==> print is None && final(self).lines() == ring_after(
                old(self).lines(),
                stamped(stamp@, "🏓 "@ + message@),
            ),
            !old(self).keeps() ==> print is Some && print->0@ == "🏓 "@ + message@
                && final(self).lines() == old(self).lines(),
    {
        self.log_with(stamp, "🏓 ", message)
    }

    /// Logs `message` behind the mark of the transport.
    pub fn network(&mut self, stamp: &str, message: &str) -> (print: Option<String>)
        requires
            old(self).wf(),
        ensures
            final(self).wf(),
            final(self).keeps() == old(self).keeps(),
            old(self).keeps() ==> print is None && final(self).lines() == ring_after(
                old(self).lines(),
                stamped(stamp@, "📡 "@ + message@),
            ),
            !old(self).keeps() ==> print is Some && print->0@ == "📡 "@ + message@
                && final(self).lines() == old(self).lines(),
    {
        self.log_with(stamp, "📡 ", message)
    }

    /// Logs `message` behind the mark of the discovery.
    pub fn discovery(&mut self, stamp: &str, message: &str) -> (print: Option<String>)
        requires
            old(self).wf(),
        ensures
            final(self).wf(),
            final(self).keeps() == old(self).keeps(),
            old(self).keeps() ==> print is None && final(self).lines() == ring_after(
                old(self).lines(),
                stamped(stamp@, "🔍 "@ + message@),
            ),
            !old(self).keeps() ==> print is Some && print->0@ == "🔍 "@ + message@
                && final(self).lines() == old(self).lines(),
    {
        self.log_with(stamp, "🔍 ", message)
    }

    /// Logs `message` behind the mark of a connection.
    pub fn connection(&mut self, stamp: &str, message: &str) -> (print: Option<String>)
        requires
            old(self).wf(),
        ensures
            final(self).wf(),
            final(self).keeps() == old(self).keeps(),
            old(self).keeps() ==> print is None && final(self).lines() == ring_after(
                old(self).lines(),
                stamped(stamp@, "🔗 "@ + message@),
            ),
            !old(self).keeps() ==> print is Some && print->0@ == "🔗 "@ + message@
                && final(self).lines() == old(self).lines(),
    {
        self.log_with(stamp, "🔗 ", message)
    }

    /// The lines that the ring holds, oldest first.
    pub fn get_recent_logs(&self) -> (v: Vec<String>)
        ensures
            v@.len() == self.lines().len(),
            forall|i: int| 0 <= i < v@.len() ==> (#[trigger] v@[i])@ == self.lines()[i],
    {
        let mut v: Vec<String> = Vec::new();
        let n = self.logs.len();
        let mut i: usize = 0;
        while i < n
            invariant
                n == self.logs@.len(),
                i <= n,
                v@.len() == i,
                forall|j: int| 0 <= j < i ==> (#[trigger] v@[j])@ == self.logs@[j]@,
            decreases n - i,
        {
            v.push(self.logs[i].clone());
            i += 1;
        }
        v
    }
}

} // verus!
