//! The log pane: the last lines, with outcomes joined to the line in progress.

use vstd::prelude::*;
use vstd::string::*;

use crate::gui::ops::{log_views, LogMsg, LogMsgView};
use crate::text::{cat2, same_text, texts};

verus! {

/// How many lines the log keeps.
pub const LOG_LINES: usize = 200;

#[derive(Debug)]
pub struct Log {
    pub lines: Vec<String>,
}

impl View for Log {
    type V = Seq<Seq<char>>;

    open spec fn view(&self) -> Seq<Seq<char>> {
        texts(self.lines@)
    }
}

/// The last lines of a log.
pub open spec fn kept_lines(lines: Seq<Seq<char>>) -> Seq<Seq<char>> {
    if lines.len() > LOG_LINES {
        lines.skip(lines.len() - LOG_LINES)
    } else {
        lines
    }
}

/// The log after one message: an outcome is appended to its line where that is
/// still the newest, and is a line of its own otherwise.
pub open spec fn logged(lines: Seq<Seq<char>>, msg: LogMsgView) -> Seq<Seq<char>> {
    match msg {
        LogMsgView::New(line) => kept_lines(lines.push(line)),
        LogMsgView::Complete { start, suffix, fallback } => if lines.len() > 0 && lines.last()
            == start {
            lines.drop_last().push(lines.last() + suffix)
        } else {
            kept_lines(lines.push(fallback))
        },
    }
}

pub open spec fn all_logged(lines: Seq<Seq<char>>, msgs: Seq<LogMsgView>) -> Seq<Seq<char>>
    decreases msgs.len(),
{
    if msgs.len() == 0 {
        lines
    } else {
        logged(all_logged(lines, msgs.drop_last()), msgs.last())
    }
}

impl Log {
    pub fn new() -> (r: Log)
        ensures
            r@ == Seq::<Seq<char>>::empty(),
    {
        let r = Log { lines: Vec::new() };
        assert(r@ =~= Seq::<Seq<char>>::empty());
        r
    }

    /// Append a line; the oldest lines make room.
    pub fn push(&mut self, line: String)
        ensures
            final(self)@ == kept_lines(old(self)@.push(line@)),
    {
        let ghost all = self@.push(line@);
        self.lines.push(line);
        assert(self@ =~= all.skip(0));
        let ghost mut gone: int = 0;
        while self.lines.len() > LOG_LINES
            invariant
                0 <= gone <= all.len(),
                self@ == all.skip(gone),
                gone > 0 ==> self@.len() >= LOG_LINES,
            decreases self.lines@.len(),
        {
            let ghost before = self.lines@;
            assert(texts(before).len() == before.len());
            self.lines.remove(0);
            proof {
                gone = gone + 1;
                assert(texts(self.lines@) =~= texts(before).skip(1));
                assert(self@ =~= all.skip(gone));
            }
        }
        proof {
            assert(self@.len() == all.len() - gone);
            assert(self@ =~= kept_lines(all));
        }
    }

    /// Log one message of a running operation.
    pub fn apply(&mut self, msg: LogMsg)
        ensures
            final(self)@ == logged(old(self)@, msg@),
    {
        match msg {
            LogMsg::New(line) => self.push(line),
            LogMsg::Complete { start, suffix, fallback } => {
                let n: usize = self.lines.len();
                assert(self@.len() == n);
                if n > 0 && same_text(&self.lines[n - 1], &start) {
                    let ghost before = self@;
                    assert(before.last() == self.lines@[n - 1]@);
                    let whole = cat2(&self.lines[n - 1], &suffix);
                    self.lines.set(n - 1, whole);
                    assert(self@ =~= before.drop_last().push(before.last() + suffix@));
                } else {
                    if n > 0 {
                        assert(self@.last() == self.lines@[n - 1]@);
                    }
                    self.push(fallback);
                }
            },
        }
    }

    /// Log messages in order.
    pub fn apply_all(&mut self, msgs: Vec<LogMsg>)
        ensures
            final(self)@ == all_logged(old(self)@, log_views(msgs@)),
    {
        let ghost all = log_views(msgs@);
        let mut rest = msgs;
        let n: usize = rest.len();
        let mut i: usize = 0;
        assert(rest@ =~= msgs@.skip(0));
        assert(all.take(0) =~= Seq::<LogMsgView>::empty());
        while i < n
            invariant
                n == msgs@.len(),
                i <= n,
                all == log_views(msgs@),
                rest@ == msgs@.skip(i as int),
                self@ == all_logged(old(self)@, all.take(i as int)),
            decreases n - i,
        {
            let msg = rest.remove(0);
            let ghost m = msg@;
            self.apply(msg);
            proof {
                let next = all.take(i as int + 1);
                assert(next.drop_last() =~= all.take(i as int));
                assert(next.last() == m);
                assert(rest@ =~= msgs@.skip(i as int + 1));
            }
            i = i + 1;
        }
        assert(all.take(n as int) =~= all);
    }
}

/// The log never holds more than its limit.
pub proof fn log_stays_short(lines: Seq<Seq<char>>, msg: LogMsgView)
    requires
        lines.len() <= LOG_LINES,
    ensures
        logged(lines, msg).len() <= LOG_LINES,
{
}

/// A transfer's start and its outcome are one line where nothing was logged in
/// between.
pub proof fn outcome_joins_its_line(
    lines: Seq<Seq<char>>,
    start: Seq<char>,
    suffix: Seq<char>,
    fallback: Seq<char>,
)
    ensures
        ({
            let after = all_logged(
                lines,
                seq![
                    LogMsgView::New(start),
                    (LogMsgView::Complete { start, suffix, fallback }),
                ],
            );
            after.len() > 0 && after.last() == start + suffix
        }),
{
    let msgs = seq![LogMsgView::New(start), LogMsgView::Complete { start, suffix, fallback }];
    reveal_with_fuel(all_logged, 3);
    assert(msgs.drop_last() =~= seq![LogMsgView::New(start)]);
    assert(msgs.drop_last().drop_last() =~= Seq::<LogMsgView>::empty());
    let first = kept_lines(lines.push(start));
    assert(first.last() == start);
}

} // verus!
