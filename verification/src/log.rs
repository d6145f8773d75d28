//! The activity log: one record per line, written in order and never
//! changed, and read back whole.

use vstd::prelude::*;
use crate::event::{
    event_text, lemma_record_round_trip, names_dash, parse_record, parse_record_in, record_text,
    valid_event, Event, EventModel, ParseError, TimedEvent, TimedEventModel,
};
use crate::text::{
    find, index_of, int_text, is_digit, lemma_index_of, lemma_nat_text, nat_text, push_decimal,
    to_chars,
};

verus! {

/// The line that records `event` at the second `now`: the record and a
/// line feed.
pub open spec fn line_text(now: int, event: EventModel) -> Seq<char> {
    record_text(TimedEventModel { timestamp: now, event }) + seq!['\n']
}

/// The line that records `event` at the second `now`, line feed included.
pub fn record_line(now: u64, event: &Event) -> (line: String)
    ensures
        line@ == line_text(now as int, event@),
{
    let mut out = String::new();
    push_decimal(&mut out, now);
    out.push(' ');
    event.write_to(&mut out);
    out.push('\n');
    proof {
        assert(out@ =~= line_text(now as int, event@));
    }
    out
}

/// The writing end of the log. It opens with a power-on record and closes
/// with a power-off record, after which it records nothing more.
#[derive(Debug)]
pub struct ActivityLog {
    closed: bool,
}

impl ActivityLog {
    /// Whether the power-off record has been written.
    pub closed spec fn is_closed(&self) -> bool {
        self.closed
    }

    /// Opens the log at the second `now`. Returns the log and its first
    /// line, the power-on record.
    pub fn load(now: u64) -> (r: (ActivityLog, String))
        ensures
            !r.0.is_closed(),
            r.1@ == line_text(now as int, EventModel::Power(true)),
    {
        (ActivityLog { closed: false }, record_line(now, &Event::Power(true)))
    }

    /// Whether the log has been closed.
    pub fn closed(&self) -> (r: bool)
        ensures
            r == self.is_closed(),
    {
        self.closed
    }

    /// Records `event` at the second `now`. Returns the line to append, or
    /// `None` where the log has been closed.
    pub fn log(&mut self, event: &Event, now: u64) -> (line: Option<String>)
        ensures
            final(self).is_closed() == old(self).is_closed(),
            old(self).is_closed() ==> line is None,
            !old(self).is_closed() ==> line is Some && line->0@ == line_text(now as int, event@),
    {
        if self.closed {
            None
        } else {
            Some(record_line(now, event))
        }
    }

    /// Closes the log at the second `now`. Returns the power-off record the
    /// first time, and `None` afterwards.
    pub fn close(&mut self, now: u64) -> (line: Option<String>)
        ensures
            final(self).is_closed(),
            old(self).is_closed() ==> line is None,
            !old(self).is_closed() ==> line is Some && line->0@ == line_text(
                now as int,
                EventModel::Power(false),
            ),
    {
        if self.closed {
            None
        } else {
            self.closed = true;
            Some(record_line(now, &Event::Power(false)))
        }
    }
}

/// A line without the carriage return at its end, if it has one.
pub open spec fn strip_cr(line: Seq<char>) -> Seq<char> {
    if line.len() > 0 && line.last() == '\r' {
        line.drop_last()
    } else {
        line
    }
}

/// The lines of a text. A line ends with a line feed, or with a carriage
/// return and a line feed, neither of which belongs to it; what follows
/// the last line feed is a line too, unless it is empty.
pub open spec fn lines(s: Seq<char>) -> Seq<Seq<char>>
    decreases s.len(),
{
    let i = index_of(s, '\n');
    if s.len() == 0 {
        Seq::empty()
    } else if i < 0 || i >= s.len() {
        seq![s]
    } else {
        seq![strip_cr(s.take(i))] + lines(s.skip(i + 1))
    }
}

/// The line that could not be read, counted from 1, and why.
#[derive(Debug, Clone, Copy, PartialEq, Eq, Structural)]
pub struct ReplayError {
    pub line: usize,
    pub error: ParseError,
}

/// The records as models.
pub open spec fn record_models(events: Seq<TimedEvent>) -> Seq<TimedEventModel> {
    events.map_values(|e: TimedEvent| e@)
}

/// Whether `r` is what reading `contents` gives: every record in order
/// where every line can be read, else the first line that cannot, with
/// the reason.
pub open spec fn replays(contents: Seq<char>, r: Result<Vec<TimedEvent>, ReplayError>) -> bool {
    let ls = lines(contents);
    match r {
        Ok(events) => {
            &&& events.len() == ls.len()
            &&& forall|i: int|
                0 <= i < ls.len() ==> parse_record(#[trigger] ls[i]) == Ok::<
                    TimedEventModel,
                    ParseError,
                >(events[i]@)
        },
        Err(e) => {
            &&& 1 <= e.line <= ls.len()
            &&& parse_record(ls[e.line - 1]) == Err::<TimedEventModel, ParseError>(e.error)
            &&& forall|j: int| 0 <= j < e.line - 1 ==> parse_record(#[trigger] ls[j]) is Ok
        },
    }
}

/// Reads a whole log. One line that cannot be read fails the replay.
pub fn replay(contents: &str) -> (r: Result<Vec<TimedEvent>, ReplayError>)
    ensures
        replays(contents@, r),
{
    let chars = to_chars(contents);
    let n = chars.len();
    let ghost s = chars@;
    let mut events: Vec<TimedEvent> = Vec::new();
    let ghost mut done: Seq<Seq<char>> = Seq::empty();
    let mut pos: usize = 0;
    proof {
        assert(s.skip(0) =~= s);
        assert(done + lines(s.skip(0)) =~= lines(s));
    }
    while pos < n
        invariant
            pos <= n,
            n == chars.len(),
            s == chars@,
            s == contents@,
            lines(s) == done + lines(s.skip(pos as int)),
            events.len() == done.len(),
            done.len() <= pos,
            forall|i: int|
                0 <= i < done.len() ==> parse_record(#[trigger] done[i]) == Ok::<
                    TimedEventModel,
                    ParseError,
                >(events[i]@),
        decreases n - pos,
    {
        let ghost rest = s.skip(pos as int);
        let at = find(&chars, pos, n, '\n');
        proof {
            assert(chars@.subrange(pos as int, n as int) =~= rest);
        }
        let end: usize = if at < n && at > pos && chars[at - 1] == '\r' {
            at - 1
        } else {
            at
        };
        let next: usize = if at < n {
            at + 1
        } else {
            n
        };
        let ghost line = chars@.subrange(pos as int, end as int);
        proof {
            if at < n {
                assert(rest.take(at - pos) =~= chars@.subrange(pos as int, at as int));
                assert(line =~= strip_cr(rest.take(at - pos)));
                assert(rest.skip(at - pos + 1) =~= s.skip(next as int));
                assert(lines(rest) == seq![line] + lines(s.skip(next as int)));
            } else {
                assert(line =~= rest);
                assert(s.skip(next as int) =~= Seq::<char>::empty());
                assert(lines(rest) =~= seq![line] + lines(s.skip(next as int)));
            }
            assert(done + (seq![line] + lines(s.skip(next as int))) =~= done.push(line) + lines(
                s.skip(next as int),
            ));
        }
        match parse_record_in(&chars, pos, end) {
            Ok(event) => {
                events.push(event);
                proof {
                    done = done.push(line);
                }
            },
            Err(error) => {
                proof {
                    let ls = lines(s);
                    assert(ls[done.len() as int] == line);
                    assert forall|j: int| 0 <= j < done.len() implies parse_record(
                        #[trigger] ls[j],
                    ) is Ok by {
                        assert(ls[j] == done[j]);
                    }
                }
                return Err(ReplayError { line: events.len() + 1, error });
            },
        }
        pos = next;
    }
    proof {
        assert(s.skip(pos as int) =~= Seq::<char>::empty());
        assert(lines(s) =~= done);
    }
    Ok(events)
}

/// The reading end of the log: the text of a log, to be read whole.
#[derive(Debug)]
pub struct ActivityRead {
    contents: String,
}

impl View for ActivityRead {
    type V = Seq<char>;

    closed spec fn view(&self) -> Seq<char> {
        self.contents@
    }
}

impl ActivityRead {
    /// Takes the text of a log.
    pub fn load(contents: String) -> (r: ActivityRead)
        ensures
            r@ == contents@,
    {
        ActivityRead { contents }
    }

    /// Reads every record, in order. One line that cannot be read fails
    /// the whole replay, with the number of that line.
    pub fn read(&self) -> (r: Result<Vec<TimedEvent>, ReplayError>)
        ensures
            replays(self@, r),
    {
        replay(self.contents.as_str())
    }
}

/// Whether the identifier of the event, if it has one, holds neither a
/// line feed nor a carriage return.
pub open spec fn on_one_line(e: EventModel) -> bool {
    e matches EventModel::SwitchActivity(Some(name)) ==> forall|i: int|
        0 <= i < name.len() ==> name[i] != '\n' && name[i] != '\r'
}

/// Whether a record comes back from the log as it went in: its timestamp
/// is an `i64`, and its identifier, if it has one, is valid, is not `-`
/// and holds no line break.
pub open spec fn replayable(t: TimedEventModel) -> bool {
    &&& i64::MIN <= t.timestamp <= i64::MAX
    &&& valid_event(t.event)
    &&& !names_dash(t.event)
    &&& on_one_line(t.event)
}

/// The text of a log that holds `records`: one line for each, in order.
pub open spec fn log_text(records: Seq<TimedEventModel>) -> Seq<char>
    decreases records.len(),
{
    if records.len() == 0 {
        Seq::empty()
    } else {
        line_text(records[0].timestamp, records[0].event) + log_text(records.skip(1))
    }
}

/// The text of a record whose identifier holds no line break holds none
/// either, and does not end in a carriage return.
pub proof fn lemma_record_on_one_line(t: TimedEventModel)
    requires
        on_one_line(t.event),
    ensures
        record_text(t).len() > 0,
        record_text(t).last() != '\r',
        forall|j: int| 0 <= j < record_text(t).len() ==> record_text(t)[j] != '\n',
{
    let stamp = int_text(t.timestamp);
    let event = event_text(t.event);
    let s = record_text(t);
    if t.timestamp < 0 {
        lemma_nat_text((-t.timestamp) as nat);
    } else {
        lemma_nat_text(t.timestamp as nat);
    }
    assert forall|j: int| 0 <= j < stamp.len() implies stamp[j] != '\n' by {
        if t.timestamp < 0 {
            if j > 0 {
                assert(is_digit(nat_text((-t.timestamp) as nat)[j - 1]));
            }
        } else {
            assert(is_digit(nat_text(t.timestamp as nat)[j]));
        }
    }
    assert(event.len() >= 2);
    assert forall|j: int| 0 <= j < event.len() implies event[j] != '\n' && (j >= 2 ==> event[j]
        != '\r') by {
        match t.event {
            EventModel::SwitchActivity(Some(name)) => {
                if j >= 2 {
                    assert(event[j] == name[j - 2]);
                }
            },
            _ => {},
        }
    }
    assert forall|j: int| 0 <= j < s.len() implies s[j] != '\n' by {
        if j < stamp.len() {
            assert(s[j] == stamp[j]);
        } else if j > stamp.len() {
            assert(s[j] == event[j - stamp.len() - 1]);
        }
    }
    assert(s.last() == event.last());
    if event.len() == 2 {
        assert(event.last() == ' ');
    }
}

/// A text that begins with a line on its own has that line first and the
/// lines of the rest after it.
pub proof fn lemma_lines_first(line: Seq<char>, rest: Seq<char>)
    requires
        forall|j: int| 0 <= j < line.len() ==> line[j] != '\n',
        line.len() == 0 || line.last() != '\r',
    ensures
        lines(line + seq!['\n'] + rest) == seq![line] + lines(rest),
{
    let text = line + seq!['\n'] + rest;
    lemma_index_of(text, '\n', line.len() as int);
    assert(text.take(line.len() as int) =~= line);
    assert(text.skip(line.len() as int + 1) =~= rest);
}

/// The lines of a written log are the texts of its records.
pub proof fn lemma_written_lines(records: Seq<TimedEventModel>)
    requires
        forall|i: int| 0 <= i < records.len() ==> on_one_line(#[trigger] records[i].event),
    ensures
        lines(log_text(records)) == records.map_values(|t: TimedEventModel| record_text(t)),
    decreases records.len(),
{
    let texts = records.map_values(|t: TimedEventModel| record_text(t));
    if records.len() == 0 {
        assert(lines(log_text(records)) =~= texts);
    } else {
        let first = records[0];
        let rest = records.skip(1);
        assert(on_one_line(first.event));
        assert forall|i: int| 0 <= i < rest.len() implies on_one_line(
            #[trigger] rest[i].event,
        ) by {
            assert(rest[i] == records[i + 1]);
        }
        lemma_written_lines(rest);
        lemma_record_on_one_line(first);
        lemma_lines_first(record_text(first), log_text(rest));
        assert(log_text(records) =~= record_text(first) + seq!['\n'] + log_text(rest));
        assert(seq![record_text(first)] + rest.map_values(|t: TimedEventModel| record_text(t))
            =~= texts);
    }
}

/// What was written is what is read: the replay of a log that holds
/// `records` succeeds and gives these records, in order.
pub proof fn lemma_replay_of_written(
    records: Seq<TimedEventModel>,
    r: Result<Vec<TimedEvent>, ReplayError>,
)
    requires
        forall|i: int| 0 <= i < records.len() ==> replayable(#[trigger] records[i]),
        replays(log_text(records), r),
    ensures
        r matches Ok(events) && record_models(events@) == records,
{
    assert forall|i: int| 0 <= i < records.len() implies on_one_line(
        #[trigger] records[i].event,
    ) by {
        assert(replayable(records[i]));
    }
    lemma_written_lines(records);
    let ls = lines(log_text(records));
    assert forall|i: int| 0 <= i < ls.len() implies parse_record(#[trigger] ls[i]) == Ok::<
        TimedEventModel,
        ParseError,
    >(records[i]) by {
        assert(replayable(records[i]));
        lemma_record_round_trip(records[i]);
    }
    match r {
        Ok(events) => {
            assert forall|i: int| 0 <= i < records.len() implies record_models(events@)[i]
                == records[i] by {
                assert(parse_record(ls[i]) == Ok::<TimedEventModel, ParseError>(events@[i]@));
            }
            assert(record_models(events@) =~= records);
        },
        Err(e) => {
            assert(parse_record(ls[e.line - 1]) is Ok);
        },
    }
}

} // verus!
