//! Logged events and the text of one log record.

use vstd::prelude::*;
use crate::activity::{valid_key, Activity};
use crate::text::{
    find, i64_value, index_of, int_text, lemma_index_of, lemma_int_text_value, lemma_nat_text,
    nat_text, parse_i64, push_signed, spells, to_chars, to_string, is_digit,
};

verus! {

/// What an event says, with identifiers as sequences of characters.
pub enum EventModel {
    Power(bool),
    SwitchActivity(Option<Seq<char>>),
}

/// An event and the second at which it was logged.
pub struct TimedEventModel {
    pub timestamp: int,
    pub event: EventModel,
}

/// Something that the log records: the daemon going up or down, or the
/// user switching to an activity (`None`: to no activity).
#[derive(Debug)]
pub enum Event {
    Power(bool),
    SwitchActivity(Option<Activity>),
}

/// An event as read from the log, with its Unix time in seconds.
#[derive(Debug)]
pub struct TimedEvent {
    pub timestamp: i64,
    pub event: Event,
}

/// The identifier of an optional activity.
pub open spec fn option_view(a: Option<Activity>) -> Option<Seq<char>> {
    match a {
        Some(x) => Some(x@),
        None => None,
    }
}

impl View for Event {
    type V = EventModel;

    open spec fn view(&self) -> EventModel {
        match *self {
            Event::Power(on) => EventModel::Power(on),
            Event::SwitchActivity(a) => EventModel::SwitchActivity(option_view(a)),
        }
    }
}

impl View for TimedEvent {
    type V = TimedEventModel;

    open spec fn view(&self) -> TimedEventModel {
        TimedEventModel { timestamp: self.timestamp as int, event: self.event@ }
    }
}

/// A copy of an optional activity.
pub fn clone_option(a: &Option<Activity>) -> (r: Option<Activity>)
    ensures
        r == *a,
{
    match a {
        Some(x) => Some(x.clone()),
        None => None,
    }
}

/// Whether two optional activities name the same thing.
pub fn same_option(a: &Option<Activity>, b: &Option<Activity>) -> (r: bool)
    ensures
        r == (option_view(*a) == option_view(*b)),
{
    match (a, b) {
        (Some(x), Some(y)) => x == y,
        (None, None) => true,
        _ => false,
    }
}

impl Clone for Event {
    fn clone(&self) -> (r: Self)
        ensures
            r == *self,
    {
        match self {
            Event::Power(on) => Event::Power(*on),
            Event::SwitchActivity(a) => Event::SwitchActivity(clone_option(a)),
        }
    }
}

impl PartialEq for Event {
    fn eq(&self, other: &Self) -> (r: bool) {
        match (self, other) {
            (Event::Power(a), Event::Power(b)) => *a == *b,
            (Event::SwitchActivity(a), Event::SwitchActivity(b)) => same_option(a, b),
            _ => false,
        }
    }
}

impl vstd::std_specs::cmp::PartialEqSpecImpl for Event {
    open spec fn obeys_eq_spec() -> bool {
        true
    }

    open spec fn eq_spec(&self, other: &Self) -> bool {
        self@ == other@
    }
}

impl Clone for TimedEvent {
    fn clone(&self) -> (r: Self)
        ensures
            r == *self,
    {
        TimedEvent { timestamp: self.timestamp, event: self.event.clone() }
    }
}

impl PartialEq for TimedEvent {
    fn eq(&self, other: &Self) -> (r: bool) {
        self.timestamp == other.timestamp && self.event == other.event
    }
}

impl vstd::std_specs::cmp::PartialEqSpecImpl for TimedEvent {
    open spec fn obeys_eq_spec() -> bool {
        true
    }

    open spec fn eq_spec(&self, other: &Self) -> bool {
        self@ == other@
    }
}

/// Why a log record could not be read.
#[derive(Debug, Clone, Copy, PartialEq, Eq, Structural)]
pub enum ParseError {
    /// The record holds no space, so no event follows the timestamp.
    MissingEvent,
    /// What stands before the first space is no `i64` in decimal.
    InvalidTimestamp,
    /// The event holds no space, so nothing follows its kind.
    MissingData,
    /// A power event says neither `on` nor `off`.
    InvalidPowerState,
    /// A switch names neither `-` nor a valid identifier.
    InvalidActivity,
    /// The kind is neither `P` nor `A`.
    InvalidKind,
}

/// The text of an event: `P on`, `P off`, `A -`, or `A ` and an identifier.
pub open spec fn event_text(e: EventModel) -> Seq<char> {
    match e {
        EventModel::Power(on) => if on {
            seq!['P', ' ', 'o', 'n']
        } else {
            seq!['P', ' ', 'o', 'f', 'f']
        },
        EventModel::SwitchActivity(target) => match target {
            Some(name) => seq!['A', ' '] + name,
            None => seq!['A', ' ', '-'],
        },
    }
}

/// The text of a log record: the timestamp in decimal, a space, the event.
pub open spec fn record_text(t: TimedEventModel) -> Seq<char> {
    int_text(t.timestamp) + seq![' '] + event_text(t.event)
}

/// The event that a text stands for. The kind is what stands before the
/// first space, the data all that follows it.
pub open spec fn parse_event(s: Seq<char>) -> Result<EventModel, ParseError> {
    let i = index_of(s, ' ');
    if i >= s.len() {
        Err(ParseError::MissingData)
    } else {
        let kind = s.take(i);
        let data = s.skip(i + 1);
        if kind == seq!['P'] {
            if data == seq!['o', 'n'] {
                Ok(EventModel::Power(true))
            } else if data == seq!['o', 'f', 'f'] {
                Ok(EventModel::Power(false))
            } else {
                Err(ParseError::InvalidPowerState)
            }
        } else if kind == seq!['A'] {
            if data == seq!['-'] {
                Ok(EventModel::SwitchActivity(None))
            } else if valid_key(data) {
                Ok(EventModel::SwitchActivity(Some(data)))
            } else {
                Err(ParseError::InvalidActivity)
            }
        } else {
            Err(ParseError::InvalidKind)
        }
    }
}

/// The record that a line stands for. The timestamp is what stands before
/// the first space, the event all that follows it.
pub open spec fn parse_record(s: Seq<char>) -> Result<TimedEventModel, ParseError> {
    let i = index_of(s, ' ');
    if i >= s.len() {
        Err(ParseError::MissingEvent)
    } else {
        match i64_value(s.take(i)) {
            None => Err(ParseError::InvalidTimestamp),
            Some(timestamp) => match parse_event(s.skip(i + 1)) {
                Ok(event) => Ok(TimedEventModel { timestamp, event }),
                Err(e) => Err(e),
            },
        }
    }
}

/// The result of reading an event, as a model.
pub open spec fn event_result(r: Result<Event, ParseError>) -> Result<EventModel, ParseError> {
    match r {
        Ok(e) => Ok(e@),
        Err(e) => Err(e),
    }
}

/// The result of reading a record, as a model.
pub open spec fn record_result(r: Result<TimedEvent, ParseError>) -> Result<
    TimedEventModel,
    ParseError,
> {
    match r {
        Ok(t) => Ok(t@),
        Err(e) => Err(e),
    }
}

/// Reads the characters from `from` up to `to` as an event.
pub fn parse_event_in(chars: &Vec<char>, from: usize, to: usize) -> (r: Result<Event, ParseError>)
    requires
        from <= to <= chars.len(),
    ensures
        event_result(r) == parse_event(chars@.subrange(from as int, to as int)),
{
    let ghost s = chars@.subrange(from as int, to as int);
    let at = find(chars, from, to, ' ');
    if at >= to {
        return Err(ParseError::MissingData);
    }
    proof {
        assert(s.take(at - from) =~= chars@.subrange(from as int, at as int));
        assert(s.skip(at - from + 1) =~= chars@.subrange(at + 1, to as int));
        reveal_strlit("P");
        reveal_strlit("A");
        reveal_strlit("on");
        reveal_strlit("off");
        reveal_strlit("-");
        assert("P"@ =~= seq!['P']);
        assert("A"@ =~= seq!['A']);
        assert("on"@ =~= seq!['o', 'n']);
        assert("off"@ =~= seq!['o', 'f', 'f']);
        assert("-"@ =~= seq!['-']);
    }
    if spells(chars, from, at, "P") {
        if spells(chars, at + 1, to, "on") {
            Ok(Event::Power(true))
        } else if spells(chars, at + 1, to, "off") {
            Ok(Event::Power(false))
        } else {
            Err(ParseError::InvalidPowerState)
        }
    } else if spells(chars, from, at, "A") {
        if spells(chars, at + 1, to, "-") {
            Ok(Event::SwitchActivity(None))
        } else {
            match Activity::new(to_string(chars, at + 1, to)) {
                Ok(a) => Ok(Event::SwitchActivity(Some(a))),
                Err(_) => Err(ParseError::InvalidActivity),
            }
        }
    } else {
        Err(ParseError::InvalidKind)
    }
}

/// Reads the characters from `from` up to `to` as a log record.
pub fn parse_record_in(chars: &Vec<char>, from: usize, to: usize) -> (r: Result<
    TimedEvent,
    ParseError,
>)
    requires
        from <= to <= chars.len(),
    ensures
        record_result(r) == parse_record(chars@.subrange(from as int, to as int)),
{
    let ghost s = chars@.subrange(from as int, to as int);
    let at = find(chars, from, to, ' ');
    if at >= to {
        return Err(ParseError::MissingEvent);
    }
    proof {
        assert(s.take(at - from) =~= chars@.subrange(from as int, at as int));
        assert(s.skip(at - from + 1) =~= chars@.subrange(at + 1, to as int));
    }
    let timestamp = match parse_i64(chars, from, at) {
        Some(t) => t,
        None => {
            return Err(ParseError::InvalidTimestamp);
        },
    };
    match parse_event_in(chars, at + 1, to) {
        Ok(event) => Ok(TimedEvent { timestamp, event }),
        Err(e) => Err(e),
    }
}

impl Event {
    /// The text of the event as the log holds it.
    pub fn to_string(&self) -> (s: String)
        ensures
            s@ == event_text(self@),
    {
        let mut out = String::new();
        self.write_to(&mut out);
        out
    }

    /// Appends the text of the event.
    pub fn write_to(&self, out: &mut String)
        ensures
            final(out)@ == old(out)@ + event_text(self@),
    {
        proof {
            reveal_strlit("P on");
            reveal_strlit("P off");
            reveal_strlit("A -");
            reveal_strlit("A ");
            assert("P on"@ =~= seq!['P', ' ', 'o', 'n']);
            assert("P off"@ =~= seq!['P', ' ', 'o', 'f', 'f']);
            assert("A -"@ =~= seq!['A', ' ', '-']);
            assert("A "@ =~= seq!['A', ' ']);
        }
        match self {
            Event::Power(on) => {
                if *on {
                    out.append("P on");
                } else {
                    out.append("P off");
                }
            },
            Event::SwitchActivity(target) => {
                match target {
                    Some(a) => {
                        out.append("A ");
                        out.append(a.as_str());
                        proof {
                            assert(old(out)@ + seq!['A', ' '] + a@ =~= old(out)@ + (seq!['A', ' ']
                                + a@));
                        }
                    },
                    None => {
                        out.append("A -");
                    },
                }
            },
        }
    }

    /// Reads an event from its text.
    pub fn from_str(s: &str) -> (r: Result<Event, ParseError>)
        ensures
            event_result(r) == parse_event(s@),
    {
        let chars = to_chars(s);
        proof {
            assert(chars@.subrange(0, chars.len() as int) =~= s@);
        }
        parse_event_in(&chars, 0, chars.len())
    }
}

impl TimedEvent {
    /// The text of the record as the log holds it, without a line ending.
    pub fn to_string(&self) -> (s: String)
        ensures
            s@ == record_text(self@),
    {
        let mut out = String::new();
        push_signed(&mut out, self.timestamp);
        out.push(' ');
        self.event.write_to(&mut out);
        proof {
            assert(int_text(self.timestamp as int).push(' ') + event_text(self.event@)
                =~= record_text(self@));
        }
        out
    }

    /// Reads a record from one line of the log.
    pub fn from_str(s: &str) -> (r: Result<TimedEvent, ParseError>)
        ensures
            record_result(r) == parse_record(s@),
    {
        let chars = to_chars(s);
        proof {
            assert(chars@.subrange(0, chars.len() as int) =~= s@);
        }
        parse_record_in(&chars, 0, chars.len())
    }
}

/// Whether the identifier of the event, if it has one, is valid.
pub open spec fn valid_event(e: EventModel) -> bool {
    e matches EventModel::SwitchActivity(Some(name)) ==> valid_key(name)
}

/// Whether the event is a switch to the activity named `-`, whose text is
/// that of a switch to no activity.
pub open spec fn names_dash(e: EventModel) -> bool {
    e == EventModel::SwitchActivity(Some(seq!['-']))
}

/// Reading the text of an event gives the event back: for a power-on, a
/// power-off, a switch to no activity and a switch to any activity with a
/// valid identifier other than `-`.
pub proof fn lemma_event_round_trip(e: EventModel)
    requires
        valid_event(e),
        !names_dash(e),
    ensures
        parse_event(event_text(e)) == Ok::<EventModel, ParseError>(e),
{
    let s = event_text(e);
    lemma_index_of(s, ' ', 1);
    match e {
        EventModel::Power(on) => {
            if on {
                assert(s.take(1) =~= seq!['P']);
                assert(s.skip(2) =~= seq!['o', 'n']);
            } else {
                assert(s.take(1) =~= seq!['P']);
                assert(s.skip(2) =~= seq!['o', 'f', 'f']);
                assert(s.skip(2) != seq!['o', 'n']) by {
                    assert(s.skip(2).len() == 3);
                }
            }
        },
        EventModel::SwitchActivity(target) => {
            assert(s.take(1) =~= seq!['A']);
            assert(seq!['A'] != seq!['P']) by {
                assert(seq!['A'][0] != seq!['P'][0]);
            }
            match target {
                Some(name) => {
                    assert(s.skip(2) =~= name);
                },
                None => {
                    assert(s.skip(2) =~= seq!['-']);
                },
            }
        },
    }
}

/// A valid identifier other than `-` comes back from the text of a switch
/// to it.
pub proof fn lemma_activity_round_trip(name: Seq<char>)
    requires
        valid_key(name),
        name != seq!['-'],
    ensures
        parse_event(event_text(EventModel::SwitchActivity(Some(name)))) == Ok::<
            EventModel,
            ParseError,
        >(EventModel::SwitchActivity(Some(name))),
{
    lemma_event_round_trip(EventModel::SwitchActivity(Some(name)));
}

/// The decimal text of an integer holds no space.
pub proof fn lemma_int_text_no_space(v: int)
    ensures
        forall|j: int| 0 <= j < int_text(v).len() ==> int_text(v)[j] != ' ',
{
    if v < 0 {
        lemma_nat_text((-v) as nat);
        let n = nat_text((-v) as nat);
        assert forall|j: int| 0 <= j < int_text(v).len() implies int_text(v)[j] != ' ' by {
            if j > 0 {
                assert(int_text(v)[j] == n[j - 1]);
                assert(is_digit(n[j - 1]));
            }
        }
    } else {
        lemma_nat_text(v as nat);
        let n = nat_text(v as nat);
        assert forall|j: int| 0 <= j < int_text(v).len() implies int_text(v)[j] != ' ' by {
            assert(is_digit(n[j]));
        }
    }
}

/// Reading the text of a record gives the record back, for a timestamp in
/// the range of `i64` and an event that its own text gives back.
pub proof fn lemma_record_round_trip(t: TimedEventModel)
    requires
        i64::MIN <= t.timestamp <= i64::MAX,
        valid_event(t.event),
        !names_dash(t.event),
    ensures
        parse_record(record_text(t)) == Ok::<TimedEventModel, ParseError>(t),
{
    let s = record_text(t);
    let stamp = int_text(t.timestamp);
    lemma_int_text_no_space(t.timestamp);
    lemma_index_of(s, ' ', stamp.len() as int);
    assert(s.take(stamp.len() as int) =~= stamp);
    assert(s.skip(stamp.len() as int + 1) =~= event_text(t.event));
    lemma_int_text_value(t.timestamp);
    lemma_event_round_trip(t.event);
}

/// The text of a record can always be read as a record, for a timestamp
/// in the range of `i64` and an event whose identifier, if any, is valid.
pub proof fn lemma_record_well_formed(t: TimedEventModel)
    requires
        i64::MIN <= t.timestamp <= i64::MAX,
        valid_event(t.event),
    ensures
        parse_record(record_text(t)) is Ok,
{
    let s = record_text(t);
    let stamp = int_text(t.timestamp);
    lemma_int_text_no_space(t.timestamp);
    lemma_index_of(s, ' ', stamp.len() as int);
    assert(s.take(stamp.len() as int) =~= stamp);
    assert(s.skip(stamp.len() as int + 1) =~= event_text(t.event));
    lemma_int_text_value(t.timestamp);
    if names_dash(t.event) {
        let e = event_text(t.event);
        lemma_index_of(e, ' ', 1);
        assert(e.take(1) =~= seq!['A']);
        assert(seq!['A'] != seq!['P']) by {
            assert(seq!['A'][0] != seq!['P'][0]);
        }
        assert(e.skip(2) =~= seq!['-']);
    } else {
        lemma_event_round_trip(t.event);
    }
}

} // verus!
