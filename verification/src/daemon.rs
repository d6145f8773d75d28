//! The tracking daemon's state and the decisions it takes: what each
//! request, presence message and termination signal does to the state, what
//! is answered, and what is written to the log.

use vstd::prelude::*;
use crate::activity::{clone_all, contains, names, valid_key, Activity};
use crate::event::{
    clone_option, lemma_record_well_formed, option_view, parse_record, record_text, valid_event,
    Event, EventModel, TimedEventModel,
};
use crate::ipc::{
    ActivityMessage, IpcRequest, IpcResponse, RequestModel, ResponseModel, Status, StatusModel,
};
use crate::log::{line_text, ActivityLog};

verus! {

/// The state of the daemon, with identifiers as sequences of characters.
pub struct DaemonModel {
    /// The activities that can be switched to.
    pub catalog: Seq<Seq<char>>,
    /// The current activity and the second at which it began; `None` when
    /// idle.
    pub tracking: Option<(Seq<char>, int)>,
    /// The second at which the daemon started.
    pub started: int,
    /// The latest second at which the user was seen to be active.
    pub last_active: int,
    /// Whether the log is still open.
    pub running: bool,
}

impl DaemonModel {
    /// The current activity, if any.
    pub open spec fn current(self) -> Option<Seq<char>> {
        match self.tracking {
            Some((name, since)) => Some(name),
            None => None,
        }
    }

    /// The second from which a status counts: the start of the current
    /// activity, or of the daemon when idle.
    pub open spec fn since(self) -> int {
        match self.tracking {
            Some((name, since)) => since,
            None => self.started,
        }
    }

    /// The state with another current activity.
    pub open spec fn with_tracking(self, tracking: Option<(Seq<char>, int)>) -> DaemonModel {
        DaemonModel {
            catalog: self.catalog,
            tracking,
            started: self.started,
            last_active: self.last_active,
            running: self.running,
        }
    }

    /// The state with another presence timestamp.
    pub open spec fn with_last_active(self, last_active: int) -> DaemonModel {
        DaemonModel {
            catalog: self.catalog,
            tracking: self.tracking,
            started: self.started,
            last_active,
            running: self.running,
        }
    }

    /// The state with the log closed.
    pub open spec fn stopped(self) -> DaemonModel {
        DaemonModel {
            catalog: self.catalog,
            tracking: self.tracking,
            started: self.started,
            last_active: self.last_active,
            running: false,
        }
    }
}

/// What handling a request gives: the next state, the answer, the event
/// to record, if any, and whether the request named an activity that the
/// catalog does not hold.
pub struct Outcome {
    pub state: DaemonModel,
    pub response: ResponseModel,
    pub record: Option<EventModel>,
    pub unknown: bool,
}

/// Whether a switch to `target` changes the state: the log is open, the
/// target is not the current activity, and it is no activity or one of the
/// catalog.
pub open spec fn switch_takes_effect(s: DaemonModel, target: Option<Seq<char>>) -> bool {
    &&& s.running
    &&& target != s.current()
    &&& target matches Some(name) ==> s.catalog.contains(name)
}

/// Whether a switch to `target` asks for an activity other than the
/// current one that the catalog does not hold.
pub open spec fn switch_to_unknown(s: DaemonModel, target: Option<Seq<char>>) -> bool {
    &&& target != s.current()
    &&& target matches Some(name) && !s.catalog.contains(name)
}

/// The state after a switch to `target` at the second `now`.
pub open spec fn switched(s: DaemonModel, target: Option<Seq<char>>, now: int) -> DaemonModel {
    if switch_takes_effect(s, target) {
        match target {
            Some(name) => s.with_tracking(Some((name, now))),
            None => s.with_tracking(None),
        }
    } else {
        s
    }
}

/// The answer to a status request at the second `now`.
pub open spec fn status_of(s: DaemonModel, now: int) -> StatusModel {
    StatusModel { activity: s.current(), duration: now - s.since() }
}

/// What a request does at the second `now`. A switch that takes effect is
/// recorded and changes the current activity; any other switch does
/// nothing and is answered the same. The other requests read the state.
pub open spec fn handle(s: DaemonModel, request: RequestModel, now: int) -> Outcome {
    match request {
        RequestModel::GetActivities => Outcome {
            state: s,
            response: ResponseModel::Activities(s.catalog),
            record: None,
            unknown: false,
        },
        RequestModel::Status => Outcome {
            state: s,
            response: ResponseModel::Status(status_of(s, now)),
            record: None,
            unknown: false,
        },
        RequestModel::Switch(target) => Outcome {
            state: switched(s, target, now),
            response: ResponseModel::Empty,
            record: if switch_takes_effect(s, target) {
                Some(EventModel::SwitchActivity(target))
            } else {
                None
            },
            unknown: switch_to_unknown(s, target),
        },
    }
}

/// The line that records `record` at the second `now`, if there is one.
pub open spec fn record_line_of(record: Option<EventModel>, now: int) -> Option<Seq<char>> {
    match record {
        Some(event) => Some(line_text(now, event)),
        None => None,
    }
}

/// The text of an optional line.
pub open spec fn line_view(line: Option<String>) -> Option<Seq<char>> {
    match line {
        Some(text) => Some(text@),
        None => None,
    }
}

/// The answer to a request, the line to append to the log, if any, and
/// whether the request named an activity that the catalog does not hold,
/// which is worth a note in the daemon's own journal. The line must reach
/// the log before anything else is done with the state.
#[derive(Debug)]
pub struct Reply {
    pub response: IpcResponse,
    pub line: Option<String>,
    pub unknown: bool,
}

/// A reply, with texts as sequences of characters.
pub struct ReplyModel {
    pub response: ResponseModel,
    pub line: Option<Seq<char>>,
    pub unknown: bool,
}

impl View for Reply {
    type V = ReplyModel;

    open spec fn view(&self) -> ReplyModel {
        ReplyModel {
            response: self.response@,
            line: line_view(self.line),
            unknown: self.unknown,
        }
    }
}

/// The reply to a request handled at the second `now`.
pub open spec fn reply_of(s: DaemonModel, request: RequestModel, now: int) -> ReplyModel {
    ReplyModel {
        response: handle(s, request, now).response,
        line: record_line_of(handle(s, request, now).record, now),
        unknown: handle(s, request, now).unknown,
    }
}

/// What the daemon waits for.
#[derive(Debug)]
pub enum DaemonEvent {
    /// A termination signal.
    Terminate,
    /// The request of a client.
    Request(IpcRequest),
    /// A message of the presence daemon.
    Presence(ActivityMessage),
}

/// What the daemon does next.
#[derive(Debug)]
pub enum Action {
    /// Leave the loop; append the line, the power-off record, if there is
    /// one.
    Stop(Option<String>),
    /// Append the line, if there is one, then answer the client.
    Reply(Reply),
    /// Go on waiting.
    Continue,
}

/// An event, with identifiers as sequences of characters.
pub enum DaemonEventModel {
    Terminate,
    Request(RequestModel),
    Presence(ActivityMessage),
}

/// An action, with texts as sequences of characters.
pub enum ActionModel {
    Stop(Option<Seq<char>>),
    Reply(ReplyModel),
    Continue,
}

impl View for DaemonEvent {
    type V = DaemonEventModel;

    open spec fn view(&self) -> DaemonEventModel {
        match *self {
            DaemonEvent::Terminate => DaemonEventModel::Terminate,
            DaemonEvent::Request(request) => DaemonEventModel::Request(request@),
            DaemonEvent::Presence(message) => DaemonEventModel::Presence(message),
        }
    }
}

impl View for Action {
    type V = ActionModel;

    open spec fn view(&self) -> ActionModel {
        match *self {
            Action::Stop(line) => ActionModel::Stop(line_view(line)),
            Action::Reply(reply) => ActionModel::Reply(reply@),
            Action::Continue => ActionModel::Continue,
        }
    }
}

/// The state after an event at the second `now`. A termination signal
/// closes the log; a presence message replaces the presence timestamp,
/// whatever it was; a request does what `handle` says.
pub open spec fn next_state(s: DaemonModel, event: DaemonEventModel, now: int) -> DaemonModel {
    match event {
        DaemonEventModel::Terminate => s.stopped(),
        DaemonEventModel::Request(request) => handle(s, request, now).state,
        DaemonEventModel::Presence(message) => s.with_last_active(message.last_active as int),
    }
}

/// What an event at the second `now` has the log record. The first
/// termination signal records the power-off, a later one nothing; a
/// request records what `handle` says; a presence message nothing.
pub open spec fn recorded(s: DaemonModel, event: DaemonEventModel, now: int) -> Option<
    EventModel,
> {
    match event {
        DaemonEventModel::Terminate => if s.running {
            Some(EventModel::Power(false))
        } else {
            None
        },
        DaemonEventModel::Request(request) => handle(s, request, now).record,
        DaemonEventModel::Presence(message) => None,
    }
}

/// The action that an event at the second `now` calls for.
pub open spec fn next_action(s: DaemonModel, event: DaemonEventModel, now: int) -> ActionModel {
    match event {
        DaemonEventModel::Terminate => ActionModel::Stop(
            record_line_of(recorded(s, event, now), now),
        ),
        DaemonEventModel::Request(request) => ActionModel::Reply(reply_of(s, request, now)),
        DaemonEventModel::Presence(message) => ActionModel::Continue,
    }
}

/// The running activity as a model.
pub open spec fn tracking_model(tracking: Option<(Activity, u64)>) -> Option<(Seq<char>, int)> {
    match tracking {
        Some((activity, since)) => Some((activity@, since as int)),
        None => None,
    }
}

/// The daemon: the catalog of activities, the log, the current activity
/// and the presence timestamp.
#[derive(Debug)]
pub struct Daemon {
    catalog: Vec<Activity>,
    activity_log: ActivityLog,
    started: u64,
    tracking: Option<(Activity, u64)>,
    last_active: u64,
}

impl View for Daemon {
    type V = DaemonModel;

    closed spec fn view(&self) -> DaemonModel {
        DaemonModel {
            catalog: names(self.catalog@),
            tracking: tracking_model(self.tracking),
            started: self.started as int,
            last_active: self.last_active as int,
            running: !self.activity_log.is_closed(),
        }
    }
}

impl Daemon {
    /// A daemon that starts idle at the second `now`, with the user last
    /// seen at that second.
    pub fn new(catalog: Vec<Activity>, activity_log: ActivityLog, now: u64) -> (d: Daemon)
        ensures
            d@ == (DaemonModel {
                catalog: names(catalog@),
                tracking: None,
                started: now as int,
                last_active: now as int,
                running: !activity_log.is_closed(),
            }),
    {
        Daemon { catalog, activity_log, started: now, tracking: None, last_active: now }
    }

    /// The current activity, if any.
    pub fn current(&self) -> (r: Option<Activity>)
        ensures
            option_view(r) == self@.current(),
    {
        match &self.tracking {
            Some((activity, since)) => Some(activity.clone()),
            None => None,
        }
    }

    /// The second from which a status counts.
    pub fn since(&self) -> (r: u64)
        ensures
            r == self@.since(),
    {
        match &self.tracking {
            Some((activity, since)) => *since,
            None => self.started,
        }
    }

    /// The latest second at which the user was seen to be active.
    pub fn last_active(&self) -> (r: u64)
        ensures
            r == self@.last_active,
    {
        self.last_active
    }

    /// Whether the log is still open.
    pub fn running(&self) -> (r: bool)
        ensures
            r == self@.running,
    {
        !self.activity_log.closed()
    }

    /// Whether `target` is the current activity, or none is current and
    /// none is asked for.
    fn is_current(&self, target: &Option<Activity>) -> (r: bool)
        ensures
            r == (option_view(*target) == self@.current()),
    {
        match (&self.tracking, target) {
            (Some((activity, since)), Some(wanted)) => *activity == *wanted,
            (None, None) => true,
            _ => false,
        }
    }

    /// Handles one request at the second `now`: changes the state, and
    /// returns the answer and the line to append to the log. A status can
    /// be asked only at or after the second from which it counts.
    pub fn handle_msg(&mut self, msg: IpcRequest, now: u64) -> (reply: Reply)
        requires
            msg is Status ==> old(self)@.since() <= now,
        ensures
            final(self)@ == handle(old(self)@, msg@, now as int).state,
            reply@ == reply_of(old(self)@, msg@, now as int),
    {
        match msg {
            IpcRequest::GetActivities => Reply {
                response: IpcResponse::Activities(clone_all(&self.catalog)),
                line: None,
                unknown: false,
            },
            IpcRequest::Status => {
                let status = Status::new(self.current(), now - self.since());
                Reply { response: IpcResponse::Status(status), line: None, unknown: false }
            },
            IpcRequest::Switch(target) => {
                let known = match &target {
                    Some(activity) => contains(&self.catalog, activity),
                    None => true,
                };
                let differs = !self.is_current(&target);
                if differs && known && !self.activity_log.closed() {
                    let line = self.activity_log.log(
                        &Event::SwitchActivity(clone_option(&target)),
                        now,
                    );
                    self.tracking =
                    match target {
                        Some(activity) => Some((activity, now)),
                        None => None,
                    };
                    Reply { response: IpcResponse::Empty, line, unknown: false }
                } else {
                    Reply { response: IpcResponse::Empty, line: None, unknown: differs && !known }
                }
            },
        }
    }

    /// Takes the next step of the daemon's loop for `event` at the second
    /// `now`: changes the state and says what to do.
    pub fn step(&mut self, event: DaemonEvent, now: u64) -> (action: Action)
        requires
            event matches DaemonEvent::Request(msg) ==> (msg is Status ==> old(self)@.since()
                <= now),
        ensures
            final(self)@ == next_state(old(self)@, event@, now as int),
            action@ == next_action(old(self)@, event@, now as int),
    {
        match event {
            DaemonEvent::Terminate => Action::Stop(self.activity_log.close(now)),
            DaemonEvent::Request(msg) => Action::Reply(self.handle_msg(msg, now)),
            DaemonEvent::Presence(message) => {
                self.last_active = message.last_active;
                Action::Continue
            },
        }
    }
}

/// Whether the current activity, if any, is one of the catalog.
pub open spec fn current_in_catalog(s: DaemonModel) -> bool {
    s.tracking matches Some((name, since)) ==> s.catalog.contains(name)
}

/// Whether every identifier of the catalog is valid.
pub open spec fn catalog_valid(s: DaemonModel) -> bool {
    forall|i: int| 0 <= i < s.catalog.len() ==> valid_key(#[trigger] s.catalog[i])
}

/// Switching to the activity that is already current, or to none when
/// idle, records nothing and leaves the state as it is.
pub proof fn lemma_switch_to_current(s: DaemonModel, now: int)
    ensures
        handle(s, RequestModel::Switch(s.current()), now) == (Outcome {
            state: s,
            response: ResponseModel::Empty,
            record: None,
            unknown: false,
        }),
{
}

/// Switching to an activity that the catalog does not hold leaves the
/// state as it is, so that a status asked at any later second is answered
/// as it would have been; it records nothing, and is answered as a switch
/// to the current activity is. Unless the activity is the current one, the
/// outcome says that it is unknown.
pub proof fn lemma_switch_to_unknown(s: DaemonModel, name: Seq<char>, now: int, later: int)
    requires
        !s.catalog.contains(name),
    ensures
        handle(s, RequestModel::Switch(Some(name)), now).state == s,
        handle(s, RequestModel::Switch(Some(name)), now).record is None,
        handle(s, RequestModel::Switch(Some(name)), now).unknown == (s.current() != Some(name)),
        handle(s, RequestModel::Switch(Some(name)), now).response == handle(
            s,
            RequestModel::Switch(s.current()),
            now,
        ).response,
        handle(
            handle(s, RequestModel::Switch(Some(name)), now).state,
            RequestModel::Status,
            later,
        ) == handle(s, RequestModel::Status, later),
{
}

/// Two switches handled one after the other, in whichever order they
/// arrive: each records at most its own event, a switch that is recorded
/// decides the current activity until the next one that is, and the
/// activity that is current in the end is the one before, or the target
/// of one of the two.
pub proof fn lemma_two_switches(
    s: DaemonModel,
    a: Option<Seq<char>>,
    b: Option<Seq<char>>,
    t1: int,
    t2: int,
)
    ensures
        ({
            let first = handle(s, RequestModel::Switch(a), t1);
            let second = handle(first.state, RequestModel::Switch(b), t2);
            &&& first.record is None || first.record == Some(EventModel::SwitchActivity(a))
            &&& second.record is None || second.record == Some(EventModel::SwitchActivity(b))
            &&& first.record is Some ==> first.state.current() == a
            &&& first.record is None ==> first.state == s
            &&& second.record is Some ==> second.state.current() == b
            &&& second.record is None ==> second.state == first.state
            &&& second.state.current() == s.current() || second.state.current() == a
                || second.state.current() == b
        }),
{
}

/// What a request records can be read back: its text is that of a record,
/// for a catalog of valid identifiers and a second in the range of `i64`.
pub proof fn lemma_recorded_is_well_formed(s: DaemonModel, request: RequestModel, now: int)
    requires
        catalog_valid(s),
        0 <= now <= i64::MAX,
    ensures
        handle(s, request, now).record matches Some(event) ==> valid_event(event) && parse_record(
            record_text(TimedEventModel { timestamp: now, event }),
        ) is Ok,
{
    match handle(s, request, now).record {
        Some(event) => {
            match event {
                EventModel::SwitchActivity(Some(name)) => {
                    assert(s.catalog.contains(name));
                    let i = choose|i: int| 0 <= i < s.catalog.len() && s.catalog[i] == name;
                    assert(valid_key(s.catalog[i]));
                },
                _ => {},
            }
            lemma_record_well_formed(TimedEventModel { timestamp: now, event });
        },
        None => {},
    }
}

/// The current activity stays one of the catalog, whatever happens.
pub proof fn lemma_current_stays_in_catalog(s: DaemonModel, event: DaemonEventModel, now: int)
    requires
        current_in_catalog(s),
    ensures
        current_in_catalog(next_state(s, event, now)),
        next_state(s, event, now).catalog == s.catalog,
        next_state(s, event, now).started == s.started,
{
}

/// Once the log is closed it stays closed, nothing more is written, and
/// the current activity no longer changes.
pub proof fn lemma_nothing_after_stop(s: DaemonModel, event: DaemonEventModel, now: int)
    requires
        !s.running,
    ensures
        !next_state(s, event, now).running,
        next_state(s, event, now).tracking == s.tracking,
        next_action(s, event, now) matches ActionModel::Stop(line) ==> line is None,
        next_action(s, event, now) matches ActionModel::Reply(reply) ==> reply.line is None,
{
}

/// A presence message replaces the presence timestamp with its own,
/// whether that is later or earlier, and changes nothing else.
pub proof fn lemma_presence(s: DaemonModel, message: ActivityMessage, now: int)
    ensures
        next_state(s, DaemonEventModel::Presence(message), now) == s.with_last_active(
            message.last_active as int,
        ),
        next_action(s, DaemonEventModel::Presence(message), now) == ActionModel::Continue,
{
}

/// The state after a run of events, each with the second at which it is
/// handled.
pub open spec fn state_after(s: DaemonModel, events: Seq<(DaemonEventModel, int)>) -> DaemonModel
    decreases events.len(),
{
    if events.len() == 0 {
        s
    } else {
        next_state(state_after(s, events.drop_last()), events.last().0, events.last().1)
    }
}

/// What a run of events has the log record, in order.
pub open spec fn records_of(s: DaemonModel, events: Seq<(DaemonEventModel, int)>) -> Seq<
    TimedEventModel,
>
    decreases events.len(),
{
    if events.len() == 0 {
        Seq::empty()
    } else {
        let before = records_of(s, events.drop_last());
        match recorded(state_after(s, events.drop_last()), events.last().0, events.last().1) {
            Some(event) => before.push(TimedEventModel { timestamp: events.last().1, event }),
            None => before,
        }
    }
}

/// The activity that the records leave current: the target of the last
/// switch, or `initial` where they hold no switch.
pub open spec fn last_target(initial: Option<Seq<char>>, records: Seq<TimedEventModel>) -> Option<
    Seq<char>,
>
    decreases records.len(),
{
    if records.len() == 0 {
        initial
    } else {
        match records.last().event {
            EventModel::SwitchActivity(target) => target,
            EventModel::Power(on) => last_target(initial, records.drop_last()),
        }
    }
}

/// Whether every record is a switch.
pub open spec fn all_switches(records: Seq<TimedEventModel>) -> bool {
    forall|i: int| 0 <= i < records.len() ==> (#[trigger] records[i]).event is SwitchActivity
}

/// The log tells the state. While the daemon runs, it has recorded only
/// switches, and the current activity is the target of the last of them.
/// Once it has stopped, the last record is the one power-off, and the
/// current activity is still the target of the last switch before it.
pub proof fn lemma_log_tells_state(s: DaemonModel, events: Seq<(DaemonEventModel, int)>)
    requires
        s.running,
    ensures
        ({
            let end = state_after(s, events);
            let records = records_of(s, events);
            if end.running {
                &&& all_switches(records)
                &&& end.current() == last_target(s.current(), records)
            } else {
                &&& records.len() > 0
                &&& records.last().event == EventModel::Power(false)
                &&& all_switches(records.drop_last())
                &&& end.current() == last_target(s.current(), records.drop_last())
            }
        }),
    decreases events.len(),
{
    if events.len() > 0 {
        lemma_log_tells_state(s, events.drop_last());
        let before = state_after(s, events.drop_last());
        let old_records = records_of(s, events.drop_last());
        let records = records_of(s, events);
        match recorded(before, events.last().0, events.last().1) {
            Some(event) => {
                assert(records.drop_last() =~= old_records);
            },
            None => {},
        }
    }
}

} // verus!
