//! What travels between the daemon and its clients, and from the presence
//! daemon to the tracking daemon.

use vstd::prelude::*;
use crate::activity::{clone_all, names, same_all, Activity};
use crate::event::{clone_option, option_view, same_option};
use crate::text::{nat_text, push_decimal};

verus! {

/// The latest second at which the user was seen to be active.
#[derive(Debug, Clone, Copy, PartialEq, Eq, Structural)]
pub struct ActivityMessage {
    pub last_active: u64,
}

/// The current activity and for how many seconds it has lasted, with the
/// identifier as a sequence of characters.
pub struct StatusModel {
    pub activity: Option<Seq<char>>,
    pub duration: int,
}

/// A request, with identifiers as sequences of characters.
pub enum RequestModel {
    Status,
    Switch(Option<Seq<char>>),
    GetActivities,
}

/// A response, with identifiers as sequences of characters.
pub enum ResponseModel {
    Empty,
    Status(StatusModel),
    Activities(Seq<Seq<char>>),
}

/// The current activity, if any, and for how many seconds it has lasted.
#[derive(Debug)]
pub struct Status {
    activity: Option<Activity>,
    duration: u64,
}

/// What a client asks of the daemon.
#[derive(Debug)]
pub enum IpcRequest {
    Status,
    Switch(Option<Activity>),
    GetActivities,
}

/// What the daemon answers.
#[derive(Debug)]
pub enum IpcResponse {
    Empty,
    Status(Status),
    Activities(Vec<Activity>),
}

impl View for Status {
    type V = StatusModel;

    closed spec fn view(&self) -> StatusModel {
        StatusModel { activity: option_view(self.activity), duration: self.duration as int }
    }
}

impl View for IpcRequest {
    type V = RequestModel;

    open spec fn view(&self) -> RequestModel {
        match *self {
            IpcRequest::Status => RequestModel::Status,
            IpcRequest::Switch(target) => RequestModel::Switch(option_view(target)),
            IpcRequest::GetActivities => RequestModel::GetActivities,
        }
    }
}

impl View for IpcResponse {
    type V = ResponseModel;

    open spec fn view(&self) -> ResponseModel {
        match *self {
            IpcResponse::Empty => ResponseModel::Empty,
            IpcResponse::Status(status) => ResponseModel::Status(status@),
            IpcResponse::Activities(activities) => ResponseModel::Activities(names(activities@)),
        }
    }
}

/// A number below one hundred in two digits, a longer one as it is.
pub open spec fn two_digits(n: nat) -> Seq<char> {
    if n < 10 {
        seq!['0'] + nat_text(n)
    } else {
        nat_text(n)
    }
}

/// The days of a duration, where it has any: the number, `d` and a space.
pub open spec fn days_text(seconds: nat) -> Seq<char> {
    if seconds / 86400 > 0 {
        nat_text(seconds / 86400) + seq!['d', ' ']
    } else {
        Seq::empty()
    }
}

/// The hours of a duration beyond its days, where it has any: two digits
/// and a colon.
pub open spec fn hours_text(seconds: nat) -> Seq<char> {
    if seconds % 86400 / 3600 > 0 {
        two_digits(seconds % 86400 / 3600) + seq![':']
    } else {
        Seq::empty()
    }
}

/// A duration as text: the days if there are any, the hours if there are
/// any, then minutes and seconds in two digits each.
pub open spec fn duration_text(seconds: nat) -> Seq<char> {
    days_text(seconds) + hours_text(seconds) + two_digits(seconds % 3600 / 60) + seq![':']
        + two_digits(seconds % 60)
}

/// The name under which a status shows its activity.
pub open spec fn activity_text(activity: Option<Seq<char>>) -> Seq<char> {
    match activity {
        Some(name) => name,
        None => seq!['(', 'n', 'o', ' ', 'a', 'c', 't', 'i', 'v', 'i', 't', 'y', ')'],
    }
}

/// A status as text: the activity, a space, the duration.
pub open spec fn status_text(status: StatusModel) -> Seq<char> {
    activity_text(status.activity) + seq![' '] + duration_text(status.duration as nat)
}

/// Appends `n` in at least two digits.
fn push_two_digits(out: &mut String, n: u64)
    ensures
        final(out)@ == old(out)@ + two_digits(n as nat),
{
    if n < 10 {
        out.push('0');
    }
    push_decimal(out, n);
    proof {
        if n < 10 {
            assert(old(out)@.push('0') + nat_text(n as nat) =~= old(out)@ + two_digits(n as nat));
        }
    }
}

/// Appends the days of a duration, where it has any.
fn push_days(out: &mut String, seconds: u64)
    ensures
        final(out)@ == old(out)@ + days_text(seconds as nat),
{
    let days = seconds / 86400;
    if days > 0 {
        push_decimal(out, days);
        out.push('d');
        out.push(' ');
    }
    assert(out@ =~= old(out)@ + days_text(seconds as nat));
}

/// Appends the hours of a duration beyond its days, where it has any.
fn push_hours(out: &mut String, seconds: u64)
    ensures
        final(out)@ == old(out)@ + hours_text(seconds as nat),
{
    let hours = seconds % 86400 / 3600;
    if hours > 0 {
        push_two_digits(out, hours);
        out.push(':');
    }
    assert(out@ =~= old(out)@ + hours_text(seconds as nat));
}

/// Appends a duration of `seconds`: `3d 04:05:06`, without the days or the
/// hours where there are none.
pub fn format_duration(out: &mut String, seconds: u64)
    ensures
        final(out)@ == old(out)@ + duration_text(seconds as nat),
{
    push_days(out, seconds);
    push_hours(out, seconds);
    push_two_digits(out, seconds % 3600 / 60);
    out.push(':');
    push_two_digits(out, seconds % 60);
    assert(out@ =~= old(out)@ + duration_text(seconds as nat));
}

impl Status {
    /// A status of `activity`, which has lasted `duration` seconds.
    pub fn new(activity: Option<Activity>, duration: u64) -> (s: Self)
        ensures
            s@ == (StatusModel { activity: option_view(activity), duration: duration as int }),
    {
        Status { activity, duration }
    }

    /// The activity.
    pub fn activity(&self) -> (a: &Option<Activity>)
        ensures
            option_view(*a) == self@.activity,
    {
        &self.activity
    }

    /// The seconds that the activity has lasted.
    pub fn duration(&self) -> (d: u64)
        ensures
            d == self@.duration,
    {
        self.duration
    }

    /// The status as a client shows it: the activity, or `(no activity)`,
    /// then a space and the duration.
    pub fn to_string(&self) -> (s: String)
        ensures
            s@ == status_text(self@),
    {
        let mut out = String::new();
        proof {
            reveal_strlit("(no activity)");
            assert("(no activity)"@ =~= activity_text(None));
        }
        match &self.activity {
            Some(a) => {
                out.append(a.as_str());
            },
            None => {
                out.append("(no activity)");
            },
        }
        out.push(' ');
        format_duration(&mut out, self.duration);
        proof {
            assert(out@ =~= status_text(self@));
        }
        out
    }
}

impl Clone for Status {
    fn clone(&self) -> (r: Self)
        ensures
            r == *self,
    {
        Status { activity: clone_option(&self.activity), duration: self.duration }
    }
}

impl PartialEq for Status {
    fn eq(&self, other: &Self) -> (r: bool) {
        same_option(&self.activity, &other.activity) && self.duration == other.duration
    }
}

impl vstd::std_specs::cmp::PartialEqSpecImpl for Status {
    open spec fn obeys_eq_spec() -> bool {
        true
    }

    open spec fn eq_spec(&self, other: &Self) -> bool {
        self@ == other@
    }
}

impl Clone for IpcRequest {
    fn clone(&self) -> (r: Self)
        ensures
            r == *self,
    {
        match self {
            IpcRequest::Status => IpcRequest::Status,
            IpcRequest::Switch(target) => IpcRequest::Switch(clone_option(target)),
            IpcRequest::GetActivities => IpcRequest::GetActivities,
        }
    }
}

impl PartialEq for IpcRequest {
    fn eq(&self, other: &Self) -> (r: bool) {
        match (self, other) {
            (IpcRequest::Status, IpcRequest::Status) => true,
            (IpcRequest::Switch(a), IpcRequest::Switch(b)) => same_option(a, b),
            (IpcRequest::GetActivities, IpcRequest::GetActivities) => true,
            _ => false,
        }
    }
}

impl vstd::std_specs::cmp::PartialEqSpecImpl for IpcRequest {
    open spec fn obeys_eq_spec() -> bool {
        true
    }

    open spec fn eq_spec(&self, other: &Self) -> bool {
        self@ == other@
    }
}

impl Clone for IpcResponse {
    fn clone(&self) -> (r: Self)
        ensures
            r@ == self@,
    {
        match self {
            IpcResponse::Empty => IpcResponse::Empty,
            IpcResponse::Status(status) => IpcResponse::Status(status.clone()),
            IpcResponse::Activities(activities) => IpcResponse::Activities(clone_all(activities)),
        }
    }
}

impl PartialEq for IpcResponse {
    fn eq(&self, other: &Self) -> (r: bool) {
        match (self, other) {
            (IpcResponse::Empty, IpcResponse::Empty) => true,
            (IpcResponse::Status(a), IpcResponse::Status(b)) => *a == *b,
            (IpcResponse::Activities(a), IpcResponse::Activities(b)) => same_all(a, b),
            _ => false,
        }
    }
}

impl vstd::std_specs::cmp::PartialEqSpecImpl for IpcResponse {
    open spec fn obeys_eq_spec() -> bool {
        true
    }

    open spec fn eq_spec(&self, other: &Self) -> bool {
        self@ == other@
    }
}

} // verus!
