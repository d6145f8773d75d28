//! The presence daemon's decisions: which input counts as a sign of the
//! user, and what is told to the tracking daemon.

use vstd::prelude::*;
use crate::ipc::ActivityMessage;

verus! {

/// The kinds of input that are told apart.
#[derive(Debug, Clone, Copy, PartialEq, Eq, Structural)]
pub enum InputKind {
    /// A key or a button.
    Key,
    /// A relative movement, as of a mouse.
    Relative,
    /// An absolute position, as of a touch screen.
    Absolute,
    /// Anything else.
    Other,
}

/// What the user did.
#[derive(Debug, Clone, Copy, PartialEq, Eq, Structural)]
pub enum InputEvent {
    Keyboard,
    Mouse,
}

/// Whether a device is listened to: it reports keys, relative movements
/// or absolute positions.
pub fn is_input_device(keys: bool, relative: bool, absolute: bool) -> (r: bool)
    ensures
        r == (keys || relative || absolute),
{
    keys || relative || absolute
}

/// What an input of `kind` says the user did, if anything.
pub open spec fn classified(kind: InputKind) -> Option<InputEvent> {
    match kind {
        InputKind::Key => Some(InputEvent::Keyboard),
        InputKind::Relative => Some(InputEvent::Mouse),
        InputKind::Absolute => Some(InputEvent::Mouse),
        InputKind::Other => None,
    }
}

/// What an input of `kind` says the user did, if anything.
pub fn classify(kind: InputKind) -> (r: Option<InputEvent>)
    ensures
        r == classified(kind),
{
    match kind {
        InputKind::Key => Some(InputEvent::Keyboard),
        InputKind::Relative | InputKind::Absolute => Some(InputEvent::Mouse),
        InputKind::Other => None,
    }
}

/// The second at which the user was last seen.
#[derive(Debug, Clone, Copy, PartialEq, Eq, Structural)]
pub struct Presence {
    pub last_input: u64,
}

impl Presence {
    /// The presence of a user first seen at the second `now`.
    pub fn new(now: u64) -> (p: Presence)
        ensures
            p.last_input == now,
    {
        Presence { last_input: now }
    }

    /// What to tell a daemon that has just connected.
    pub fn message(&self) -> (m: ActivityMessage)
        ensures
            m.last_active == self.last_input,
    {
        ActivityMessage { last_active: self.last_input }
    }

    /// Takes note of an input of `kind` at the second `now`. Where it is a
    /// sign of the user, the user was last seen at `now`, and the message
    /// says so; any other input changes nothing.
    pub fn observe(&mut self, kind: InputKind, now: u64) -> (m: Option<ActivityMessage>)
        ensures
            classified(kind) is Some ==> final(self).last_input == now && m == Some(
                ActivityMessage { last_active: now },
            ),
            classified(kind) is None ==> *final(self) == *old(self) && m is None,
    {
        match classify(kind) {
            Some(_) => {
                self.last_input = now;
                Some(ActivityMessage { last_active: now })
            },
            None => None,
        }
    }
}

} // verus!
