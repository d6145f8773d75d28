//! Activity tracking: the format of the event log, the tracking daemon's
//! state machine, the framing of messages between the daemons and their
//! clients, and the aggregation of logged events into time per activity.
//!
//! Nothing here reads a clock, a file or a socket: every function takes the
//! time and the bytes it works on, and returns what is to be written.

pub mod activity;
pub mod client;
pub mod daemon;
pub mod event;
pub mod frame;
pub mod ipc;
pub mod log;
pub mod paths;
pub mod presence;
pub mod report;
pub mod socket;
pub mod stats;
pub mod text;

pub use activity::{Activity, ValidationError};
pub use client::Command;
pub use daemon::Daemon;
pub use event::{Event, ParseError, TimedEvent};
pub use frame::TransportError;
pub use ipc::{format_duration, ActivityMessage, IpcRequest, IpcResponse, Status};
pub use log::{ActivityLog, ActivityRead, ReplayError};
pub use paths::{activity_daemon_socket, socket_path, ACTIVITY_DAEMON_NAME, APP_NAME};
pub use stats::{aggregate, Interval, Stats, Total};
