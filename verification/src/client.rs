//! The client's side of an exchange: which request a command sends, and
//! what is shown for the answer.

use vstd::prelude::*;
use crate::activity::{names, valid_key, Activity, ValidationError};
use crate::ipc::{status_text, IpcRequest, IpcResponse, RequestModel, ResponseModel};

verus! {

/// What the user asks of the client.
#[derive(Debug, Clone)]
pub enum Command {
    /// Show the current activity.
    Status,
    /// List the activities that can be switched to.
    List,
    /// Switch to an activity.
    Switch { activity: String },
    /// Stop the current activity.
    Stop,
    /// Show the time spent per activity today.
    Stats,
}

/// A command, with its identifier as a sequence of characters.
pub enum CommandModel {
    Status,
    List,
    Switch(Seq<char>),
    Stop,
    Stats,
}

impl View for Command {
    type V = CommandModel;

    open spec fn view(&self) -> CommandModel {
        match *self {
            Command::Status => CommandModel::Status,
            Command::List => CommandModel::List,
            Command::Switch { activity } => CommandModel::Switch(activity@),
            Command::Stop => CommandModel::Stop,
            Command::Stats => CommandModel::Stats,
        }
    }
}

/// What the client shows.
#[derive(Debug)]
pub enum Output {
    /// These lines, on standard output.
    Lines(Vec<String>),
    /// A complaint that the answer is not the one expected.
    Unexpected,
    /// Nothing.
    Nothing,
}

/// What the client shows, with texts as sequences of characters.
pub enum OutputModel {
    Lines(Seq<Seq<char>>),
    Unexpected,
    Nothing,
}

/// The texts of a list of lines.
pub open spec fn texts(lines: Seq<String>) -> Seq<Seq<char>> {
    lines.map_values(|line: String| line@)
}

impl View for Output {
    type V = OutputModel;

    open spec fn view(&self) -> OutputModel {
        match *self {
            Output::Lines(lines) => OutputModel::Lines(texts(lines@)),
            Output::Unexpected => OutputModel::Unexpected,
            Output::Nothing => OutputModel::Nothing,
        }
    }
}

/// The request that a command sends: none for the statistics, which are
/// read from the log, and none for a switch to an invalid identifier.
pub open spec fn request_of(command: CommandModel) -> Option<RequestModel> {
    match command {
        CommandModel::Status => Some(RequestModel::Status),
        CommandModel::List => Some(RequestModel::GetActivities),
        CommandModel::Switch(name) => if valid_key(name) {
            Some(RequestModel::Switch(Some(name)))
        } else {
            None
        },
        CommandModel::Stop => Some(RequestModel::Switch(None)),
        CommandModel::Stats => None,
    }
}

/// What is shown for the answer to a command: the activities of a list,
/// one per line; the status; a complaint where a switch or a stop is
/// answered with anything but the empty response; nothing otherwise.
pub open spec fn output_of(command: CommandModel, response: ResponseModel) -> OutputModel {
    match command {
        CommandModel::List => match response {
            ResponseModel::Activities(activities) => OutputModel::Lines(activities),
            _ => OutputModel::Nothing,
        },
        CommandModel::Status => match response {
            ResponseModel::Status(status) => OutputModel::Lines(seq![status_text(status)]),
            _ => OutputModel::Nothing,
        },
        CommandModel::Switch(_) | CommandModel::Stop => match response {
            ResponseModel::Empty => OutputModel::Nothing,
            _ => OutputModel::Unexpected,
        },
        CommandModel::Stats => OutputModel::Nothing,
    }
}

/// A request, if any, as a model.
pub open spec fn request_view(request: Option<IpcRequest>) -> Option<RequestModel> {
    match request {
        Some(r) => Some(r@),
        None => None,
    }
}

/// The request to send for `command`. The statistics need none. A switch
/// to an invalid identifier is refused, with the identifier.
pub fn request_for(command: Command) -> (r: Result<Option<IpcRequest>, ValidationError>)
    ensures
        r is Err <==> (command@ matches CommandModel::Switch(name) && !valid_key(name)),
        r matches Ok(request) ==> request_view(request) == request_of(command@),
        r matches Err(e) ==> command@ == CommandModel::Switch(e.key@),
{
    match command {
        Command::Status => Ok(Some(IpcRequest::Status)),
        Command::List => Ok(Some(IpcRequest::GetActivities)),
        Command::Switch { activity } => match Activity::new(activity) {
            Ok(a) => Ok(Some(IpcRequest::Switch(Some(a)))),
            Err(e) => Err(e),
        },
        Command::Stop => Ok(Some(IpcRequest::Switch(None))),
        Command::Stats => Ok(None),
    }
}

/// The lines that list `activities`, one identifier each.
fn list_lines(activities: &Vec<Activity>) -> (lines: Vec<String>)
    ensures
        texts(lines@) == names(activities@),
{
    let mut lines: Vec<String> = Vec::new();
    let mut i: usize = 0;
    while i < activities.len()
        invariant
            i <= activities.len(),
            lines@.len() == i,
            forall|j: int| 0 <= j < i ==> lines@[j]@ == activities@[j]@,
        decreases activities.len() - i,
    {
        lines.push(activities[i].to_string());
        i = i + 1;
    }
    proof {
        assert(texts(lines@) =~= names(activities@));
    }
    lines
}

/// What to show for the answer `response` to `command`.
pub fn output_for(command: &Command, response: &IpcResponse) -> (out: Output)
    ensures
        out@ == output_of(command@, response@),
{
    match command {
        Command::List => match response {
            IpcResponse::Activities(activities) => Output::Lines(list_lines(activities)),
            _ => Output::Nothing,
        },
        Command::Status => match response {
            IpcResponse::Status(status) => {
                let mut lines: Vec<String> = Vec::new();
                lines.push(status.to_string());
                proof {
                    assert(texts(lines@) =~= seq![status_text(status@)]);
                }
                Output::Lines(lines)
            },
            _ => Output::Nothing,
        },
        Command::Switch { activity } => match response {
            IpcResponse::Empty => Output::Nothing,
            _ => Output::Unexpected,
        },
        Command::Stop => match response {
            IpcResponse::Empty => Output::Nothing,
            _ => Output::Unexpected,
        },
        Command::Stats => Output::Nothing,
    }
}

} // verus!
