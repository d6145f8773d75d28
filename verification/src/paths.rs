//! Where the sockets are.

use vstd::prelude::*;

verus! {

/// The name of the application, and of its directories.
pub const APP_NAME: &'static str = "ttd";

/// The name of the presence daemon, and of its socket.
pub const ACTIVITY_DAEMON_NAME: &'static str = "actived";

/// The path of the socket called `name` in the application's directory
/// under `dir`.
pub open spec fn socket_in(dir: Seq<char>, name: Seq<char>) -> Seq<char> {
    dir + seq!['/'] + APP_NAME@ + seq!['/'] + name + seq!['.', 's', 'o', 'c', 'k']
}

/// The path of the socket called `name` in the application's directory
/// under `dir`.
fn socket_file(dir: &str, name: &str) -> (path: String)
    ensures
        path@ == socket_in(dir@, name@),
{
    let mut path = String::from_str(dir);
    path.push('/');
    path.append(APP_NAME);
    path.push('/');
    path.append(name);
    path.append(".sock");
    proof {
        reveal_strlit(".sock");
        assert(".sock"@ =~= seq!['.', 's', 'o', 'c', 'k']);
        assert(path@ =~= socket_in(dir@, name@));
    }
    path
}

/// The path of the socket on which the presence daemon serves:
/// `/run/ttd/actived.sock`.
pub fn activity_daemon_socket() -> (path: String)
    ensures
        path@ == socket_in("/run"@, ACTIVITY_DAEMON_NAME@),
        path@ == "/run/ttd/actived.sock"@,
{
    let path = socket_file("/run", ACTIVITY_DAEMON_NAME);
    proof {
        reveal_strlit("/run");
        reveal_strlit("ttd");
        reveal_strlit("actived");
        reveal_strlit("/run/ttd/actived.sock");
        assert(path@ =~= "/run/ttd/actived.sock"@);
    }
    path
}

/// The path of the socket on which the tracking daemon serves its
/// clients, under the runtime directory `runtime_dir`: `ttd/ttd.sock` in
/// it.
pub fn socket_path(runtime_dir: &str) -> (path: String)
    ensures
        path@ == socket_in(runtime_dir@, APP_NAME@),
{
    socket_file(runtime_dir, APP_NAME)
}

} // verus!
