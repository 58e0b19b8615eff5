use vstd::prelude::*;
use vstd::string::*;

use crate::common::file_exists;
use crate::config::FocusConfig;
use crate::messages::{ClientRequest, ServerResponse};
use crate::time::{is_time_format, parse_time_string, time_value};

verus! {

/// Why the daemon could not start.
#[derive(Debug, Clone, Copy, PartialEq, Eq, Structural)]
pub enum FocusServerError {
    AlreadyRunning,
}

/// Whether a block is running, and for how many more seconds.
#[derive(Debug, Clone, Copy, PartialEq, Eq, Structural)]
pub enum ServerRunStatus {
    Running(u64),
    NotRunning,
}

/// What to do to the hosts file after a request.
#[derive(Debug, Clone, Copy, PartialEq, Eq, Structural)]
pub enum HostsUpdate {
    /// Leave it as it is.
    Unchanged,
    /// Append the block of the configured sites.
    AddBlock,
    /// Take out the block, if the file holds one.
    ReleaseBlock,
}

/// The daemon's answer to one request: the response to send, what to do to the hosts file,
/// and whether to stop listening afterwards.
#[derive(Debug, Clone, Copy, PartialEq, Eq, Structural)]
pub struct ServerReply {
    pub response: ServerResponse,
    pub hosts: HostsUpdate,
    pub halt: bool,
}

/// The pipe on which a daemon reads requests, next to its socket file.
pub open spec fn socket_in_path(socket_file: Seq<char>) -> Seq<char> {
    socket_file + ".in"@
}

/// The pipe on which a daemon writes responses, next to its socket file.
pub open spec fn socket_out_path(socket_file: Seq<char>) -> Seq<char> {
    socket_file + ".out"@
}

pub fn socket_in_file(socket_file: &String) -> (path: String)
    ensures
        path@ == socket_in_path(socket_file@),
{
    let mut path = socket_file.clone();
    path.append(".in");
    path
}

pub fn socket_out_file(socket_file: &String) -> (path: String)
    ensures
        path@ == socket_out_path(socket_file@),
{
    let mut path = socket_file.clone();
    path.append(".out");
    path
}

/// The seconds left until `expires` at time `now`: zero when no block runs or it has expired.
pub open spec fn remaining_seconds(expires: Option<u64>, now: u64) -> nat {
    match expires {
        Some(at) => if at > now {
            (at - now) as nat
        } else {
            0
        },
        None => 0,
    }
}

/// A start request that the daemon can serve at time `now`: its time text is well formed and
/// the block ends at a time that fits in a `u64`.
pub open spec fn start_accepted(time: Seq<char>, now: u64) -> bool {
    is_time_format(time) && now + time_value(time) <= u64::MAX
}

/// When the block ends after the daemon serves `request` at time `now`, given that it ended
/// at `expires` before.
pub open spec fn next_expiry(expires: Option<u64>, request: ClientRequest, now: u64) -> Option<u64> {
    match request {
        ClientRequest::Start(time) => Some((now + time_value(time@)) as u64),
        ClientRequest::Remaining => if remaining_seconds(expires, now) == 0 {
            None
        } else {
            expires
        },
        _ => expires,
    }
}

/// The daemon's reply to `request` at time `now`, given that the block ends at `expires`.
pub open spec fn reply_to(expires: Option<u64>, request: ClientRequest, now: u64) -> ServerReply {
    match request {
        ClientRequest::Ping => ServerReply {
            response: ServerResponse::Pong,
            hosts: HostsUpdate::Unchanged,
            halt: false,
        },
        ClientRequest::Halt => ServerReply {
            response: ServerResponse::Halting,
            hosts: HostsUpdate::Unchanged,
            halt: true,
        },
        ClientRequest::Start(_) => ServerReply {
            response: ServerResponse::Starting,
            hosts: HostsUpdate::AddBlock,
            halt: false,
        },
        ClientRequest::Remaining => {
            let left = remaining_seconds(expires, now);
            if left == 0 {
                ServerReply {
                    response: ServerResponse::Remaining(0),
                    hosts: HostsUpdate::ReleaseBlock,
                    halt: false,
                }
            } else {
                ServerReply {
                    response: ServerResponse::Remaining(left as u64),
                    hosts: HostsUpdate::Unchanged,
                    halt: false,
                }
            }
        },
    }
}

/// The daemon: the pipes it talks through, its configuration, and when the running block
/// ends, if one runs.
pub struct FocusServer<'a> {
    socket_file_in: String,
    socket_file_out: String,
    config: &'a FocusConfig,
    expires: Option<u64>,
}

impl<'a> FocusServer<'a> {
    /// The time at which the running block ends, if one runs.
    pub closed spec fn expiry(&self) -> Option<u64> {
        self.expires
    }

    /// The pipe on which requests arrive.
    pub closed spec fn in_path(&self) -> Seq<char> {
        self.socket_file_in@
    }

    /// The pipe on which responses leave.
    pub closed spec fn out_path(&self) -> Seq<char> {
        self.socket_file_out@
    }

    /// The configuration the daemon serves.
    pub closed spec fn settings(&self) -> &'a FocusConfig {
        self.config
    }

    /// Sets up a daemon for `config`, unless its socket file already exists, which means that
    /// another daemon is running. Creating the pipes and the pid file is left to the caller.
    /// Which outcome comes back depends on what is on disk; `from_socket_state` states it for a
    /// given answer.
    pub fn new(config: &'a FocusConfig) -> (server: Result<FocusServer<'a>, FocusServerError>)
        ensures
            server matches Ok(s) ==> {
                &&& s.in_path() == socket_in_path(config.socket_file@)
                &&& s.out_path() == socket_out_path(config.socket_file@)
                &&& s.settings() == config
                &&& s.expiry() is None
            },
            server matches Err(e) ==> e == FocusServerError::AlreadyRunning,
    {
        let socket_exists = file_exists(&config.socket_file);
        Self::from_socket_state(config, socket_exists)
    }

    /// Sets up a daemon for `config`, given whether its socket file already exists.
    pub fn from_socket_state(config: &'a FocusConfig, socket_exists: bool) -> (server: Result<
        FocusServer<'a>,
        FocusServerError,
    >)
        ensures
            socket_exists <==> server is Err,
            server matches Ok(s) ==> {
                &&& s.in_path() == socket_in_path(config.socket_file@)
                &&& s.out_path() == socket_out_path(config.socket_file@)
                &&& s.settings() == config
                &&& s.expiry() is None
            },
            server matches Err(e) ==> e == FocusServerError::AlreadyRunning,
    {
        if socket_exists {
            return Err(FocusServerError::AlreadyRunning);
        }
        Ok(FocusServer {
            socket_file_in: socket_in_file(&config.socket_file),
            socket_file_out: socket_out_file(&config.socket_file),
            config,
            expires: None,
        })
    }

    /// The files that cleaning up after a daemon for `config` removes: both pipes and the pid
    /// file.
    pub fn cleanup(config: &FocusConfig) -> (paths: Vec<String>)
        ensures
            paths@.map_values(|p: String| p@) == seq![
                socket_in_path(config.socket_file@),
                socket_out_path(config.socket_file@),
                config.pid_file@,
            ],
    {
        let mut paths: Vec<String> = Vec::new();
        paths.push(socket_in_file(&config.socket_file));
        paths.push(socket_out_file(&config.socket_file));
        paths.push(config.pid_file.clone());
        assert(paths@.map_values(|p: String| p@) =~= seq![
            socket_in_path(config.socket_file@),
            socket_out_path(config.socket_file@),
            config.pid_file@,
        ]);
        paths
    }

    /// The seconds left of the running block at time `now`; zero when none runs or it has
    /// expired.
    pub fn get_remaining_time(&self, now: u64) -> (left: u64)
        ensures
            left == remaining_seconds(self.expiry(), now),
    {
        match self.expires {
            Some(secs) => if secs > now {
                secs - now
            } else {
                0
            },
            None => 0,
        }
    }

    /// Starts a block of the length that `time` gives, counted from `now`.
    fn start(&mut self, time: &String, now: u64)
        requires
            start_accepted(time@, now),
        ensures
            final(self).expiry() == Some((now + time_value(time@)) as u64),
            final(self).in_path() == old(self).in_path(),
            final(self).out_path() == old(self).out_path(),
            final(self).settings() == old(self).settings(),
    {
        let secs = match parse_time_string(time) {
            Ok(secs) => secs,
            Err(_) => 0,
        };
        self.expires = Some(now + secs);
    }

    /// Whether the block still runs at time `now`; an expired block is forgotten.
    fn check_remaining(&mut self, now: u64) -> (status: ServerRunStatus)
        ensures
            remaining_seconds(old(self).expiry(), now) == 0 ==> status == ServerRunStatus::NotRunning
                && final(self).expiry() is None,
            remaining_seconds(old(self).expiry(), now) > 0 ==> status == ServerRunStatus::Running(
                remaining_seconds(old(self).expiry(), now) as u64,
            ) && final(self).expiry() == old(self).expiry(),
            final(self).in_path() == old(self).in_path(),
            final(self).out_path() == old(self).out_path(),
            final(self).settings() == old(self).settings(),
    {
        let remaining = self.get_remaining_time(now);
        if remaining == 0 {
            self.expires = None;
            return ServerRunStatus::NotRunning;
        }
        ServerRunStatus::Running(remaining)
    }

    /// Serves one request that arrived at time `now`: answers it, updates when the block ends,
    /// and says what to do to the hosts file. A start request must be one the daemon can serve.
    pub fn handle_request(&mut self, request: ClientRequest, now: u64) -> (reply: ServerReply)
        requires
            request matches ClientRequest::Start(time) ==> start_accepted(time@, now),
        ensures
            reply == reply_to(old(self).expiry(), request, now),
            final(self).expiry() == next_expiry(old(self).expiry(), request, now),
            final(self).in_path() == old(self).in_path(),
            final(self).out_path() == old(self).out_path(),
            final(self).settings() == old(self).settings(),
    {
        match request {
            ClientRequest::Ping => ServerReply {
                response: ServerResponse::Pong,
                hosts: HostsUpdate::Unchanged,
                halt: false,
            },
            ClientRequest::Halt => ServerReply {
                response: ServerResponse::Halting,
                hosts: HostsUpdate::Unchanged,
                halt: true,
            },
            ClientRequest::Start(time) => {
                self.start(&time, now);
                ServerReply {
                    response: ServerResponse::Starting,
                    hosts: HostsUpdate::AddBlock,
                    halt: false,
                }
            },
            ClientRequest::Remaining => {
                let left = match self.check_remaining(now) {
                    ServerRunStatus::Running(left) => left,
                    ServerRunStatus::NotRunning => 0,
                };
                ServerReply {
                    response: ServerResponse::Remaining(left),
                    hosts: if left == 0 {
                        HostsUpdate::ReleaseBlock
                    } else {
                        HostsUpdate::Unchanged
                    },
                    halt: false,
                }
            },
        }
    }

    /// The pipe on which requests arrive.
    pub fn socket_file_in(&self) -> (path: &String)
        ensures
            path@ == self.in_path(),
    {
        &self.socket_file_in
    }

    /// The pipe on which responses leave.
    pub fn socket_file_out(&self) -> (path: &String)
        ensures
            path@ == self.out_path(),
    {
        &self.socket_file_out
    }

    /// The configuration the daemon serves.
    pub fn config(&self) -> (config: &'a FocusConfig)
        ensures
            config == self.settings(),
    {
        self.config
    }
}


/// A block started at `now` for the length that `time` gives runs for exactly that long: at a
/// later time `later` the daemon reports the seconds up to its end, never more than the length
/// asked for, and once the end is reached it reports zero, asks for the block to be taken out
/// of the hosts file, and forgets it.
pub proof fn lemma_block_runs_for_requested_time(
    expires: Option<u64>,
    time: String,
    now: u64,
    later: u64,
)
    requires
        start_accepted(time@, now),
        now <= later,
    ensures
        ({
            let started = next_expiry(expires, ClientRequest::Start(time), now);
            let length = time_value(time@);
            &&& remaining_seconds(started, later) == if later < now + length {
                now + length - later
            } else {
                0
            }
            &&& remaining_seconds(started, later) <= length
            &&& later >= now + length ==> {
                &&& reply_to(started, ClientRequest::Remaining, later) == (ServerReply {
                    response: ServerResponse::Remaining(0),
                    hosts: HostsUpdate::ReleaseBlock,
                    halt: false,
                })
                &&& next_expiry(started, ClientRequest::Remaining, later) is None
            }
            &&& later < now + length ==> {
                &&& reply_to(started, ClientRequest::Remaining, later).hosts
                    == HostsUpdate::Unchanged
                &&& next_expiry(started, ClientRequest::Remaining, later) == started
            }
        }),
{
}

/// Once no block runs, every further remaining request reports zero and leaves nothing to
/// expire; pings and halts never change when a block ends.
pub proof fn lemma_idle_daemon_stays_idle(expires: Option<u64>, now: u64, later: u64)
    requires
        remaining_seconds(expires, now) == 0,
    ensures
        next_expiry(expires, ClientRequest::Remaining, now) is None,
        remaining_seconds(next_expiry(expires, ClientRequest::Remaining, now), later) == 0,
        reply_to(None, ClientRequest::Remaining, later).response == ServerResponse::Remaining(0),
        next_expiry(expires, ClientRequest::Ping, now) == expires,
        next_expiry(expires, ClientRequest::Halt, now) == expires,
{
}


/// The replies of a daemon, whose block ends at `expires`, that serves the timed requests
/// `requests` in turn and stops listening after the first halt request.
pub open spec fn serve_requests(
    expires: Option<u64>,
    requests: Seq<(ClientRequest, u64)>,
) -> Seq<ServerReply>
    decreases requests.len(),
{
    if requests.len() == 0 {
        seq![]
    } else {
        let (request, now) = requests[0];
        let reply = reply_to(expires, request, now);
        if reply.halt {
            seq![reply]
        } else {
            seq![reply] + serve_requests(
                next_expiry(expires, request, now),
                requests.drop_first(),
            )
        }
    }
}

/// The answer that a request of each kind gets: a pong for a ping, a start for a start, the
/// seconds left for a remaining request, and a halt for a halt.
pub open spec fn answers_in_kind(request: ClientRequest, reply: ServerReply) -> bool {
    match request {
        ClientRequest::Ping => reply.response == ServerResponse::Pong,
        ClientRequest::Start(_) => reply.response == ServerResponse::Starting,
        ClientRequest::Remaining => reply.response is Remaining,
        ClientRequest::Halt => reply.response == ServerResponse::Halting,
    }
}

/// A daemon serving a run of requests whose first halt request is the `k`th answers exactly
/// the first `k + 1` requests, one reply each in order, each in the kind of its request, and
/// stops listening after the halt and never before it.
pub proof fn lemma_serves_until_halt(
    expires: Option<u64>,
    requests: Seq<(ClientRequest, u64)>,
    k: int,
)
    requires
        0 <= k < requests.len(),
        requests[k].0 == ClientRequest::Halt,
        forall|i: int| 0 <= i < k ==> requests[i].0 != ClientRequest::Halt,
    ensures
        serve_requests(expires, requests).len() == k + 1,
        forall|i: int|
            0 <= i <= k ==> answers_in_kind(
                #[trigger] requests[i].0,
                serve_requests(expires, requests)[i],
            ),
        forall|i: int| 0 <= i <= k ==> (#[trigger] serve_requests(expires, requests)[i]).halt == (i == k),
    decreases k,
{
    let (request, now) = requests[0];
    let replies = serve_requests(expires, requests);
    if k > 0 {
        assert(request != ClientRequest::Halt);
        let rest = requests.drop_first();
        let next = next_expiry(expires, request, now);
        assert forall|i: int| 0 <= i < k - 1 implies rest[i].0 != ClientRequest::Halt by {
            assert(rest[i] == requests[i + 1]);
        }
        lemma_serves_until_halt(next, rest, k - 1);
        let tail = serve_requests(next, rest);
        assert(replies == seq![reply_to(expires, request, now)] + tail);
        assert forall|i: int| 0 <= i <= k implies answers_in_kind(
            #[trigger] requests[i].0,
            replies[i],
        ) by {
            if i > 0 {
                assert(rest[i - 1] == requests[i]);
                assert(replies[i] == tail[i - 1]);
            }
        }
        assert forall|i: int| 0 <= i <= k implies (#[trigger] replies[i]).halt == (i == k) by {
            if i > 0 {
                assert(replies[i] == tail[i - 1]);
            }
        }
    }
}


/// Only a start request asks for the block to be added to the hosts file, and only a remaining
/// request at or after the end of the block (or with no block running) asks for it to be taken
/// out. Pings and halts leave the hosts file and the end of the block as they are.
pub proof fn lemma_hosts_change_only_on_start_and_expiry(
    expires: Option<u64>,
    request: ClientRequest,
    now: u64,
)
    ensures
        reply_to(expires, request, now).hosts == HostsUpdate::AddBlock <==> request is Start,
        reply_to(expires, request, now).hosts == HostsUpdate::ReleaseBlock <==> (request is Remaining
            && (expires matches Some(at) ==> at <= now)),
        (request is Ping || request is Halt) ==> reply_to(expires, request, now).hosts
            == HostsUpdate::Unchanged && next_expiry(expires, request, now) == expires,
        (request is Remaining && (expires matches Some(at) && now < at)) ==> (reply_to(
            expires,
            request,
            now,
        ).hosts == HostsUpdate::Unchanged && next_expiry(expires, request, now) == expires),
{
}

} // verus!
