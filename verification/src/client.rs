use vstd::prelude::*;
use vstd::string::*;

use crate::common::file_exists;
use crate::config::FocusConfig;
use crate::messages::ServerResponse;
use crate::server::{socket_in_file, socket_in_path, socket_out_file, socket_out_path};
use crate::time::{
    all_digits, decimal, decimal_string, digits_value, duration_text, format_duration,
    is_time_format, lemma_decimal_digits, lemma_time_string_round_trip,
    lemma_time_string_without_seconds, time_value,
};

verus! {

/// Why a client could not talk to the daemon.
#[derive(Debug, Clone, Copy, PartialEq, Eq, Structural)]
pub enum FocusClientError {
    NoConnection,
}

/// Whether a message tells of success or of failure (shown green or red).
#[derive(Debug, Clone, Copy, PartialEq, Eq, Structural)]
pub enum Tone {
    Success,
    Failure,
}

/// A message for the user.
pub struct Notice {
    pub text: String,
    pub tone: Tone,
}

/// The text that `remaining` shows for `left` seconds: the bare number when `raw`, otherwise
/// hours, minutes and (unless `no_distract`) seconds.
pub open spec fn remaining_text(left: u64, raw: bool, no_distract: bool) -> Seq<char> {
    if raw {
        decimal(left as nat)
    } else {
        duration_text(left as nat, !no_distract)
    }
}

/// A client of the daemon: the pipes through which it sends requests and reads responses.
pub struct FocusClient {
    socket_file_in: String,
    socket_file_out: String,
}

fn notice(text: &str, tone: Tone) -> (n: Notice)
    ensures
        n.text@ == text@,
        n.tone == tone,
{
    Notice { text: String::from_str(text), tone }
}

impl FocusClient {
    /// The pipe on which requests go to the daemon.
    pub closed spec fn in_path(&self) -> Seq<char> {
        self.socket_file_in@
    }

    /// The pipe on which responses come back.
    pub closed spec fn out_path(&self) -> Seq<char> {
        self.socket_file_out@
    }

    /// Connects to the daemon that `config` describes; `NoConnection` unless both of its pipes
    /// exist. Which outcome comes back depends on what is on disk; `from_socket_state` states
    /// it for given answers.
    pub fn new(config: &FocusConfig) -> (client: Result<FocusClient, FocusClientError>)
        ensures
            client matches Ok(c) ==> c.in_path() == socket_in_path(config.socket_file@)
                && c.out_path() == socket_out_path(config.socket_file@),
            client matches Err(e) ==> e == FocusClientError::NoConnection,
    {
        let socket_file_in = socket_in_file(&config.socket_file);
        let socket_file_out = socket_out_file(&config.socket_file);
        let in_exists = file_exists(&socket_file_in);
        let out_exists = file_exists(&socket_file_out);
        Self::from_socket_state(config, in_exists, out_exists)
    }

    /// Connects to the daemon that `config` describes, given whether its two pipes exist.
    pub fn from_socket_state(config: &FocusConfig, in_exists: bool, out_exists: bool) -> (client:
        Result<FocusClient, FocusClientError>)
        ensures
            client is Ok <==> in_exists && out_exists,
            client matches Ok(c) ==> c.in_path() == socket_in_path(config.socket_file@)
                && c.out_path() == socket_out_path(config.socket_file@),
            client matches Err(e) ==> e == FocusClientError::NoConnection,
    {
        if !in_exists || !out_exists {
            return Err(FocusClientError::NoConnection);
        }
        Ok(FocusClient {
            socket_file_in: socket_in_file(&config.socket_file),
            socket_file_out: socket_out_file(&config.socket_file),
        })
    }

    /// What to tell the user after a ping, given the daemon's reply.
    pub fn ping(&self, reply: &Result<ServerResponse, FocusClientError>) -> (n: Notice)
        ensures
            reply is Ok ==> n.text@ == "ponged!"@ && n.tone == Tone::Success,
            reply is Err ==> n.text@ == "failed to pong!"@ && n.tone == Tone::Failure,
    {
        match reply {
            Ok(_) => notice("ponged!", Tone::Success),
            Err(_) => notice("failed to pong!", Tone::Failure),
        }
    }

    /// What to tell the user after asking the daemon to halt, given its reply.
    pub fn halt(&self, reply: &Result<ServerResponse, FocusClientError>) -> (n: Notice)
        ensures
            reply is Ok ==> n.text@ == "server halted!"@ && n.tone == Tone::Success,
            reply is Err ==> n.text@ == "failed!"@ && n.tone == Tone::Failure,
    {
        match reply {
            Ok(_) => notice("server halted!", Tone::Success),
            Err(_) => notice("failed!", Tone::Failure),
        }
    }

    /// What to tell the user after asking the daemon to start a block, given its reply;
    /// nothing for a failed request or an unexpected answer.
    pub fn start(&self, reply: &Result<ServerResponse, FocusClientError>) -> (n: Option<Notice>)
        ensures
            reply == Ok::<ServerResponse, FocusClientError>(ServerResponse::Starting) ==> (n matches Some(m)
                && m.text@ == "started!"@ && m.tone == Tone::Success),
            reply == Ok::<ServerResponse, FocusClientError>(ServerResponse::AlreadyStarted) ==> (n matches Some(m)
                && m.text@ == "already started!"@ && m.tone == Tone::Failure),
            reply != Ok::<ServerResponse, FocusClientError>(ServerResponse::Starting) && reply
                != Ok::<ServerResponse, FocusClientError>(ServerResponse::AlreadyStarted) ==> n is None,
    {
        match reply {
            Ok(ServerResponse::Starting) => Some(notice("started!", Tone::Success)),
            Ok(ServerResponse::AlreadyStarted) => Some(notice("already started!", Tone::Failure)),
            _ => None,
        }
    }

    /// What to show after asking the daemon for the time left, given its reply: the seconds
    /// as a bare number when `raw`, otherwise as hours, minutes and (unless `no_distract`)
    /// seconds; nothing for a failed request or an unexpected answer.
    pub fn remaining(
        &self,
        reply: &Result<ServerResponse, FocusClientError>,
        raw: bool,
        no_distract: bool,
    ) -> (shown: Option<String>)
        ensures
            reply matches Ok(ServerResponse::Remaining(left)) ==> (shown matches Some(s) && s@
                == remaining_text(*left, raw, no_distract)),
            !(reply matches Ok(ServerResponse::Remaining(_))) ==> shown is None,
    {
        match reply {
            Ok(ServerResponse::Remaining(left)) => {
                if raw {
                    Some(decimal_string(*left))
                } else {
                    Some(format_duration(*left, !no_distract))
                }
            },
            _ => None,
        }
    }

    /// The pipe on which requests go to the daemon.
    pub fn socket_file_in(&self) -> (path: &String)
        ensures
            path@ == self.in_path(),
    {
        &self.socket_file_in
    }

    /// The pipe on which responses come back.
    pub fn socket_file_out(&self) -> (path: &String)
        ensures
            path@ == self.out_path(),
    {
        &self.socket_file_out
    }
}


/// What `remaining` shows reads back as the time left: as a time text it is worth exactly the
/// seconds left, or the whole minutes left when the seconds are omitted; raw, it is the decimal
/// number of seconds left.
pub proof fn lemma_remaining_text_reads_back(left: u64, no_distract: bool)
    ensures
        is_time_format(remaining_text(left, false, false)),
        time_value(remaining_text(left, false, false)) == left,
        is_time_format(remaining_text(left, false, true)),
        time_value(remaining_text(left, false, true)) == left - left % 60,
        all_digits(remaining_text(left, true, no_distract)),
        remaining_text(left, true, no_distract).len() >= 1,
        digits_value(remaining_text(left, true, no_distract)) == left,
{
    lemma_time_string_round_trip(left as nat);
    lemma_time_string_without_seconds(left as nat);
    lemma_decimal_digits(left as nat);
}

} // verus!
