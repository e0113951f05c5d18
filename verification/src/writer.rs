//! The write-back to the warm tier: the jobs, and what the writing thread
//! decides.

use crate::time::Duration;
use vstd::prelude::*;

verus! {

/// One write to the warm tier.
#[derive(Debug, Clone, PartialEq, Eq)]
pub struct WriteJob {
    pub key: String,
    /// The value to set; without one the key is deleted.
    pub value: Option<String>,
    pub ttl_secs: u32,
}

pub struct WriteJobView {
    pub key: Seq<char>,
    pub value: Option<Seq<char>>,
    pub ttl_secs: u32,
}

impl View for WriteJob {
    type V = WriteJobView;

    open spec fn view(&self) -> WriteJobView {
        WriteJobView {
            key: self.key@,
            value: match self.value {
                Some(v) => Some(v@),
                None => None,
            },
            ttl_secs: self.ttl_secs,
        }
    }
}

/// What the warm tier is asked to do.
#[derive(Debug, Clone, PartialEq, Eq)]
pub enum WriteOp {
    Store { key: String, value: String, ttl_secs: u32 },
    Delete { key: String },
}

/// What became of a write.
#[derive(Debug, Clone, Copy, PartialEq, Eq)]
pub enum WriteOutcome {
    /// There was no connection to write through.
    NotConnected,
    /// The write went through.
    Done,
    /// The connection failed in input or output.
    IoError,
    /// The warm tier refused, or another error that is none of the
    /// connection.
    OtherError,
}

/// What the writing thread does after a write.
#[derive(Debug, Clone, Copy, PartialEq, Eq)]
pub enum ClientAction {
    /// Go on with the connection as it is.
    Keep,
    /// Connect anew.
    Reconnect,
}

/// What the writing thread does next.
#[derive(Debug, Clone, Copy, PartialEq, Eq)]
pub enum WriterStep {
    /// Wait a short while for a job and write it.
    Receive,
    /// Write the jobs that are waiting, then end.
    DrainAndExit,
}

/// The whole seconds of a time to live as a job carries them: the low 32
/// bits of their number.
pub open spec fn job_ttl(ttl: Duration) -> u32 {
    ((ttl.total_nanos() / 1_000_000_000) % 0x1_0000_0000) as u32
}

impl WriteJob {
    /// The job that writes `value` under `key` for `ttl`.
    pub fn new(key: &str, value: Option<String>, ttl: Duration) -> (job: Self)
        ensures
            job.key@ == key@,
            job.value == value,
            job.ttl_secs == job_ttl(ttl),
    {
        let secs = ttl.as_secs();
        WriteJob { key: key.to_owned(), value, ttl_secs: (secs % 0x1_0000_0000) as u32 }
    }

    /// What the warm tier is asked to do for this job: to set the value,
    /// or to delete the key where there is none.
    pub fn op(&self) -> (op: WriteOp)
        ensures
            match (self.value, op) {
                (Some(v), WriteOp::Store { key, value, ttl_secs }) => key@ == self.key@ && value@
                    == v@ && ttl_secs == self.ttl_secs,
                (None, WriteOp::Delete { key }) => key@ == self.key@,
                _ => false,
            },
    {
        match &self.value {
            Some(v) => WriteOp::Store {
                key: self.key.clone(),
                value: v.clone(),
                ttl_secs: self.ttl_secs,
            },
            None => WriteOp::Delete { key: self.key.clone() },
        }
    }
}

/// Whether the writing thread connects anew after a write: it does where
/// there was no connection, and where the connection failed in input or
/// output; the job is not written again.
pub fn after_write(outcome: WriteOutcome) -> (action: ClientAction)
    ensures
        action == match outcome {
            WriteOutcome::NotConnected => ClientAction::Reconnect,
            WriteOutcome::IoError => ClientAction::Reconnect,
            WriteOutcome::Done => ClientAction::Keep,
            WriteOutcome::OtherError => ClientAction::Keep,
        },
{
    match outcome {
        WriteOutcome::NotConnected => ClientAction::Reconnect,
        WriteOutcome::IoError => ClientAction::Reconnect,
        WriteOutcome::Done => ClientAction::Keep,
        WriteOutcome::OtherError => ClientAction::Keep,
    }
}

/// What the writing thread does next: once shutdown has been signalled it
/// writes what is waiting and ends; until then it waits for jobs.
pub fn next_step(shutdown_signalled: bool) -> (step: WriterStep)
    ensures
        step == if shutdown_signalled {
            WriterStep::DrainAndExit
        } else {
            WriterStep::Receive
        },
{
    if shutdown_signalled {
        WriterStep::DrainAndExit
    } else {
        WriterStep::Receive
    }
}

} // verus!
