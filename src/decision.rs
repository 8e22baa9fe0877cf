use vstd::prelude::*;

verus! {

/// Connection metadata handed to a routing script.
pub struct V8Request {
    pub ip: String,
    pub port: u16,
}

/// What a routing script answered for one connection. Absent flags have no
/// effect; `cpu_time` is filled in by the worker that ran the script.
pub struct V8Response {
    pub block_connection: Option<bool>,
    pub hang_connection: Option<bool>,
    pub ip: Option<String>,
    pub no_delay: Option<bool>,
    pub cpu_time: Option<u64>,
}

/// A job as it travels from a connection handler to a worker.
pub struct WorkerRequest<T> {
    pub job_id: u32,
    pub value: T,
}

/// How a connection is to be treated, once a decision was validated.
pub enum Verdict {
    /// Close the connection without relaying anything.
    Block,
    /// Keep the connection open and idle for `HOLD_SECONDS`, then close it.
    Hold,
    /// Open a connection to `target` and relay bytes both ways.
    Proxy { target: String, no_delay: bool },
}

/// A decision that names no target and sets neither `block` nor `hold`.
#[derive(Debug, PartialEq, Eq, Structural)]
pub enum DecisionError {
    MissingTarget,
}

/// Seconds a held connection stays open before it is closed.
pub const HOLD_SECONDS: u64 = 30;

/// An optional flag counts as set only when present and true.
pub open spec fn flag_set(f: Option<bool>) -> bool {
    f == Some(true)
}

impl V8Response {
    pub open spec fn blocks(&self) -> bool {
        flag_set(self.block_connection)
    }

    pub open spec fn holds(&self) -> bool {
        !self.blocks() && flag_set(self.hang_connection)
    }

    pub open spec fn proxies(&self) -> bool {
        !self.blocks() && !flag_set(self.hang_connection) && self.ip is Some
    }

    /// The decision a routing script is taken to have made when it failed.
    pub fn blocked() -> (r: V8Response)
        ensures
            r.blocks(),
            r.hang_connection is None,
            r.ip is None,
            r.no_delay is None,
            r.cpu_time is None,
    {
        V8Response {
            block_connection: Some(true),
            hang_connection: None,
            ip: None,
            no_delay: None,
            cpu_time: None,
        }
    }

    /// Validates the decision: `block` wins over `hold`, and either wins over a
    /// target; without any of the three the decision is an error.
    pub fn verdict(&self) -> (r: Result<Verdict, DecisionError>)
        ensures
            match r {
                Ok(Verdict::Block) => self.blocks(),
                Ok(Verdict::Hold) => self.holds(),
                Ok(Verdict::Proxy { target, no_delay }) => {
                    &&& self.proxies()
                    &&& target@ == self.ip->Some_0@
                    &&& no_delay == flag_set(self.no_delay)
                },
                Err(DecisionError::MissingTarget) => !self.blocks() && !self.holds()
                    && !self.proxies(),
            },
    {
        if self.block_connection == Some(true) {
            Ok(Verdict::Block)
        } else if self.hang_connection == Some(true) {
            Ok(Verdict::Hold)
        } else {
            match &self.ip {
                Some(ip) => Ok(
                    Verdict::Proxy { target: ip.clone(), no_delay: self.no_delay == Some(true) },
                ),
                None => Err(DecisionError::MissingTarget),
            }
        }
    }
}

} // verus!
