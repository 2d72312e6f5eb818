use vstd::prelude::*;

use crate::text::{push_char, push_str};

verus! {

/// The decimal digits of a number, most significant first.
pub open spec fn decimal_spec(n: nat) -> Seq<char>
    decreases n,
{
    if n < 10 {
        seq![(n + 48) as char]
    } else {
        decimal_spec(n / 10).push(((n % 10) + 48) as char)
    }
}

/// `n` written in decimal, as `{}` formats an unsigned integer.
pub fn decimal(n: u64) -> (s: String)
    ensures
        s@ == decimal_spec(n as nat),
    decreases n,
{
    if n < 10 {
        let mut s = String::new();
        push_char(&mut s, ((n as u8) + 48) as char);
        proof {
            assert(s@ =~= decimal_spec(n as nat));
        }
        s
    } else {
        let mut s = decimal(n / 10);
        push_char(&mut s, (((n % 10) as u8) + 48) as char);
        s
    }
}

/// What the ingest command does next.
#[derive(Debug, Clone, Copy, PartialEq, Eq, Structural)]
pub enum RunStep {
    /// Pull the next chunk from the driver.
    Pull,
    /// Stop pulling: the limit is reached.
    Stop,
}

/// What to do with a chunk just pulled.
#[derive(Debug, Clone, Copy, PartialEq, Eq, Structural)]
pub enum ChunkAction {
    /// Print it (dry run).
    Print,
    /// Send it to the server.
    Send,
}

/// The state of one run of the ingest command: how many chunks the driver
/// emitted, and how many were sent successfully or failed, with the tokens
/// the server counted; and the error that ended it early, if one did.
#[derive(Debug, Clone)]
pub struct IngestRun {
    pub limit: Option<u64>,
    pub dry_run: bool,
    pub emitted: u64,
    pub ok: u64,
    pub failed: u64,
    pub total_tokens: u64,
    pub error: Option<String>,
}

impl IngestRun {
    pub fn new(limit: Option<u64>, dry_run: bool) -> (r: Self)
        ensures
            r.limit == limit,
            r.dry_run == dry_run,
            r.emitted == 0 && r.ok == 0 && r.failed == 0 && r.total_tokens == 0,
            r.error is None,
    {
        IngestRun { limit, dry_run, emitted: 0, ok: 0, failed: 0, total_tokens: 0, error: None }
    }

    /// Stop once an error ended the run or `limit` chunks were emitted
    /// (before pulling one more); otherwise pull.
    pub fn next_step(&self) -> (s: RunStep)
        ensures
            s == (if self.error is Some || (self.limit matches Some(l) && self.emitted >= l) {
                RunStep::Stop
            } else {
                RunStep::Pull
            }),
    {
        if self.error.is_some() {
            return RunStep::Stop;
        }
        match self.limit {
            Some(l) => if self.emitted >= l {
                RunStep::Stop
            } else {
                RunStep::Pull
            },
            None => RunStep::Pull,
        }
    }

    /// A failure that ends the run (the driver, or the server before any
    /// chunk was sent): no more chunks are pulled, the driver is still
    /// finished, and the run fails with the first such error.
    pub fn on_error(&mut self, message: String) -> (s: RunStep)
        ensures
            *final(self) == (IngestRun {
                error: if old(self).error is Some { old(self).error } else { Some(message) },
                ..*old(self)
            }),
            s == RunStep::Stop,
    {
        if self.error.is_none() {
            self.error = Some(message);
        }
        RunStep::Stop
    }

    /// Count a chunk the driver emitted; it is printed in a dry run and sent
    /// otherwise.
    pub fn on_chunk(&mut self) -> (a: ChunkAction)
        requires
            old(self).emitted < u64::MAX,
        ensures
            *final(self) == (IngestRun { emitted: (old(self).emitted + 1) as u64, ..*old(self) }),
            a == (if old(self).dry_run { ChunkAction::Print } else { ChunkAction::Send }),
    {
        self.emitted = self.emitted + 1;
        if self.dry_run {
            ChunkAction::Print
        } else {
            ChunkAction::Send
        }
    }

    /// Count the answer to a sent chunk: the tokens the server counted, or
    /// a failure.
    pub fn on_sent(&mut self, token_count: Option<u64>)
        requires
            old(self).ok < u64::MAX,
            old(self).failed < u64::MAX,
            token_count matches Some(t) ==> old(self).total_tokens + t <= u64::MAX,
        ensures
            *final(self) == match token_count {
                Some(t) => IngestRun {
                    ok: (old(self).ok + 1) as u64,
                    total_tokens: (old(self).total_tokens + t) as u64,
                    ..*old(self)
                },
                None => IngestRun { failed: (old(self).failed + 1) as u64, ..*old(self) },
            },
    {
        match token_count {
            Some(t) => {
                self.ok = self.ok + 1;
                self.total_tokens = self.total_tokens + t;
            },
            None => {
                self.failed = self.failed + 1;
            },
        }
    }

    /// The error that ended the run, if one did; otherwise `Ok` when every
    /// request went through, and an error that counts the failed requests
    /// when some did not.
    pub fn finish(&self) -> (r: Result<(), String>)
        ensures
            self.error matches Some(m) ==> r == Err::<(), String>(m),
            self.error is None && self.failed == 0 ==> r is Ok,
            self.error is None && self.failed > 0 ==> (r matches Err(m) && m@ == decimal_spec(self.failed as nat)
                + " of "@ + decimal_spec(self.emitted as nat) + " ingest requests failed"@),
    {
        match &self.error {
            Some(m) => {
                return Err(m.clone());
            },
            None => {},
        }
        if self.failed == 0 {
            return Ok(());
        }
        let mut m = decimal(self.failed);
        push_str(&mut m, " of ");
        let e = decimal(self.emitted);
        push_str(&mut m, e.as_str());
        push_str(&mut m, " ingest requests failed");
        Err(m)
    }
}

/// How the answer to looking a shard up decides what happens: a success
/// means the shard exists, a 404 that it must be created, anything else is
/// an error.
#[derive(Debug, Clone, Copy, PartialEq, Eq, Structural)]
pub enum ShardProbe {
    Exists,
    Missing,
    Unexpected,
}

pub fn shard_probe(status: u16) -> (p: ShardProbe)
    ensures
        p == (if 200 <= status < 300 {
            ShardProbe::Exists
        } else if status == 404 {
            ShardProbe::Missing
        } else {
            ShardProbe::Unexpected
        }),
{
    if 200 <= status && status < 300 {
        ShardProbe::Exists
    } else if status == 404 {
        ShardProbe::Missing
    } else {
        ShardProbe::Unexpected
    }
}

/// A smoke configuration needs shards and queries.
pub fn check_smoke_config(shard_count: usize, query_count: usize) -> (r: Result<(), &'static str>)
    ensures
        shard_count == 0 ==> (r matches Err(m) && m@ == "smoke config has no shards"@),
        shard_count > 0 && query_count == 0 ==> (r matches Err(m) && m@ == "smoke config has no queries"@),
        shard_count > 0 && query_count > 0 ==> r is Ok,
{
    if shard_count == 0 {
        return Err("smoke config has no shards");
    }
    if query_count == 0 {
        return Err("smoke config has no queries");
    }
    Ok(())
}

} // verus!
