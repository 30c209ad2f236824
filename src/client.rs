use vstd::prelude::*;
use crate::auth::{sha256_of, token_digest};
use crate::command::{Command, CommandModel};
use crate::error::Error;

verus! {

/// The client's side of one connection: the token digest it authenticates
/// with, and the next association id to hand out.
pub struct ClientConnection {
    pub token_digest: [u8; 32],
    pub next_assoc_id: u32,
    /// Whether every association id has been handed out.
    pub exhausted: bool,
}

impl ClientConnection {
    /// A new connection for `token`; its digest is derived once, here.
    pub fn new(token: &[u8]) -> (r: Self)
        ensures
            r.token_digest@ == sha256_of(token@),
            r.next_assoc_id == 0,
            !r.exhausted,
    {
        ClientConnection { token_digest: token_digest(token), next_assoc_id: 0, exhausted: false }
    }

    /// The command sent first, on the control stream.
    pub fn authenticate_command(&self) -> (r: Command)
        ensures
            r@ == CommandModel::Authenticate(self.token_digest@),
    {
        Command::new_authenticate(self.token_digest)
    }

    /// Hands out a fresh association id: each id is larger than every id
    /// handed out before on this connection. `None` once all are used.
    pub fn associate(&mut self) -> (r: Option<u32>)
        ensures
            final(self).token_digest == old(self).token_digest,
            old(self).exhausted ==> r is None && *final(self) == *old(self),
            !old(self).exhausted ==> r == Some(old(self).next_assoc_id) && if old(self).next_assoc_id
                == u32::MAX {
                final(self).exhausted
            } else {
                !final(self).exhausted && final(self).next_assoc_id == old(self).next_assoc_id + 1
            },
    {
        if self.exhausted {
            return None;
        }
        let id = self.next_assoc_id;
        if id == u32::MAX {
            self.exhausted = true;
        } else {
            self.next_assoc_id = id + 1;
        }
        Some(id)
    }

    /// The command that ends association `assoc_id`.
    pub fn dissociate_command(&self, assoc_id: u32) -> (r: Command)
        ensures
            r@ == CommandModel::Dissociate(assoc_id),
    {
        Command::new_dissociate(assoc_id)
    }
}

/// What a `Connect` came to, from the command the server answered with:
/// `Response(true)` opens the relay, `Response(false)` is a refusal, and any
/// other command is out of place.
pub fn connect_outcome(resp: &Command) -> (r: Result<(), Error>)
    ensures
        r == match resp@ {
            CommandModel::Response(true) => Ok::<(), Error>(()),
            CommandModel::Response(false) => Err(Error::RemoteRefused),
            _ => Err(Error::ProtocolError),
        },
{
    match resp {
        Command::Response(true) => Ok(()),
        Command::Response(false) => Err(Error::RemoteRefused),
        _ => Err(Error::ProtocolError),
    }
}

/// Whether a heartbeat is due: nothing has been sent for `idle_ms`
/// milliseconds, and the interval is `interval_ms`.
pub fn heartbeat_due(idle_ms: u64, interval_ms: u64) -> (r: bool)
    ensures
        r == (idle_ms >= interval_ms),
{
    idle_ms >= interval_ms
}

} // verus!
