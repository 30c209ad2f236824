use vstd::prelude::*;
use crate::address::{Address, AddressModel};
use crate::auth::digest_eq;
use crate::command::{Command, CommandModel};
use crate::error::Error;

verus! {

/// Why a connection was closed; each reason has its own code on the wire.
#[derive(Debug, Clone, Copy, PartialEq, Eq, Structural)]
pub enum CloseCode {
    Unauthenticated,
    AuthenticationFailed,
    AuthTimeout,
    ProtocolError,
    RemoteConnectFailed,
    Shutdown,
}

/// Where a connection stands.
#[derive(Debug, Clone, Copy, PartialEq, Eq, Structural)]
pub enum ConnectionState {
    AwaitingAuth,
    Authenticated,
    Closed(CloseCode),
}

/// Where a command arrived: the control stream (the first bidirectional
/// stream), another bidirectional stream, a unidirectional stream, or a
/// datagram.
#[derive(Debug, Clone, Copy, PartialEq, Eq, Structural)]
pub enum Channel {
    Control,
    Bidirectional,
    Unidirectional,
    Datagram,
}

/// What to do with a stream or datagram that has just arrived.
#[derive(Debug, Clone, Copy, PartialEq, Eq, Structural)]
pub enum Admission {
    /// Keep it until authentication completes.
    Hold,
    Process,
    Drop,
}

/// What the connection's driver is to do after an event.
#[derive(Debug, Clone, PartialEq, Eq)]
pub enum Action {
    /// Nothing; the event changed nothing that can be seen.
    Ignore,
    /// Close the whole connection with this code.
    CloseConnection(CloseCode),
    /// Close the stream the command came on; the connection goes on.
    CloseStream,
    /// Authentication succeeded: process what was held.
    ReleaseHeld,
    /// Dial this address over TCP, then answer with `Response`.
    Dial(Address),
    /// Hand a UDP fragment to the session table; `reliable` tells whether it
    /// came on a stream rather than as a datagram.
    RelayUdp { assoc_id: u32, len: u16, addr: Address, reliable: bool },
    /// Drop the UDP session of this association.
    Dissociate(u32),
    /// The peer is alive: restart the idle timer.
    ResetIdle,
}

/// What an `Action` says, as mathematical values.
pub enum ActionModel {
    Ignore,
    CloseConnection(CloseCode),
    CloseStream,
    ReleaseHeld,
    Dial(AddressModel),
    RelayUdp(u32, u16, AddressModel, bool),
    Dissociate(u32),
    ResetIdle,
}

impl View for Action {
    type V = ActionModel;

    open spec fn view(&self) -> ActionModel {
        match self {
            Action::Ignore => ActionModel::Ignore,
            Action::CloseConnection(c) => ActionModel::CloseConnection(*c),
            Action::CloseStream => ActionModel::CloseStream,
            Action::ReleaseHeld => ActionModel::ReleaseHeld,
            Action::Dial(a) => ActionModel::Dial(a@),
            Action::RelayUdp { assoc_id, len, addr, reliable } => ActionModel::RelayUdp(
                *assoc_id,
                *len,
                addr@,
                *reliable,
            ),
            Action::Dissociate(id) => ActionModel::Dissociate(*id),
            Action::ResetIdle => ActionModel::ResetIdle,
        }
    }
}

/// The state that closes a connection with `code`, with the action to match.
pub open spec fn close_with(code: CloseCode) -> (ConnectionState, ActionModel) {
    (ConnectionState::Closed(code), ActionModel::CloseConnection(code))
}

/// The server's answer to a command that arrived on `channel`, while the
/// connection is authenticated.
pub open spec fn authenticated_next(channel: Channel, cmd: CommandModel) -> (ConnectionState, ActionModel) {
    let stay = ConnectionState::Authenticated;
    match cmd {
        CommandModel::Authenticate(_) => close_with(CloseCode::ProtocolError),
        CommandModel::Connect(addr) => if channel == Channel::Bidirectional {
            (stay, ActionModel::Dial(addr))
        } else {
            (stay, ActionModel::CloseStream)
        },
        CommandModel::Packet(assoc_id, len, addr) => if channel == Channel::Unidirectional {
            (stay, ActionModel::RelayUdp(assoc_id, len, addr, true))
        } else if channel == Channel::Datagram {
            (stay, ActionModel::RelayUdp(assoc_id, len, addr, false))
        } else {
            (stay, ActionModel::CloseStream)
        },
        CommandModel::Dissociate(assoc_id) => if channel == Channel::Control {
            (stay, ActionModel::Dissociate(assoc_id))
        } else {
            (stay, ActionModel::CloseStream)
        },
        CommandModel::Heartbeat => if channel == Channel::Control {
            (stay, ActionModel::ResetIdle)
        } else {
            (stay, ActionModel::CloseStream)
        },
        CommandModel::Response(_) => (stay, ActionModel::CloseStream),
    }
}

/// The server's next state and action when `cmd` arrives on `channel` in
/// `state`, where `expected` is the token digest.
pub open spec fn server_next(
    state: ConnectionState,
    expected: Seq<u8>,
    channel: Channel,
    cmd: CommandModel,
) -> (ConnectionState, ActionModel) {
    match state {
        ConnectionState::Closed(_) => (state, ActionModel::Ignore),
        ConnectionState::AwaitingAuth => match cmd {
            CommandModel::Authenticate(digest) => if channel != Channel::Control {
                close_with(CloseCode::Unauthenticated)
            } else if digest == expected {
                (ConnectionState::Authenticated, ActionModel::ReleaseHeld)
            } else {
                close_with(CloseCode::AuthenticationFailed)
            },
            _ => close_with(CloseCode::Unauthenticated),
        },
        ConnectionState::Authenticated => authenticated_next(channel, cmd),
    }
}

/// The server's side of one connection: the authentication gate and the
/// dispatch of each command that arrives.
pub struct ServerConnection {
    pub state: ConnectionState,
    pub expected_token_digest: [u8; 32],
}

impl ServerConnection {
    /// A connection just accepted, waiting for `Authenticate`.
    pub fn new(expected_token_digest: [u8; 32]) -> (r: Self)
        ensures
            r.state == ConnectionState::AwaitingAuth,
            r.expected_token_digest@ == expected_token_digest@,
    {
        ServerConnection { state: ConnectionState::AwaitingAuth, expected_token_digest }
    }

    /// Whether a stream or datagram that arrives now is held, processed or
    /// dropped.
    pub fn admission(&self) -> (r: Admission)
        ensures
            r == match self.state {
                ConnectionState::AwaitingAuth => Admission::Hold,
                ConnectionState::Authenticated => Admission::Process,
                ConnectionState::Closed(_) => Admission::Drop,
            },
    {
        match self.state {
            ConnectionState::AwaitingAuth => Admission::Hold,
            ConnectionState::Authenticated => Admission::Process,
            ConnectionState::Closed(_) => Admission::Drop,
        }
    }

    /// Handles one command that arrived on `channel`.
    pub fn on_command(&mut self, channel: Channel, cmd: Command) -> (r: Action)
        ensures
            final(self).expected_token_digest == old(self).expected_token_digest,
            (final(self).state, r@) == server_next(
                old(self).state,
                old(self).expected_token_digest@,
                channel,
                cmd@,
            ),
    {
        match self.state {
            ConnectionState::Closed(_) => Action::Ignore,
            ConnectionState::AwaitingAuth => match cmd {
                Command::Authenticate { digest } => {
                    if channel != Channel::Control {
                        self.close(CloseCode::Unauthenticated)
                    } else if digest_eq(&digest, &self.expected_token_digest) {
                        self.state = ConnectionState::Authenticated;
                        Action::ReleaseHeld
                    } else {
                        self.close(CloseCode::AuthenticationFailed)
                    }
                },
                _ => self.close(CloseCode::Unauthenticated),
            },
            ConnectionState::Authenticated => match cmd {
                Command::Authenticate { .. } => self.close(CloseCode::ProtocolError),
                Command::Connect { addr } => {
                    if channel == Channel::Bidirectional {
                        Action::Dial(addr)
                    } else {
                        Action::CloseStream
                    }
                },
                Command::Packet { assoc_id, len, addr } => {
                    if channel == Channel::Unidirectional {
                        Action::RelayUdp { assoc_id, len, addr, reliable: true }
                    } else if channel == Channel::Datagram {
                        Action::RelayUdp { assoc_id, len, addr, reliable: false }
                    } else {
                        Action::CloseStream
                    }
                },
                Command::Dissociate { assoc_id } => {
                    if channel == Channel::Control {
                        Action::Dissociate(assoc_id)
                    } else {
                        Action::CloseStream
                    }
                },
                Command::Heartbeat => {
                    if channel == Channel::Control {
                        Action::ResetIdle
                    } else {
                        Action::CloseStream
                    }
                },
                Command::Response(_) => Action::CloseStream,
            },
        }
    }

    fn close(&mut self, code: CloseCode) -> (r: Action)
        ensures
            final(self).state == ConnectionState::Closed(code),
            final(self).expected_token_digest == old(self).expected_token_digest,
            r@ == ActionModel::CloseConnection(code),
    {
        self.state = ConnectionState::Closed(code);
        Action::CloseConnection(code)
    }

    /// Handles a command that could not be read. A wrong version closes the
    /// connection; any other error closes only its stream.
    pub fn on_decode_error(&mut self, e: Error) -> (r: Action)
        ensures
            final(self).expected_token_digest == old(self).expected_token_digest,
            old(self).state is Closed ==> final(self).state == old(self).state && r@ == ActionModel::Ignore,
            !(old(self).state is Closed) ==> if e is UnsupportedVersion {
                (final(self).state, r@) == close_with(CloseCode::ProtocolError)
            } else {
                final(self).state == old(self).state && r@ == ActionModel::CloseStream
            },
    {
        match self.state {
            ConnectionState::Closed(_) => Action::Ignore,
            _ => match e {
                Error::UnsupportedVersion(_) => self.close(CloseCode::ProtocolError),
                _ => Action::CloseStream,
            },
        }
    }

    /// Handles the end of the time allowed for authentication.
    pub fn on_auth_deadline(&mut self) -> (r: Action)
        ensures
            final(self).expected_token_digest == old(self).expected_token_digest,
            old(self).state == ConnectionState::AwaitingAuth ==> (final(self).state, r@) == close_with(
                CloseCode::AuthTimeout,
            ),
            old(self).state != ConnectionState::AwaitingAuth ==> final(self).state == old(self).state
                && r@ == ActionModel::Ignore,
    {
        match self.state {
            ConnectionState::AwaitingAuth => self.close(CloseCode::AuthTimeout),
            _ => Action::Ignore,
        }
    }

    /// The answer to a `Connect` once the dial has finished: `Response(true)`
    /// on success, `Response(false)` on failure, and nothing about the cause.
    pub fn on_dial_result(&self, succeeded: bool) -> (r: Command)
        ensures
            r@ == CommandModel::Response(succeeded),
    {
        Command::new_response(succeeded)
    }
}

/// Any command but `Authenticate` on the control stream, while the connection
/// waits for authentication, closes it as unauthenticated.
pub proof fn lemma_command_before_auth_closes(expected: Seq<u8>, channel: Channel, cmd: CommandModel)
    requires
        !(cmd is Authenticate) || channel != Channel::Control,
    ensures
        server_next(ConnectionState::AwaitingAuth, expected, channel, cmd) == close_with(
            CloseCode::Unauthenticated,
        ),
{
}

/// A wrong digest closes the connection as failed authentication, and a
/// closed connection does nothing more with any command.
pub proof fn lemma_wrong_digest_closes(expected: Seq<u8>, digest: Seq<u8>, channel: Channel, cmd: CommandModel)
    requires
        digest != expected,
    ensures
        server_next(
            ConnectionState::AwaitingAuth,
            expected,
            Channel::Control,
            CommandModel::Authenticate(digest),
        ) == close_with(CloseCode::AuthenticationFailed),
        server_next(ConnectionState::Closed(CloseCode::AuthenticationFailed), expected, channel, cmd)
            == (ConnectionState::Closed(CloseCode::AuthenticationFailed), ActionModel::Ignore),
{
}

} // verus!
