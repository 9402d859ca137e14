use vstd::prelude::*;

use crate::reply::{reply_bytes, ReplyCode};

verus! {

/// Connection progress of the client session:
/// `Disconnected` to `Connected` to `SentUser` to `Ready`.
#[derive(Clone, Copy, Debug, PartialEq, Eq, Structural)]
pub enum ClientState {
    Disconnected,
    Connected,
    SentUser,
    Ready,
}

/// What the client should do with an `open` command.
#[derive(Clone, Copy, Debug, PartialEq, Eq, Structural)]
pub enum OpenDecision {
    /// A transport is already held: report a user error, touch nothing.
    AlreadyOpen,
    /// No transport is held: dial the address.
    Connect,
}

/// The verdict on a four-byte authentication reply.
#[derive(Clone, Copy, Debug, PartialEq, Eq, Structural)]
pub enum UserReplyOutcome {
    /// `200`: the user was accepted and the session advances.
    Accepted,
    /// `500`: the user is unknown to the server.
    UnknownUser,
    /// `600`: the server cannot take a user now.
    NotNow,
    /// Any other four bytes: a protocol violation, reported distinctly
    /// from an I/O error; the session does not advance.
    ProtocolViolation,
}

/// The client-side session. The transport handle itself lives with the I/O
/// layer; `holds_transport` mirrors whether one is held.
#[derive(Clone, Copy, Debug, PartialEq, Eq, Structural)]
pub struct ClientSession {
    pub state: ClientState,
    pub holds_transport: bool,
}

impl ClientSession {
    /// A fresh session: nothing dialed yet.
    pub fn new() -> (r: ClientSession)
        ensures
            r.state == ClientState::Disconnected,
            !r.holds_transport,
    {
        ClientSession { state: ClientState::Disconnected, holds_transport: false }
    }

    /// Decides an `open` command. A second `open` while a transport is
    /// held is refused as a user error and the session is untouched.
    pub fn handle_open(&self) -> (r: OpenDecision)
        ensures
            r == if self.holds_transport {
                OpenDecision::AlreadyOpen
            } else {
                OpenDecision::Connect
            },
    {
        if self.holds_transport {
            OpenDecision::AlreadyOpen
        } else {
            OpenDecision::Connect
        }
    }

    /// Records a successful dial: the session now holds a transport.
    pub fn connection_opened(&mut self)
        requires
            !old(self).holds_transport,
        ensures
            final(self).state == ClientState::Connected,
            final(self).holds_transport,
    {
        self.state = ClientState::Connected;
        self.holds_transport = true;
    }

    /// True when a `user` command may be sent to the peer now; in any
    /// other state it is a local, no-network client error.
    pub fn may_send_user(&self) -> (r: bool)
        ensures
            r == (self.state == ClientState::Connected),
    {
        self.state == ClientState::Connected
    }

    /// Interprets the four-byte reply to a sent `user` command against the
    /// closed code table. Only `200` advances the session; every other
    /// reply, recognized or not, leaves it exactly as it was.
    pub fn handle_user_reply(&mut self, reply: &[u8; 4]) -> (r: UserReplyOutcome)
        requires
            old(self).state == ClientState::Connected,
        ensures
            reply@ == reply_bytes(ReplyCode::Success) ==> r == UserReplyOutcome::Accepted
                && final(self).state == ClientState::SentUser
                && final(self).holds_transport == old(self).holds_transport,
            reply@ == reply_bytes(ReplyCode::NotFound) ==> r == UserReplyOutcome::UnknownUser
                && *final(self) == *old(self),
            reply@ == reply_bytes(ReplyCode::BadState) ==> r == UserReplyOutcome::NotNow
                && *final(self) == *old(self),
            reply@ != reply_bytes(ReplyCode::Success) && reply@ != reply_bytes(ReplyCode::NotFound)
                && reply@ != reply_bytes(ReplyCode::BadState) ==> r
                == UserReplyOutcome::ProtocolViolation && *final(self) == *old(self),
    {
        match ReplyCode::from_bytes(reply) {
            Some(ReplyCode::Success) => {
                self.state = ClientState::SentUser;
                UserReplyOutcome::Accepted
            },
            Some(ReplyCode::NotFound) => UserReplyOutcome::UnknownUser,
            Some(ReplyCode::BadState) => UserReplyOutcome::NotNow,
            None => UserReplyOutcome::ProtocolViolation,
        }
    }
}

} // verus!
