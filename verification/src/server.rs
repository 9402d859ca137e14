use vstd::prelude::*;

use crate::reply::ReplyCode;
use crate::table::UserTable;

verus! {

/// Authentication progress of one server-side session, strictly forward:
/// `Connected` to `UserSent` to `Ready`.
#[derive(Clone, Copy, Debug, PartialEq, Eq, Structural)]
pub enum ServerState {
    Connected,
    UserSent,
    Ready,
}

/// The per-connection server session: created on accept, dropped when the
/// connection closes. Only the transition functions mutate it; the I/O
/// layer sends the replies they return.
#[derive(Debug)]
pub struct ServerSession {
    /// Where the authentication sub-protocol stands.
    pub state: ServerState,
    /// The secret expected from the pending user, recorded when a `user`
    /// command is accepted.
    pub expected_pass: Option<String>,
}

impl ServerSession {
    /// A fresh session for a newly accepted connection.
    pub fn new() -> (r: ServerSession)
        ensures
            r.state == ServerState::Connected,
            r.expected_pass is None,
    {
        ServerSession { state: ServerState::Connected, expected_pass: None }
    }

    /// The transition for `User(name)`. In `Connected` with a known name it
    /// records the expected secret, moves to `UserSent` and replies `200`;
    /// with an unknown name it replies `500` and changes nothing; in any
    /// other state it replies `600` and changes nothing.
    pub fn handle_user(&mut self, table: &UserTable, name: &str) -> (reply: ReplyCode)
        ensures
            old(self).state != ServerState::Connected ==> reply == ReplyCode::BadState
                && *final(self) == *old(self),
            old(self).state == ServerState::Connected && table@.contains_key(name@) ==> reply
                == ReplyCode::Success && final(self).state == ServerState::UserSent
                && (final(self).expected_pass matches Some(p) && p@ == table@[name@]),
            old(self).state == ServerState::Connected && !table@.contains_key(name@) ==> reply
                == ReplyCode::NotFound && *final(self) == *old(self),
    {
        if self.state != ServerState::Connected {
            return ReplyCode::BadState;
        }
        match table.lookup(name) {
            Some(p) => {
                let secret = p.clone();
                self.state = ServerState::UserSent;
                self.expected_pass = Some(secret);
                ReplyCode::Success
            },
            None => ReplyCode::NotFound,
        }
    }
}

} // verus!
