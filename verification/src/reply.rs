use vstd::prelude::*;

verus! {

/// The closed set of reply tokens the server sends during the
/// authentication exchange. Each occupies exactly four bytes on the wire:
/// three ASCII digits and one null.
#[derive(Clone, Copy, Debug, PartialEq, Eq, Structural)]
pub enum ReplyCode {
    /// `200`: the command was accepted.
    Success,
    /// `500`: the named resource (for example the user) does not exist.
    NotFound,
    /// `600`: the operation is not valid in the current state.
    BadState,
}

/// The exact four bytes a reply code occupies on the wire.
pub open spec fn reply_bytes(c: ReplyCode) -> Seq<u8> {
    match c {
        ReplyCode::Success => seq![50u8, 48u8, 48u8, 0u8],
        ReplyCode::NotFound => seq![53u8, 48u8, 48u8, 0u8],
        ReplyCode::BadState => seq![54u8, 48u8, 48u8, 0u8],
    }
}

impl ReplyCode {
    /// The reply frame for this code.
    pub fn to_bytes(&self) -> (r: Vec<u8>)
        ensures
            r@ == reply_bytes(*self),
    {
        let mut v: Vec<u8> = Vec::new();
        match self {
            ReplyCode::Success => v.push(50u8),
            ReplyCode::NotFound => v.push(53u8),
            ReplyCode::BadState => v.push(54u8),
        }
        v.push(48u8);
        v.push(48u8);
        v.push(0u8);
        proof {
            assert(v@ =~= reply_bytes(*self));
        }
        v
    }

    /// Reads a four-byte reply frame. `None` means the bytes lie outside
    /// the closed code table: a protocol violation, not an I/O error.
    pub fn from_bytes(buf: &[u8; 4]) -> (r: Option<ReplyCode>)
        ensures
            match r {
                Some(c) => buf@ == reply_bytes(c),
                None => buf@ != reply_bytes(ReplyCode::Success) && buf@ != reply_bytes(
                    ReplyCode::NotFound,
                ) && buf@ != reply_bytes(ReplyCode::BadState),
            },
    {
        if buf[1] == 48 && buf[2] == 48 && buf[3] == 0 {
            if buf[0] == 50 {
                proof {
                    assert(buf@ =~= reply_bytes(ReplyCode::Success));
                }
                return Some(ReplyCode::Success);
            }
            if buf[0] == 53 {
                proof {
                    assert(buf@ =~= reply_bytes(ReplyCode::NotFound));
                }
                return Some(ReplyCode::NotFound);
            }
            if buf[0] == 54 {
                proof {
                    assert(buf@ =~= reply_bytes(ReplyCode::BadState));
                }
                return Some(ReplyCode::BadState);
            }
        }
        None
    }
}

} // verus!
