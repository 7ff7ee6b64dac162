//! The two kinds of credential.
use vstd::prelude::*;

use crate::text::str_eq;

verus! {

/// Which engine a credential is for.
#[derive(Clone, Copy, PartialEq, Eq, Debug, Structural)]
pub enum ClientType {
    Hotp,
    Totp,
}

/// The token that names `kind` in a vault line.
pub open spec fn kind_token(kind: ClientType) -> Seq<char> {
    match kind {
        ClientType::Hotp => seq!['h', 'o', 't', 'p'],
        ClientType::Totp => seq!['t', 'o', 't', 'p'],
    }
}

/// The kind that `token` names, if any.
pub open spec fn kind_of(token: Seq<char>) -> Option<ClientType> {
    if token == kind_token(ClientType::Hotp) {
        Some(ClientType::Hotp)
    } else if token == kind_token(ClientType::Totp) {
        Some(ClientType::Totp)
    } else {
        None
    }
}

impl ClientType {
    /// The token that names this kind: `hotp` or `totp`.
    pub fn as_str(&self) -> (r: &'static str)
        ensures
            r@ == kind_token(*self),
    {
        proof {
            reveal_strlit("hotp");
            reveal_strlit("totp");
        }
        match self {
            ClientType::Hotp => "hotp",
            ClientType::Totp => "totp",
        }
    }

    /// The kind that `token` names: `hotp` or `totp`, nothing else.
    pub fn parse(token: &str) -> (r: Option<ClientType>)
        ensures
            r == kind_of(token@),
    {
        proof {
            reveal_strlit("hotp");
            reveal_strlit("totp");
            assert("hotp"@ =~= kind_token(ClientType::Hotp));
            assert("totp"@ =~= kind_token(ClientType::Totp));
        }
        if str_eq(token, "hotp") {
            Some(ClientType::Hotp)
        } else if str_eq(token, "totp") {
            Some(ClientType::Totp)
        } else {
            None
        }
    }
}

} // verus!
