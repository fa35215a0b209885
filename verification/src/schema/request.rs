//! How a request names itself on the wire, and what answers it.

use vstd::prelude::*;
use crate::codec::traits::{Decoder, Encoder};
use crate::schema::create::CreateRequest;
use crate::schema::status::Status;

verus! {

/// The key under which the request to create something travels.
pub const CREATE_API_KEY: u16 = 1001;

/// The keys of the administrative requests.
#[derive(Debug, Clone, Copy, PartialEq, Eq, Structural)]
pub enum AdminPublicApiKey {
    ApiVersion,
    Create,
    Delete,
    List,
    Watch,
}

impl AdminPublicApiKey {
    /// The number that stands for the key on the wire.
    pub open spec fn number(self) -> u16 {
        match self {
            AdminPublicApiKey::ApiVersion => 18,
            AdminPublicApiKey::Create => CREATE_API_KEY,
            AdminPublicApiKey::Delete => 1002,
            AdminPublicApiKey::List => 1003,
            AdminPublicApiKey::Watch => 1004,
        }
    }

    /// The number that stands for the key on the wire.
    pub fn as_u16(self) -> (n: u16)
        ensures
            n == self.number(),
    {
        match self {
            AdminPublicApiKey::ApiVersion => 18,
            AdminPublicApiKey::Create => CREATE_API_KEY,
            AdminPublicApiKey::Delete => 1002,
            AdminPublicApiKey::List => 1003,
            AdminPublicApiKey::Watch => 1004,
        }
    }

    /// The key that `n` stands for, if it stands for one.
    pub open spec fn from_number(n: u16) -> Option<AdminPublicApiKey> {
        if n == 18 {
            Some(AdminPublicApiKey::ApiVersion)
        } else if n == CREATE_API_KEY {
            Some(AdminPublicApiKey::Create)
        } else if n == 1002 {
            Some(AdminPublicApiKey::Delete)
        } else if n == 1003 {
            Some(AdminPublicApiKey::List)
        } else if n == 1004 {
            Some(AdminPublicApiKey::Watch)
        } else {
            None
        }
    }

    /// The key that `n` stands for, if it stands for one.
    pub fn from_u16(n: u16) -> (r: Option<AdminPublicApiKey>)
        ensures
            r == AdminPublicApiKey::from_number(n),
    {
        if n == 18 {
            Some(AdminPublicApiKey::ApiVersion)
        } else if n == CREATE_API_KEY {
            Some(AdminPublicApiKey::Create)
        } else if n == 1002 {
            Some(AdminPublicApiKey::Delete)
        } else if n == 1003 {
            Some(AdminPublicApiKey::List)
        } else if n == 1004 {
            Some(AdminPublicApiKey::Watch)
        } else {
            None
        }
    }
}

/// Keys and numbers stand for each other: every key is found again from its
/// number, and a number that stands for a key is the number of that key.
pub proof fn lemma_keys_and_numbers(key: AdminPublicApiKey, n: u16)
    ensures
        AdminPublicApiKey::from_number(key.number()) == Some(key),
        AdminPublicApiKey::from_number(n) matches Some(k) ==> k.number() == n,
{
}

/// A request: it names itself by a key, has a version that both ends speak
/// unless they agree on another, and is answered by one type of response.
pub trait Request: Encoder + Decoder {
    /// The key that tells the kind of message on the wire.
    const API_KEY: u16;

    /// The version used where none was negotiated.
    const DEFAULT_API_VERSION: i16;

    /// What answers the request.
    type Response: Encoder + Decoder + Default;
}

/// Marks the requests that administer the cluster. The transport routes
/// them apart from the requests that produce and fetch records.
pub trait AdminRequest: Request {
}

impl Request for CreateRequest {
    const API_KEY: u16 = CREATE_API_KEY;

    const DEFAULT_API_VERSION: i16 = 1;

    type Response = Status;
}

impl AdminRequest for CreateRequest {
}

} // verus!
