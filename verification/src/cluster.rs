//! What starting a cluster reports, and where its charts come from.

use std::path::PathBuf;
use vstd::prelude::*;

verus! {

/// `std::path::PathBuf`: a file system path, carried through unread.
#[verifier::external_type_specification]
#[verifier::external_body]
pub struct ExPathBuf(PathBuf);

/// `PathBuf::clone`: the copy is the same path.
pub assume_specification[ <PathBuf as Clone>::clone ](path: &PathBuf) -> (r: PathBuf)
    ensures
        r == *path,
;

/// The outcome of one check run before a cluster starts.
#[derive(Debug, Clone, Copy, PartialEq, Eq, Structural)]
pub enum CheckStatus {
    /// The check passed.
    Pass,
    /// The check failed.
    Fail,
}

/// The outcomes of the checks run before a cluster starts, in order.
pub type CheckStatuses = Vec<CheckStatus>;

/// The result of a successful startup of a cluster: where its streaming
/// controller listens, and the outcomes of the checks run before startup, if
/// any were run.
#[derive(Debug)]
pub struct StartStatus {
    address: String,
    port: u16,
    checks: Option<CheckStatuses>,
}

impl StartStatus {
    /// The address of the streaming controller, as a model.
    pub closed spec fn spec_address(&self) -> Seq<char> {
        self.address@
    }

    /// The port of the streaming controller, as a model.
    pub closed spec fn spec_port(&self) -> u16 {
        self.port
    }

    /// The outcomes of the checks, as a model.
    pub closed spec fn spec_checks(&self) -> Option<Seq<CheckStatus>> {
        match self.checks {
            Some(checks) => Some(checks@),
            None => None,
        }
    }

    /// The status of a cluster that started at `address` and `port`.
    pub fn new(address: String, port: u16, checks: Option<CheckStatuses>) -> (r: Self)
        ensures
            r.spec_address() == address@,
            r.spec_port() == port,
            r.spec_checks() == match checks {
                Some(c) => Some(c@),
                None => None,
            },
    {
        StartStatus { address, port, checks }
    }

    /// The address where the newly started cluster lives.
    pub fn address(&self) -> (r: &str)
        ensures
            r@ == self.spec_address(),
    {
        self.address.as_str()
    }

    /// The port where the newly started cluster listens.
    pub fn port(&self) -> (r: u16)
        ensures
            r == self.spec_port(),
    {
        self.port
    }

    /// The outcomes of the checks run before startup, if any were run.
    pub fn checks(&self) -> (r: Option<&CheckStatuses>)
        ensures
            match r {
                Some(c) => self.spec_checks() == Some(c@),
                None => self.spec_checks() is None,
            },
    {
        self.checks.as_ref()
    }
}

/// Where the charts that a user configured are found.
#[derive(Debug, Clone)]
pub enum UserChartLocation {
    /// Local charts must be located at a valid file system path.
    Local(PathBuf),
    /// Remote charts will be located at a URL.
    Remote(String),
}

impl UserChartLocation {
    /// Whether the charts lie on the local file system.
    pub fn is_local(&self) -> (b: bool)
        ensures
            b == (*self is Local),
    {
        match self {
            UserChartLocation::Local(_) => true,
            UserChartLocation::Remote(_) => false,
        }
    }
}

} // verus!
