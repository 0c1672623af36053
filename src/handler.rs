//! The classes of failure that a request handler reports.
use vstd::prelude::*;
use crate::name::ParseError;

verus! {

/// A response-code class; it carries no message.
#[derive(Debug, Clone, Copy, PartialEq, Eq, Structural)]
pub enum DnsRequestError {
    FormErr,
    ServFail,
    NXDomain,
    NotImp,
    Refused,
    YXDomain,
    YXRRSet,
    NXRRSet,
    NotAuth,
    NotZone,
    DSOTYPENI,
    BadVersOrSig,
    BadKey,
    BadTime,
    BadMode,
    BadName,
    BadAlg,
    BadTrunc,
    BadCookie,
}

impl DnsRequestError {
    /// The assigned response code of the class: 1 to 11, then 16 to 23.
    pub open spec fn spec_response_code(self) -> u8 {
        match self {
            DnsRequestError::FormErr => 1,
            DnsRequestError::ServFail => 2,
            DnsRequestError::NXDomain => 3,
            DnsRequestError::NotImp => 4,
            DnsRequestError::Refused => 5,
            DnsRequestError::YXDomain => 6,
            DnsRequestError::YXRRSet => 7,
            DnsRequestError::NXRRSet => 8,
            DnsRequestError::NotAuth => 9,
            DnsRequestError::NotZone => 10,
            DnsRequestError::DSOTYPENI => 11,
            DnsRequestError::BadVersOrSig => 16,
            DnsRequestError::BadKey => 17,
            DnsRequestError::BadTime => 18,
            DnsRequestError::BadMode => 19,
            DnsRequestError::BadName => 20,
            DnsRequestError::BadAlg => 21,
            DnsRequestError::BadTrunc => 22,
            DnsRequestError::BadCookie => 23,
        }
    }

    /// The response code that reports this class to the peer.
    pub fn to_response_code(&self) -> (r: u8)
        ensures
            r == self.spec_response_code(),
    {
        match self {
            DnsRequestError::FormErr => 1,
            DnsRequestError::ServFail => 2,
            DnsRequestError::NXDomain => 3,
            DnsRequestError::NotImp => 4,
            DnsRequestError::Refused => 5,
            DnsRequestError::YXDomain => 6,
            DnsRequestError::YXRRSet => 7,
            DnsRequestError::NXRRSet => 8,
            DnsRequestError::NotAuth => 9,
            DnsRequestError::NotZone => 10,
            DnsRequestError::DSOTYPENI => 11,
            DnsRequestError::BadVersOrSig => 16,
            DnsRequestError::BadKey => 17,
            DnsRequestError::BadTime => 18,
            DnsRequestError::BadMode => 19,
            DnsRequestError::BadName => 20,
            DnsRequestError::BadAlg => 21,
            DnsRequestError::BadTrunc => 22,
            DnsRequestError::BadCookie => 23,
        }
    }

    /// A message that could not be decoded is reported as a server failure.
    pub fn from_parse_error(e: ParseError) -> (r: DnsRequestError)
        ensures
            r == DnsRequestError::ServFail,
    {
        DnsRequestError::ServFail
    }

    /// The name of the class, as it is written in logs.
    pub open spec fn spec_name(self) -> Seq<char> {
        match self {
            DnsRequestError::FormErr => "FormErr"@,
            DnsRequestError::ServFail => "ServFail"@,
            DnsRequestError::NXDomain => "NXDomain"@,
            DnsRequestError::NotImp => "NotImp"@,
            DnsRequestError::Refused => "Refused"@,
            DnsRequestError::YXDomain => "YXDomain"@,
            DnsRequestError::YXRRSet => "YXRRSet"@,
            DnsRequestError::NXRRSet => "NXRRSet"@,
            DnsRequestError::NotAuth => "NotAuth"@,
            DnsRequestError::NotZone => "NotZone"@,
            DnsRequestError::DSOTYPENI => "DSOTYPENI"@,
            DnsRequestError::BadVersOrSig => "BadVersOrSig"@,
            DnsRequestError::BadKey => "BadKey"@,
            DnsRequestError::BadTime => "BadTime"@,
            DnsRequestError::BadMode => "BadMode"@,
            DnsRequestError::BadName => "BadName"@,
            DnsRequestError::BadAlg => "BadAlg"@,
            DnsRequestError::BadTrunc => "BadTrunc"@,
            DnsRequestError::BadCookie => "BadCookie"@,
        }
    }

    /// The name of the class.
    pub fn name(&self) -> (r: &'static str)
        ensures
            r@ == self.spec_name(),
    {
        match self {
            DnsRequestError::FormErr => "FormErr",
            DnsRequestError::ServFail => "ServFail",
            DnsRequestError::NXDomain => "NXDomain",
            DnsRequestError::NotImp => "NotImp",
            DnsRequestError::Refused => "Refused",
            DnsRequestError::YXDomain => "YXDomain",
            DnsRequestError::YXRRSet => "YXRRSet",
            DnsRequestError::NXRRSet => "NXRRSet",
            DnsRequestError::NotAuth => "NotAuth",
            DnsRequestError::NotZone => "NotZone",
            DnsRequestError::DSOTYPENI => "DSOTYPENI",
            DnsRequestError::BadVersOrSig => "BadVersOrSig",
            DnsRequestError::BadKey => "BadKey",
            DnsRequestError::BadTime => "BadTime",
            DnsRequestError::BadMode => "BadMode",
            DnsRequestError::BadName => "BadName",
            DnsRequestError::BadAlg => "BadAlg",
            DnsRequestError::BadTrunc => "BadTrunc",
            DnsRequestError::BadCookie => "BadCookie",
        }
    }
}

} // verus!
