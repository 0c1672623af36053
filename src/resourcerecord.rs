//! Resource record type codes.
use vstd::prelude::*;

verus! {

/// The record types that record data can have.
#[derive(Debug, Clone, Copy, PartialEq, Eq, Structural)]
pub enum ResourceRecordType {
    A,
    NS,
    MD,
    MF,
    CNAME,
    SOA,
    MB,
    MG,
    MR,
    PTR,
    MX,
    TXT,
    AAAA,
    SRV,
}

impl ResourceRecordType {
    /// The assigned numeric code of the type.
    pub open spec fn spec_code(self) -> u16 {
        match self {
            ResourceRecordType::A => 1,
            ResourceRecordType::NS => 2,
            ResourceRecordType::MD => 3,
            ResourceRecordType::MF => 4,
            ResourceRecordType::CNAME => 5,
            ResourceRecordType::SOA => 6,
            ResourceRecordType::MB => 7,
            ResourceRecordType::MG => 8,
            ResourceRecordType::MR => 9,
            ResourceRecordType::PTR => 12,
            ResourceRecordType::MX => 15,
            ResourceRecordType::TXT => 16,
            ResourceRecordType::AAAA => 28,
            ResourceRecordType::SRV => 33,
        }
    }

    /// The assigned numeric code of the type, as it stands in a record.
    pub fn code(&self) -> (r: u16)
        ensures
            r == self.spec_code(),
    {
        match self {
            ResourceRecordType::A => 1,
            ResourceRecordType::NS => 2,
            ResourceRecordType::MD => 3,
            ResourceRecordType::MF => 4,
            ResourceRecordType::CNAME => 5,
            ResourceRecordType::SOA => 6,
            ResourceRecordType::MB => 7,
            ResourceRecordType::MG => 8,
            ResourceRecordType::MR => 9,
            ResourceRecordType::PTR => 12,
            ResourceRecordType::MX => 15,
            ResourceRecordType::TXT => 16,
            ResourceRecordType::AAAA => 28,
            ResourceRecordType::SRV => 33,
        }
    }
}

} // verus!
