//! One component of a domain name: at most 63 opaque octets.
use vstd::prelude::*;
use vstd::string::StringSliceAdditionalSpecFns;

verus! {

/// The longest label that a name may hold (RFC 2181, section 11).
pub const MAX_LABEL_LENGTH: usize = 63;

/// Returned when a label would be longer than `MAX_LABEL_LENGTH` octets.
#[derive(Debug, Clone, Copy, PartialEq, Eq, Structural)]
pub struct LabelTooLong {
    /// The length that was asked for.
    pub len: usize,
}

/// A label: a byte string of length 0 to 63, kept exactly as given.
#[derive(Debug, PartialEq, Eq, PartialOrd, Ord, Hash)]
pub struct DNSLabel(Vec<u8>);

impl View for DNSLabel {
    type V = Seq<u8>;

    closed spec fn view(&self) -> Seq<u8> {
        self.0@
    }
}

impl Clone for DNSLabel {
    fn clone(&self) -> (r: Self)
        ensures
            r@ == self@,
    {
        self.copy()
    }
}

impl DNSLabel {
    #[verifier::type_invariant]
    spec fn fits(self) -> bool {
        self.0@.len() <= MAX_LABEL_LENGTH
    }

    /// Makes a label of the octets of `s`; fails if there are more than 63.
    pub fn new(s: &str) -> (r: Result<DNSLabel, LabelTooLong>)
        ensures
            s.spec_bytes().len() <= MAX_LABEL_LENGTH ==> (r matches Ok(l) && l@ == s.spec_bytes()),
            s.spec_bytes().len() > MAX_LABEL_LENGTH ==> r == Err::<DNSLabel, LabelTooLong>(
                LabelTooLong { len: s.spec_bytes().len() as usize },
            ),
    {
        DNSLabel::from_bytes(s.as_bytes())
    }

    /// Makes a label of `bytes`; fails if there are more than 63.
    pub fn from_bytes(bytes: &[u8]) -> (r: Result<DNSLabel, LabelTooLong>)
        ensures
            bytes@.len() <= MAX_LABEL_LENGTH ==> (r matches Ok(l) && l@ == bytes@),
            bytes@.len() > MAX_LABEL_LENGTH ==> r == Err::<DNSLabel, LabelTooLong>(
                LabelTooLong { len: bytes@.len() as usize },
            ),
    {
        if bytes.len() > MAX_LABEL_LENGTH {
            return Err(LabelTooLong { len: bytes.len() });
        }
        let mut v: Vec<u8> = Vec::new();
        v.extend_from_slice(bytes);
        assert(v@ =~= bytes@);
        Ok(DNSLabel(v))
    }

    /// A label with the same octets.
    pub fn copy(&self) -> (r: DNSLabel)
        ensures
            r@ == self@,
    {
        proof {
            use_type_invariant(self);
        }
        DNSLabel(self.0.clone())
    }

    /// The octets of the label.
    pub fn as_bytes(&self) -> (r: &[u8])
        ensures
            r@ == self@,
            r@.len() <= MAX_LABEL_LENGTH,
    {
        proof {
            use_type_invariant(self);
        }
        self.0.as_slice()
    }

    /// The number of octets in the label.
    pub fn len(&self) -> (r: usize)
        ensures
            r == self@.len(),
            r <= MAX_LABEL_LENGTH,
    {
        proof {
            use_type_invariant(self);
        }
        self.0.len()
    }
}

} // verus!
