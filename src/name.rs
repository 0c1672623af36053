//! Domain names: sequences of labels, encoded as length-prefixed octet groups
//! ending in a zero octet.
use vstd::prelude::*;
use crate::label::{DNSLabel, MAX_LABEL_LENGTH};

verus! {

/// The longest encoded name, terminator included.
pub const MAX_NAME_LENGTH: usize = 255;

/// Why a datagram could not be decoded.
#[derive(Debug, Clone, Copy, PartialEq, Eq, Structural)]
pub enum ParseError {
    /// The data ended before the field being read.
    Truncated,
    /// A length octet announced a label longer than 63 octets.
    LabelTooLong,
    /// The encoded name would be longer than 255 octets.
    NameTooLong,
}

/// The octets of each label of `n`.
pub open spec fn name_view(n: Seq<DNSLabel>) -> Seq<Seq<u8>> {
    n.map_values(|l: DNSLabel| l@)
}

/// Each label as its length octet followed by its octets, without the terminator.
pub open spec fn labels_bytes(n: Seq<Seq<u8>>) -> Seq<u8>
    decreases n.len(),
{
    if n.len() == 0 {
        seq![]
    } else {
        labels_bytes(n.drop_last()) + seq![n.last().len() as u8] + n.last()
    }
}

/// The wire form of a name: its labels, then a zero octet.
pub open spec fn encode_name(n: Seq<Seq<u8>>) -> Seq<u8> {
    labels_bytes(n).push(0)
}

/// Every label is one to 63 octets long: an empty label would be read as
/// the terminator.
pub open spec fn labels_fit(n: Seq<Seq<u8>>) -> bool {
    forall|i: int| 0 <= i < n.len() ==> 1 <= #[trigger] n[i].len() <= MAX_LABEL_LENGTH
}

/// The name can be written: no empty label, and at most 255 octets encoded.
pub open spec fn name_fits(n: Seq<Seq<u8>>) -> bool {
    labels_fit(n) && encode_name(n).len() <= MAX_NAME_LENGTH
}

proof fn lemma_labels_bytes_len_prefix(n: Seq<Seq<u8>>, i: int)
    requires
        0 <= i <= n.len(),
    ensures
        labels_bytes(n.take(i)).len() <= labels_bytes(n).len(),
    decreases n.len(),
{
    if i == n.len() {
        assert(n.take(i) =~= n);
    } else {
        assert(n.drop_last().take(i) =~= n.take(i));
        lemma_labels_bytes_len_prefix(n.drop_last(), i);
    }
}

/// Whether the name `n` can be written.
pub fn check_name(n: &Vec<DNSLabel>) -> (r: bool)
    ensures
        r == name_fits(name_view(n@)),
{
    let ghost v = name_view(n@);
    let mut total: usize = 1;
    let mut i: usize = 0;
    while i < n.len()
        invariant
            i <= n@.len(),
            v == name_view(n@),
            total == labels_bytes(v.take(i as int)).len() + 1,
            total <= MAX_NAME_LENGTH,
            forall|k: int| 0 <= k < i ==> 1 <= #[trigger] v[k].len() <= MAX_LABEL_LENGTH,
        decreases n@.len() - i,
    {
        let len = n[i].len();
        if len == 0 {
            assert(v[i as int].len() == 0);
            return false;
        }
        proof {
            assert(v.take(i as int + 1).drop_last() =~= v.take(i as int));
        }
        total = total + 1 + len;
        if total > MAX_NAME_LENGTH {
            proof {
                lemma_labels_bytes_len_prefix(v, i as int + 1);
            }
            return false;
        }
        i = i + 1;
    }
    assert(v.take(v.len() as int) =~= v);
    true
}

/// `r` with `prefix` put before the labels it found.
pub open spec fn after_labels(
    prefix: Seq<Seq<u8>>,
    r: Result<(Seq<Seq<u8>>, int), ParseError>,
) -> Result<(Seq<Seq<u8>>, int), ParseError> {
    match r {
        Ok((n, end)) => Ok((prefix + n, end)),
        Err(e) => Err(e),
    }
}

/// The labels read from `data` at `pos` up to a zero length octet, and the
/// position after that octet; no limit on the total length.
pub open spec fn labels_at(data: Seq<u8>, pos: int) -> Result<(Seq<Seq<u8>>, int), ParseError>
    decreases data.len() - pos,
{
    if pos < 0 || pos >= data.len() {
        Err(ParseError::Truncated)
    } else {
        let len = data[pos] as int;
        if len == 0 {
            Ok((seq![], pos + 1))
        } else if len > MAX_LABEL_LENGTH {
            Err(ParseError::LabelTooLong)
        } else if pos + 1 + len > data.len() {
            Err(ParseError::Truncated)
        } else {
            after_labels(seq![data.subrange(pos + 1, pos + 1 + len)], labels_at(data, pos + 1 + len))
        }
    }
}

/// The name that starts at `pos`, and the position after it.
pub open spec fn name_at(data: Seq<u8>, pos: int) -> Result<(Seq<Seq<u8>>, int), ParseError> {
    match labels_at(data, pos) {
        Ok((n, end)) => if encode_name(n).len() > MAX_NAME_LENGTH {
            Err(ParseError::NameTooLong)
        } else {
            Ok((n, end))
        },
        Err(e) => Err(e),
    }
}

proof fn lemma_after_labels_push(
    acc: Seq<Seq<u8>>,
    l: Seq<u8>,
    r: Result<(Seq<Seq<u8>>, int), ParseError>,
)
    ensures
        after_labels(acc, after_labels(seq![l], r)) == after_labels(acc.push(l), r),
{
    match r {
        Ok((n, end)) => {
            assert(acc + (seq![l] + n) =~= acc.push(l) + n);
        },
        Err(_) => {},
    }
}

/// Reads the name that starts at `start`; returns its labels and the position
/// after its terminator.
pub fn parse_name(data: &[u8], start: usize) -> (r: Result<(Vec<DNSLabel>, usize), ParseError>)
    ensures
        match r {
            Ok((n, end)) => name_at(data@, start as int) == Ok::<_, ParseError>(
                (name_view(n@), end as int),
            ),
            Err(e) => name_at(data@, start as int) == Err::<(Seq<Seq<u8>>, int), _>(e),
        },
        r matches Ok((_, end)) ==> end <= data@.len(),
{
    if start >= data.len() {
        return Err(ParseError::Truncated);
    }
    let mut labels: Vec<DNSLabel> = Vec::new();
    let mut pos: usize = start;
    let mut total: usize = 0;
    assert(after_labels(name_view(labels@), labels_at(data@, pos as int)) == labels_at(
        data@,
        start as int,
    )) by {
        assert(name_view(labels@) =~= seq![]);
        match labels_at(data@, start as int) {
            Ok((n, e)) => {
                assert(Seq::<Seq<u8>>::empty() + n =~= n);
            },
            Err(_) => {},
        }
    }
    loop
        invariant
            start <= pos <= data@.len(),
            total == pos - start,
            total == labels_bytes(name_view(labels@)).len(),
            after_labels(name_view(labels@), labels_at(data@, pos as int)) == labels_at(
                data@,
                start as int,
            ),
        decreases data@.len() - pos,
    {
        if pos >= data.len() {
            return Err(ParseError::Truncated);
        }
        let len = data[pos] as usize;
        if len == 0 {
            let ghost n = name_view(labels@);
            assert(n + seq![] =~= n);
            if total + 1 > MAX_NAME_LENGTH {
                return Err(ParseError::NameTooLong);
            }
            return Ok((labels, pos + 1));
        }
        if len > MAX_LABEL_LENGTH {
            return Err(ParseError::LabelTooLong);
        }
        if data.len() - (pos + 1) < len {
            return Err(ParseError::Truncated);
        }
        let bytes = vstd::slice::slice_subrange(data, pos + 1, pos + 1 + len);
        let label = match DNSLabel::from_bytes(bytes) {
            Ok(l) => l,
            Err(_) => {
                return Err(ParseError::LabelTooLong);
            },
        };
        proof {
            let old_n = name_view(labels@);
            lemma_after_labels_push(old_n, label@, labels_at(data@, pos + 1 + len));
            assert(name_view(labels@.push(label)) =~= old_n.push(label@));
            assert(old_n.push(label@).drop_last() =~= old_n);
        }
        labels.push(label);
        total = total + 1 + len;
        pos = pos + 1 + len;
    }
}

/// Appends the wire form of the name `n`.
pub fn push_name(buf: &mut Vec<u8>, n: &Vec<DNSLabel>)
    ensures
        final(buf)@ == old(buf)@ + encode_name(name_view(n@)),
{
    let mut i: usize = 0;
    while i < n.len()
        invariant
            i <= n@.len(),
            buf@ == old(buf)@ + labels_bytes(name_view(n@.take(i as int))),
        decreases n@.len() - i,
    {
        let label = &n[i];
        let bytes = label.as_bytes();
        buf.push(bytes.len() as u8);
        buf.extend_from_slice(bytes);
        proof {
            let v = name_view(n@.take(i as int + 1));
            assert(v.drop_last() =~= name_view(n@.take(i as int)));
            assert(v.last() == label@);
        }
        i = i + 1;
        assert(buf@ =~= old(buf)@ + labels_bytes(name_view(n@.take(i as int))));
    }
    buf.push(0);
    assert(n@.take(n@.len() as int) =~= n@);
    assert(buf@ =~= old(buf)@ + encode_name(name_view(n@)));
}

} // verus!
