//! Decoding an incoming query: the fixed header, then `qdcount` questions.
use vstd::prelude::*;
use crate::label::DNSLabel;
use crate::name::{name_at, name_view, parse_name, ParseError};
use crate::wire::{be16_at, read_u16_be};

verus! {

/// The length of the fixed message header.
pub const HEADER_LENGTH: usize = 12;

/// The fixed header of a message; `flags` is kept as one opaque value.
#[derive(Debug, Clone, Copy, PartialEq, Eq, Structural)]
pub struct DNSHeader {
    pub id: u16,
    pub flags: u16,
    pub qdcount: u16,
    pub ancount: u16,
    pub nscount: u16,
    pub arcount: u16,
}

/// One question: a name, a record type and a class.
#[derive(Debug)]
pub struct DNSQuestion {
    pub qname: Vec<DNSLabel>,
    pub qtype: u16,
    pub qclass: u16,
}

/// A question as plain values: the label octets, the type and the class.
pub type QuestionView = (Seq<Seq<u8>>, u16, u16);

impl View for DNSQuestion {
    type V = QuestionView;

    open spec fn view(&self) -> QuestionView {
        (name_view(self.qname@), self.qtype, self.qclass)
    }
}

/// A copy of the name `n`, label by label.
pub fn clone_name(n: &Vec<DNSLabel>) -> (r: Vec<DNSLabel>)
    ensures
        name_view(r@) == name_view(n@),
{
    let mut out: Vec<DNSLabel> = Vec::new();
    let mut i: usize = 0;
    while i < n.len()
        invariant
            i <= n@.len(),
            out@.len() == i,
            forall|k: int| 0 <= k < i ==> (#[trigger] out@[k])@ == n@[k]@,
        decreases n@.len() - i,
    {
        let l = n[i].copy();
        out.push(l);
        i = i + 1;
    }
    assert(name_view(out@) =~= name_view(n@));
    out
}

impl Clone for DNSQuestion {
    fn clone(&self) -> (r: Self)
        ensures
            r@ == self@,
    {
        DNSQuestion { qname: clone_name(&self.qname), qtype: self.qtype, qclass: self.qclass }
    }
}

/// A decoded query: its header and its questions, in order.
#[derive(Debug, Clone)]
pub struct DNSRequest {
    pub header: DNSHeader,
    pub questions: Vec<DNSQuestion>,
}

/// The questions of `qs` as plain values.
pub open spec fn questions_view(qs: Seq<DNSQuestion>) -> Seq<QuestionView> {
    qs.map_values(|q: DNSQuestion| q@)
}

impl View for DNSRequest {
    type V = (DNSHeader, Seq<QuestionView>);

    open spec fn view(&self) -> (DNSHeader, Seq<QuestionView>) {
        (self.header, questions_view(self.questions@))
    }
}

/// The header held by the first twelve octets of `data`.
pub open spec fn header_at(data: Seq<u8>) -> DNSHeader {
    DNSHeader {
        id: be16_at(data, 0),
        flags: be16_at(data, 2),
        qdcount: be16_at(data, 4),
        ancount: be16_at(data, 6),
        nscount: be16_at(data, 8),
        arcount: be16_at(data, 10),
    }
}

/// `r` with `prefix` put before the questions it found.
pub open spec fn after_questions(
    prefix: Seq<QuestionView>,
    r: Result<(Seq<QuestionView>, int), ParseError>,
) -> Result<(Seq<QuestionView>, int), ParseError> {
    match r {
        Ok((qs, end)) => Ok((prefix + qs, end)),
        Err(e) => Err(e),
    }
}

/// `count` questions read from `data` at `pos`, and the position after them.
pub open spec fn questions_at(data: Seq<u8>, pos: int, count: nat) -> Result<
    (Seq<QuestionView>, int),
    ParseError,
>
    decreases count,
{
    if count == 0 {
        Ok((seq![], pos))
    } else {
        match name_at(data, pos) {
            Err(e) => Err(e),
            Ok((n, p)) => if p + 4 > data.len() {
                Err(ParseError::Truncated)
            } else {
                after_questions(
                    seq![(n, be16_at(data, p), be16_at(data, p + 2))],
                    questions_at(data, p + 4, (count - 1) as nat),
                )
            },
        }
    }
}

/// The query that `data` holds: its header, then as many questions as the
/// header counts. Octets after the last question are not read.
pub open spec fn parse_request_spec(data: Seq<u8>) -> Result<
    (DNSHeader, Seq<QuestionView>),
    ParseError,
> {
    if data.len() < HEADER_LENGTH {
        Err(ParseError::Truncated)
    } else {
        let h = header_at(data);
        match questions_at(data, HEADER_LENGTH as int, h.qdcount as nat) {
            Ok((qs, _)) => Ok((h, qs)),
            Err(e) => Err(e),
        }
    }
}

/// What a call of `DNSRequest::parse` returned, as plain values.
pub open spec fn request_result_view(r: Result<DNSRequest, ParseError>) -> Result<
    (DNSHeader, Seq<QuestionView>),
    ParseError,
> {
    match r {
        Ok(req) => Ok(req@),
        Err(e) => Err(e),
    }
}

proof fn lemma_after_questions_push(
    acc: Seq<QuestionView>,
    q: QuestionView,
    r: Result<(Seq<QuestionView>, int), ParseError>,
)
    ensures
        after_questions(acc, after_questions(seq![q], r)) == after_questions(acc.push(q), r),
{
    match r {
        Ok((qs, end)) => {
            assert(acc + (seq![q] + qs) =~= acc.push(q) + qs);
        },
        Err(_) => {},
    }
}

fn u16_at(data: &[u8], pos: usize) -> (r: u16)
    requires
        pos + 2 <= data@.len(),
    ensures
        r == be16_at(data@, pos as int),
{
    match read_u16_be(data, pos) {
        Some(v) => v,
        None => 0,
    }
}

impl DNSRequest {
    /// Decodes a query message.
    pub fn parse(data: &[u8]) -> (r: Result<DNSRequest, ParseError>)
        ensures
            request_result_view(r) == parse_request_spec(data@),
    {
        if data.len() < HEADER_LENGTH {
            return Err(ParseError::Truncated);
        }
        let header = DNSHeader {
            id: u16_at(data, 0),
            flags: u16_at(data, 2),
            qdcount: u16_at(data, 4),
            ancount: u16_at(data, 6),
            nscount: u16_at(data, 8),
            arcount: u16_at(data, 10),
        };
        assert(header == header_at(data@));
        let mut questions: Vec<DNSQuestion> = Vec::new();
        let mut pos: usize = HEADER_LENGTH;
        let mut i: u16 = 0;
        assert(after_questions(
            questions_view(questions@),
            questions_at(data@, pos as int, header.qdcount as nat),
        ) == questions_at(data@, HEADER_LENGTH as int, header.qdcount as nat)) by {
            assert(questions_view(questions@) =~= seq![]);
            match questions_at(data@, pos as int, header.qdcount as nat) {
                Ok((qs, e)) => {
                    assert(Seq::<QuestionView>::empty() + qs =~= qs);
                },
                Err(_) => {},
            }
        }
        while i < header.qdcount
            invariant
                i <= header.qdcount,
                header == header_at(data@),
                data@.len() >= HEADER_LENGTH,
                after_questions(
                    questions_view(questions@),
                    questions_at(data@, pos as int, (header.qdcount - i) as nat),
                ) == questions_at(data@, HEADER_LENGTH as int, header.qdcount as nat),
            decreases header.qdcount - i,
        {
            let (qname, after) = match parse_name(data, pos) {
                Ok(v) => v,
                Err(e) => {
                    return Err(e);
                },
            };
            if data.len() - after < 4 {
                return Err(ParseError::Truncated);
            }
            let qtype = u16_at(data, after);
            let qclass = u16_at(data, after + 2);
            let q = DNSQuestion { qname, qtype, qclass };
            proof {
                let old_v = questions_view(questions@);
                lemma_after_questions_push(
                    old_v,
                    q@,
                    questions_at(data@, after + 4, (header.qdcount - i - 1) as nat),
                );
                assert(questions_view(questions@.push(q)) =~= old_v.push(q@));
            }
            questions.push(q);
            pos = after + 4;
            i = i + 1;
        }
        let req = DNSRequest { header, questions };
        proof {
            let v = questions_view(req.questions@);
            match questions_at(data@, pos as int, 0) {
                Ok((qs, e)) => {
                    assert(v + qs =~= v);
                },
                Err(_) => {},
            }
        }
        Ok(req)
    }
}

} // verus!
