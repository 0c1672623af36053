//! Record data, resource records and the encoding of a response message.
use vstd::prelude::*;
use crate::label::DNSLabel;
use crate::name::{check_name, encode_name, name_fits, name_view, push_name};
use crate::request::{questions_view, DNSQuestion, QuestionView};
use crate::resourcerecord::ResourceRecordType;
use crate::wire::{push_u16_be, push_u32_be, u16_be, u32_be};

verus! {

/// The data of a record, one variant per record type. Names inside record
/// data are held as plain text octets.
#[derive(Debug, Clone)]
pub enum DnsRecordData {
    /// An IPv4 address, as its four octets.
    A([u8; 4]),
    /// An IPv6 address, as its eight 16-bit segments.
    AAAA([u16; 8]),
    CNAME(Vec<u8>),
    /// A preference and an exchange host.
    MX(u16, Vec<u8>),
    NS(Vec<u8>),
    MD(Vec<u8>),
    MF(Vec<u8>),
    MB(Vec<u8>),
    MG(Vec<u8>),
    MR(Vec<u8>),
    PTR(Vec<u8>),
    SOA {
        mname: Vec<u8>,
        rname: Vec<u8>,
        serial: u32,
        refresh: u32,
        retry: u32,
        expire: u32,
        minimum: u32,
    },
    SRV { priority: u16, weight: u16, port: u16, target: Vec<u8> },
    /// A sequence of character strings.
    TXT(Vec<Vec<u8>>),
}

/// Why a response could not be encoded.
#[derive(Debug, Clone, Copy, PartialEq, Eq, Structural)]
pub enum SerializeError {
    /// The record data has no wire encoding here.
    UnsupportedRecordType(ResourceRecordType),
    /// The record data does not fit in the 16-bit length field.
    RdataTooLong,
    /// A name holds an empty label or is longer than 255 octets encoded.
    InvalidName,
}

/// The record type that the data belongs to.
pub open spec fn record_type(d: DnsRecordData) -> ResourceRecordType {
    match d {
        DnsRecordData::A(_) => ResourceRecordType::A,
        DnsRecordData::AAAA(_) => ResourceRecordType::AAAA,
        DnsRecordData::CNAME(_) => ResourceRecordType::CNAME,
        DnsRecordData::MX(_, _) => ResourceRecordType::MX,
        DnsRecordData::NS(_) => ResourceRecordType::NS,
        DnsRecordData::MD(_) => ResourceRecordType::MD,
        DnsRecordData::MF(_) => ResourceRecordType::MF,
        DnsRecordData::MB(_) => ResourceRecordType::MB,
        DnsRecordData::MG(_) => ResourceRecordType::MG,
        DnsRecordData::MR(_) => ResourceRecordType::MR,
        DnsRecordData::PTR(_) => ResourceRecordType::PTR,
        DnsRecordData::SOA { .. } => ResourceRecordType::SOA,
        DnsRecordData::SRV { .. } => ResourceRecordType::SRV,
        DnsRecordData::TXT(_) => ResourceRecordType::TXT,
    }
}

impl DnsRecordData {
    /// The record type that the data belongs to.
    pub fn to_type(&self) -> (r: ResourceRecordType)
        ensures
            r == record_type(*self),
    {
        match self {
            DnsRecordData::A(_) => ResourceRecordType::A,
            DnsRecordData::AAAA(_) => ResourceRecordType::AAAA,
            DnsRecordData::CNAME(_) => ResourceRecordType::CNAME,
            DnsRecordData::MX(_, _) => ResourceRecordType::MX,
            DnsRecordData::NS(_) => ResourceRecordType::NS,
            DnsRecordData::MD(_) => ResourceRecordType::MD,
            DnsRecordData::MF(_) => ResourceRecordType::MF,
            DnsRecordData::MB(_) => ResourceRecordType::MB,
            DnsRecordData::MG(_) => ResourceRecordType::MG,
            DnsRecordData::MR(_) => ResourceRecordType::MR,
            DnsRecordData::PTR(_) => ResourceRecordType::PTR,
            DnsRecordData::SOA { .. } => ResourceRecordType::SOA,
            DnsRecordData::SRV { .. } => ResourceRecordType::SRV,
            DnsRecordData::TXT(_) => ResourceRecordType::TXT,
        }
    }
}

/// One record of the answer, authority or additional section.
#[derive(Debug, Clone)]
pub struct DnsResourceRecord {
    pub name: Vec<DNSLabel>,
    pub rtype: u16,
    pub class: u16,
    pub ttl: u32,
    pub rdata: DnsRecordData,
}

/// The fixed header of a response.
#[derive(Debug, Clone, Copy, PartialEq, Eq, Structural)]
pub struct DnsResponseHeader {
    pub id: u16,
    pub flags: u16,
    pub qdcount: u16,
    pub ancount: u16,
    pub nscount: u16,
    pub arcount: u16,
}

/// A response message. Only the header, the questions and the answers are
/// encoded; the authority and additional sections are not written.
#[derive(Debug, Clone)]
pub struct DnsResponse {
    pub header: DnsResponseHeader,
    pub questions: Vec<DNSQuestion>,
    pub answers: Vec<DnsResourceRecord>,
    pub authority: Vec<DnsResourceRecord>,
    pub additional: Vec<DnsResourceRecord>,
}

/// The twelve header octets: six big-endian fields in order.
pub open spec fn response_header_bytes(h: DnsResponseHeader) -> Seq<u8> {
    u16_be(h.id) + u16_be(h.flags) + u16_be(h.qdcount) + u16_be(h.ancount) + u16_be(h.nscount)
        + u16_be(h.arcount)
}

/// Each segment in network byte order.
pub open spec fn segments_bytes(s: Seq<u16>) -> Seq<u8>
    decreases s.len(),
{
    if s.len() == 0 {
        seq![]
    } else {
        segments_bytes(s.drop_last()) + u16_be(s.last())
    }
}

/// The length field and the payload of the record data. Only A, AAAA,
/// CNAME and MX have an encoding; CNAME and MX carry their names as plain
/// text, without length-prefixed labels.
pub open spec fn rdata_bytes(d: DnsRecordData) -> Result<Seq<u8>, SerializeError> {
    match d {
        DnsRecordData::A(o) => Ok(u16_be(4) + o@),
        DnsRecordData::AAAA(s) => Ok(u16_be(16) + segments_bytes(s@)),
        DnsRecordData::CNAME(t) => if t@.len() > u16::MAX {
            Err(SerializeError::RdataTooLong)
        } else {
            Ok(u16_be(t@.len() as u16) + t@)
        },
        DnsRecordData::MX(p, x) => if x@.len() + 2 > u16::MAX {
            Err(SerializeError::RdataTooLong)
        } else {
            Ok(u16_be((x@.len() + 2) as u16) + u16_be(p) + x@)
        },
        _ => Err(SerializeError::UnsupportedRecordType(record_type(d))),
    }
}

/// The wire form of one record.
pub open spec fn record_bytes(rr: DnsResourceRecord) -> Result<Seq<u8>, SerializeError> {
    if !name_fits(name_view(rr.name@)) {
        Err(SerializeError::InvalidName)
    } else {
        match rdata_bytes(rr.rdata) {
        Ok(rd) => Ok(
            encode_name(name_view(rr.name@)) + u16_be(rr.rtype) + u16_be(rr.class) + u32_be(rr.ttl)
                + rd,
        ),
        Err(e) => Err(e),
        }
    }
}

/// The records one after another; the first that cannot be encoded decides
/// the error.
pub open spec fn records_bytes(s: Seq<DnsResourceRecord>) -> Result<Seq<u8>, SerializeError>
    decreases s.len(),
{
    if s.len() == 0 {
        Ok(seq![])
    } else {
        match records_bytes(s.drop_last()) {
            Ok(b) => match record_bytes(s.last()) {
                Ok(rb) => Ok(b + rb),
                Err(e) => Err(e),
            },
            Err(e) => Err(e),
        }
    }
}

/// The wire form of one question.
pub open spec fn question_bytes(q: QuestionView) -> Seq<u8> {
    encode_name(q.0) + u16_be(q.1) + u16_be(q.2)
}

/// The questions one after another.
pub open spec fn questions_bytes(s: Seq<QuestionView>) -> Seq<u8>
    decreases s.len(),
{
    if s.len() == 0 {
        seq![]
    } else {
        questions_bytes(s.drop_last()) + question_bytes(s.last())
    }
}

/// Every question's name can be written.
pub open spec fn questions_fit(s: Seq<QuestionView>) -> bool {
    forall|i: int| 0 <= i < s.len() ==> name_fits(#[trigger] s[i].0)
}

/// The datagram for `r`: header, questions, then answers. A question name
/// that cannot be written is refused first, then the first answer that
/// cannot be encoded.
pub open spec fn response_bytes(r: DnsResponse) -> Result<Seq<u8>, SerializeError> {
    if !questions_fit(questions_view(r.questions@)) {
        Err(SerializeError::InvalidName)
    } else {
        match records_bytes(r.answers@) {
            Ok(a) => Ok(
                response_header_bytes(r.header) + questions_bytes(questions_view(r.questions@)) + a,
            ),
            Err(e) => Err(e),
        }
    }
}

/// What a call of `to_bytes` returned, as plain values.
pub open spec fn bytes_result_view(r: Result<Vec<u8>, SerializeError>) -> Result<
    Seq<u8>,
    SerializeError,
> {
    match r {
        Ok(b) => Ok(b@),
        Err(e) => Err(e),
    }
}

fn push_rdata(buf: &mut Vec<u8>, d: &DnsRecordData) -> (r: Result<(), SerializeError>)
    ensures
        match rdata_bytes(*d) {
            Ok(b) => r is Ok && final(buf)@ == old(buf)@ + b,
            Err(e) => r == Err::<(), SerializeError>(e),
        },
{
    match d {
        DnsRecordData::A(o) => {
            push_u16_be(buf, 4);
            buf.push(o[0]);
            buf.push(o[1]);
            buf.push(o[2]);
            buf.push(o[3]);
            assert(final(buf)@ =~= old(buf)@ + (u16_be(4) + o@));
            Ok(())
        },
        DnsRecordData::AAAA(s) => {
            push_u16_be(buf, 16);
            let ghost start = buf@;
            let mut i: usize = 0;
            while i < 8
                invariant
                    i <= 8,
                    buf@ == start + segments_bytes(s@.take(i as int)),
                decreases 8 - i,
            {
                push_u16_be(buf, s[i]);
                proof {
                    assert(s@.take(i as int + 1).drop_last() =~= s@.take(i as int));
                }
                i = i + 1;
            }
            assert(s@.take(8) =~= s@);
            assert(final(buf)@ =~= old(buf)@ + (u16_be(16) + segments_bytes(s@)));
            Ok(())
        },
        DnsRecordData::CNAME(t) => {
            if t.len() > 65535 {
                return Err(SerializeError::RdataTooLong);
            }
            push_u16_be(buf, t.len() as u16);
            buf.extend_from_slice(t.as_slice());
            assert(final(buf)@ =~= old(buf)@ + (u16_be(t@.len() as u16) + t@));
            Ok(())
        },
        DnsRecordData::MX(p, x) => {
            if x.len() > 65533 {
                return Err(SerializeError::RdataTooLong);
            }
            push_u16_be(buf, (x.len() + 2) as u16);
            push_u16_be(buf, *p);
            buf.extend_from_slice(x.as_slice());
            assert(final(buf)@ =~= old(buf)@ + (u16_be((x@.len() + 2) as u16) + u16_be(*p) + x@));
            Ok(())
        },
        _ => Err(SerializeError::UnsupportedRecordType(d.to_type())),
    }
}

fn push_record(buf: &mut Vec<u8>, rr: &DnsResourceRecord) -> (r: Result<(), SerializeError>)
    ensures
        match record_bytes(*rr) {
            Ok(b) => r is Ok && final(buf)@ == old(buf)@ + b,
            Err(e) => r == Err::<(), SerializeError>(e),
        },
{
    if !check_name(&rr.name) {
        return Err(SerializeError::InvalidName);
    }
    push_name(buf, &rr.name);
    push_u16_be(buf, rr.rtype);
    push_u16_be(buf, rr.class);
    push_u32_be(buf, rr.ttl);
    let res = push_rdata(buf, &rr.rdata);
    proof {
        if let Ok(rd) = rdata_bytes(rr.rdata) {
            assert(final(buf)@ =~= old(buf)@ + (encode_name(name_view(rr.name@)) + u16_be(rr.rtype)
                + u16_be(rr.class) + u32_be(rr.ttl) + rd));
        }
    }
    res
}

fn push_question(buf: &mut Vec<u8>, q: &DNSQuestion)
    ensures
        final(buf)@ == old(buf)@ + question_bytes(q@),
{
    push_name(buf, &q.qname);
    push_u16_be(buf, q.qtype);
    push_u16_be(buf, q.qclass);
    assert(final(buf)@ =~= old(buf)@ + question_bytes(q@));
}

impl DnsResponse {
    /// Encodes the response as a datagram; fails on a name that cannot be
    /// written, or on the first answer whose data has no encoding or does not
    /// fit its length field.
    pub fn to_bytes(&self) -> (r: Result<Vec<u8>, SerializeError>)
        ensures
            bytes_result_view(r) == response_bytes(*self),
    {
        let mut buf: Vec<u8> = Vec::new();
        push_u16_be(&mut buf, self.header.id);
        push_u16_be(&mut buf, self.header.flags);
        push_u16_be(&mut buf, self.header.qdcount);
        push_u16_be(&mut buf, self.header.ancount);
        push_u16_be(&mut buf, self.header.nscount);
        push_u16_be(&mut buf, self.header.arcount);
        assert(buf@ =~= response_header_bytes(self.header));

        let ghost qv = questions_view(self.questions@);
        let mut i: usize = 0;
        while i < self.questions.len()
            invariant
                i <= self.questions@.len(),
                qv == questions_view(self.questions@),
                buf@ == response_header_bytes(self.header) + questions_bytes(qv.take(i as int)),
                questions_fit(qv.take(i as int)),
            decreases self.questions@.len() - i,
        {
            if !check_name(&self.questions[i].qname) {
                assert(!name_fits(qv[i as int].0));
                return Err(SerializeError::InvalidName);
            }
            push_question(&mut buf, &self.questions[i]);
            proof {
                assert(qv.take(i as int + 1).drop_last() =~= qv.take(i as int));
                assert(questions_fit(qv.take(i as int + 1))) by {
                    assert forall|k: int| 0 <= k < i + 1 implies name_fits(
                        #[trigger] qv.take(i as int + 1)[k].0,
                    ) by {
                        if k < i {
                            assert(qv.take(i as int + 1)[k] == qv.take(i as int)[k]);
                        }
                    }
                }
            }
            i = i + 1;
            assert(buf@ =~= response_header_bytes(self.header) + questions_bytes(qv.take(i as int)));
        }
        assert(qv.take(qv.len() as int) =~= qv);
        assert(questions_fit(qv));
        let ghost head = buf@;

        let mut j: usize = 0;
        while j < self.answers.len()
            invariant
                j <= self.answers@.len(),
                questions_fit(questions_view(self.questions@)),
                records_bytes(self.answers@.take(j as int)) is Ok,
                buf@ == head + records_bytes(self.answers@.take(j as int))->Ok_0,
            decreases self.answers@.len() - j,
        {
            let ghost before = buf@;
            let res = push_record(&mut buf, &self.answers[j]);
            proof {
                assert(self.answers@.take(j as int + 1).drop_last() =~= self.answers@.take(j as int));
            }
            match res {
                Ok(()) => {},
                Err(e) => {
                    proof {
                        lemma_records_bytes_err_extends(self.answers@, j as int);
                    }
                    return Err(e);
                },
            }
            j = j + 1;
            assert(buf@ =~= head + records_bytes(self.answers@.take(j as int))->Ok_0);
        }
        assert(self.answers@.take(self.answers@.len() as int) =~= self.answers@);
        Ok(buf)
    }
}

/// The record data has a wire encoding here.
pub open spec fn has_encoding(d: DnsRecordData) -> bool {
    d is A || d is AAAA || d is CNAME || d is MX
}

proof fn lemma_records_bytes_err_at(s: Seq<DnsResourceRecord>, i: int)
    requires
        0 <= i < s.len(),
        record_bytes(s[i]) is Err,
    ensures
        records_bytes(s) is Err,
    decreases s.len(),
{
    if i + 1 < s.len() {
        lemma_records_bytes_err_at(s.drop_last(), i);
    }
}

/// A response with an answer whose data has no encoding here is refused
/// with an error; the encoder does not stop the process.
pub proof fn lemma_unsupported_answer_refused(r: DnsResponse, i: int)
    requires
        0 <= i < r.answers@.len(),
        !has_encoding(r.answers@[i].rdata),
    ensures
        response_bytes(r) is Err,
{
    lemma_records_bytes_err_at(r.answers@, i);
}

/// Once the records up to `j` fail, every longer run of records fails with
/// the same error.
proof fn lemma_records_bytes_err_extends(s: Seq<DnsResourceRecord>, j: int)
    requires
        0 <= j < s.len(),
        records_bytes(s.take(j + 1)) is Err,
    ensures
        records_bytes(s) == records_bytes(s.take(j + 1)),
    decreases s.len() - j,
{
    if j + 1 == s.len() {
        assert(s.take(j + 1) =~= s);
    } else {
        assert(s.drop_last().take(j + 1) =~= s.take(j + 1));
        lemma_records_bytes_err_extends(s.drop_last(), j);
    }
}

} // verus!
