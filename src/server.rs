//! The decisions of the serving pipeline, apart from the socket and the tasks
//! that run it.
use vstd::prelude::*;
use crate::handler::DnsRequestError;
use crate::name::name_view;
use crate::request::{clone_name, questions_view, DNSQuestion, DNSRequest};
use crate::response::{
    questions_bytes, questions_fit, response_bytes, response_header_bytes, DnsRecordData,
    DnsResourceRecord, DnsResponse, DnsResponseHeader,
};

verus! {

/// How many received datagrams may wait for the worker before intake pauses.
pub const QUEUE_CAPACITY: usize = 1000;

/// The receive buffer: the largest datagram that is read.
pub const MAX_DATAGRAM_LENGTH: usize = 65536;

/// The port that the server binds on all interfaces.
pub const SERVER_PORT: u16 = 54;

/// Flags of an answer: a response, recursion desired and available.
pub const ANSWER_FLAGS: u16 = 0x8180;

/// Flags of a server-failure reply: a response with response code 2.
pub const SERVFAIL_FLAGS: u16 = 0x8002;

/// The header of the server-failure reply to `r`, echoing `qdcount` questions.
pub open spec fn servfail_header(r: DnsResponse, qdcount: u16) -> DnsResponseHeader {
    DnsResponseHeader {
        id: r.header.id,
        flags: SERVFAIL_FLAGS,
        qdcount,
        ancount: 0,
        nscount: 0,
        arcount: 0,
    }
}

/// The server-failure reply sent in place of `r`: its id, the flags of a
/// failure, and its questions with their count, or no questions where one
/// of their names cannot be written; no records.
pub open spec fn servfail_bytes(r: DnsResponse) -> Seq<u8> {
    let qv = questions_view(r.questions@);
    if questions_fit(qv) {
        response_header_bytes(servfail_header(r, r.header.qdcount)) + questions_bytes(qv)
    } else {
        response_header_bytes(servfail_header(r, 0))
    }
}

/// Encodes the server-failure reply to `resp`.
pub fn servfail_reply(resp: &DnsResponse) -> (r: Vec<u8>)
    ensures
        r@ == servfail_bytes(*resp),
{
    let echo = DnsResponse {
        header: DnsResponseHeader {
            id: resp.header.id,
            flags: SERVFAIL_FLAGS,
            qdcount: resp.header.qdcount,
            ancount: 0,
            nscount: 0,
            arcount: 0,
        },
        questions: clone_questions(&resp.questions),
        answers: Vec::new(),
        authority: Vec::new(),
        additional: Vec::new(),
    };
    proof {
        let qv = questions_view(echo.questions@);
        assert(echo.answers@ =~= Seq::<DnsResourceRecord>::empty());
        assert(response_header_bytes(echo.header) + questions_bytes(qv) + seq![] =~=
            response_header_bytes(echo.header) + questions_bytes(qv));
    }
    match echo.to_bytes() {
        Ok(b) => b,
        Err(_) => {
            let bare = DnsResponse {
                header: DnsResponseHeader {
                    id: resp.header.id,
                    flags: SERVFAIL_FLAGS,
                    qdcount: 0,
                    ancount: 0,
                    nscount: 0,
                    arcount: 0,
                },
                questions: Vec::new(),
                answers: Vec::new(),
                authority: Vec::new(),
                additional: Vec::new(),
            };
            proof {
                assert(bare.answers@ =~= Seq::<DnsResourceRecord>::empty());
                assert(questions_view(bare.questions@) =~= Seq::empty());
                assert(response_header_bytes(bare.header) + seq![] + seq![] =~=
                    response_header_bytes(bare.header));
            }
            match bare.to_bytes() {
                Ok(b) => b,
                Err(_) => Vec::new(),
            }
        },
    }
}

/// The datagram to send back for the handler's outcome: the encoded
/// response; a server-failure reply where the response cannot be encoded;
/// nothing where the handler failed.
pub fn reply_datagram(outcome: &Result<DnsResponse, DnsRequestError>) -> (r: Option<Vec<u8>>)
    ensures
        match outcome {
            Ok(resp) => match response_bytes(*resp) {
                Ok(b) => (r matches Some(v) && v@ == b),
                Err(_) => (r matches Some(v) && v@ == servfail_bytes(*resp)),
            },
            Err(_) => r is None,
        },
{
    match outcome {
        Ok(resp) => match resp.to_bytes() {
            Ok(b) => Some(b),
            Err(_) => Some(servfail_reply(resp)),
        },
        Err(_) => None,
    }
}

/// A copy of the questions, one by one.
pub fn clone_questions(qs: &Vec<DNSQuestion>) -> (r: Vec<DNSQuestion>)
    ensures
        questions_view(r@) == questions_view(qs@),
{
    let mut out: Vec<DNSQuestion> = Vec::new();
    let mut i: usize = 0;
    while i < qs.len()
        invariant
            i <= qs@.len(),
            out@.len() == i,
            forall|k: int| 0 <= k < i ==> (#[trigger] out@[k])@ == qs@[k]@,
        decreases qs@.len() - i,
    {
        let q = &qs[i];
        out.push(DNSQuestion { qname: clone_name(&q.qname), qtype: q.qtype, qclass: q.qclass });
        i = i + 1;
    }
    assert(questions_view(out@) =~= questions_view(qs@));
    out
}

/// The response that answers the first question of `request` with one A
/// record holding `address` and a TTL of zero, echoing the id, the question
/// count and the questions. There is none for a request without questions.
pub fn answer_with_address(request: &DNSRequest, address: [u8; 4]) -> (r: Option<DnsResponse>)
    ensures
        request.questions@.len() == 0 ==> r is None,
        request.questions@.len() > 0 ==> (r matches Some(resp) && {
            let q = request.questions@[0];
            &&& resp.header == (DnsResponseHeader {
                id: request.header.id,
                flags: ANSWER_FLAGS,
                qdcount: request.header.qdcount,
                ancount: 1,
                nscount: 0,
                arcount: 0,
            })
            &&& questions_view(resp.questions@) == questions_view(request.questions@)
            &&& resp.answers@.len() == 1
            &&& name_view(resp.answers@[0].name@) == name_view(q.qname@)
            &&& resp.answers@[0].rtype == q.qtype
            &&& resp.answers@[0].class == q.qclass
            &&& resp.answers@[0].ttl == 0
            &&& resp.answers@[0].rdata == DnsRecordData::A(address)
            &&& resp.authority@.len() == 0
            &&& resp.additional@.len() == 0
        }),
{
    if request.questions.len() == 0 {
        return None;
    }
    let first = &request.questions[0];
    let record = DnsResourceRecord {
        name: clone_name(&first.qname),
        rtype: first.qtype,
        class: first.qclass,
        ttl: 0,
        rdata: DnsRecordData::A(address),
    };
    let mut answers: Vec<DnsResourceRecord> = Vec::new();
    answers.push(record);
    Some(
        DnsResponse {
            header: DnsResponseHeader {
                id: request.header.id,
                flags: ANSWER_FLAGS,
                qdcount: request.header.qdcount,
                ancount: 1,
                nscount: 0,
                arcount: 0,
            },
            questions: clone_questions(&request.questions),
            answers,
            authority: Vec::new(),
            additional: Vec::new(),
        },
    )
}

} // verus!
