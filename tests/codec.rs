use byteorder::{NetworkEndian, WriteBytesExt};
use dns_server::handler::DnsRequestError;
use dns_server::label::{DNSLabel, LabelTooLong, MAX_LABEL_LENGTH};
use dns_server::name::{parse_name, push_name, ParseError};
use dns_server::request::{DNSHeader, DNSQuestion, DNSRequest};
use dns_server::resourcerecord::ResourceRecordType;
use dns_server::response::{
    DnsRecordData, DnsResourceRecord, DnsResponse, DnsResponseHeader, SerializeError,
};
use dns_server::server::{answer_with_address, reply_datagram, ANSWER_FLAGS};

fn label(s: &str) -> DNSLabel {
    DNSLabel::new(s).unwrap()
}

fn name(parts: &[&str]) -> Vec<DNSLabel> {
    parts.iter().map(|p| label(p)).collect()
}

fn header(id: u16, flags: u16, qd: u16, an: u16, ns: u16, ar: u16) -> DnsResponseHeader {
    DnsResponseHeader { id, flags, qdcount: qd, ancount: an, nscount: ns, arcount: ar }
}

fn response_with(answers: Vec<DnsResourceRecord>) -> DnsResponse {
    DnsResponse {
        header: header(7, 0x8180, 0, answers.len() as u16, 0, 0),
        questions: vec![],
        answers,
        authority: vec![],
        additional: vec![],
    }
}

fn record(rdata: DnsRecordData) -> DnsResourceRecord {
    DnsResourceRecord { name: name(&["a"]), rtype: 1, class: 1, ttl: 0, rdata }
}

#[test]
fn test_dns_label_creation() {
    let label = DNSLabel::new("www.example.com");
    assert!(label.is_ok());

    let label = label.unwrap();
    assert_eq!(label.as_bytes(), b"www.example.com");
}

#[test]
fn test_dns_label_too_long() {
    let long_string: String = std::iter::repeat("a").take(MAX_LABEL_LENGTH + 1).collect();
    let label = DNSLabel::new(&long_string);
    assert!(label.is_err());
}

#[test]
fn test_dns_label_exact_length() {
    let exact_length_string: String = std::iter::repeat("a").take(MAX_LABEL_LENGTH).collect();
    let label = DNSLabel::new(&exact_length_string);
    assert!(label.is_ok());

    let binding = label.unwrap();
    let label_str = binding.as_bytes();
    assert_eq!(label_str, exact_length_string.as_bytes());
}

#[test]
fn test_dns_request_parse() -> Result<(), Box<dyn std::error::Error>> {
    let mut packet = Vec::new();
    packet.write_u16::<NetworkEndian>(0x1234)?;
    packet.write_u16::<NetworkEndian>(0x0100)?;
    packet.write_u16::<NetworkEndian>(1)?;
    packet.write_u16::<NetworkEndian>(0)?;
    packet.write_u16::<NetworkEndian>(0)?;
    packet.write_u16::<NetworkEndian>(0)?;
    packet.push(3);
    packet.extend_from_slice(b"www");
    packet.push(7);
    packet.extend_from_slice(b"example");
    packet.push(3);
    packet.extend_from_slice(b"com");
    packet.push(0);
    packet.write_u16::<NetworkEndian>(1)?;
    packet.write_u16::<NetworkEndian>(1)?;

    let request = DNSRequest::parse(&packet).unwrap();

    assert_eq!(request.header.id, 0x1234);
    assert_eq!(request.header.flags, 0x0100);
    assert_eq!(request.header.qdcount, 1);
    assert_eq!(request.header.ancount, 0);
    assert_eq!(request.header.nscount, 0);
    assert_eq!(request.header.arcount, 0);

    assert_eq!(request.questions.len(), 1);
    let question = &request.questions[0];
    assert_eq!(question.qname.len(), 3);
    assert_eq!(question.qname[0].clone().as_bytes(), b"www");
    assert_eq!(question.qname[1].clone().as_bytes(), b"example");
    assert_eq!(question.qname[2].clone().as_bytes(), b"com");
    assert_eq!(question.qtype, 1);
    assert_eq!(question.qclass, 1);

    Ok(())
}

#[test]
fn label_of_zero_octets_is_accepted() {
    let l = DNSLabel::new("").unwrap();
    assert_eq!(l.len(), 0);
}

#[test]
fn label_of_sixty_four_octets_is_refused_not_truncated() {
    let s = "b".repeat(64);
    assert_eq!(DNSLabel::new(&s), Err(LabelTooLong { len: 64 }));
    assert_eq!(DNSLabel::from_bytes(&[0xffu8; 63]).unwrap().len(), 63);
}

#[test]
fn label_keeps_high_octets() {
    let l = DNSLabel::from_bytes(&[0x80, 0xff, 0x01]).unwrap();
    assert_eq!(l.as_bytes(), &[0x80, 0xff, 0x01]);
}

#[test]
fn header_only_message_round_trips() {
    let h = header(0xbeef, 0x0120, 0, 3, 4, 5);
    let bytes = response_with(vec![]).to_bytes().unwrap();
    assert_eq!(bytes.len(), 12);
    let bytes = DnsResponse { header: h, ..response_with(vec![]) }.to_bytes().unwrap();
    let req = DNSRequest::parse(&bytes).unwrap();
    assert_eq!(
        req.header,
        DNSHeader { id: 0xbeef, flags: 0x0120, qdcount: 0, ancount: 3, nscount: 4, arcount: 5 }
    );
    assert!(req.questions.is_empty());
}

#[test]
fn name_round_trips_through_its_encoding() {
    let n = vec![label("mail"), DNSLabel::from_bytes(&[0xc3, 0x01]).unwrap(), label("org")];
    let mut buf = Vec::new();
    push_name(&mut buf, &n);
    assert_eq!(buf, vec![4, b'm', b'a', b'i', b'l', 2, 0xc3, 0x01, 3, b'o', b'r', b'g', 0]);
    buf.push(0x99);
    let (back, end) = parse_name(&buf, 0).unwrap();
    assert_eq!(back, n);
    assert_eq!(end, 13);
}

#[test]
fn empty_name_is_one_zero_octet() {
    let mut buf = Vec::new();
    push_name(&mut buf, &vec![]);
    assert_eq!(buf, vec![0]);
    let (back, end) = parse_name(&buf, 0).unwrap();
    assert!(back.is_empty());
    assert_eq!(end, 1);
}

#[test]
fn name_errors() {
    assert_eq!(parse_name(&[3, b'a', b'b'], 0), Err(ParseError::Truncated));
    assert_eq!(parse_name(&[1, b'a'], 0), Err(ParseError::Truncated));
    assert_eq!(parse_name(&[], 0), Err(ParseError::Truncated));
    assert_eq!(parse_name(&[64], 0), Err(ParseError::LabelTooLong));
    // Four labels of 63 octets: 4 * 64 + 1 = 257 octets.
    let mut long = Vec::new();
    for _ in 0..4 {
        long.push(63u8);
        long.extend_from_slice(&[b'x'; 63]);
    }
    long.push(0);
    assert_eq!(parse_name(&long, 0), Err(ParseError::NameTooLong));
    // Three labels of 63 and one of 61: exactly 255 octets.
    let mut fits = Vec::new();
    for _ in 0..3 {
        fits.push(63u8);
        fits.extend_from_slice(&[b'x'; 63]);
    }
    fits.push(61u8);
    fits.extend_from_slice(&[b'y'; 61]);
    fits.push(0);
    assert_eq!(fits.len(), 255);
    let (n, end) = parse_name(&fits, 0).unwrap();
    assert_eq!(n.len(), 4);
    assert_eq!(end, 255);
}

#[test]
fn short_header_is_truncated() {
    assert_eq!(DNSRequest::parse(&[0u8; 11]).unwrap_err(), ParseError::Truncated);
}

#[test]
fn missing_question_is_truncated() {
    let mut p = vec![0, 1, 0, 0, 0, 2, 0, 0, 0, 0, 0, 0];
    p.extend_from_slice(&[1, b'a', 0, 0, 1, 0, 1]);
    assert_eq!(DNSRequest::parse(&p).unwrap_err(), ParseError::Truncated);
    let mut q = vec![0, 1, 0, 0, 0, 1, 0, 0, 0, 0, 0, 0];
    q.extend_from_slice(&[1, b'a', 0, 0, 1, 0]);
    assert_eq!(DNSRequest::parse(&q).unwrap_err(), ParseError::Truncated);
}

#[test]
fn a_record_answer_is_encoded() {
    let q = DNSQuestion { qname: name(&["example", "com"]), qtype: 1, qclass: 1 };
    let resp = DnsResponse {
        header: header(0x1234, 0x8180, 1, 1, 0, 0),
        questions: vec![q.clone()],
        answers: vec![DnsResourceRecord {
            name: q.qname.clone(),
            rtype: 1,
            class: 1,
            ttl: 0,
            rdata: DnsRecordData::A([1, 1, 1, 1]),
        }],
        authority: vec![],
        additional: vec![],
    };
    let b = resp.to_bytes().unwrap();
    assert_eq!(&b[0..12], &[0x12, 0x34, 0x81, 0x80, 0, 1, 0, 1, 0, 0, 0, 0]);
    let question = [7, b'e', b'x', b'a', b'm', b'p', b'l', b'e', 3, b'c', b'o', b'm', 0, 0, 1, 0, 1];
    assert_eq!(&b[12..29], &question);
    assert_eq!(&b[29..42], &question[0..13]);
    assert_eq!(&b[42..50], &[0, 1, 0, 1, 0, 0, 0, 0]);
    assert_eq!(&b[50..52], &[0, 4]);
    assert_eq!(&b[52..], &[1, 1, 1, 1]);
}

#[test]
fn aaaa_cname_mx_encodings() {
    let b = response_with(vec![record(DnsRecordData::AAAA([0x2001, 0xdb8, 0, 0, 0, 0, 0, 1]))])
        .to_bytes()
        .unwrap();
    assert_eq!(
        &b[b.len() - 18..],
        &[0, 16, 0x20, 0x01, 0x0d, 0xb8, 0, 0, 0, 0, 0, 0, 0, 0, 0, 0, 0, 1]
    );
    let b = response_with(vec![record(DnsRecordData::CNAME(b"a.b".to_vec()))]).to_bytes().unwrap();
    assert_eq!(&b[b.len() - 5..], &[0, 3, b'a', b'.', b'b']);
    let b = response_with(vec![record(DnsRecordData::MX(10, b"mx".to_vec()))]).to_bytes().unwrap();
    assert_eq!(&b[b.len() - 6..], &[0, 4, 0, 10, b'm', b'x']);
    let b = response_with(vec![DnsResourceRecord {
        name: name(&["a"]),
        rtype: 1,
        class: 1,
        ttl: 0x01020304,
        rdata: DnsRecordData::A([9, 8, 7, 6]),
    }])
    .to_bytes()
    .unwrap();
    assert_eq!(&b[12..], &[1, b'a', 0, 0, 1, 0, 1, 1, 2, 3, 4, 0, 4, 9, 8, 7, 6]);
}

#[test]
fn unsupported_record_is_an_error() {
    let srv = DnsRecordData::SRV { priority: 1, weight: 2, port: 53, target: b"t".to_vec() };
    assert_eq!(
        response_with(vec![record(srv)]).to_bytes(),
        Err(SerializeError::UnsupportedRecordType(ResourceRecordType::SRV))
    );
    let r = response_with(vec![
        record(DnsRecordData::A([1, 2, 3, 4])),
        record(DnsRecordData::TXT(vec![b"x".to_vec()])),
        record(DnsRecordData::NS(b"n".to_vec())),
    ]);
    assert_eq!(r.to_bytes(), Err(SerializeError::UnsupportedRecordType(ResourceRecordType::TXT)));
}

#[test]
fn oversized_rdata_is_an_error() {
    let r = response_with(vec![record(DnsRecordData::CNAME(vec![b'c'; 65536]))]);
    assert_eq!(r.to_bytes(), Err(SerializeError::RdataTooLong));
    let r = response_with(vec![record(DnsRecordData::MX(1, vec![b'c'; 65534]))]);
    assert_eq!(r.to_bytes(), Err(SerializeError::RdataTooLong));
    let r = response_with(vec![record(DnsRecordData::MX(1, vec![b'c'; 65533]))]);
    assert_eq!(r.to_bytes().unwrap().len(), 12 + 3 + 2 + 2 + 4 + 2 + 2 + 65533);
}

#[test]
fn record_types_and_codes() {
    assert_eq!(DnsRecordData::A([0; 4]).to_type(), ResourceRecordType::A);
    assert_eq!(DnsRecordData::PTR(vec![]).to_type().code(), 12);
    assert_eq!(DnsRecordData::AAAA([0; 8]).to_type().code(), 28);
    let soa = DnsRecordData::SOA {
        mname: vec![],
        rname: vec![],
        serial: 1,
        refresh: 2,
        retry: 3,
        expire: 4,
        minimum: 5,
    };
    assert_eq!(soa.to_type().code(), 6);
    assert_eq!(ResourceRecordType::SRV.code(), 33);
    assert_eq!(ResourceRecordType::MX.code(), 15);
}

#[test]
fn response_codes() {
    assert_eq!(DnsRequestError::FormErr.to_response_code(), 1);
    assert_eq!(DnsRequestError::ServFail.to_response_code(), 2);
    assert_eq!(DnsRequestError::DSOTYPENI.to_response_code(), 11);
    assert_eq!(DnsRequestError::BadVersOrSig.to_response_code(), 16);
    assert_eq!(DnsRequestError::BadCookie.to_response_code(), 23);
    assert_eq!(DnsRequestError::from_parse_error(ParseError::LabelTooLong), DnsRequestError::ServFail);
    assert_eq!(DnsRequestError::NXDomain.name(), "NXDomain");
}

#[test]
fn answer_for_parsed_request() {
    let mut p = vec![0xab, 0xcd, 0x01, 0x00, 0, 1, 0, 0, 0, 0, 0, 0];
    p.extend_from_slice(&[7, b'e', b'x', b'a', b'm', b'p', b'l', b'e', 3, b'c', b'o', b'm', 0, 0, 1, 0, 1]);
    let req = DNSRequest::parse(&p).unwrap();
    let resp = answer_with_address(&req, [1, 1, 1, 1]).unwrap();
    assert_eq!(resp.header.flags, ANSWER_FLAGS);
    let bytes = reply_datagram(&Ok(resp)).unwrap();
    assert_eq!(&bytes[0..12], &[0xab, 0xcd, 0x81, 0x80, 0, 1, 0, 1, 0, 0, 0, 0]);
    assert_eq!(&bytes[bytes.len() - 6..], &[0, 4, 1, 1, 1, 1]);
    assert!(reply_datagram(&Err(DnsRequestError::Refused)).is_none());
    let empty = DNSRequest::parse(&[0u8; 12]).unwrap();
    assert!(answer_with_address(&empty, [1, 1, 1, 1]).is_none());
}

#[test]
fn unencodable_response_gets_servfail_reply() {
    let q = DNSQuestion { qname: name(&["example", "com"]), qtype: 33, qclass: 1 };
    let srv = DnsRecordData::SRV { priority: 1, weight: 2, port: 53, target: b"t".to_vec() };
    let resp = DnsResponse {
        header: header(0x4242, 0x8180, 1, 1, 0, 0),
        questions: vec![q],
        answers: vec![record(srv)],
        authority: vec![],
        additional: vec![],
    };
    let bytes = reply_datagram(&Ok(resp)).unwrap();
    let mut expected = vec![0x42, 0x42, 0x80, 0x02, 0, 1, 0, 0, 0, 0, 0, 0];
    expected.extend_from_slice(&[7, b'e', b'x', b'a', b'm', b'p', b'l', b'e', 3, b'c', b'o', b'm', 0, 0, 33, 0, 1]);
    assert_eq!(bytes, expected);
    assert_eq!(bytes[3] & 0x0f, DnsRequestError::ServFail.to_response_code());
}

#[test]
fn servfail_reply_without_writable_questions() {
    let q = DNSQuestion { qname: vec![label("")], qtype: 1, qclass: 1 };
    let resp = DnsResponse {
        header: header(9, 0x8180, 1, 0, 0, 0),
        questions: vec![q],
        answers: vec![],
        authority: vec![],
        additional: vec![],
    };
    assert_eq!(resp.to_bytes(), Err(SerializeError::InvalidName));
    assert_eq!(reply_datagram(&Ok(resp)).unwrap(), vec![0, 9, 0x80, 0x02, 0, 0, 0, 0, 0, 0, 0, 0]);
}

#[test]
fn names_that_cannot_be_written_are_refused() {
    let empty_label = DnsResourceRecord {
        name: vec![label("a"), label(""), label("b")],
        rtype: 1,
        class: 1,
        ttl: 0,
        rdata: DnsRecordData::A([1, 2, 3, 4]),
    };
    assert_eq!(response_with(vec![empty_label]).to_bytes(), Err(SerializeError::InvalidName));
    let x = "x".repeat(63);
    let long = DnsResourceRecord {
        name: name(&[&x, &x, &x, &x]),
        rtype: 1,
        class: 1,
        ttl: 0,
        rdata: DnsRecordData::A([1, 2, 3, 4]),
    };
    assert_eq!(response_with(vec![long]).to_bytes(), Err(SerializeError::InvalidName));
    let y = "y".repeat(61);
    let fits = DnsResourceRecord {
        name: name(&[&x, &x, &x, &y]),
        rtype: 1,
        class: 1,
        ttl: 0,
        rdata: DnsRecordData::A([1, 2, 3, 4]),
    };
    assert_eq!(response_with(vec![fits]).to_bytes().unwrap().len(), 12 + 255 + 10 + 4);
}

#[test]
fn query_round_trips_through_the_encoder() {
    let q1 = DNSQuestion { qname: name(&["www", "example", "com"]), qtype: 1, qclass: 1 };
    let q2 = DNSQuestion { qname: name(&["mail", "org"]), qtype: 15, qclass: 255 };
    let msg = DnsResponse {
        header: header(0x0102, 0x0100, 2, 0, 0, 0),
        questions: vec![q1.clone(), q2.clone()],
        answers: vec![],
        authority: vec![],
        additional: vec![],
    };
    let req = DNSRequest::parse(&msg.to_bytes().unwrap()).unwrap();
    assert_eq!(
        req.header,
        DNSHeader { id: 0x0102, flags: 0x0100, qdcount: 2, ancount: 0, nscount: 0, arcount: 0 }
    );
    assert_eq!(req.questions.len(), 2);
    assert_eq!(req.questions[0].qname, q1.qname);
    assert_eq!(req.questions[1].qname, q2.qname);
    assert_eq!((req.questions[1].qtype, req.questions[1].qclass), (15, 255));
}
