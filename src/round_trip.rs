//! What decoding gives back for octets that the encoder wrote.
use vstd::prelude::*;
use crate::label::MAX_LABEL_LENGTH;
use crate::name::{
    encode_name, labels_at, labels_bytes, labels_fit, name_at, name_fits, ParseError,
    MAX_NAME_LENGTH,
};
use crate::request::{
    header_at, parse_request_spec, questions_at, questions_view, DNSHeader, QuestionView,
    HEADER_LENGTH,
};
use crate::response::{
    question_bytes, questions_bytes, questions_fit, response_bytes, response_header_bytes,
    DnsResourceRecord, DnsResponse, DnsResponseHeader, SerializeError,
};
use crate::wire::{be16_at, lemma_u16_be_round_trip, u16_be};

verus! {

proof fn lemma_labels_bytes_first(n: Seq<Seq<u8>>)
    requires
        n.len() > 0,
    ensures
        labels_bytes(n) == seq![n[0].len() as u8] + n[0] + labels_bytes(n.drop_first()),
    decreases n.len(),
{
    if n.len() == 1 {
        assert(n.drop_last() =~= seq![]);
        assert(n.drop_first() =~= seq![]);
        assert(labels_bytes(n) =~= seq![n[0].len() as u8] + n[0] + labels_bytes(n.drop_first()));
    } else {
        lemma_labels_bytes_first(n.drop_last());
        assert(n.drop_first().drop_last() =~= n.drop_last().drop_first());
        assert(n.drop_first().last() == n.last());
        assert(labels_bytes(n) =~= seq![n[0].len() as u8] + n[0] + labels_bytes(n.drop_first()));
    }
}

proof fn lemma_labels_at_encoded(data: Seq<u8>, pos: int, n: Seq<Seq<u8>>)
    requires
        labels_fit(n),
        0 <= pos,
        pos + encode_name(n).len() <= data.len(),
        data.subrange(pos, pos + encode_name(n).len()) == encode_name(n),
    ensures
        labels_at(data, pos) == Ok::<_, ParseError>((n, pos + encode_name(n).len())),
    decreases n.len(),
{
    let e = encode_name(n);
    assert(data[pos] == e[0]);
    if n.len() == 0 {
        assert(e =~= seq![0u8]);
        assert(n =~= seq![]);
    } else {
        lemma_labels_bytes_first(n);
        let len = n[0].len();
        let rest = n.drop_first();
        let er = encode_name(rest);
        assert(e =~= seq![len as u8] + n[0] + er);
        assert(data.subrange(pos + 1, pos + 1 + len) =~= n[0]) by {
            assert forall|k: int| 0 <= k < len implies data[pos + 1 + k] == n[0][k] by {
                assert(data[pos + 1 + k] == e[1 + k]);
            }
        }
        assert(data.subrange(pos + 1 + len, pos + 1 + len + er.len()) =~= er) by {
            assert forall|k: int| 0 <= k < er.len() implies data[pos + 1 + len + k] == er[k] by {
                assert(data[pos + 1 + len + k] == e[1 + len + k]);
            }
        }
        assert(labels_fit(rest)) by {
            assert forall|i: int| 0 <= i < rest.len() implies 1 <= #[trigger] rest[i].len()
                <= MAX_LABEL_LENGTH by {
                assert(rest[i] == n[i + 1]);
            }
        }
        lemma_labels_at_encoded(data, pos + 1 + len, rest);
        assert(seq![n[0]] + rest =~= n);
    }
}

/// A name of labels of 1 to 63 octets, whose encoding is at most 255 octets,
/// is read back unchanged from its encoding, whatever follows it.
pub proof fn lemma_name_round_trip(n: Seq<Seq<u8>>, rest: Seq<u8>)
    requires
        labels_fit(n),
        encode_name(n).len() <= MAX_NAME_LENGTH,
    ensures
        name_at(encode_name(n) + rest, 0) == Ok::<_, ParseError>(
            (n, encode_name(n).len() as int),
        ),
{
    let data = encode_name(n) + rest;
    assert(data.subrange(0, encode_name(n).len() as int) =~= encode_name(n));
    lemma_labels_at_encoded(data, 0, n);
}

proof fn lemma_labels_at_reencodes(data: Seq<u8>, pos: int)
    requires
        labels_at(data, pos) is Ok,
    ensures
        ({
            let (n, end) = labels_at(data, pos)->Ok_0;
            &&& 0 <= pos < end <= data.len()
            &&& end - pos == encode_name(n).len()
            &&& data.subrange(pos, end) == encode_name(n)
            &&& labels_fit(n)
        }),
    decreases data.len() - pos,
{
    let len = data[pos] as int;
    let (n, end) = labels_at(data, pos)->Ok_0;
    if len == 0 {
        assert(n =~= seq![]);
        assert(data.subrange(pos, end) =~= encode_name(n));
    } else {
        lemma_labels_at_reencodes(data, pos + 1 + len);
        let (m, e2) = labels_at(data, pos + 1 + len)->Ok_0;
        let l = data.subrange(pos + 1, pos + 1 + len);
        assert(n == seq![l] + m);
        assert(n.drop_first() =~= m);
        assert(n[0] == l);
        lemma_labels_bytes_first(n);
        assert(encode_name(n) =~= seq![len as u8] + l + encode_name(m));
        assert(data.subrange(pos, end) =~= encode_name(n)) by {
            assert(data.subrange(pos + 1 + len, end) == encode_name(m));
            assert forall|k: int| 0 <= k < end - pos implies data.subrange(pos, end)[k]
                == encode_name(n)[k] by {
                if k >= 1 + len {
                    assert(data.subrange(pos + 1 + len, end)[k - 1 - len] == data[pos + k]);
                }
            }
        }
        assert(labels_fit(n)) by {
            assert forall|i: int| 0 <= i < n.len() implies 1 <= #[trigger] n[i].len()
                <= MAX_LABEL_LENGTH by {
                if i > 0 {
                    assert(n[i] == m[i - 1]);
                }
            }
        }
    }
}

/// A name read from `data` at `pos` is re-encoded as exactly the octets it
/// was read from; its labels are 1 to 63 octets long.
pub proof fn lemma_parsed_name_reencodes(data: Seq<u8>, pos: int)
    requires
        name_at(data, pos) is Ok,
    ensures
        ({
            let (n, end) = name_at(data, pos)->Ok_0;
            &&& 0 <= pos < end <= data.len()
            &&& data.subrange(pos, end) == encode_name(n)
            &&& encode_name(n).len() <= MAX_NAME_LENGTH
            &&& labels_fit(n)
        }),
{
    lemma_labels_at_reencodes(data, pos);
}

proof fn lemma_header_fields(h: DnsResponseHeader, rest: Seq<u8>)
    ensures
        (response_header_bytes(h) + rest).len() >= HEADER_LENGTH,
        header_at(response_header_bytes(h) + rest) == (DNSHeader {
            id: h.id,
            flags: h.flags,
            qdcount: h.qdcount,
            ancount: h.ancount,
            nscount: h.nscount,
            arcount: h.arcount,
        }),
{
    let data = response_header_bytes(h) + rest;
    lemma_u16_be_round_trip(h.id);
    lemma_u16_be_round_trip(h.flags);
    lemma_u16_be_round_trip(h.qdcount);
    lemma_u16_be_round_trip(h.ancount);
    lemma_u16_be_round_trip(h.nscount);
    lemma_u16_be_round_trip(h.arcount);
    assert(be16_at(data, 0) == be16_at(u16_be(h.id), 0));
    assert(be16_at(data, 2) == be16_at(u16_be(h.flags), 0));
    assert(be16_at(data, 4) == be16_at(u16_be(h.qdcount), 0));
    assert(be16_at(data, 6) == be16_at(u16_be(h.ancount), 0));
    assert(be16_at(data, 8) == be16_at(u16_be(h.nscount), 0));
    assert(be16_at(data, 10) == be16_at(u16_be(h.arcount), 0));
}

/// The twelve octets that encode a header with no questions decode to the
/// same six fields.
pub proof fn lemma_header_round_trip(h: DnsResponseHeader, rest: Seq<u8>)
    requires
        h.qdcount == 0,
    ensures
        parse_request_spec(response_header_bytes(h) + rest) == Ok::<_, ParseError>(
            (
                DNSHeader {
                    id: h.id,
                    flags: h.flags,
                    qdcount: h.qdcount,
                    ancount: h.ancount,
                    nscount: h.nscount,
                    arcount: h.arcount,
                },
                Seq::<QuestionView>::empty(),
            ),
        ),
{
    lemma_header_fields(h, rest);
}

proof fn lemma_questions_bytes_first(qs: Seq<QuestionView>)
    requires
        qs.len() > 0,
    ensures
        questions_bytes(qs) == question_bytes(qs[0]) + questions_bytes(qs.drop_first()),
    decreases qs.len(),
{
    if qs.len() == 1 {
        assert(qs.drop_last() =~= seq![]);
        assert(qs.drop_first() =~= seq![]);
        assert(questions_bytes(qs) =~= question_bytes(qs[0]) + questions_bytes(qs.drop_first()));
    } else {
        lemma_questions_bytes_first(qs.drop_last());
        assert(qs.drop_first().drop_last() =~= qs.drop_last().drop_first());
        assert(qs.drop_first().last() == qs.last());
        assert(questions_bytes(qs) =~= question_bytes(qs[0]) + questions_bytes(qs.drop_first()));
    }
}

proof fn lemma_questions_at_encoded(data: Seq<u8>, pos: int, qs: Seq<QuestionView>)
    requires
        questions_fit(qs),
        0 <= pos,
        pos + questions_bytes(qs).len() <= data.len(),
        data.subrange(pos, pos + questions_bytes(qs).len()) == questions_bytes(qs),
    ensures
        questions_at(data, pos, qs.len()) == Ok::<_, ParseError>(
            (qs, pos + questions_bytes(qs).len()),
        ),
    decreases qs.len(),
{
    let qb = questions_bytes(qs);
    if qs.len() == 0 {
        assert(qs =~= seq![]);
    } else {
        lemma_questions_bytes_first(qs);
        let q = qs[0];
        let rest = qs.drop_first();
        let en = encode_name(q.0);
        let rb = questions_bytes(rest);
        assert(qb =~= en + u16_be(q.1) + u16_be(q.2) + rb);
        assert(name_fits(q.0));
        assert(data.subrange(pos, pos + en.len()) =~= en) by {
            assert forall|k: int| 0 <= k < en.len() implies data[pos + k] == en[k] by {
                assert(data[pos + k] == qb[k]);
            }
        }
        lemma_labels_at_encoded(data, pos, q.0);
        let p = pos + en.len();
        lemma_u16_be_round_trip(q.1);
        lemma_u16_be_round_trip(q.2);
        assert(data[p] == qb[en.len() as int]);
        assert(data[p + 1] == qb[en.len() as int + 1]);
        assert(data[p + 2] == qb[en.len() as int + 2]);
        assert(data[p + 3] == qb[en.len() as int + 3]);
        assert(be16_at(data, p) == be16_at(u16_be(q.1), 0));
        assert(be16_at(data, p + 2) == be16_at(u16_be(q.2), 0));
        assert(data.subrange(p + 4, p + 4 + rb.len()) =~= rb) by {
            assert forall|k: int| 0 <= k < rb.len() implies data[p + 4 + k] == rb[k] by {
                assert(data[p + 4 + k] == qb[en.len() as int + 4 + k]);
            }
        }
        assert(questions_fit(rest)) by {
            assert forall|i: int| 0 <= i < rest.len() implies name_fits(#[trigger] rest[i].0) by {
                assert(rest[i] == qs[i + 1]);
            }
        }
        lemma_questions_at_encoded(data, p + 4, rest);
        assert((rest.len() as int) == (qs.len() - 1) as nat);
        assert(seq![(q.0, q.1, q.2)] + rest =~= qs);
    }
}

/// A query message written by the encoder, with no answers, a question
/// count equal to its number of questions and names that can be written, is
/// read back with the same header fields and the same questions.
pub proof fn lemma_query_round_trip(r: DnsResponse)
    requires
        r.answers@.len() == 0,
        r.header.qdcount as int == r.questions@.len(),
        questions_fit(questions_view(r.questions@)),
    ensures
        response_bytes(r) is Ok,
        parse_request_spec(response_bytes(r)->Ok_0) == Ok::<_, ParseError>(
            (
                DNSHeader {
                    id: r.header.id,
                    flags: r.header.flags,
                    qdcount: r.header.qdcount,
                    ancount: r.header.ancount,
                    nscount: r.header.nscount,
                    arcount: r.header.arcount,
                },
                questions_view(r.questions@),
            ),
        ),
{
    let qv = questions_view(r.questions@);
    let qb = questions_bytes(qv);
    let hb = response_header_bytes(r.header);
    assert(r.answers@ =~= Seq::<DnsResourceRecord>::empty());
    let data = hb + qb + seq![];
    assert(response_bytes(r) == Ok::<_, SerializeError>(data));
    assert(data =~= hb + qb);
    lemma_header_fields(r.header, qb);
    assert(qv.len() == r.questions@.len());
    assert(data.subrange(HEADER_LENGTH as int, HEADER_LENGTH + qb.len()) =~= qb);
    lemma_questions_at_encoded(data, HEADER_LENGTH as int, qv);
}

proof fn lemma_be16_reencodes(data: Seq<u8>, pos: int)
    requires
        0 <= pos,
        pos + 2 <= data.len(),
    ensures
        u16_be(be16_at(data, pos)) == data.subrange(pos, pos + 2),
{
    let a = data[pos] as int;
    let b = data[pos + 1] as int;
    assert((a * 256 + b) / 256 == a && (a * 256 + b) % 256 == b) by (nonlinear_arith)
        requires
            0 <= a < 256,
            0 <= b < 256,
    ;
    assert(u16_be(be16_at(data, pos)) =~= data.subrange(pos, pos + 2));
}

proof fn lemma_questions_at_reencodes(data: Seq<u8>, pos: int, count: nat)
    requires
        0 <= pos <= data.len(),
        questions_at(data, pos, count) is Ok,
    ensures
        ({
            let (qs, end) = questions_at(data, pos, count)->Ok_0;
            &&& qs.len() == count
            &&& questions_fit(qs)
            &&& pos <= end <= data.len()
            &&& data.subrange(pos, end) == questions_bytes(qs)
        }),
    decreases count,
{
    let (qs, end) = questions_at(data, pos, count)->Ok_0;
    if count == 0 {
        assert(qs =~= seq![]);
        assert(data.subrange(pos, end) =~= seq![]);
    } else {
        lemma_parsed_name_reencodes(data, pos);
        let (n, p) = name_at(data, pos)->Ok_0;
        lemma_questions_at_reencodes(data, p + 4, (count - 1) as nat);
        let (rest, e2) = questions_at(data, p + 4, (count - 1) as nat)->Ok_0;
        let q = (n, be16_at(data, p), be16_at(data, p + 2));
        assert(qs == seq![q] + rest);
        assert(qs.drop_first() =~= rest);
        lemma_questions_bytes_first(qs);
        lemma_be16_reencodes(data, p);
        lemma_be16_reencodes(data, p + 2);
        assert(data.subrange(pos, end) =~= encode_name(n) + u16_be(q.1) + u16_be(q.2)
            + questions_bytes(rest)) by {
            assert(data.subrange(pos, p) == encode_name(n));
            assert(data.subrange(p, p + 2) == u16_be(q.1));
            assert(data.subrange(p + 2, p + 4) == u16_be(q.2));
            assert(data.subrange(p + 4, end) == questions_bytes(rest));
            assert(data.subrange(pos, end) =~= data.subrange(pos, p) + data.subrange(p, p + 2)
                + data.subrange(p + 2, p + 4) + data.subrange(p + 4, end));
        }
        assert(questions_fit(qs)) by {
            assert forall|i: int| 0 <= i < qs.len() implies name_fits(#[trigger] qs[i].0) by {
                if i > 0 {
                    assert(qs[i] == rest[i - 1]);
                }
            }
        }
    }
}

/// Encoding the header and the questions of a decoded query, with no
/// answers, gives back the octets they were read from; every decoded name
/// can be written.
pub proof fn lemma_parsed_query_reencodes(data: Seq<u8>)
    requires
        parse_request_spec(data) is Ok,
    ensures
        ({
            let (h, qs) = parse_request_spec(data)->Ok_0;
            let hb = response_header_bytes(
                DnsResponseHeader {
                    id: h.id,
                    flags: h.flags,
                    qdcount: h.qdcount,
                    ancount: h.ancount,
                    nscount: h.nscount,
                    arcount: h.arcount,
                },
            );
            &&& questions_fit(qs)
            &&& qs.len() == h.qdcount
            &&& HEADER_LENGTH + questions_bytes(qs).len() <= data.len()
            &&& data.subrange(0, HEADER_LENGTH + questions_bytes(qs).len()) == hb
                + questions_bytes(qs)
        }),
{
    let (h, qs) = parse_request_spec(data)->Ok_0;
    lemma_questions_at_reencodes(data, HEADER_LENGTH as int, h.qdcount as nat);
    let end = questions_at(data, HEADER_LENGTH as int, h.qdcount as nat)->Ok_0.1;
    lemma_be16_reencodes(data, 0);
    lemma_be16_reencodes(data, 2);
    lemma_be16_reencodes(data, 4);
    lemma_be16_reencodes(data, 6);
    lemma_be16_reencodes(data, 8);
    lemma_be16_reencodes(data, 10);
    let hb = response_header_bytes(
        DnsResponseHeader {
            id: h.id,
            flags: h.flags,
            qdcount: h.qdcount,
            ancount: h.ancount,
            nscount: h.nscount,
            arcount: h.arcount,
        },
    );
    assert(data.subrange(0, HEADER_LENGTH as int) =~= hb);
    assert(data.subrange(HEADER_LENGTH as int, end) == questions_bytes(qs));
    assert(data.subrange(0, end) =~= data.subrange(0, HEADER_LENGTH as int) + data.subrange(
        HEADER_LENGTH as int,
        end,
    ));
}

} // verus!
