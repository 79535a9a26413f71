//! Question and answer records.
use vstd::prelude::*;
use crate::error::DecodeError;
use crate::name::{is_plain_name, lemma_walk_ok, lemma_walk_plain, name_at, DomainName};
use crate::wire::{
    be16, be32, lemma_be16_of_bytes, lemma_be32_of_bytes, push_bytes, push_u16, push_u32,
    read_u16, read_u32, u16_bytes, u32_bytes,
};

verus! {

/// The record type of an IPv4 address record.
pub const TYPE_A: u16 = 1;

/// A question: a name and the type and class asked for.
#[derive(Debug)]
pub struct Question {
    pub name: DomainName,
    pub record_type: u16,
    pub record_class: u16,
}

/// The value of a question.
pub struct QuestionView {
    pub name: Seq<u8>,
    pub record_type: u16,
    pub record_class: u16,
}

impl View for Question {
    type V = QuestionView;

    open spec fn view(&self) -> QuestionView {
        QuestionView {
            name: self.name@,
            record_type: self.record_type,
            record_class: self.record_class,
        }
    }
}

/// The data of an answer, told apart by record type. Only address records
/// are known.
#[derive(PartialEq, Eq, Structural, Clone, Copy, Debug)]
pub enum AnswerData {
    ARecord(u32),
}

/// An answer record.
#[derive(Debug)]
pub struct Answer {
    pub name: DomainName,
    pub record_type: u16,
    pub record_class: u16,
    pub ttl: u32,
    pub rdata_length: u16,
    pub data: AnswerData,
}

/// The value of an answer.
pub struct AnswerView {
    pub name: Seq<u8>,
    pub record_type: u16,
    pub record_class: u16,
    pub ttl: u32,
    pub rdata_length: u16,
    pub data: AnswerData,
}

impl View for Answer {
    type V = AnswerView;

    open spec fn view(&self) -> AnswerView {
        AnswerView {
            name: self.name@,
            record_type: self.record_type,
            record_class: self.record_class,
            ttl: self.ttl,
            rdata_length: self.rdata_length,
            data: self.data,
        }
    }
}

/// The bytes of a question on the wire.
pub open spec fn question_bytes(q: QuestionView) -> Seq<u8> {
    q.name + u16_bytes(q.record_type) + u16_bytes(q.record_class)
}

/// The bytes of answer data on the wire.
pub open spec fn data_bytes(d: AnswerData) -> Seq<u8> {
    match d {
        AnswerData::ARecord(ip) => u32_bytes(ip),
    }
}

/// The bytes of an answer on the wire.
pub open spec fn answer_bytes(a: AnswerView) -> Seq<u8> {
    a.name + u16_bytes(a.record_type) + u16_bytes(a.record_class) + u32_bytes(a.ttl) + u16_bytes(
        a.rdata_length,
    ) + data_bytes(a.data)
}

/// A question that reads back as itself: a plain name.
pub open spec fn question_wf(q: QuestionView) -> bool {
    is_plain_name(q.name)
}

/// An answer that reads back as itself: a plain name and an address record
/// with four bytes of data.
pub open spec fn answer_wf(a: AnswerView) -> bool {
    is_plain_name(a.name) && a.record_type == TYPE_A && a.rdata_length == 4
}

/// The question at `off` in `buf`, and the number of bytes it occupies there.
pub open spec fn parse_question(buf: Seq<u8>, off: int) -> Result<(QuestionView, int), DecodeError> {
    match name_at(buf, off) {
        Err(e) => Err(e),
        Ok((name, used)) => {
            let p = off + used;
            if p + 4 > buf.len() {
                Err(DecodeError::Truncated)
            } else {
                Ok(
                    (
                        QuestionView {
                            name,
                            record_type: be16(buf, p) as u16,
                            record_class: be16(buf, p + 2) as u16,
                        },
                        used + 4,
                    ),
                )
            }
        },
    }
}

/// The answer at `off` in `buf`, and the number of bytes it occupies there.
/// Only address records with four bytes of data are read.
pub open spec fn parse_answer(buf: Seq<u8>, off: int) -> Result<(AnswerView, int), DecodeError> {
    match name_at(buf, off) {
        Err(e) => Err(e),
        Ok((name, used)) => {
            let p = off + used;
            if p + 10 > buf.len() {
                Err(DecodeError::Truncated)
            } else if be16(buf, p) != TYPE_A {
                Err(DecodeError::UnsupportedType)
            } else if be16(buf, p + 8) != 4 {
                Err(DecodeError::RdataLength)
            } else if p + 14 > buf.len() {
                Err(DecodeError::Truncated)
            } else {
                Ok(
                    (
                        AnswerView {
                            name,
                            record_type: TYPE_A,
                            record_class: be16(buf, p + 2) as u16,
                            ttl: be32(buf, p + 4) as u32,
                            rdata_length: 4,
                            data: AnswerData::ARecord(be32(buf, p + 10) as u32),
                        },
                        used + 14,
                    ),
                )
            }
        },
    }
}

pub open spec fn question_result_view(r: Result<(Question, usize), DecodeError>) -> Result<
    (QuestionView, int),
    DecodeError,
> {
    match r {
        Ok((q, used)) => Ok((q@, used as int)),
        Err(e) => Err(e),
    }
}

pub open spec fn answer_result_view(r: Result<(Answer, usize), DecodeError>) -> Result<
    (AnswerView, int),
    DecodeError,
> {
    match r {
        Ok((a, used)) => Ok((a@, used as int)),
        Err(e) => Err(e),
    }
}

/// A well-formed question stored at `off` reads back as itself.
pub proof fn lemma_question_at(buf: Seq<u8>, off: int, q: QuestionView)
    requires
        question_wf(q),
        0 <= off,
        off + question_bytes(q).len() <= buf.len(),
        buf.subrange(off, off + question_bytes(q).len()) == question_bytes(q),
    ensures
        parse_question(buf, off) == Ok::<(QuestionView, int), DecodeError>(
            (q, question_bytes(q).len() as int),
        ),
{
    let w = question_bytes(q);
    let n = q.name.len() as int;
    let p = off + n;
    assert(buf.subrange(off, p) =~= w.subrange(0, n));
    assert(w.subrange(0, n) =~= q.name);
    lemma_walk_plain(buf, off, buf.len(), q.name);
    assert(buf.subrange(p, p + 2) =~= w.subrange(n, n + 2));
    assert(buf.subrange(p + 2, p + 4) =~= w.subrange(n + 2, n + 4));
    assert(w.subrange(n, n + 2) =~= u16_bytes(q.record_type));
    assert(w.subrange(n + 2, n + 4) =~= u16_bytes(q.record_class));
    lemma_be16_of_bytes(buf, p, q.record_type);
    lemma_be16_of_bytes(buf, p + 2, q.record_class);
}

/// A well-formed answer stored at `off` reads back as itself.
pub proof fn lemma_answer_at(buf: Seq<u8>, off: int, a: AnswerView)
    requires
        answer_wf(a),
        0 <= off,
        off + answer_bytes(a).len() <= buf.len(),
        buf.subrange(off, off + answer_bytes(a).len()) == answer_bytes(a),
    ensures
        parse_answer(buf, off) == Ok::<(AnswerView, int), DecodeError>(
            (a, answer_bytes(a).len() as int),
        ),
{
    let w = answer_bytes(a);
    let n = a.name.len() as int;
    let p = off + n;
    let ip = match a.data {
        AnswerData::ARecord(ip) => ip,
    };
    assert(buf.subrange(off, p) =~= w.subrange(0, n));
    assert(w.subrange(0, n) =~= a.name);
    lemma_walk_plain(buf, off, buf.len(), a.name);
    assert(buf.subrange(p, p + 2) =~= w.subrange(n, n + 2));
    assert(buf.subrange(p + 2, p + 4) =~= w.subrange(n + 2, n + 4));
    assert(buf.subrange(p + 4, p + 8) =~= w.subrange(n + 4, n + 8));
    assert(buf.subrange(p + 8, p + 10) =~= w.subrange(n + 8, n + 10));
    assert(buf.subrange(p + 10, p + 14) =~= w.subrange(n + 10, n + 14));
    assert(w.subrange(n, n + 2) =~= u16_bytes(a.record_type));
    assert(w.subrange(n + 2, n + 4) =~= u16_bytes(a.record_class));
    assert(w.subrange(n + 4, n + 8) =~= u32_bytes(a.ttl));
    assert(w.subrange(n + 8, n + 10) =~= u16_bytes(a.rdata_length));
    assert(w.subrange(n + 10, n + 14) =~= u32_bytes(ip));
    lemma_be16_of_bytes(buf, p, a.record_type);
    lemma_be16_of_bytes(buf, p + 2, a.record_class);
    lemma_be32_of_bytes(buf, p + 4, a.ttl);
    lemma_be16_of_bytes(buf, p + 8, a.rdata_length);
    lemma_be32_of_bytes(buf, p + 10, ip);
}

/// Encoding a question with a plain name and decoding the bytes gives the
/// question back, with every byte consumed.
pub proof fn lemma_question_round_trip(q: QuestionView)
    requires
        question_wf(q),
    ensures
        parse_question(question_bytes(q), 0) == Ok::<(QuestionView, int), DecodeError>(
            (q, question_bytes(q).len() as int),
        ),
{
    let w = question_bytes(q);
    assert(w.subrange(0, w.len() as int) =~= w);
    lemma_question_at(w, 0, q);
}

/// Encoding an address answer with a plain name and decoding the bytes gives
/// the answer back, with every byte consumed.
pub proof fn lemma_answer_round_trip(a: AnswerView)
    requires
        answer_wf(a),
    ensures
        parse_answer(answer_bytes(a), 0) == Ok::<(AnswerView, int), DecodeError>(
            (a, answer_bytes(a).len() as int),
        ),
{
    let w = answer_bytes(a);
    assert(w.subrange(0, w.len() as int) =~= w);
    lemma_answer_at(w, 0, a);
}

impl Question {
    /// The bytes of this question on the wire.
    pub fn encode(&self) -> (r: Vec<u8>)
        ensures
            r@ == question_bytes(self@),
    {
        let mut out: Vec<u8> = Vec::new();
        push_bytes(&mut out, self.name.bytes.as_slice());
        push_u16(&mut out, self.record_type);
        push_u16(&mut out, self.record_class);
        assert(out@ =~= question_bytes(self@));
        out
    }

    /// The number of bytes this question occupies on the wire.
    pub fn size(&self) -> (r: usize)
        requires
            self.name@.len() + 4 <= usize::MAX,
        ensures
            r == question_bytes(self@).len(),
    {
        self.name.bytes.len() + 4
    }

    /// Reads the question at `offset` in `buf`. Gives the question and the
    /// number of bytes it occupies at `offset`, which is where the next record
    /// begins.
    pub fn decode(buf: &[u8], offset: usize) -> (r: Result<(Question, usize), DecodeError>)
        ensures
            question_result_view(r) == parse_question(buf@, offset as int),
            r matches Ok((q, used)) ==> question_wf(q@) && offset + used <= buf@.len(),
    {
        let len = buf.len();
        let (name, used) = match DomainName::decode(buf, offset) {
            Ok(d) => d,
            Err(e) => return Err(e),
        };
        proof {
            lemma_walk_ok(buf@, offset as int, buf@.len());
        }
        let p = offset + used;
        if len - p < 4 {
            return Err(DecodeError::Truncated);
        }
        let record_type = read_u16(buf, p);
        let record_class = read_u16(buf, p + 2);
        Ok((Question { name, record_type, record_class }, used + 4))
    }
}

impl AnswerData {
    /// The bytes of this data on the wire.
    pub fn encode(&self) -> (r: Vec<u8>)
        ensures
            r@ == data_bytes(*self),
    {
        let mut out: Vec<u8> = Vec::new();
        match self {
            AnswerData::ARecord(ip) => push_u32(&mut out, *ip),
        }
        assert(out@ =~= data_bytes(*self));
        out
    }
}

impl Answer {
    /// Reads the answer at `offset` in `buf`. Gives the answer and the number
    /// of bytes it occupies at `offset`. Record types other than address
    /// records, and address records whose data is not four bytes, are errors.
    pub fn decode(buf: &[u8], offset: usize) -> (r: Result<(Answer, usize), DecodeError>)
        ensures
            answer_result_view(r) == parse_answer(buf@, offset as int),
            r matches Ok((a, used)) ==> answer_wf(a@) && offset + used <= buf@.len(),
    {
        let len = buf.len();
        let (name, used) = match DomainName::decode(buf, offset) {
            Ok(d) => d,
            Err(e) => return Err(e),
        };
        proof {
            lemma_walk_ok(buf@, offset as int, buf@.len());
        }
        let p = offset + used;
        if len - p < 10 {
            return Err(DecodeError::Truncated);
        }
        let record_type = read_u16(buf, p);
        if record_type != TYPE_A {
            return Err(DecodeError::UnsupportedType);
        }
        let record_class = read_u16(buf, p + 2);
        let ttl = read_u32(buf, p + 4);
        let rdata_length = read_u16(buf, p + 8);
        if rdata_length != 4 {
            return Err(DecodeError::RdataLength);
        }
        if len - p < 14 {
            return Err(DecodeError::Truncated);
        }
        let ip = read_u32(buf, p + 10);
        let answer = Answer {
            name,
            record_type,
            record_class,
            ttl,
            rdata_length,
            data: AnswerData::ARecord(ip),
        };
        Ok((answer, used + 14))
    }

    /// The number of bytes this answer occupies on the wire.
    pub fn size(&self) -> (r: usize)
        requires
            self.name@.len() + 14 <= usize::MAX,
        ensures
            r == answer_bytes(self@).len(),
    {
        self.name.bytes.len() + 14
    }

    /// The bytes of this answer on the wire.
    pub fn encode(&self) -> (r: Vec<u8>)
        ensures
            r@ == answer_bytes(self@),
    {
        let mut out: Vec<u8> = Vec::new();
        push_bytes(&mut out, self.name.bytes.as_slice());
        push_u16(&mut out, self.record_type);
        push_u16(&mut out, self.record_class);
        push_u32(&mut out, self.ttl);
        push_u16(&mut out, self.rdata_length);
        let data = self.data.encode();
        push_bytes(&mut out, data.as_slice());
        assert(out@ =~= answer_bytes(self@));
        out
    }
}

} // verus!
