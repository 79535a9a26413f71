//! A whole message: header, questions and answers.
use vstd::prelude::*;
use crate::error::DecodeError;
use crate::header::{
    header_bytes, lemma_header_round_trip, parse_header, zero_header, Header, HEADER_LEN,
};
use crate::record::{
    answer_bytes, answer_wf, lemma_answer_at, lemma_question_at, parse_answer, parse_question,
    question_bytes, question_wf, Answer, AnswerView, Question, QuestionView,
};
use crate::wire::push_bytes;

verus! {

/// A message. `with_questions` and `with_answers` keep the header's counts
/// equal to the list lengths.
#[derive(Debug)]
pub struct Message {
    pub header: Header,
    pub questions: Vec<Question>,
    pub answers: Vec<Answer>,
}

impl Default for Message {
    /// A message with a zero header and no records.
    fn default() -> (r: Message)
        ensures
            r.header == zero_header(),
            r.questions@.len() == 0,
            r.answers@.len() == 0,
    {
        Message { header: Header::default(), questions: Vec::new(), answers: Vec::new() }
    }
}

/// The value of a message.
pub struct MessageView {
    pub header: Header,
    pub questions: Seq<QuestionView>,
    pub answers: Seq<AnswerView>,
}

pub open spec fn question_views(v: Seq<Question>) -> Seq<QuestionView> {
    v.map_values(|q: Question| q@)
}

pub open spec fn answer_views(v: Seq<Answer>) -> Seq<AnswerView> {
    v.map_values(|a: Answer| a@)
}

impl View for Message {
    type V = MessageView;

    open spec fn view(&self) -> MessageView {
        MessageView {
            header: self.header,
            questions: question_views(self.questions@),
            answers: answer_views(self.answers@),
        }
    }
}

/// The bytes of the questions `qs`, one after another.
pub open spec fn questions_bytes(qs: Seq<QuestionView>) -> Seq<u8>
    decreases qs.len(),
{
    if qs.len() == 0 {
        Seq::empty()
    } else {
        question_bytes(qs[0]) + questions_bytes(qs.skip(1))
    }
}

/// The bytes of the answers `a`, one after another.
pub open spec fn answers_bytes(a: Seq<AnswerView>) -> Seq<u8>
    decreases a.len(),
{
    if a.len() == 0 {
        Seq::empty()
    } else {
        answer_bytes(a[0]) + answers_bytes(a.skip(1))
    }
}

/// The bytes of a message: header, then each question, then each answer.
pub open spec fn message_bytes(m: MessageView) -> Seq<u8> {
    header_bytes(m.header) + questions_bytes(m.questions) + answers_bytes(m.answers)
}

/// `n` questions read one after another from `off`, and the offset after them.
pub open spec fn parse_questions(buf: Seq<u8>, off: int, n: nat) -> Result<
    (Seq<QuestionView>, int),
    DecodeError,
>
    decreases n,
{
    if n == 0 {
        Ok((Seq::empty(), off))
    } else {
        match parse_question(buf, off) {
            Err(e) => Err(e),
            Ok((q, used)) => match parse_questions(buf, off + used, (n - 1) as nat) {
                Err(e) => Err(e),
                Ok((qs, end)) => Ok((seq![q] + qs, end)),
            },
        }
    }
}

/// `n` answers read one after another from `off`, and the offset after them.
pub open spec fn parse_answers(buf: Seq<u8>, off: int, n: nat) -> Result<
    (Seq<AnswerView>, int),
    DecodeError,
>
    decreases n,
{
    if n == 0 {
        Ok((Seq::empty(), off))
    } else {
        match parse_answer(buf, off) {
            Err(e) => Err(e),
            Ok((a, used)) => match parse_answers(buf, off + used, (n - 1) as nat) {
                Err(e) => Err(e),
                Ok((rest, end)) => Ok((seq![a] + rest, end)),
            },
        }
    }
}

/// The message in `buf`: its header, then as many questions and answers as
/// the header counts.
pub open spec fn parse_message(buf: Seq<u8>) -> Result<MessageView, DecodeError> {
    if buf.len() < 12 {
        Err(DecodeError::Truncated)
    } else {
        let h = parse_header(buf);
        match parse_questions(buf, 12, h.question_count as nat) {
            Err(e) => Err(e),
            Ok((qs, end)) => match parse_answers(buf, end, h.answer_record as nat) {
                Err(e) => Err(e),
                Ok((answers, _)) => Ok(MessageView { header: h, questions: qs, answers }),
            },
        }
    }
}

/// A message whose bytes read back as itself: a well-formed header with
/// reserved bits 0 whose counts match the lists, and records that read back
/// as themselves.
pub open spec fn message_wf(m: MessageView) -> bool {
    &&& m.header.wf()
    &&& m.header.reserved == 0
    &&& m.header.question_count == m.questions.len()
    &&& m.header.answer_record == m.answers.len()
    &&& forall|i: int| 0 <= i < m.questions.len() ==> question_wf(#[trigger] m.questions[i])
    &&& forall|i: int| 0 <= i < m.answers.len() ==> answer_wf(#[trigger] m.answers[i])
}

pub open spec fn prepend_questions(
    acc: Seq<QuestionView>,
    r: Result<(Seq<QuestionView>, int), DecodeError>,
) -> Result<(Seq<QuestionView>, int), DecodeError> {
    match r {
        Ok((qs, end)) => Ok((acc + qs, end)),
        Err(e) => Err(e),
    }
}

pub open spec fn prepend_answers(
    acc: Seq<AnswerView>,
    r: Result<(Seq<AnswerView>, int), DecodeError>,
) -> Result<(Seq<AnswerView>, int), DecodeError> {
    match r {
        Ok((rest, end)) => Ok((acc + rest, end)),
        Err(e) => Err(e),
    }
}

pub open spec fn questions_result_view(r: Result<(Vec<Question>, usize), DecodeError>) -> Result<
    (Seq<QuestionView>, int),
    DecodeError,
> {
    match r {
        Ok((qs, end)) => Ok((question_views(qs@), end as int)),
        Err(e) => Err(e),
    }
}

pub open spec fn answers_result_view(r: Result<(Vec<Answer>, usize), DecodeError>) -> Result<
    (Seq<AnswerView>, int),
    DecodeError,
> {
    match r {
        Ok((a, end)) => Ok((answer_views(a@), end as int)),
        Err(e) => Err(e),
    }
}

pub open spec fn message_result_view(r: Result<Message, DecodeError>) -> Result<
    MessageView,
    DecodeError,
> {
    match r {
        Ok(m) => Ok(m@),
        Err(e) => Err(e),
    }
}

/// Reading `n` questions gives `n` questions.
pub proof fn lemma_parse_questions_len(buf: Seq<u8>, off: int, n: nat)
    requires
        parse_questions(buf, off, n) is Ok,
    ensures
        parse_questions(buf, off, n)->Ok_0.0.len() == n,
    decreases n,
{
    if n > 0 {
        let used = parse_question(buf, off)->Ok_0.1;
        lemma_parse_questions_len(buf, off + used, (n - 1) as nat);
    }
}

pub proof fn lemma_questions_bytes_push(qs: Seq<QuestionView>, q: QuestionView)
    ensures
        questions_bytes(qs.push(q)) == questions_bytes(qs) + question_bytes(q),
    decreases qs.len(),
{
    if qs.len() == 0 {
        assert(qs.push(q).skip(1) =~= Seq::<QuestionView>::empty());
        assert(qs.push(q)[0] == q);
        assert(questions_bytes(Seq::<QuestionView>::empty()) =~= Seq::<u8>::empty());
        assert(questions_bytes(qs.push(q)) =~= question_bytes(q));
        assert(questions_bytes(qs) =~= Seq::<u8>::empty());
    } else {
        assert(qs.push(q).skip(1) =~= qs.skip(1).push(q));
        lemma_questions_bytes_push(qs.skip(1), q);
        assert(questions_bytes(qs.push(q)) =~= questions_bytes(qs) + question_bytes(q));
    }
}

pub proof fn lemma_answers_bytes_push(a: Seq<AnswerView>, x: AnswerView)
    ensures
        answers_bytes(a.push(x)) == answers_bytes(a) + answer_bytes(x),
    decreases a.len(),
{
    if a.len() == 0 {
        assert(a.push(x).skip(1) =~= Seq::<AnswerView>::empty());
        assert(a.push(x)[0] == x);
        assert(answers_bytes(Seq::<AnswerView>::empty()) =~= Seq::<u8>::empty());
        assert(answers_bytes(a.push(x)) =~= answer_bytes(x));
        assert(answers_bytes(a) =~= Seq::<u8>::empty());
    } else {
        assert(a.push(x).skip(1) =~= a.skip(1).push(x));
        lemma_answers_bytes_push(a.skip(1), x);
        assert(answers_bytes(a.push(x)) =~= answers_bytes(a) + answer_bytes(x));
    }
}

/// Well-formed questions stored one after another from `off` read back as
/// themselves.
pub proof fn lemma_questions_at(buf: Seq<u8>, off: int, qs: Seq<QuestionView>)
    requires
        0 <= off,
        off + questions_bytes(qs).len() <= buf.len(),
        buf.subrange(off, off + questions_bytes(qs).len()) == questions_bytes(qs),
        forall|i: int| 0 <= i < qs.len() ==> question_wf(#[trigger] qs[i]),
    ensures
        parse_questions(buf, off, qs.len()) == Ok::<(Seq<QuestionView>, int), DecodeError>(
            (qs, off + questions_bytes(qs).len()),
        ),
    decreases qs.len(),
{
    if qs.len() == 0 {
        assert(qs =~= Seq::<QuestionView>::empty());
    } else {
        let w = questions_bytes(qs);
        let k = question_bytes(qs[0]).len() as int;
        let rest = qs.skip(1);
        assert(buf.subrange(off, off + k) =~= w.subrange(0, k));
        assert(w.subrange(0, k) =~= question_bytes(qs[0]));
        lemma_question_at(buf, off, qs[0]);
        assert(buf.subrange(off + k, off + w.len()) =~= w.subrange(k, w.len() as int));
        assert(w.subrange(k, w.len() as int) =~= questions_bytes(rest));
        assert forall|i: int| 0 <= i < rest.len() implies question_wf(#[trigger] rest[i]) by {
            assert(rest[i] == qs[i + 1]);
        }
        lemma_questions_at(buf, off + k, rest);
        assert(seq![qs[0]] + rest =~= qs);
    }
}

/// Well-formed answers stored one after another from `off` read back as
/// themselves.
pub proof fn lemma_answers_at(buf: Seq<u8>, off: int, a: Seq<AnswerView>)
    requires
        0 <= off,
        off + answers_bytes(a).len() <= buf.len(),
        buf.subrange(off, off + answers_bytes(a).len()) == answers_bytes(a),
        forall|i: int| 0 <= i < a.len() ==> answer_wf(#[trigger] a[i]),
    ensures
        parse_answers(buf, off, a.len()) == Ok::<(Seq<AnswerView>, int), DecodeError>(
            (a, off + answers_bytes(a).len()),
        ),
    decreases a.len(),
{
    if a.len() == 0 {
        assert(a =~= Seq::<AnswerView>::empty());
    } else {
        let w = answers_bytes(a);
        let k = answer_bytes(a[0]).len() as int;
        let rest = a.skip(1);
        assert(buf.subrange(off, off + k) =~= w.subrange(0, k));
        assert(w.subrange(0, k) =~= answer_bytes(a[0]));
        lemma_answer_at(buf, off, a[0]);
        assert(buf.subrange(off + k, off + w.len()) =~= w.subrange(k, w.len() as int));
        assert(w.subrange(k, w.len() as int) =~= answers_bytes(rest));
        assert forall|i: int| 0 <= i < rest.len() implies answer_wf(#[trigger] rest[i]) by {
            assert(rest[i] == a[i + 1]);
        }
        lemma_answers_at(buf, off + k, rest);
        assert(seq![a[0]] + rest =~= a);
    }
}

/// Encoding a well-formed message and decoding the bytes gives the message
/// back.
pub proof fn lemma_message_round_trip(m: MessageView)
    requires
        message_wf(m),
    ensures
        parse_message(message_bytes(m)) == Ok::<MessageView, DecodeError>(m),
{
    let b = message_bytes(m);
    let hb = header_bytes(m.header);
    let qb = questions_bytes(m.questions);
    let ab = answers_bytes(m.answers);
    lemma_header_round_trip(m.header);
    assert(b.subrange(0, 12) =~= hb);
    assert(parse_header(b) == parse_header(hb)) by {
        assert forall|i: int| 0 <= i < 12 implies b[i] == hb[i] by {
            assert(b[i] == b.subrange(0, 12)[i]);
        }
    }
    assert(b.subrange(12, 12 + qb.len() as int) =~= qb);
    lemma_questions_at(b, 12, m.questions);
    let end = 12 + qb.len() as int;
    assert(b.subrange(end, end + ab.len() as int) =~= ab);
    lemma_answers_at(b, end, m.answers);
}

/// Reads `count` questions one after another, starting right after the
/// header. Gives them and the offset where the next record begins.
pub fn decode_questions(count: u16, buf: &[u8]) -> (r: Result<(Vec<Question>, usize), DecodeError>)
    ensures
        questions_result_view(r) == parse_questions(buf@, 12, count as nat),
        r matches Ok((_, end)) ==> end <= buf@.len() || count == 0,
{
    let mut questions: Vec<Question> = Vec::new();
    let len = buf.len();
    let mut offset: usize = HEADER_LEN;
    let mut i: u16 = 0;
    proof {
        if let Ok((qs, end)) = parse_questions(buf@, 12, count as nat) {
            assert(question_views(questions@) + qs =~= qs);
        }
    }
    while i < count
        invariant
            i <= count,
            len == buf@.len(),
            i > 0 ==> offset <= buf@.len(),
            i == 0 ==> offset == 12,
            parse_questions(buf@, 12, count as nat) == prepend_questions(
                question_views(questions@),
                parse_questions(buf@, offset as int, (count - i) as nat),
            ),
        decreases count - i,
    {
        let (q, used) = match Question::decode(buf, offset) {
            Ok(d) => d,
            Err(e) => return Err(e),
        };
        let ghost before = question_views(questions@);
        let ghost qv = q@;
        questions.push(q);
        proof {
            assert(question_views(questions@) =~= before.push(qv));
            if let Ok((qs, end)) = parse_questions(buf@, offset + used, (count - i - 1) as nat) {
                assert(before + (seq![qv] + qs) =~= before.push(qv) + qs);
            }
        }
        offset = offset + used;
        i = i + 1;
    }
    proof {
        assert(question_views(questions@) + Seq::<QuestionView>::empty() =~= question_views(
            questions@,
        ));
    }
    Ok((questions, offset))
}

/// Reads `count` answers one after another, starting at `offset`.
pub fn decode_answers(count: u16, buf: &[u8], offset: usize) -> (r: Result<Vec<Answer>, DecodeError>)
    ensures
        match r {
            Ok(a) => parse_answers(buf@, offset as int, count as nat) is Ok && answer_views(a@)
                == parse_answers(buf@, offset as int, count as nat)->Ok_0.0,
            Err(e) => parse_answers(buf@, offset as int, count as nat) == Err::<
                (Seq<AnswerView>, int),
                DecodeError,
            >(e),
        },
{
    let mut answers: Vec<Answer> = Vec::new();
    let len = buf.len();
    let mut at: usize = offset;
    let mut i: u16 = 0;
    proof {
        if let Ok((a, end)) = parse_answers(buf@, offset as int, count as nat) {
            assert(answer_views(answers@) + a =~= a);
        }
    }
    while i < count
        invariant
            i <= count,
            len == buf@.len(),
            offset <= at,
            parse_answers(buf@, offset as int, count as nat) == prepend_answers(
                answer_views(answers@),
                parse_answers(buf@, at as int, (count - i) as nat),
            ),
        decreases count - i,
    {
        let (a, used) = match Answer::decode(buf, at) {
            Ok(d) => d,
            Err(e) => return Err(e),
        };
        let ghost before = answer_views(answers@);
        let ghost av = a@;
        answers.push(a);
        proof {
            assert(answer_views(answers@) =~= before.push(av));
            if let Ok((rest, end)) = parse_answers(buf@, at + used, (count - i - 1) as nat) {
                assert(before + (seq![av] + rest) =~= before.push(av) + rest);
            }
        }
        at = at + used;
        i = i + 1;
    }
    proof {
        assert(answer_views(answers@) + Seq::<AnswerView>::empty() =~= answer_views(answers@));
    }
    Ok(answers)
}

impl Message {
    /// The bytes of this message: header, then each question, then each answer.
    pub fn encode(&self) -> (r: Vec<u8>)
        ensures
            r@ == message_bytes(self@),
    {
        let mut out: Vec<u8> = Vec::new();
        let head = self.header.encode();
        push_bytes(&mut out, head.as_slice());
        let ghost qs = question_views(self.questions@);
        let ghost answers = answer_views(self.answers@);
        let mut i: usize = 0;
        proof {
            assert(qs.take(0) =~= Seq::<QuestionView>::empty());
            assert(out@ =~= header_bytes(self.header) + questions_bytes(qs.take(0)));
        }
        while i < self.questions.len()
            invariant
                i <= self.questions@.len(),
                qs == question_views(self.questions@),
                out@ == header_bytes(self.header) + questions_bytes(qs.take(i as int)),
            decreases self.questions@.len() - i,
        {
            let bytes = self.questions[i].encode();
            push_bytes(&mut out, bytes.as_slice());
            proof {
                assert(qs.take(i + 1) =~= qs.take(i as int).push(qs[i as int]));
                lemma_questions_bytes_push(qs.take(i as int), qs[i as int]);
                assert(out@ =~= header_bytes(self.header) + questions_bytes(qs.take(i + 1)));
            }
            i = i + 1;
        }
        let ghost prefix = out@;
        let mut j: usize = 0;
        proof {
            assert(qs.take(i as int) =~= qs);
            assert(answers.take(0) =~= Seq::<AnswerView>::empty());
            assert(out@ =~= prefix + answers_bytes(answers.take(0)));
        }
        while j < self.answers.len()
            invariant
                j <= self.answers@.len(),
                answers == answer_views(self.answers@),
                out@ == prefix + answers_bytes(answers.take(j as int)),
            decreases self.answers@.len() - j,
        {
            let bytes = self.answers[j].encode();
            push_bytes(&mut out, bytes.as_slice());
            proof {
                assert(answers.take(j + 1) =~= answers.take(j as int).push(answers[j as int]));
                lemma_answers_bytes_push(answers.take(j as int), answers[j as int]);
                assert(out@ =~= prefix + answers_bytes(answers.take(j + 1)));
            }
            j = j + 1;
        }
        proof {
            assert(answers.take(j as int) =~= answers);
        }
        out
    }

    /// Reads a whole message: the header, then as many questions and answers
    /// as it counts.
    pub fn decode(buf: &[u8]) -> (r: Result<Message, DecodeError>)
        ensures
            message_result_view(r) == parse_message(buf@),
    {
        let header = match Header::decode(buf) {
            Ok(h) => h,
            Err(e) => return Err(e),
        };
        let (questions, end) = match decode_questions(header.question_count, buf) {
            Ok(d) => d,
            Err(e) => return Err(e),
        };
        let answers = match decode_answers(header.answer_record, buf, end) {
            Ok(a) => a,
            Err(e) => return Err(e),
        };
        Ok(Message { header, questions, answers })
    }

    /// This message with `header` in place of its header.
    pub fn with_header(self, header: Header) -> (r: Message)
        ensures
            r.header == header,
            r.questions == self.questions,
            r.answers == self.answers,
    {
        Message { header, ..self }
    }

    /// This message with `questions` in place of its questions, and the
    /// header's question count set to their number.
    pub fn with_questions(self, questions: Vec<Question>) -> (r: Message)
        requires
            questions@.len() <= u16::MAX,
        ensures
            r.header == (Header { question_count: questions@.len() as u16, ..self.header }),
            r.header.question_count == r.questions@.len(),
            r.questions == questions,
            r.answers == self.answers,
    {
        let count = questions.len() as u16;
        Message { header: self.header.question_count(count), questions, answers: self.answers }
    }

    /// This message with `answers` in place of its answers, and the header's
    /// answer count set to their number.
    pub fn with_answers(self, answers: Vec<Answer>) -> (r: Message)
        requires
            answers@.len() <= u16::MAX,
        ensures
            r.header == (Header { answer_record: answers@.len() as u16, ..self.header }),
            r.header.answer_record == r.answers@.len(),
            r.answers == answers,
            r.questions == self.questions,
    {
        let count = answers.len() as u16;
        Message { header: self.header.answer_record(count), questions: self.questions, answers }
    }
}

} // verus!
