//! Forwarding one client query: each of its questions goes upstream in a
//! query of its own, and the replies are merged into one response.
//!
//! The session only decides; whoever drives it sends what `Action::Forward`
//! holds to the upstream resolver, hands the reply (or its absence) to
//! `Session::on_reply`, and sends what `Action::Respond` holds to the client.
use vstd::prelude::*;
use crate::header::{parse_header, zero_header, Header};
use crate::message::{
    answer_views, decode_questions, lemma_parse_questions_len, message_bytes, parse_message,
    parse_questions, question_views, Message, MessageView,
};
use crate::record::{Answer, AnswerView, Question, QuestionView};

verus! {

/// Response code: no error.
pub const NO_ERROR: u8 = 0;

/// Response code: the query could not be read.
pub const FORMAT_ERROR: u8 = 1;

/// Response code: the upstream resolver could not answer.
pub const SERVER_FAILURE: u8 = 2;

/// Response code: the kind of query is not implemented.
pub const NOT_IMPLEMENTED: u8 = 4;

/// The response header for a query whose header is `client`.
pub open spec fn response_header_of(client: Header) -> Header {
    Header {
        packet_id: client.packet_id,
        query_response_indicator: true,
        operation_code: client.operation_code,
        authoritative_answer: false,
        truncation: client.truncation,
        recursion_desired: client.recursion_desired,
        recursion_available: false,
        reserved: 0,
        response_code: if client.operation_code == 0 {
            NO_ERROR
        } else {
            NOT_IMPLEMENTED
        },
        question_count: 0,
        answer_record: 0,
        authority_record_count: 0,
        additional_record_count: 0,
    }
}

/// The header of the upstream query for one question: the client's header
/// with reserved bits 0, one question and no other records.
pub open spec fn query_header_of(client: Header) -> Header {
    Header {
        reserved: 0,
        question_count: 1,
        answer_record: 0,
        authority_record_count: 0,
        additional_record_count: 0,
        ..client
    }
}

/// The upstream query for question `q` of a client query with header `client`.
pub open spec fn query_of(client: Header, q: QuestionView) -> MessageView {
    MessageView { header: query_header_of(client), questions: seq![q], answers: Seq::empty() }
}

/// Builds the response header for a query whose header is `client`: the
/// packet id, opcode, recursion-desired and truncation bits are copied, it is
/// marked a non-authoritative response without recursion, and the response
/// code is 0 for a standard query and 4 for any other opcode.
pub fn response_header(client: &Header) -> (r: Header)
    ensures
        r == response_header_of(*client),
        r.response_code == (if client.operation_code == 0 {
            0u8
        } else {
            4u8
        }),
{
    let header = Header::new(client.packet_id).query_response_indicator(true).authoritative_answer(
        false,
    ).truncation(false).recursion_available(false).recursion_desired(
        client.recursion_desired,
    ).operation_code(client.operation_code).truncation(client.truncation).reserved(0);
    if header.operation_code == 0 {
        header.response_code(NO_ERROR)
    } else {
        header.response_code(NOT_IMPLEMENTED)
    }
}

/// Builds the upstream query for `question` of a client query with header
/// `client`.
pub fn upstream_query(client: &Header, question: Question) -> (r: Message)
    ensures
        r@ == query_of(*client, question@),
{
    let header = Header {
        reserved: 0,
        authority_record_count: 0,
        additional_record_count: 0,
        ..*client
    };
    let r = Message::default().with_header(header).with_questions(vec![question]).with_answers(
        Vec::new(),
    );
    assert(r@.questions =~= seq![question@]);
    assert(r@.answers =~= Seq::<AnswerView>::empty());
    r
}

/// What the driver of a session does next.
#[derive(Debug)]
pub enum Action {
    /// Send these bytes to the upstream resolver and report the reply.
    Forward(Vec<u8>),
    /// Send these bytes to the client; the session is over.
    Respond(Vec<u8>),
    /// Send nothing; the session is over.
    Discard,
}

/// The value of an action.
pub enum ActionView {
    Forward(Seq<u8>),
    Respond(Seq<u8>),
    Discard,
}

impl View for Action {
    type V = ActionView;

    open spec fn view(&self) -> ActionView {
        match self {
            Action::Forward(b) => ActionView::Forward(b@),
            Action::Respond(b) => ActionView::Respond(b@),
            Action::Discard => ActionView::Discard,
        }
    }
}

/// The forwarding of one client query.
pub struct Session {
    client: Header,
    pending: Vec<Question>,
    awaiting: bool,
    questions: Vec<Question>,
    answers: Vec<Answer>,
    failed: bool,
}

/// The value of a session: the client's header, the questions not yet sent
/// upstream, whether a reply is awaited, what the replies gave so far, and
/// whether a round trip failed.
pub struct SessionView {
    pub client: Header,
    pub pending: Seq<QuestionView>,
    pub awaiting: bool,
    pub questions: Seq<QuestionView>,
    pub answers: Seq<AnswerView>,
    pub failed: bool,
}

impl View for Session {
    type V = SessionView;

    closed spec fn view(&self) -> SessionView {
        SessionView {
            client: self.client,
            pending: question_views(self.pending@),
            awaiting: self.awaiting,
            questions: question_views(self.questions@),
            answers: answer_views(self.answers@),
            failed: self.failed,
        }
    }
}

/// The header of the final response: the response header for the client,
/// with server failure in place of no error when a round trip failed, and
/// the counts of the merged lists.
pub open spec fn final_header_of(s: SessionView) -> Header {
    let h = response_header_of(s.client);
    Header {
        response_code: if s.failed && h.response_code == NO_ERROR {
            SERVER_FAILURE
        } else {
            h.response_code
        },
        question_count: s.questions.len() as u16,
        answer_record: s.answers.len() as u16,
        ..h
    }
}

/// The next step once the replies so far are merged: send the next pending
/// question upstream, or respond with everything merged.
pub open spec fn advance(s: SessionView) -> (SessionView, ActionView) {
    if s.pending.len() > 0 {
        (
            SessionView { pending: s.pending.drop_first(), awaiting: true, ..s },
            ActionView::Forward(message_bytes(query_of(s.client, s.pending[0]))),
        )
    } else {
        (
            SessionView { awaiting: false, ..s },
            ActionView::Respond(
                message_bytes(
                    MessageView {
                        header: final_header_of(s),
                        questions: s.questions,
                        answers: s.answers,
                    },
                ),
            ),
        )
    }
}

/// A session that asks for nothing more.
pub open spec fn finished(client: Header) -> SessionView {
    SessionView {
        client,
        pending: Seq::empty(),
        awaiting: false,
        questions: Seq::empty(),
        answers: Seq::empty(),
        failed: false,
    }
}

/// How a session starts on the client packet `packet`. A packet too short for
/// a header is dropped. A response, or a query without questions, is answered
/// at once with no records. A query whose questions cannot be read is answered
/// with a format error. Otherwise the first question goes upstream.
pub open spec fn open_of(packet: Seq<u8>) -> (SessionView, ActionView) {
    match parse_message_header(packet) {
        None => (finished(zero_header()), ActionView::Discard),
        Some(h) => if h.query_response_indicator || h.question_count == 0 {
            advance(finished(h))
        } else {
            match parse_questions(packet, 12, h.question_count as nat) {
                Err(_) => (
                    finished(h),
                    ActionView::Respond(
                        message_bytes(
                            MessageView {
                                header: Header {
                                    response_code: FORMAT_ERROR,
                                    ..response_header_of(h)
                                },
                                questions: Seq::empty(),
                                answers: Seq::empty(),
                            },
                        ),
                    ),
                ),
                Ok((qs, _)) => advance(SessionView { pending: qs, ..finished(h) }),
            }
        },
    }
}

/// The header of `packet`, if it is long enough to hold one.
pub open spec fn parse_message_header(packet: Seq<u8>) -> Option<Header> {
    if packet.len() < 12 {
        None
    } else {
        Some(parse_header(packet))
    }
}

/// How a session goes on when the awaited reply is `reply` (`None` when the
/// round trip failed). A reply that reads as a message adds its questions and
/// answers to the merged lists; a missing or unreadable one, or one that would
/// overflow the counts, marks the session failed. Then the next step follows.
pub open spec fn on_reply_of(s: SessionView, reply: Option<Seq<u8>>) -> (SessionView, ActionView) {
    let failed = SessionView { failed: true, ..s };
    let merged = match reply {
        None => failed,
        Some(b) => match parse_message(b) {
            Err(_) => failed,
            Ok(m) => if s.questions.len() + m.questions.len() <= u16::MAX && s.answers.len()
                + m.answers.len() <= u16::MAX {
                SessionView {
                    questions: s.questions + m.questions,
                    answers: s.answers + m.answers,
                    ..s
                }
            } else {
                failed
            },
        },
    };
    advance(merged)
}

/// A client query whose header is a query with `question_count` readable
/// questions sends the first of them upstream at once and keeps the others,
/// in their order, for the round trips that follow.
pub proof fn lemma_open_forwards_first_question(packet: Seq<u8>)
    requires
        packet.len() >= 12,
        !parse_header(packet).query_response_indicator,
        parse_header(packet).question_count > 0,
        parse_questions(packet, 12, parse_header(packet).question_count as nat) is Ok,
    ensures
        ({
            let h = parse_header(packet);
            let qs = parse_questions(packet, 12, h.question_count as nat)->Ok_0.0;
            let (s, a) = open_of(packet);
            &&& qs.len() == h.question_count
            &&& a == ActionView::Forward(message_bytes(query_of(h, qs[0])))
            &&& s.awaiting
            &&& s.pending == qs.drop_first()
        }),
{
    let h = parse_header(packet);
    lemma_parse_questions_len(packet, 12, h.question_count as nat);
}

/// Each reply, or failed round trip, is followed by exactly one more upstream
/// query while questions are pending, for the next of them in order, and by
/// the response once none is; what a readable reply brings is appended after
/// what came before.
pub proof fn lemma_one_round_trip_per_question(s: SessionView, reply: Option<Seq<u8>>)
    requires
        s.awaiting,
    ensures
        ({
            let (t, a) = on_reply_of(s, reply);
            &&& (a is Forward) == (s.pending.len() > 0)
            &&& (a is Respond) == (s.pending.len() == 0)
            &&& t.awaiting == (s.pending.len() > 0)
            &&& s.pending.len() > 0 ==> t.pending == s.pending.drop_first() && a
                == ActionView::Forward(message_bytes(query_of(s.client, s.pending[0])))
            &&& t.questions.len() >= s.questions.len()
            &&& t.questions.subrange(0, s.questions.len() as int) == s.questions
            &&& t.answers.subrange(0, s.answers.len() as int) == s.answers
        }),
{
    let (t, a) = on_reply_of(s, reply);
    assert(t.questions.subrange(0, s.questions.len() as int) =~= s.questions);
    assert(t.answers.subrange(0, s.answers.len() as int) =~= s.answers);
}

pub open spec fn reply_view(reply: Option<&[u8]>) -> Option<Seq<u8>> {
    match reply {
        Some(b) => Some(b@),
        None => None,
    }
}

impl Session {
    /// The merged lists fit the header's 16-bit counts.
    #[verifier::type_invariant]
    spec fn counts_fit(self) -> bool {
        self.questions@.len() <= u16::MAX && self.answers@.len() <= u16::MAX
    }

    /// Starts forwarding the client packet `packet`.
    pub fn open(packet: &[u8]) -> (r: (Session, Action))
        ensures
            (r.0@, r.1@) == open_of(packet@),
    {
        let client = match Header::decode(packet) {
            Ok(h) => h,
            Err(_) => {
                let s = Session::finished(Header::default());
                proof {
                    assert(s@ == finished(zero_header()));
                }
                return (s, Action::Discard);
            },
        };
        let mut s = Session::finished(client);
        if client.query_response_indicator || client.question_count == 0 {
            let action = s.advance();
            return (s, action);
        }
        match decode_questions(client.question_count, packet) {
            Err(_) => {
                let header = response_header(&client).response_code(FORMAT_ERROR);
                let reply = Message::default().with_header(header);
                proof {
                    assert(reply@.questions =~= Seq::<QuestionView>::empty());
                    assert(reply@.answers =~= Seq::<AnswerView>::empty());
                }
                (s, Action::Respond(reply.encode()))
            },
            Ok((questions, _)) => {
                s.pending = questions;
                let action = s.advance();
                (s, action)
            },
        }
    }

    /// Goes on with the awaited reply of the upstream resolver, or `None` when
    /// the round trip failed.
    pub fn on_reply(&mut self, reply: Option<&[u8]>) -> (r: Action)
        requires
            old(self)@.awaiting,
        ensures
            (final(self)@, r@) == on_reply_of(old(self)@, reply_view(reply)),
    {
        proof {
            use_type_invariant(&*self);
        }
        match reply {
            None => {
                self.failed = true;
            },
            Some(bytes) => match Message::decode(bytes) {
                Err(_) => {
                    self.failed = true;
                },
                Ok(m) => {
                    if m.questions.len() <= 65535 && m.answers.len() <= 65535
                        && self.questions.len() <= 65535 - m.questions.len()
                        && self.answers.len() <= 65535 - m.answers.len() {
                        let ghost before = self@;
                        let mut new_questions = m.questions;
                        let mut new_answers = m.answers;
                        let mut questions: Vec<Question> = Vec::new();
                        let mut answers: Vec<Answer> = Vec::new();
                        std::mem::swap(&mut questions, &mut self.questions);
                        std::mem::swap(&mut answers, &mut self.answers);
                        questions.append(&mut new_questions);
                        answers.append(&mut new_answers);
                        self.questions = questions;
                        self.answers = answers;
                        proof {
                            assert(self@.questions =~= before.questions + m@.questions);
                            assert(self@.answers =~= before.answers + m@.answers);
                        }
                    } else {
                        self.failed = true;
                    }
                },
            },
        }
        self.advance()
    }

    /// Whether a reply from the upstream resolver is awaited.
    pub fn is_awaiting(&self) -> (r: bool)
        ensures
            r == self@.awaiting,
    {
        self.awaiting
    }

    fn finished(client: Header) -> (r: Session)
        ensures
            r@ == finished(client),
    {
        let r = Session {
            client,
            pending: Vec::new(),
            awaiting: false,
            questions: Vec::new(),
            answers: Vec::new(),
            failed: false,
        };
        proof {
            assert(r@.pending =~= Seq::<QuestionView>::empty());
            assert(r@.questions =~= Seq::<QuestionView>::empty());
            assert(r@.answers =~= Seq::<AnswerView>::empty());
        }
        r
    }

    fn advance(&mut self) -> (r: Action)
        ensures
            (final(self)@, r@) == advance(old(self)@),
    {
        proof {
            use_type_invariant(&*self);
        }
        if self.pending.len() > 0 {
            let ghost before = self@;
            let mut pending: Vec<Question> = Vec::new();
            std::mem::swap(&mut pending, &mut self.pending);
            let question = pending.remove(0);
            self.pending = pending;
            self.awaiting = true;
            proof {
                assert(self@.pending =~= before.pending.drop_first());
            }
            let query = upstream_query(&self.client, question);
            Action::Forward(query.encode())
        } else {
            self.awaiting = false;
            let mut header = response_header(&self.client);
            if self.failed && header.response_code == NO_ERROR {
                header = header.response_code(SERVER_FAILURE);
            }
            let mut questions: Vec<Question> = Vec::new();
            let mut answers: Vec<Answer> = Vec::new();
            std::mem::swap(&mut questions, &mut self.questions);
            std::mem::swap(&mut answers, &mut self.answers);
            let response = Message::default().with_header(header).with_questions(
                questions,
            ).with_answers(answers);
            let bytes = response.encode();
            self.questions = response.questions;
            self.answers = response.answers;
            Action::Respond(bytes)
        }
    }
}

} // verus!
