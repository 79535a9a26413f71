use dns_forwarder::{
    response_header, upstream_query, Action, Answer, AnswerData, DomainName, Header, Message,
    Question, Session,
};

fn question(s: &str) -> Question {
    Question { name: DomainName::from_dotted(s).unwrap(), record_type: 1, record_class: 1 }
}

fn client_query(id: u16, names: &[&str]) -> Vec<u8> {
    let header = Header::default().recursion_desired(true);
    let header = Header { packet_id: id, ..header };
    let questions: Vec<Question> = names.iter().map(|n| question(n)).collect();
    Message::default().with_header(header).with_questions(questions).encode()
}

/// A resolver reply to `query`: its header marked as a response, its
/// question, and one address answer whose name points at the question's.
fn resolver_reply(query: &[u8], ttl: u32, ip: u32) -> Vec<u8> {
    let mut reply = query.to_vec();
    reply[2] |= 0x80;
    reply[3] = 0x80;
    reply[7] = 1;
    reply.extend([0xC0, 12, 0, 1, 0, 1]);
    reply.extend(ttl.to_be_bytes());
    reply.extend([0, 4]);
    reply.extend(ip.to_be_bytes());
    reply
}

fn forwarded(a: Action) -> Vec<u8> {
    match a {
        Action::Forward(b) => b,
        other => panic!("expected a query upstream, got {:?}", other),
    }
}

fn responded(a: Action) -> Vec<u8> {
    match a {
        Action::Respond(b) => b,
        other => panic!("expected a response, got {:?}", other),
    }
}

#[test]
fn single_question_end_to_end() {
    let packet = client_query(0xBEEF, &["example.com"]);
    let (mut session, action) = Session::open(&packet);
    let query = forwarded(action);
    assert!(session.is_awaiting());
    let sent = Message::decode(&query).unwrap();
    assert_eq!(sent.header.packet_id, 0xBEEF);
    assert_eq!(sent.header.question_count, 1);
    assert_eq!(sent.questions[0].name.bytes, DomainName::from_dotted("example.com").unwrap().bytes);

    let reply = resolver_reply(&query, 60, 0x08080808);
    let bytes = responded(session.on_reply(Some(&reply)));
    assert!(!session.is_awaiting());
    let response = Message::decode(&bytes).unwrap();
    assert_eq!(response.header.packet_id, 0xBEEF);
    assert!(response.header.query_response_indicator);
    assert!(response.header.recursion_desired);
    assert!(!response.header.recursion_available);
    assert_eq!(response.header.answer_record, 1);
    assert_eq!(response.header.response_code, 0);
    assert_eq!(response.answers[0].ttl, 60);
    assert_eq!(response.answers[0].data, AnswerData::ARecord(0x08080808));
    assert_eq!(&bytes[bytes.len() - 4..], &[8, 8, 8, 8]);
}

#[test]
fn two_questions_two_round_trips_in_order() {
    let packet = client_query(77, &["one.example", "two.example"]);
    let (mut session, mut action) = Session::open(&packet);
    let mut round_trips = 0;
    let mut ip = 1u32;
    let bytes = loop {
        match action {
            Action::Forward(q) => {
                round_trips += 1;
                let reply = resolver_reply(&q, 30, ip);
                ip += 1;
                action = session.on_reply(Some(&reply));
            }
            Action::Respond(b) => break b,
            Action::Discard => panic!("packet dropped"),
        }
    };
    assert_eq!(round_trips, 2);
    let response = Message::decode(&bytes).unwrap();
    assert_eq!(response.header.question_count, 2);
    assert_eq!(response.header.answer_record, 2);
    assert_eq!(response.questions.len(), 2);
    assert_eq!(response.answers.len(), 2);
    assert_eq!(response.questions[0].name.bytes, question("one.example").name.bytes);
    assert_eq!(response.questions[1].name.bytes, question("two.example").name.bytes);
    assert_eq!(response.answers[0].data, AnswerData::ARecord(1));
    assert_eq!(response.answers[1].data, AnswerData::ARecord(2));
    assert_eq!(response.header.response_code, 0);
}

#[test]
fn short_packet_is_dropped() {
    let (session, action) = Session::open(&[1, 2, 3, 4, 5]);
    assert!(matches!(action, Action::Discard));
    assert!(!session.is_awaiting());
}

#[test]
fn failed_round_trip_keeps_sibling_answers() {
    let packet = client_query(5, &["one.example", "two.example"]);
    let (mut session, action) = Session::open(&packet);
    forwarded(action);
    let second = forwarded(session.on_reply(None));
    let reply = resolver_reply(&second, 10, 0x0A000001);
    let response = Message::decode(&responded(session.on_reply(Some(&reply)))).unwrap();
    assert_eq!(response.header.response_code, 2);
    assert_eq!(response.questions.len(), 1);
    assert_eq!(response.questions[0].name.bytes, question("two.example").name.bytes);
    assert_eq!(response.answers.len(), 1);
    assert_eq!(response.answers[0].data, AnswerData::ARecord(0x0A000001));
}

#[test]
fn malformed_reply_is_server_failure() {
    let packet = client_query(6, &["one.example"]);
    let (mut session, action) = Session::open(&packet);
    forwarded(action);
    let response = Message::decode(&responded(session.on_reply(Some(&[0u8; 5])))).unwrap();
    assert_eq!(response.header.response_code, 2);
    assert_eq!(response.header.packet_id, 6);
    assert_eq!(response.questions.len(), 0);
    assert_eq!(response.answers.len(), 0);
}

#[test]
fn unreadable_question_is_format_error() {
    let mut packet = client_query(0x0102, &["example.com"]);
    packet.truncate(20);
    let (session, action) = Session::open(&packet);
    let response = Message::decode(&responded(action)).unwrap();
    assert!(!session.is_awaiting());
    assert_eq!(response.header.packet_id, 0x0102);
    assert_eq!(response.header.response_code, 1);
    assert_eq!(response.header.question_count, 0);
}

#[test]
fn response_packet_is_answered_without_forwarding() {
    let mut packet = client_query(3, &["example.com"]);
    packet[2] |= 0x80;
    let (_, action) = Session::open(&packet);
    let response = Message::decode(&responded(action)).unwrap();
    assert_eq!(response.header.packet_id, 3);
    assert_eq!(response.header.question_count, 0);
    assert_eq!(response.header.answer_record, 0);
}

#[test]
fn query_without_questions_is_answered_at_once() {
    let packet = client_query(4, &[]);
    let (_, action) = Session::open(&packet);
    let bytes = responded(action);
    assert_eq!(bytes.len(), 12);
    assert_eq!(bytes[2], 0x81);
}

#[test]
fn nonstandard_opcode_is_not_implemented() {
    let mut packet = client_query(8, &["example.com"]);
    packet[2] |= 2 << 3;
    let (mut session, action) = Session::open(&packet);
    let query = forwarded(action);
    let reply = resolver_reply(&query, 60, 1);
    let response = Message::decode(&responded(session.on_reply(Some(&reply)))).unwrap();
    assert_eq!(response.header.operation_code, 2);
    assert_eq!(response.header.response_code, 4);
}

#[test]
fn response_header_follows_opcode() {
    let client = Header {
        packet_id: 0x55AA,
        query_response_indicator: false,
        operation_code: 0,
        authoritative_answer: true,
        truncation: true,
        recursion_desired: true,
        recursion_available: true,
        reserved: 3,
        response_code: 9,
        question_count: 4,
        answer_record: 4,
        authority_record_count: 4,
        additional_record_count: 4,
    };
    let r = response_header(&client);
    assert_eq!(r.packet_id, 0x55AA);
    assert!(r.query_response_indicator);
    assert!(!r.authoritative_answer);
    assert!(r.truncation);
    assert!(r.recursion_desired);
    assert!(!r.recursion_available);
    assert_eq!(r.reserved, 0);
    assert_eq!(r.response_code, 0);
    assert_eq!(r.question_count, 0);
    for op in 1..16u8 {
        let r = response_header(&Header { operation_code: op, ..client });
        assert_eq!(r.operation_code, op);
        assert_eq!(r.response_code, 4);
    }
}

#[test]
fn upstream_query_carries_one_question() {
    let client = Header::default().question_count(3).answer_record(2);
    let client = Header { packet_id: 11, reserved: 5, additional_record_count: 1, ..client };
    let m = upstream_query(&client, question("example.com"));
    assert_eq!(m.header.reserved, 0);
    assert_eq!(m.encode()[3] & 0x70, 0);
    assert_eq!(m.header.packet_id, 11);
    assert_eq!(m.header.question_count, 1);
    assert_eq!(m.header.answer_record, 0);
    assert_eq!(m.header.additional_record_count, 0);
    assert_eq!(m.questions.len(), 1);
    assert_eq!(m.answers.len(), 0);
}

#[test]
fn answer_with_compressed_name_decodes() {
    let query = client_query(1, &["example.com"]);
    let reply = resolver_reply(&query, 60, 0x7F000001);
    let m = Message::decode(&reply).unwrap();
    let a: &Answer = &m.answers[0];
    assert_eq!(a.name.bytes, question("example.com").name.bytes);
    assert_eq!(a.data, AnswerData::ARecord(0x7F000001));
}
