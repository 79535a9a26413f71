use dns_forwarder::{
    decode_answers, decode_questions, Answer, AnswerData, DecodeError, DomainName, Header, Message,
    NameError, Question,
};

fn name(s: &str) -> DomainName {
    DomainName::from_dotted(s).unwrap()
}

fn example_com() -> Vec<u8> {
    vec![7, b'e', b'x', b'a', b'm', b'p', b'l', b'e', 3, b'c', b'o', b'm', 0]
}

fn sample_header() -> Header {
    Header::new(0x1234)
        .query_response_indicator(false)
        .operation_code(2)
        .authoritative_answer(true)
        .truncation(false)
        .recursion_desired(true)
        .recursion_available(true)
        .reserved(5)
        .response_code(3)
        .question_count(1)
        .answer_record(2)
}

#[test]
fn header_encode_packs_fields() {
    let bytes = sample_header().encode();
    assert_eq!(
        bytes,
        [0x12, 0x34, 0b0001_0101, 0b1000_0011, 0, 1, 0, 2, 0, 0, 0, 0]
    );
}

#[test]
fn header_round_trip() {
    let h = sample_header();
    let mut h2 = h;
    h2.authority_record_count = 0x0102;
    h2.additional_record_count = 0xFFFF;
    assert_eq!(Header::decode(&h.encode()), Ok(Header { reserved: 0, ..h }));
    assert_eq!(Header::decode(&h2.encode()), Ok(Header { reserved: 0, ..h2 }));
    let valid = Header { reserved: 0, ..h2 };
    assert_eq!(Header::decode(&valid.encode()), Ok(valid));
    let all = Header {
        packet_id: 0xFFFF,
        query_response_indicator: true,
        operation_code: 15,
        authoritative_answer: true,
        truncation: true,
        recursion_desired: true,
        recursion_available: true,
        reserved: 7,
        response_code: 15,
        question_count: 0xABCD,
        answer_record: 1,
        authority_record_count: 2,
        additional_record_count: 3,
    };
    assert_eq!(all.encode()[2], 0xFF);
    assert_eq!(all.encode()[3], 0x8F);
    assert_eq!(Header::decode(&all.encode()), Ok(Header { reserved: 0, ..all }));
}

#[test]
fn header_reserved_bits_encode_as_zero() {
    let buf = [0, 1, 0x00, 0x70, 0, 0, 0, 0, 0, 0, 0, 0];
    let h = Header::decode(&buf).unwrap();
    assert_eq!(h.reserved, 7);
    assert_eq!(h.encode(), [0, 1, 0x00, 0x00, 0, 0, 0, 0, 0, 0, 0, 0]);
    let buf = [0, 1, 0x00, 0xF5, 0, 0, 0, 0, 0, 0, 0, 0];
    assert_eq!(Header::decode(&buf).unwrap().encode()[3], 0x85);
}

#[test]
fn header_decode_reads_flags() {
    let buf = [0xAB, 0xCD, 0x81, 0x80, 0, 1, 0, 1, 0, 0, 0, 0, 99];
    let h = Header::decode(&buf).unwrap();
    assert_eq!(h.packet_id, 0xABCD);
    assert!(h.query_response_indicator);
    assert_eq!(h.operation_code, 0);
    assert!(h.recursion_desired);
    assert!(h.recursion_available);
    assert_eq!(h.response_code, 0);
    assert_eq!(h.question_count, 1);
    assert_eq!(h.answer_record, 1);
}

#[test]
fn header_decode_short_buffer_is_error() {
    assert_eq!(Header::decode(&[0u8; 11]), Err(DecodeError::Truncated));
    assert_eq!(Header::decode(&[]), Err(DecodeError::Truncated));
    assert!(Header::decode(&[0u8; 12]).is_ok());
}

#[test]
fn header_new_is_response() {
    let h = Header::new(7);
    assert_eq!(h.packet_id, 7);
    assert!(h.query_response_indicator);
    assert_eq!(h.question_count, 0);
    assert_eq!(Header::default().packet_id, 0);
    assert!(!Header::default().query_response_indicator);
}

#[test]
fn dotted_name_encodes_labels() {
    assert_eq!(name("example.com").bytes, example_com());
    assert_eq!(name("a").bytes, vec![1, b'a', 0]);
}

#[test]
fn dotted_name_errors() {
    assert_eq!(DomainName::from_dotted("").unwrap_err(), NameError::EmptyLabel);
    assert_eq!(DomainName::from_dotted("a..b").unwrap_err(), NameError::EmptyLabel);
    assert_eq!(DomainName::from_dotted(".a").unwrap_err(), NameError::EmptyLabel);
    assert_eq!(DomainName::from_dotted("a.").unwrap_err(), NameError::EmptyLabel);
    let long = "x".repeat(64);
    assert_eq!(DomainName::from_dotted(&long).unwrap_err(), NameError::LabelTooLong);
    let max = "y".repeat(63);
    assert_eq!(DomainName::from_dotted(&max).unwrap().bytes.len(), 65);
}

#[test]
fn name_decode_literal() {
    let mut buf = vec![0xEE, 0xEE];
    buf.extend(example_com());
    buf.push(0x55);
    let (n, used) = DomainName::decode(&buf, 2).unwrap();
    assert_eq!(n.bytes, example_com());
    assert_eq!(used, 13);
}

#[test]
fn name_decode_pointer_matches_literal() {
    let mut buf = vec![0u8; 12];
    buf.extend(example_com());
    buf.extend([0xC0, 12]);
    let (literal, used_literal) = DomainName::decode(&buf, 12).unwrap();
    let (pointed, used_pointer) = DomainName::decode(&buf, 25).unwrap();
    assert_eq!(literal.bytes, pointed.bytes);
    assert_eq!(used_literal, 13);
    assert_eq!(used_pointer, 2);
}

#[test]
fn name_decode_label_then_pointer() {
    let mut buf = vec![0u8; 12];
    buf.extend(example_com());
    buf.extend([3, b'w', b'w', b'w', 0xC0, 12]);
    let (n, used) = DomainName::decode(&buf, 25).unwrap();
    let mut expected = vec![3, b'w', b'w', b'w'];
    expected.extend(example_com());
    assert_eq!(n.bytes, expected);
    assert_eq!(used, 6);
}

#[test]
fn name_decode_pointer_out_of_range() {
    let buf = [1, b'a', 0xC0, 0x10];
    assert_eq!(DomainName::decode(&buf, 2).unwrap_err(), DecodeError::PointerOutOfRange);
    let buf = [0xFF, 0xFF];
    assert_eq!(DomainName::decode(&buf, 0).unwrap_err(), DecodeError::PointerOutOfRange);
}

#[test]
fn name_decode_pointer_loop() {
    let buf = [0xC0, 0x00];
    assert_eq!(DomainName::decode(&buf, 0).unwrap_err(), DecodeError::PointerLoop);
    let buf = [1, b'a', 0xC0, 0x00];
    assert_eq!(DomainName::decode(&buf, 0).unwrap_err(), DecodeError::PointerLoop);
}

#[test]
fn name_decode_malformed() {
    assert_eq!(DomainName::decode(&[3, b'a', b'b'], 0).unwrap_err(), DecodeError::Truncated);
    assert_eq!(DomainName::decode(&[1, b'a'], 0).unwrap_err(), DecodeError::Truncated);
    assert_eq!(DomainName::decode(&[0xC0], 0).unwrap_err(), DecodeError::Truncated);
    assert_eq!(DomainName::decode(&[0], 1).unwrap_err(), DecodeError::Truncated);
    assert_eq!(DomainName::decode(&[0x40, 0], 0).unwrap_err(), DecodeError::ReservedLabel);
    assert_eq!(DomainName::decode(&[0x80, 0], 0).unwrap_err(), DecodeError::ReservedLabel);
}

#[test]
fn question_encode_exact() {
    let q = Question { name: name("example.com"), record_type: 1, record_class: 1 };
    let mut expected = example_com();
    expected.extend([0, 1, 0, 1]);
    assert_eq!(q.encode(), expected);
    assert_eq!(q.size(), 17);
}

#[test]
fn question_round_trip() {
    let q = Question { name: name("mail.example.org"), record_type: 0x0102, record_class: 0xFE01 };
    let bytes = q.encode();
    let (back, used) = Question::decode(&bytes, 0).unwrap();
    assert_eq!(back.name.bytes, q.name.bytes);
    assert_eq!(back.record_type, 0x0102);
    assert_eq!(back.record_class, 0xFE01);
    assert_eq!(used, bytes.len());
}

#[test]
fn question_decode_compressed_consumes_wire_span() {
    let mut buf = vec![0u8; 12];
    buf.extend(example_com());
    buf.extend([0, 1, 0, 1]);
    buf.extend([0xC0, 12, 0, 28, 0, 1]);
    let (q, used) = Question::decode(&buf, 29).unwrap();
    assert_eq!(q.name.bytes, example_com());
    assert_eq!(q.record_type, 28);
    assert_eq!(used, 6);
    assert_eq!(Question::decode(&buf[..33], 29).unwrap_err(), DecodeError::Truncated);
}

fn answer_bytes(ttl: u32, ip: u32) -> Vec<u8> {
    let mut b = example_com();
    b.extend([0, 1, 0, 1]);
    b.extend(ttl.to_be_bytes());
    b.extend([0, 4]);
    b.extend(ip.to_be_bytes());
    b
}

#[test]
fn answer_data_encode_exact() {
    assert_eq!(AnswerData::ARecord(0x08080808).encode(), vec![8, 8, 8, 8]);
    assert_eq!(AnswerData::ARecord(0x01020304).encode(), vec![1, 2, 3, 4]);
}

#[test]
fn answer_encode_exact() {
    let a = Answer {
        name: name("example.com"),
        record_type: 1,
        record_class: 1,
        ttl: 60,
        rdata_length: 4,
        data: AnswerData::ARecord(0x08080808),
    };
    assert_eq!(a.encode(), answer_bytes(60, 0x08080808));
    assert_eq!(a.size(), 27);
}

#[test]
fn answer_round_trip() {
    let a = Answer {
        name: name("example.com"),
        record_type: 1,
        record_class: 1,
        ttl: 0x01020304,
        rdata_length: 4,
        data: AnswerData::ARecord(0xC0A80001),
    };
    let bytes = a.encode();
    let (back, used) = Answer::decode(&bytes, 0).unwrap();
    assert_eq!(back.name.bytes, example_com());
    assert_eq!(back.ttl, 0x01020304);
    assert_eq!(back.rdata_length, 4);
    assert_eq!(back.data, AnswerData::ARecord(0xC0A80001));
    assert_eq!(used, 27);
}

#[test]
fn answer_decode_rejects_other_types() {
    let mut b = answer_bytes(60, 1);
    b[14] = 5;
    assert_eq!(Answer::decode(&b, 0).unwrap_err(), DecodeError::UnsupportedType);
}

#[test]
fn answer_decode_rejects_bad_length() {
    let mut b = answer_bytes(60, 1);
    b[22] = 16;
    assert_eq!(Answer::decode(&b, 0).unwrap_err(), DecodeError::RdataLength);
}

#[test]
fn answer_decode_truncated() {
    let b = answer_bytes(60, 1);
    assert_eq!(Answer::decode(&b[..26], 0).unwrap_err(), DecodeError::Truncated);
    assert_eq!(Answer::decode(&b[..20], 0).unwrap_err(), DecodeError::Truncated);
}

#[test]
fn message_counts_follow_lists() {
    let m = Message::default()
        .with_header(Header::new(9).question_count(7).answer_record(7))
        .with_questions(vec![
            Question { name: name("a.b"), record_type: 1, record_class: 1 },
            Question { name: name("c.d"), record_type: 1, record_class: 1 },
        ])
        .with_answers(vec![]);
    assert_eq!(m.header.question_count, 2);
    assert_eq!(m.header.answer_record, 0);
    assert_eq!(m.header.packet_id, 9);
    assert_eq!(m.questions.len(), 2);
}

#[test]
fn message_round_trip() {
    let m = Message::default()
        .with_header(Header::new(0x4242).recursion_desired(true))
        .with_questions(vec![
            Question { name: name("example.com"), record_type: 1, record_class: 1 },
            Question { name: name("example.org"), record_type: 1, record_class: 1 },
        ])
        .with_answers(vec![Answer {
            name: name("example.com"),
            record_type: 1,
            record_class: 1,
            ttl: 300,
            rdata_length: 4,
            data: AnswerData::ARecord(0x5DB8D822),
        }]);
    let bytes = m.encode();
    assert_eq!(bytes.len(), 12 + 17 + 17 + 27);
    let back = Message::decode(&bytes).unwrap();
    assert_eq!(back.header, m.header);
    assert_eq!(back.questions.len(), 2);
    assert_eq!(back.questions[1].name.bytes, name("example.org").bytes);
    assert_eq!(back.answers.len(), 1);
    assert_eq!(back.answers[0].ttl, 300);
    assert_eq!(back.answers[0].data, AnswerData::ARecord(0x5DB8D822));
}

#[test]
fn decode_records_in_sequence() {
    let mut buf = vec![0u8; 12];
    buf.extend(example_com());
    buf.extend([0, 1, 0, 1]);
    buf.extend([0xC0, 12, 0, 1, 0, 1]);
    let (qs, end) = decode_questions(2, &buf).unwrap();
    assert_eq!(qs.len(), 2);
    assert_eq!(qs[1].name.bytes, example_com());
    assert_eq!(end, buf.len());
    buf.extend([0xC0, 12, 0, 1, 0, 1, 0, 0, 0, 60, 0, 4, 8, 8, 8, 8]);
    let answers = decode_answers(1, &buf, end).unwrap();
    assert_eq!(answers.len(), 1);
    assert_eq!(answers[0].name.bytes, example_com());
    assert_eq!(answers[0].data, AnswerData::ARecord(0x08080808));
    assert_eq!(decode_answers(2, &buf, end).unwrap_err(), DecodeError::Truncated);
    assert_eq!(decode_questions(0, &[]).unwrap().1, 12);
}
