//! The fixed 12-byte message header.
use vstd::prelude::*;
use crate::error::DecodeError;
use crate::wire::{be16, lemma_be16_of_bytes, read_u16, u16_bytes};

verus! {

/// The number of bytes a header occupies on the wire.
pub const HEADER_LEN: usize = 12;

/// The message header. The flag byte fields hold `operation_code` and
/// `response_code` in 4 bits and `reserved` in 3; `wf` says they fit.
#[derive(PartialEq, Eq, Structural, Clone, Copy, Debug)]
pub struct Header {
    pub packet_id: u16,
    pub query_response_indicator: bool,
    pub operation_code: u8,
    pub authoritative_answer: bool,
    pub truncation: bool,
    pub recursion_desired: bool,
    pub recursion_available: bool,
    pub reserved: u8,
    pub response_code: u8,
    pub question_count: u16,
    pub answer_record: u16,
    pub authority_record_count: u16,
    pub additional_record_count: u16,
}

/// The header with every field zero.
pub open spec fn zero_header() -> Header {
    Header {
        packet_id: 0,
        query_response_indicator: false,
        operation_code: 0,
        authoritative_answer: false,
        truncation: false,
        recursion_desired: false,
        recursion_available: false,
        reserved: 0,
        response_code: 0,
        question_count: 0,
        answer_record: 0,
        authority_record_count: 0,
        additional_record_count: 0,
    }
}

impl Default for Header {
    fn default() -> (r: Header)
        ensures
            r == zero_header(),
    {
        Header {
            packet_id: 0,
            query_response_indicator: false,
            operation_code: 0,
            authoritative_answer: false,
            truncation: false,
            recursion_desired: false,
            recursion_available: false,
            reserved: 0,
            response_code: 0,
            question_count: 0,
            answer_record: 0,
            authority_record_count: 0,
            additional_record_count: 0,
        }
    }
}

/// `bit` when `b` holds, else no bit.
pub open spec fn flag(b: bool, bit: u8) -> u8 {
    if b {
        bit
    } else {
        0
    }
}

/// The third header byte: QR, OPCODE (4 bits), AA, TC, RD.
pub open spec fn flags_high(h: Header) -> u8 {
    flag(h.query_response_indicator, 0x80) | ((h.operation_code & 0x0F) << 3u8) | flag(
        h.authoritative_answer,
        0x04,
    ) | flag(h.truncation, 0x02) | flag(h.recursion_desired, 0x01)
}

/// The fourth header byte: RA, Z (3 bits, always written as 0), RCODE (4 bits).
pub open spec fn flags_low(h: Header) -> u8 {
    flag(h.recursion_available, 0x80) | (h.response_code & 0x0F)
}

/// The 12 bytes of `h` on the wire.
pub open spec fn header_bytes(h: Header) -> Seq<u8> {
    u16_bytes(h.packet_id) + seq![flags_high(h), flags_low(h)] + u16_bytes(h.question_count)
        + u16_bytes(h.answer_record) + u16_bytes(h.authority_record_count) + u16_bytes(
        h.additional_record_count,
    )
}

/// The header that the first 12 bytes of `b` hold.
pub open spec fn parse_header(b: Seq<u8>) -> Header {
    Header {
        packet_id: be16(b, 0) as u16,
        query_response_indicator: b[2] & 0x80 == 0x80,
        operation_code: (b[2] & 0x78) >> 3u8,
        authoritative_answer: b[2] & 0x04 == 0x04,
        truncation: b[2] & 0x02 == 0x02,
        recursion_desired: b[2] & 0x01 == 0x01,
        recursion_available: b[3] & 0x80 == 0x80,
        reserved: (b[3] & 0x70) >> 4u8,
        response_code: b[3] & 0x0F,
        question_count: be16(b, 4) as u16,
        answer_record: be16(b, 6) as u16,
        authority_record_count: be16(b, 8) as u16,
        additional_record_count: be16(b, 10) as u16,
    }
}

proof fn lemma_flags_high(qr: bool, op: u8, aa: bool, tc: bool, rd: bool)
    by (bit_vector)
    requires
        op < 16,
    ensures
        ({
            let x = (if qr { 0x80u8 } else { 0u8 }) | ((op & 0x0F) << 3u8) | (if aa {
                0x04u8
            } else {
                0u8
            }) | (if tc { 0x02u8 } else { 0u8 }) | (if rd { 0x01u8 } else { 0u8 });
            &&& (x & 0x80 == 0x80) == qr
            &&& (x & 0x78) >> 3u8 == op
            &&& (x & 0x04 == 0x04) == aa
            &&& (x & 0x02 == 0x02) == tc
            &&& (x & 0x01 == 0x01) == rd
        }),
{
}

proof fn lemma_flags_low(ra: bool, rc: u8)
    by (bit_vector)
    ensures
        ({
            let x = (if ra { 0x80u8 } else { 0u8 }) | (rc & 0x0F);
            &&& (x & 0x80 == 0x80) == ra
            &&& x & 0x70 == 0
            &&& (x & 0x70) >> 4u8 == 0
            &&& rc < 16 ==> x & 0x0F == rc
        }),
{
}

proof fn lemma_field_widths(b2: u8, b3: u8)
    by (bit_vector)
    ensures
        (b2 & 0x78) >> 3u8 < 16,
        (b3 & 0x70) >> 4u8 < 8,
        b3 & 0x0F < 16,
{
}

/// Every header read from bytes has its narrow fields in range.
pub proof fn lemma_parse_header_wf(b: Seq<u8>)
    requires
        b.len() >= 12,
    ensures
        parse_header(b).wf(),
{
    lemma_field_widths(b[2], b[3]);
}

/// Encoding a valid header (fields within their widths, reserved bits 0)
/// and decoding the bytes gives the header back.
pub proof fn lemma_header_round_trip(h: Header)
    requires
        h.wf(),
        h.reserved == 0,
    ensures
        header_bytes(h).len() == 12,
        parse_header(header_bytes(h)) == h,
{
    let b = header_bytes(h);
    lemma_flags_high(
        h.query_response_indicator,
        h.operation_code,
        h.authoritative_answer,
        h.truncation,
        h.recursion_desired,
    );
    lemma_flags_low(h.recursion_available, h.response_code);
    assert(b.subrange(0, 2) =~= u16_bytes(h.packet_id));
    assert(b.subrange(4, 6) =~= u16_bytes(h.question_count));
    assert(b.subrange(6, 8) =~= u16_bytes(h.answer_record));
    assert(b.subrange(8, 10) =~= u16_bytes(h.authority_record_count));
    assert(b.subrange(10, 12) =~= u16_bytes(h.additional_record_count));
    lemma_be16_of_bytes(b, 0, h.packet_id);
    lemma_be16_of_bytes(b, 4, h.question_count);
    lemma_be16_of_bytes(b, 6, h.answer_record);
    lemma_be16_of_bytes(b, 8, h.authority_record_count);
    lemma_be16_of_bytes(b, 10, h.additional_record_count);
    assert(b[2] == flags_high(h));
    assert(b[3] == flags_low(h));
}

impl Header {
    /// The 4-bit and 3-bit fields fit their widths.
    pub open spec fn wf(self) -> bool {
        self.operation_code < 16 && self.reserved < 8 && self.response_code < 16
    }

    /// A response header with packet id `id` and every other field zero.
    pub fn new(id: u16) -> (r: Header)
        ensures
            r == (Header {
                packet_id: id,
                query_response_indicator: true,
                operation_code: 0,
                authoritative_answer: false,
                truncation: false,
                recursion_desired: false,
                recursion_available: false,
                reserved: 0,
                response_code: 0,
                question_count: 0,
                answer_record: 0,
                authority_record_count: 0,
                additional_record_count: 0,
            }),
    {
        Header {
            packet_id: id,
            query_response_indicator: true,
            operation_code: 0,
            authoritative_answer: false,
            truncation: false,
            recursion_desired: false,
            recursion_available: false,
            reserved: 0,
            response_code: 0,
            question_count: 0,
            answer_record: 0,
            authority_record_count: 0,
            additional_record_count: 0,
        }
    }

    pub fn query_response_indicator(self, query_response_indicator: bool) -> (r: Header)
        ensures
            r == (Header { query_response_indicator, ..self }),
    {
        Header { query_response_indicator, ..self }
    }

    pub fn operation_code(self, operation_code: u8) -> (r: Header)
        ensures
            r == (Header { operation_code, ..self }),
    {
        Header { operation_code, ..self }
    }

    pub fn authoritative_answer(self, authoritative_answer: bool) -> (r: Header)
        ensures
            r == (Header { authoritative_answer, ..self }),
    {
        Header { authoritative_answer, ..self }
    }

    pub fn truncation(self, truncation: bool) -> (r: Header)
        ensures
            r == (Header { truncation, ..self }),
    {
        Header { truncation, ..self }
    }

    pub fn recursion_desired(self, recursion_desired: bool) -> (r: Header)
        ensures
            r == (Header { recursion_desired, ..self }),
    {
        Header { recursion_desired, ..self }
    }

    pub fn recursion_available(self, recursion_available: bool) -> (r: Header)
        ensures
            r == (Header { recursion_available, ..self }),
    {
        Header { recursion_available, ..self }
    }

    pub fn reserved(self, reserved: u8) -> (r: Header)
        ensures
            r == (Header { reserved, ..self }),
    {
        Header { reserved, ..self }
    }

    pub fn response_code(self, response_code: u8) -> (r: Header)
        ensures
            r == (Header { response_code, ..self }),
    {
        Header { response_code, ..self }
    }

    pub fn question_count(self, question_count: u16) -> (r: Header)
        ensures
            r == (Header { question_count, ..self }),
    {
        Header { question_count, ..self }
    }

    pub fn answer_record(self, answer_record: u16) -> (r: Header)
        ensures
            r == (Header { answer_record, ..self }),
    {
        Header { answer_record, ..self }
    }

    /// Reads a header from the first 12 bytes of `buf`; a shorter buffer is
    /// an error.
    pub fn decode(buf: &[u8]) -> (r: Result<Header, DecodeError>)
        ensures
            r == (if buf@.len() < 12 {
                Err::<Header, DecodeError>(DecodeError::Truncated)
            } else {
                Ok::<Header, DecodeError>(parse_header(buf@))
            }),
            r matches Ok(h) ==> h.wf(),
    {
        if buf.len() < HEADER_LEN {
            return Err(DecodeError::Truncated);
        }
        proof {
            lemma_parse_header_wf(buf@);
        }
        Ok(
            Header {
                packet_id: read_u16(buf, 0),
                query_response_indicator: buf[2] & 0x80 == 0x80,
                operation_code: (buf[2] & 0x78) >> 3u8,
                authoritative_answer: buf[2] & 0x04 == 0x04,
                truncation: buf[2] & 0x02 == 0x02,
                recursion_desired: buf[2] & 0x01 == 0x01,
                recursion_available: buf[3] & 0x80 == 0x80,
                reserved: (buf[3] & 0x70) >> 4u8,
                response_code: buf[3] & 0x0F,
                question_count: read_u16(buf, 4),
                answer_record: read_u16(buf, 6),
                authority_record_count: read_u16(buf, 8),
                additional_record_count: read_u16(buf, 10),
            },
        )
    }

    /// The 12 bytes of this header; fields wider than their bit width are cut
    /// to it, and the reserved bits are written as 0.
    pub fn encode(&self) -> (r: [u8; 12])
        ensures
            r@ == header_bytes(*self),
            r@[3] & 0x70 == 0,
    {
        let high: u8 = (if self.query_response_indicator {
            0x80u8
        } else {
            0u8
        }) | ((self.operation_code & 0x0F) << 3u8) | (if self.authoritative_answer {
            0x04u8
        } else {
            0u8
        }) | (if self.truncation {
            0x02u8
        } else {
            0u8
        }) | (if self.recursion_desired {
            0x01u8
        } else {
            0u8
        });
        let low: u8 = (if self.recursion_available {
            0x80u8
        } else {
            0u8
        }) | (self.response_code & 0x0F);
        proof {
            lemma_flags_low(self.recursion_available, self.response_code);
        }
        let r = [
            (self.packet_id / 256) as u8,
            (self.packet_id % 256) as u8,
            high,
            low,
            (self.question_count / 256) as u8,
            (self.question_count % 256) as u8,
            (self.answer_record / 256) as u8,
            (self.answer_record % 256) as u8,
            (self.authority_record_count / 256) as u8,
            (self.authority_record_count % 256) as u8,
            (self.additional_record_count / 256) as u8,
            (self.additional_record_count % 256) as u8,
        ];
        assert(r@ =~= header_bytes(*self));
        r
    }
}

} // verus!
