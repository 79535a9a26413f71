//! A small DNS forwarder core: the wire codec for headers, names, questions
//! and address answers, the message aggregate, and the session logic that
//! splits a client query into single-question upstream queries and merges
//! the replies.
pub mod error;
pub mod forward;
pub mod header;
pub mod message;
pub mod name;
pub mod record;
pub mod wire;

pub use error::{DecodeError, NameError};
pub use forward::{response_header, upstream_query, Action, Session};
pub use header::Header;
pub use message::{decode_answers, decode_questions, Message};
pub use name::DomainName;
pub use record::{Answer, AnswerData, Question};
