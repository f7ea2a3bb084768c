//! HTTP/1.x message framing: reads a request or a response, line by line
//! and then its body, into a structured message or a precise error.
pub mod adapter;
pub mod combinators;
pub mod errors;
pub mod grammar;
pub mod reader;

pub use adapter::{build_request, build_response};
pub use errors::{Failure, FlaskError};
pub use grammar::{
    get_http_version, parse_request_line, parse_response_line, read_header, Header, HeaderLine,
    HttpVersion, RequestLine, ResponseLine,
};
pub use reader::{read_message, Action, Head, Message, MessageKind, MessageReader};
