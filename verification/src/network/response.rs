//! The reply of the server, and its record.
use vstd::prelude::*;
use vstd::string::StringSliceAdditionalSpecFns;
use crate::error::KvsError;
use crate::frame::{
    codec_error, has_at, is_unbroken, pair_bytes, pair_of, read_pair, stands_at, unbroken,
    write_pair,
};

verus! {

/// How the record of a reply with status `OK` opens.
pub const OK_HEAD: &'static str = "{\"status\":\"OK\",\"message\":";

/// How the record of a reply with status `ERROR` opens.
pub const ERROR_HEAD: &'static str = "{\"status\":\"ERROR\",\"message\":";

/// What stands between the message and the body of a reply.
pub const BODY_SEP: &'static str = ",\"body\":";

/// How the record of a reply closes.
pub const REPLY_TAIL: &'static str = "}";

/// Whether a request was carried out.
#[derive(Debug, Clone, Copy, PartialEq, Eq, Structural)]
pub enum Status {
    OK,
    ERROR,
}

/// The reply to one request.
#[derive(Debug)]
pub struct Response {
    /// Whether the request was carried out.
    status: Status,
    /// The text of the failure; empty on success.
    message: String,
    /// The value that was asked for; empty otherwise.
    body: String,
}

/// A reply as a mathematical value.
pub struct Reply {
    pub status: Status,
    pub message: Seq<char>,
    pub body: Seq<char>,
}

impl Reply {
    /// The reply to a request that was carried out and gives no value.
    pub open spec fn ok() -> Reply {
        Reply { status: Status::OK, message: Seq::empty(), body: Seq::empty() }
    }

    /// The reply that carries the value `body`.
    pub open spec fn ok_with_body(body: Seq<char>) -> Reply {
        Reply { status: Status::OK, message: Seq::empty(), body }
    }

    /// The reply to a request that failed, with the text of the failure.
    pub open spec fn err(message: Seq<char>) -> Reply {
        Reply { status: Status::ERROR, message, body: Seq::empty() }
    }
}

impl View for Response {
    type V = Reply;

    closed spec fn view(&self) -> Reply {
        Reply { status: self.status, message: self.message@, body: self.body@ }
    }
}

/// The bytes that are written for `reply`: fixed text around the JSON
/// literals of its strings. `None` where a string cannot be written.
pub open spec fn reply_bytes(reply: Reply) -> Option<Seq<u8>> {
    pair_bytes(
        match reply.status {
            Status::OK => OK_HEAD.spec_bytes(),
            Status::ERROR => ERROR_HEAD.spec_bytes(),
        },
        reply.message,
        BODY_SEP.spec_bytes(),
        reply.body,
        REPLY_TAIL.spec_bytes(),
    )
}

/// The reply that the record `s` holds, if it is the record of one.
pub open spec fn decode_reply(s: Seq<u8>) -> Option<Reply> {
    if has_at(s, 0, OK_HEAD.spec_bytes()) {
        match pair_of(s, OK_HEAD.spec_bytes(), BODY_SEP.spec_bytes(), REPLY_TAIL.spec_bytes()) {
            Some((message, body)) => Some(Reply { status: Status::OK, message, body }),
            None => None,
        }
    } else if has_at(s, 0, ERROR_HEAD.spec_bytes()) {
        match pair_of(s, ERROR_HEAD.spec_bytes(), BODY_SEP.spec_bytes(), REPLY_TAIL.spec_bytes()) {
            Some((message, body)) => Some(Reply { status: Status::ERROR, message, body }),
            None => None,
        }
    } else {
        None
    }
}

/// Whether `s` is a record of `reply` that can stand on one line of a
/// connection: it reads as `reply` and holds no line feed.
pub open spec fn is_record_of_reply(s: Seq<u8>, reply: Reply) -> bool {
    decode_reply(s) == Some(reply) && unbroken(s)
}

/// The record of `reply`: the bytes that are written for it, where they can
/// be written and are a record of it.
pub open spec fn record_of_reply(reply: Reply) -> Option<Seq<u8>> {
    match reply_bytes(reply) {
        Some(line) => if is_record_of_reply(line, reply) {
            Some(line)
        } else {
            None
        },
        None => None,
    }
}

impl Clone for Response {
    fn clone(&self) -> (r: Response)
        ensures
            r@ == self@,
    {
        Response { status: self.status, message: self.message.clone(), body: self.body.clone() }
    }
}

impl Response {
    pub fn new(status: Status, message: String, body: String) -> (r: Response)
        ensures
            r@ == (Reply { status, message: message@, body: body@ }),
    {
        Response { status, message, body }
    }

    /// The reply to a request that was carried out and gives no value.
    pub fn new_ok() -> (r: Response)
        ensures
            r@ == Reply::ok(),
    {
        Response { status: Status::OK, message: String::new(), body: String::new() }
    }

    /// The reply that carries the value `body`.
    pub fn new_ok_with_body(body: String) -> (r: Response)
        ensures
            r@ == Reply::ok_with_body(body@),
    {
        Response { status: Status::OK, message: String::new(), body }
    }

    /// The reply to a request that failed, with the text of the failure.
    pub fn new_err(message: String) -> (r: Response)
        ensures
            r@ == Reply::err(message@),
    {
        Response { status: Status::ERROR, message, body: String::new() }
    }

    pub fn is_ok(&self) -> (r: bool)
        ensures
            r == (self@.status == Status::OK),
    {
        match self.status {
            Status::OK => true,
            _ => false,
        }
    }

    pub fn get_message(&self) -> (r: &String)
        ensures
            r@ == self@.message,
    {
        &self.message
    }

    pub fn get_body(&self) -> (r: &String)
        ensures
            r@ == self@.body,
    {
        &self.body
    }

    /// Whether the two replies are the same.
    pub fn same(&self, other: &Response) -> (r: bool)
        ensures
            r == (self@ == other@),
    {
        self.status == other.status && self.message == other.message && self.body == other.body
    }

    /// Reads a reply from its record.
    pub fn decode(s: &[u8]) -> (r: Result<Response, KvsError>)
        ensures
            match r {
                Ok(response) => decode_reply(s@) == Some(response@),
                Err(e) => decode_reply(s@) is None && e.repr() is Codec,
            },
    {
        if stands_at(s, 0, OK_HEAD.as_bytes()) {
            let (message, body) = read_pair(
                s,
                OK_HEAD.as_bytes(),
                BODY_SEP.as_bytes(),
                REPLY_TAIL.as_bytes(),
            )?;
            Ok(Response { status: Status::OK, message, body })
        } else if stands_at(s, 0, ERROR_HEAD.as_bytes()) {
            let (message, body) = read_pair(
                s,
                ERROR_HEAD.as_bytes(),
                BODY_SEP.as_bytes(),
                REPLY_TAIL.as_bytes(),
            )?;
            Ok(Response { status: Status::ERROR, message, body })
        } else {
            Err(codec_error("the record is not a reply"))
        }
    }

    /// Writes the bytes of the reply: fixed text around the JSON literals of
    /// its strings. Fails where a string cannot be written.
    pub fn to_bytes(&self) -> (r: Result<Vec<u8>, KvsError>)
        ensures
            match r {
                Ok(line) => reply_bytes(self@) == Some(line@),
                Err(e) => reply_bytes(self@) is None && e.repr() is Codec,
            },
    {
        let head = match self.status {
            Status::OK => OK_HEAD.as_bytes(),
            Status::ERROR => ERROR_HEAD.as_bytes(),
        };
        write_pair(head, &self.message, BODY_SEP.as_bytes(), &self.body, REPLY_TAIL.as_bytes())
    }

    /// Hands `line` on if it is a record of the reply: it reads back as the
    /// reply and holds no line feed.
    pub fn checked(&self, line: Vec<u8>) -> (r: Result<Vec<u8>, KvsError>)
        ensures
            match r {
                Ok(out) => out@ == line@ && is_record_of_reply(line@, self@),
                Err(e) => !is_record_of_reply(line@, self@) && e.repr() is Codec,
            },
    {
        if !is_unbroken(line.as_slice()) {
            return Err(codec_error("a record holds a line feed"));
        }
        let back = Response::decode(line.as_slice())?;
        if !back.same(self) {
            return Err(codec_error("a record does not read back"));
        }
        Ok(line)
    }

    /// Writes the reply's record: its bytes, read back before they are
    /// handed out. Every record that comes back reads as the reply again and
    /// holds no line feed.
    pub fn encode(&self) -> (r: Result<Vec<u8>, KvsError>)
        ensures
            match r {
                Ok(line) => record_of_reply(self@) == Some(line@),
                Err(e) => record_of_reply(self@) is None && e.repr() is Codec,
            },
    {
        let line = self.to_bytes()?;
        self.checked(line)
    }
}

} // verus!
