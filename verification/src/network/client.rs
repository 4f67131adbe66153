//! What the client decides: the line to send, the reply that came, and what
//! to tell the user.
use vstd::prelude::*;
use vstd::slice::slice_subrange;
use crate::command::{record_of, Command, Instruction};
use crate::error::{key_not_found_text, KvsError};
use crate::frame::{codec_error, LINE_FEED};
use crate::log::{find_line_end, reads_at};
use crate::network::response::{decode_reply, Reply, Response, Status};

verus! {

/// The exit code of a client whose request was carried out.
pub const EXIT_OK: i32 = 0;

/// The exit code of a client whose request failed.
pub const EXIT_FAILURE: i32 = 1;

/// The line that carries the request: its record and a line feed. Fails if
/// and only if the command has no record.
pub fn send_instruction(instruction: &Instruction) -> (r: Result<Vec<u8>, KvsError>)
    ensures
        match r {
            Ok(out) => record_of(instruction@) matches Some(record) && out@ == record
                + seq![LINE_FEED],
            Err(e) => record_of(instruction@) is None && e.repr() is Codec,
        },
{
    let mut out = instruction.encode()?;
    let ghost line = out@;
    out.push(LINE_FEED);
    assert(out@ =~= line + seq![LINE_FEED]);
    Ok(out)
}

/// Reads the reply from the bytes that came: the record on their first line.
/// Fails where no whole line came or the line is not the record of a reply.
pub fn read_response(bytes: &[u8]) -> (r: Result<Response, KvsError>)
    ensures
        match r {
            Ok(response) => exists|line: Seq<u8>| #[trigger]
                reads_at(bytes@, 0, line) && decode_reply(line) == Some(response@),
            Err(e) => e.repr() is Codec && forall|line: Seq<u8>| #[trigger]
                reads_at(bytes@, 0, line) ==> decode_reply(line) is None,
        },
{
    match find_line_end(bytes, 0) {
        None => {
            proof {
                assert forall|line: Seq<u8>| !(#[trigger] reads_at(bytes@, 0, line)) by {
                    if reads_at(bytes@, 0, line) {
                        assert(bytes@.skip(0)[line.len() as int] == LINE_FEED);
                    }
                }
            }
            Err(codec_error("the reply is not whole"))
        },
        Some(end) => {
            let record = slice_subrange(bytes, 0, end);
            proof {
                assert(reads_at(bytes@, 0, record@));
                assert forall|other: Seq<u8>| #[trigger]
                    reads_at(bytes@, 0, other) implies other == record@ by {
                    crate::engine::kvs::lemma_reads_once(bytes@, 0, record@, other);
                }
            }
            Response::decode(record)
        },
    }
}

/// What a client tells its user: a line for the standard output, a line for
/// the standard error, and the exit code.
#[derive(Debug)]
pub struct Outcome {
    pub stdout: Option<String>,
    pub stderr: Option<String>,
    pub code: i32,
}

/// An outcome as a mathematical value.
pub struct Report {
    pub stdout: Option<Seq<char>>,
    pub stderr: Option<Seq<char>>,
    pub code: int,
}

impl View for Outcome {
    type V = Report;

    open spec fn view(&self) -> Report {
        Report {
            stdout: match self.stdout {
                Some(text) => Some(text@),
                None => None,
            },
            stderr: match self.stderr {
                Some(text) => Some(text@),
                None => None,
            },
            code: self.code as int,
        }
    }
}

/// What the client tells its user on `reply` to `command`.
///
/// A request that was carried out exits with 0; a `Get` prints the value. A
/// request that failed prints the text of the failure on the standard error
/// and exits with 1. The one exception is a `Get` of a key that is not set:
/// it prints the text on the standard output and exits with 0.
pub open spec fn report_of(command: Command, reply: Reply) -> Report {
    if reply.status == Status::OK {
        Report {
            stdout: if command is Get {
                Some(reply.body)
            } else {
                None
            },
            stderr: None,
            code: EXIT_OK as int,
        }
    } else if command is Get && reply.message == key_not_found_text() {
        Report { stdout: Some(reply.message), stderr: None, code: EXIT_OK as int }
    } else {
        Report { stdout: None, stderr: Some(reply.message), code: EXIT_FAILURE as int }
    }
}

/// Decides what the client tells its user.
pub fn outcome(instruction: &Instruction, response: &Response) -> (r: Outcome)
    ensures
        r@ == report_of(instruction@, response@),
{
    let asks = match instruction {
        Instruction::Get { key: _ } => true,
        _ => false,
    };
    if response.is_ok() {
        if asks {
            Outcome { stdout: Some(response.get_body().clone()), stderr: None, code: EXIT_OK }
        } else {
            Outcome { stdout: None, stderr: None, code: EXIT_OK }
        }
    } else if asks && *response.get_message() == "Key not found".to_owned() {
        Outcome { stdout: Some(response.get_message().clone()), stderr: None, code: EXIT_OK }
    } else {
        Outcome {
            stdout: None,
            stderr: Some(response.get_message().clone()),
            code: EXIT_FAILURE,
        }
    }
}

} // verus!
