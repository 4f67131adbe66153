//! What the server decides: the reply to each request.
use vstd::prelude::*;
use vstd::slice::slice_subrange;
use crate::command::{decode_command, Command, Instruction};
use crate::engine::KvsEngine;
use crate::error::{key_not_found_text, KvsError};
use crate::frame::{append_bytes, LINE_FEED};
use crate::log::{
    entries, find_line_end, is_whole, lemma_next_record, lemma_no_record_left, whole_len, Entry,
};
use crate::network::response::{record_of_reply, Reply, Response, Status};

verus! {

/// The reply to a `Put` or an `Rm`, from what the engine returned.
pub open spec fn reply_of_change(result: Result<(), KvsError>) -> Reply {
    match result {
        Ok(_) => Reply::ok(),
        Err(e) => Reply::err(e.repr().text()),
    }
}

/// The reply to a `Get`, from what the engine returned.
pub open spec fn reply_of_get(result: Result<Option<String>, KvsError>) -> Reply {
    match result {
        Ok(Some(value)) => Reply::ok_with_body(value@),
        Ok(None) => Reply::err(key_not_found_text()),
        Err(e) => Reply::err(e.repr().text()),
    }
}

/// Whether `reply` answers `command` on an engine whose contents were
/// `before` the command and are `after` it.
///
/// A reply with status `OK` tells the truth: the change was made, or the
/// body is the value of the key. A key that is not set gets no value, and
/// its removal gets the reply key-not-found. A reply with status `ERROR`
/// carries no body.
pub open spec fn answers(
    before: Map<Seq<char>, Seq<char>>,
    after: Map<Seq<char>, Seq<char>>,
    command: Command,
    reply: Reply,
) -> bool {
    &&& reply.status == Status::ERROR ==> reply.body == Seq::<char>::empty()
    &&& match command {
        Command::Put { key, value } => reply.status == Status::OK ==> reply == Reply::ok()
            && after == before.insert(key, value),
        Command::Get { key } => {
            &&& after == before
            &&& reply.status == Status::OK ==> before.contains_key(key) && reply
                == Reply::ok_with_body(before[key])
            &&& !before.contains_key(key) ==> reply.status == Status::ERROR
        },
        Command::Rm { key } => {
            &&& reply.status == Status::OK ==> reply == Reply::ok() && before.contains_key(key)
                && after == before.remove(key)
            &&& !before.contains_key(key) ==> reply == Reply::err(key_not_found_text()) && after
                == before
        },
    }
}

/// Whether `reply` is the reply of the server to `command` on the engine that
/// the command took from `before` to `after`: the reply to what the engine
/// returned, by what this engine promises of its calls. Such a reply answers
/// the command.
pub open spec fn serves<E: KvsEngine>(before: &E, after: &E, command: Command, reply: Reply) -> bool {
    &&& answers(before.contents(), after.contents(), command, reply)
    &&& match command {
        Command::Put { key, value } => exists|r: Result<(), KvsError>| #[trigger]
            E::set_gives(before, after, key, value, r) && reply == reply_of_change(r),
        Command::Get { key } => *after == *before && exists|r: Result<Option<String>, KvsError>|
         #[trigger]
            before.get_gives(key, r) && reply == reply_of_get(r),
        Command::Rm { key } => exists|r: Result<(), KvsError>| #[trigger]
            E::remove_gives(before, after, key, r) && reply == reply_of_change(r),
    }
}

/// The reply to a `Put`: `OK`, or the text of the failure.
pub fn reply_to_set(result: Result<(), KvsError>) -> (response: Response)
    ensures
        response@ == reply_of_change(result),
{
    match result {
        Ok(_) => Response::new_ok(),
        Err(e) => Response::new_err(e.message()),
    }
}

/// The reply to a `Get`: the value, key-not-found where the key is not set,
/// or the text of the failure.
pub fn reply_to_get(result: Result<Option<String>, KvsError>) -> (response: Response)
    ensures
        response@ == reply_of_get(result),
{
    match result {
        Ok(Some(value)) => Response::new_ok_with_body(value),
        Ok(None) => Response::new_err("Key not found".to_owned()),
        Err(e) => Response::new_err(e.message()),
    }
}

/// The reply to an `Rm`: `OK`, or the text of the failure, which for a key
/// that is not set is key-not-found.
pub fn reply_to_remove(result: Result<(), KvsError>) -> (response: Response)
    ensures
        response@ == reply_of_change(result),
{
    match result {
        Ok(_) => Response::new_ok(),
        Err(e) => Response::new_err(e.message()),
    }
}

/// Carries a request out on the engine and gives the reply.
pub fn execute_instruction<E: KvsEngine>(instruction: Instruction, engine: &mut E) -> (response:
    Response)
    requires
        old(engine).valid(),
    ensures
        final(engine).valid(),
        serves(old(engine), final(engine), instruction@, response@),
{
    let ghost before = *engine;
    let ghost command = instruction@;
    match instruction {
        Instruction::Put { key, value } => {
            let result = engine.set(key, value);
            let response = reply_to_set(result);
            proof {
                assert(E::set_gives(&before, &*engine, command->Put_key, command->Put_value, result));
            }
            response
        },
        Instruction::Get { key } => {
            let result = engine.get(key);
            let response = reply_to_get(result);
            proof {
                assert(before.get_gives(command->Get_key, result));
            }
            response
        },
        Instruction::Rm { key } => {
            let result = engine.remove(key);
            let response = reply_to_remove(result);
            proof {
                assert(E::remove_gives(&before, &*engine, command->Rm_key, result));
            }
            response
        },
    }
}

/// Whether `out` is the line that carries `reply`: its record and a line
/// feed.
pub open spec fn is_line_of_reply(out: Seq<u8>, reply: Reply) -> bool {
    record_of_reply(reply) matches Some(record) && out == record + seq![LINE_FEED]
}

/// Serves one request: reads the command from its record, carries it out on
/// the engine and writes the line of the reply.
///
/// Fails where the record is not a command, and then leaves the engine as it
/// is, or where the reply has no record.
pub fn handle_request<E: KvsEngine>(record: &[u8], engine: &mut E) -> (r: Result<Vec<u8>, KvsError>)
    requires
        old(engine).valid(),
    ensures
        final(engine).valid(),
        match r {
            Ok(out) => decode_command(record@) matches Some(command) && exists|reply: Reply|
                #[trigger] serves(old(engine), final(engine), command, reply) && is_line_of_reply(
                    out@,
                    reply,
                ),
            Err(e) => {
                &&& e.repr() is Codec
                &&& match decode_command(record@) {
                    None => *final(engine) == *old(engine),
                    Some(command) => exists|reply: Reply| #[trigger]
                        serves(old(engine), final(engine), command, reply) && record_of_reply(
                            reply,
                        ) is None,
                }
            },
        },
{
    let instruction = Instruction::decode(record)?;
    let response = execute_instruction(instruction, engine);
    let mut out = response.encode()?;
    let ghost line = out@;
    out.push(LINE_FEED);
    assert(out@ =~= line + seq![LINE_FEED]);
    Ok(out)
}

/// One request of a connection with its reply: the request's record, the
/// engine before and after it, the reply and its line.
pub struct Exchange<E> {
    pub request: Seq<u8>,
    pub before: E,
    pub after: E,
    pub reply: Reply,
    pub line: Seq<u8>,
}

/// Whether the request was a command and the line carries the reply of the
/// server to it.
pub open spec fn well_served<E: KvsEngine>(x: Exchange<E>) -> bool {
    decode_command(x.request) matches Some(command) && serves(
        &x.before,
        &x.after,
        command,
        x.reply,
    ) && is_line_of_reply(x.line, x.reply)
}

/// The engine after the exchanges `xs`, from `first`.
pub open spec fn last_state<E>(first: E, xs: Seq<Exchange<E>>) -> E {
    if xs.len() == 0 {
        first
    } else {
        xs.last().after
    }
}

/// The lines of the replies, one after the other.
pub open spec fn joined<E>(xs: Seq<Exchange<E>>) -> Seq<u8>
    decreases xs.len(),
{
    if xs.len() == 0 {
        Seq::empty()
    } else {
        joined(xs.drop_last()) + xs.last().line
    }
}

/// Whether `xs` serves the first requests of `requests`, in their order, each
/// on the engine as the one before it left it.
pub open spec fn is_dialogue<E: KvsEngine>(
    requests: Seq<Entry>,
    first: E,
    xs: Seq<Exchange<E>>,
) -> bool {
    &&& xs.len() <= requests.len()
    &&& forall|i: int|
        0 <= i < xs.len() ==> (#[trigger] xs[i]).request == requests[i].line && well_served(xs[i])
    &&& xs.len() > 0 ==> xs[0].before == first
    &&& forall|i: int, j: int|
        0 <= i && j == i + 1 && j < xs.len() ==> (#[trigger] xs[j]).before == (#[trigger] xs[i]).after
}

/// One more exchange, served on the engine as the exchanges before it left
/// it, extends a dialogue.
pub proof fn lemma_dialogue_push<E: KvsEngine>(
    requests: Seq<Entry>,
    first: E,
    xs: Seq<Exchange<E>>,
    x: Exchange<E>,
)
    requires
        is_dialogue(requests, first, xs),
        xs.len() < requests.len(),
        x.request == requests[xs.len() as int].line,
        well_served(x),
        x.before == last_state(first, xs),
    ensures
        is_dialogue(requests, first, xs.push(x)),
        joined(xs.push(x)) == joined(xs) + x.line,
        last_state(first, xs.push(x)) == x.after,
{
    let grown = xs.push(x);
    assert(grown.drop_last() =~= xs);
    assert forall|i: int| 0 <= i < grown.len() implies (#[trigger] grown[i]).request
        == requests[i].line && well_served(grown[i]) by {
        if i < xs.len() {
            assert(grown[i] == xs[i]);
        }
    }
    assert forall|i: int, j: int| 0 <= i && j == i + 1 && j < grown.len() implies (
    #[trigger] grown[j]).before == (#[trigger] grown[i]).after by {
        assert(grown[i] == xs[i]);
        if j < xs.len() {
            assert(grown[j] == xs[j]);
        }
    }
}

/// What serving the bytes of a connection gave.
pub struct Served {
    /// The lines of the replies, in the order of the requests.
    pub replies: Vec<u8>,
    /// How many bytes of the input were served.
    pub consumed: usize,
    /// Why serving stopped before the end of the input, if it did.
    pub failure: Option<KvsError>,
}

/// Serves the requests that are whole in `input`, in their order: one reply
/// line for each. Bytes after the last line feed are a request that has not
/// arrived to its end: they are left for the next call.
///
/// Stops at the first request that is not a command, or whose reply has no
/// record: the requests before it were served, and `consumed` is where that
/// request starts.
pub fn handle_client<E: KvsEngine>(input: &[u8], engine: &mut E) -> (served: Served)
    requires
        old(engine).valid(),
    ensures
        final(engine).valid(),
        exists|xs: Seq<Exchange<E>>|
            {
                &&& #[trigger] is_dialogue(entries(input@), *old(engine), xs)
                &&& served.replies@ == joined(xs)
                &&& match served.failure {
                    None => {
                        &&& xs.len() == entries(input@).len()
                        &&& served.consumed == whole_len(input@)
                        &&& *final(engine) == last_state(*old(engine), xs)
                    },
                    Some(e) => {
                        &&& e.repr() is Codec
                        &&& xs.len() < entries(input@).len()
                        &&& served.consumed == entries(input@)[xs.len() as int].offset
                        &&& match decode_command(entries(input@)[xs.len() as int].line) {
                            None => *final(engine) == last_state(*old(engine), xs),
                            Some(command) => exists|reply: Reply| #[trigger]
                                serves(
                                    &last_state(*old(engine), xs),
                                    final(engine),
                                    command,
                                    reply,
                                ) && record_of_reply(reply) is None,
                        }
                    },
                }
            },
{
    let mut replies: Vec<u8> = Vec::new();
    let mut pos: usize = 0;
    let ghost first = *engine;
    let ghost mut xs: Seq<Exchange<E>> = Seq::empty();
    assert(input@.take(0) =~= Seq::<u8>::empty());
    loop
        invariant
            engine.valid(),
            first == *old(engine),
            pos <= input.len(),
            is_whole(input@.take(pos as int)),
            xs.len() == entries(input@.take(pos as int)).len(),
            is_dialogue(entries(input@), first, xs),
            replies@ == joined(xs),
            *engine == last_state(first, xs),
        decreases input.len() - pos,
    {
        match find_line_end(input, pos) {
            None => {
                proof {
                    lemma_no_record_left(input@, pos as int);
                }
                return Served { replies, consumed: pos, failure: None };
            },
            Some(end) => {
                let record = slice_subrange(input, pos, end);
                let ghost before = *engine;
                proof {
                    lemma_next_record(input@, pos as int, end as int);
                }
                match handle_request(record, engine) {
                    Err(e) => {
                        return Served { replies, consumed: pos, failure: Some(e) };
                    },
                    Ok(line) => {
                        proof {
                            let command = decode_command(record@)->Some_0;
                            let reply = choose|reply: Reply| #[trigger]
                                serves(&before, &*engine, command, reply) && is_line_of_reply(
                                    line@,
                                    reply,
                                );
                            let x = Exchange {
                                request: record@,
                                before: before,
                                after: *engine,
                                reply: reply,
                                line: line@,
                            };
                            lemma_dialogue_push(entries(input@), first, xs, x);
                            xs = xs.push(x);
                        }
                        append_bytes(&mut replies, line.as_slice());
                        pos = end + 1;
                    },
                }
            },
        }
    }
}

/// Carries a request out on an engine that is given as the three calls that
/// the server makes, and gives the reply to what the call returned.
pub fn execute_by<S, G, R>(instruction: Instruction, set: &S, get: &G, remove: &R) -> (response:
    Response) where
    S: Fn(String, String) -> Result<(), KvsError>,
    G: Fn(String) -> Result<Option<String>, KvsError>,
    R: Fn(String) -> Result<(), KvsError>,

    requires
        forall|key: String, value: String| call_requires(*set, (key, value)),
        forall|key: String| call_requires(*get, (key,)),
        forall|key: String| call_requires(*remove, (key,)),
    ensures
        match instruction {
            Instruction::Put { key, value } => exists|result: Result<(), KvsError>|
                call_ensures(*set, (key, value), result) && response@ == reply_of_change(result),
            Instruction::Get { key } => exists|result: Result<Option<String>, KvsError>|
                call_ensures(*get, (key,), result) && response@ == reply_of_get(result),
            Instruction::Rm { key } => exists|result: Result<(), KvsError>|
                call_ensures(*remove, (key,), result) && response@ == reply_of_change(result),
        },
{
    match instruction {
        Instruction::Put { key, value } => {
            let result = set(key, value);
            reply_to_set(result)
        },
        Instruction::Get { key } => {
            let result = get(key);
            reply_to_get(result)
        },
        Instruction::Rm { key } => {
            let result = remove(key);
            reply_to_remove(result)
        },
    }
}

/// One request of a connection that an outside engine answered: the
/// request's record, the command it holds, the reply and its line.
pub struct Turn {
    pub request: Seq<u8>,
    pub instruction: Instruction,
    pub response: Response,
    pub line: Seq<u8>,
}

/// Whether the request was the command, `answer` gave the reply to it, and
/// the line carries the reply.
pub open spec fn well_answered<F: Fn(Instruction) -> Response>(answer: F, t: Turn) -> bool {
    &&& decode_command(t.request) == Some(t.instruction@)
    &&& call_ensures(answer, (t.instruction,), t.response)
    &&& is_line_of_reply(t.line, t.response@)
}

/// Whether the request is not a command, or `answer` gave a reply to it that
/// has no record.
pub open spec fn unanswered<F: Fn(Instruction) -> Response>(answer: F, request: Seq<u8>) -> bool {
    decode_command(request) is None || exists|instruction: Instruction, response: Response|
        decode_command(request) == Some(instruction@) && #[trigger] call_ensures(
            answer,
            (instruction,),
            response,
        ) && record_of_reply(response@) is None
}

/// The lines of the replies, one after the other.
pub open spec fn joined_turns(ts: Seq<Turn>) -> Seq<u8>
    decreases ts.len(),
{
    if ts.len() == 0 {
        Seq::empty()
    } else {
        joined_turns(ts.drop_last()) + ts.last().line
    }
}

/// Whether `ts` answers the first requests of `requests`, in their order.
pub open spec fn is_served_by<F: Fn(Instruction) -> Response>(
    answer: F,
    requests: Seq<Entry>,
    ts: Seq<Turn>,
) -> bool {
    &&& ts.len() <= requests.len()
    &&& forall|i: int|
        0 <= i < ts.len() ==> (#[trigger] ts[i]).request == requests[i].line && well_answered(
            answer,
            ts[i],
        )
}

/// Serves one request with `answer`: reads the command from its record, has
/// it answered and writes the line of the reply. Fails where the record is
/// not a command or the reply cannot be written.
pub fn request_by<F: Fn(Instruction) -> Response>(record: &[u8], answer: &F) -> (r: Result<
    Vec<u8>,
    KvsError,
>)
    requires
        forall|instruction: Instruction| call_requires(*answer, (instruction,)),
    ensures
        match r {
            Ok(out) => exists|t: Turn| #[trigger]
                well_answered(*answer, t) && t.request == record@ && t.line == out@,
            Err(e) => e.repr() is Codec && unanswered(*answer, record@),
        },
{
    let instruction = Instruction::decode(record)?;
    let ghost asked = instruction;
    let response = answer(instruction);
    let mut out = response.encode()?;
    let ghost line = out@;
    out.push(LINE_FEED);
    proof {
        assert(out@ =~= line + seq![LINE_FEED]);
        let t = Turn { request: record@, instruction: asked, response: response, line: out@ };
        assert(well_answered(*answer, t));
    }
    Ok(out)
}

/// Serves the requests that are whole in `input`, in their order, with
/// `answer`: one reply line for each. Bytes after the last line feed are
/// left for the next call. Stops at the first request that is not a command,
/// or whose reply cannot be written; `consumed` is then where that request
/// starts.
pub fn serve_by<F: Fn(Instruction) -> Response>(input: &[u8], answer: &F) -> (served: Served)
    requires
        forall|instruction: Instruction| call_requires(*answer, (instruction,)),
    ensures
        exists|ts: Seq<Turn>|
            {
                &&& #[trigger] is_served_by(*answer, entries(input@), ts)
                &&& served.replies@ == joined_turns(ts)
                &&& match served.failure {
                    None => ts.len() == entries(input@).len() && served.consumed == whole_len(
                        input@,
                    ),
                    Some(e) => {
                        &&& e.repr() is Codec
                        &&& ts.len() < entries(input@).len()
                        &&& served.consumed == entries(input@)[ts.len() as int].offset
                        &&& unanswered(*answer, entries(input@)[ts.len() as int].line)
                    },
                }
            },
{
    let mut replies: Vec<u8> = Vec::new();
    let mut pos: usize = 0;
    let ghost mut ts: Seq<Turn> = Seq::empty();
    assert(input@.take(0) =~= Seq::<u8>::empty());
    loop
        invariant
            forall|instruction: Instruction| call_requires(*answer, (instruction,)),
            pos <= input.len(),
            is_whole(input@.take(pos as int)),
            ts.len() == entries(input@.take(pos as int)).len(),
            is_served_by(*answer, entries(input@), ts),
            replies@ == joined_turns(ts),
        decreases input.len() - pos,
    {
        match find_line_end(input, pos) {
            None => {
                proof {
                    lemma_no_record_left(input@, pos as int);
                }
                return Served { replies, consumed: pos, failure: None };
            },
            Some(end) => {
                let record = slice_subrange(input, pos, end);
                proof {
                    lemma_next_record(input@, pos as int, end as int);
                }
                match request_by(record, answer) {
                    Err(e) => {
                        return Served { replies, consumed: pos, failure: Some(e) };
                    },
                    Ok(line) => {
                        proof {
                            let t = choose|t: Turn| #[trigger]
                                well_answered(*answer, t) && t.request == record@ && t.line
                                    == line@;
                            let grown = ts.push(t);
                            assert(grown.drop_last() =~= ts);
                            assert forall|i: int| 0 <= i < grown.len() implies (
                            #[trigger] grown[i]).request == entries(input@)[i].line
                                && well_answered(*answer, grown[i]) by {
                                if i < ts.len() {
                                    assert(grown[i] == ts[i]);
                                }
                            }
                            ts = grown;
                        }
                        append_bytes(&mut replies, line.as_slice());
                        pos = end + 1;
                    },
                }
            },
        }
    }
}

} // verus!
