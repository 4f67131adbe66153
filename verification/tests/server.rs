use kvs::command::Instruction;
use kvs::network::client::{outcome, read_response, send_instruction};
use kvs::network::server::{
    execute_by, execute_instruction, handle_client, handle_request, reply_to_get, reply_to_remove,
    reply_to_set, request_by, serve_by,
};
use std::cell::RefCell;
use std::collections::HashMap;
use kvs::{KvStore, KvsEngine, KvsError, Repr, Response};

fn fresh() -> KvStore {
    KvStore::open(Vec::new()).unwrap()
}

fn put(key: &str, value: &str) -> Instruction {
    Instruction::Put { key: key.to_string(), value: value.to_string() }
}

fn get(key: &str) -> Instruction {
    Instruction::Get { key: key.to_string() }
}

fn rm(key: &str) -> Instruction {
    Instruction::Rm { key: key.to_string() }
}

const OK: &[u8] = b"{\"status\":\"OK\",\"message\":\"\",\"body\":\"\"}\n";
const NOT_FOUND: &[u8] = b"{\"status\":\"ERROR\",\"message\":\"Key not found\",\"body\":\"\"}\n";

fn value(body: &str) -> Vec<u8> {
    format!("{{\"status\":\"OK\",\"message\":\"\",\"body\":\"{}\"}}\n", body).into_bytes()
}

/// One request of a client over the wire: the line that the client sends, the
/// line that the server answers, and the reply that the client reads.
fn round_trip(store: &mut KvStore, request: &Instruction) -> Response {
    let line = send_instruction(request).unwrap();
    let served = handle_client(&line, store);
    assert!(served.failure.is_none());
    assert_eq!(served.consumed, line.len());
    read_response(&served.replies).unwrap()
}

#[test]
fn the_reply_to_each_result() {
    assert!(reply_to_set(Ok(())).same(&Response::new_ok()));
    assert!(reply_to_set(Err(KvsError::new(Repr::Io("disk".to_string()))))
        .same(&Response::new_err("disk".to_string())));
    assert!(reply_to_get(Ok(Some("v".to_string()))).same(&Response::new_ok_with_body("v".to_string())));
    assert!(reply_to_get(Ok(None)).same(&Response::new_err("Key not found".to_string())));
    assert!(reply_to_get(Err(KvsError::new(Repr::Encoding("bad".to_string()))))
        .same(&Response::new_err("bad".to_string())));
    assert!(reply_to_remove(Ok(())).same(&Response::new_ok()));
    assert!(reply_to_remove(Err(KvsError::key_not_found()))
        .same(&Response::new_err("Key not found".to_string())));
}

#[test]
fn each_request_is_carried_out_on_the_engine() {
    let mut store = fresh();
    assert!(execute_instruction(put("a", "1"), &mut store).same(&Response::new_ok()));
    assert_eq!(store.get("a".to_string()).unwrap(), Some("1".to_string()));
    assert!(execute_instruction(get("a"), &mut store)
        .same(&Response::new_ok_with_body("1".to_string())));
    assert!(execute_instruction(get("b"), &mut store)
        .same(&Response::new_err("Key not found".to_string())));
    assert!(execute_instruction(rm("b"), &mut store)
        .same(&Response::new_err("Key not found".to_string())));
    assert!(execute_instruction(rm("a"), &mut store).same(&Response::new_ok()));
    assert_eq!(store.get("a".to_string()).unwrap(), None);
    assert!(execute_instruction(get("a"), &mut store)
        .same(&Response::new_err("Key not found".to_string())));
}

#[test]
fn one_request_gets_one_line() {
    let mut store = fresh();
    assert_eq!(
        handle_request(b"{\"Set\":{\"key\":\"name\",\"value\":\"zero\"}}", &mut store).unwrap(),
        OK
    );
    assert_eq!(handle_request(b"{\"Get\":{\"key\":\"name\"}}", &mut store).unwrap(), value("zero"));
    assert_eq!(handle_request(b"{\"Get\":{\"key\":\"other\"}}", &mut store).unwrap(), NOT_FOUND);
    assert_eq!(handle_request(b"{\"Rm\":{\"key\":\"other\"}}", &mut store).unwrap(), NOT_FOUND);
    assert_eq!(handle_request(b"{\"Rm\":{\"key\":\"name\"}}", &mut store).unwrap(), OK);
    assert_eq!(handle_request(b"{\"Get\":{\"key\":\"name\"}}", &mut store).unwrap(), NOT_FOUND);
}

#[test]
fn a_request_that_is_no_command_fails_and_changes_nothing() {
    let mut store = fresh();
    store.set("a".to_string(), "1".to_string()).unwrap();
    let before = store.log().clone();
    let error = handle_request(b"{\"Set\":{\"key\":\"a\"}}", &mut store).unwrap_err();
    assert!(matches!(error.repr(), Repr::Codec(_)));
    assert!(handle_request(b"{\"Get\":{\"key\":\"a\"}}\n", &mut store).is_err());
    assert_eq!(store.log(), &before);
}

#[test]
fn requests_on_one_connection_are_answered_in_their_order() {
    let mut store = fresh();
    let mut input = Vec::new();
    input.extend_from_slice(b"{\"Set\":{\"key\":\"a\",\"value\":\"1\"}}\n");
    input.extend_from_slice(b"{\"Get\":{\"key\":\"a\"}}\n");
    input.extend_from_slice(b"{\"Set\":{\"key\":\"a\",\"value\":\"2\"}}\n");
    input.extend_from_slice(b"{\"Get\":{\"key\":\"a\"}}\n");
    input.extend_from_slice(b"{\"Rm\":{\"key\":\"a\"}}\n");
    input.extend_from_slice(b"{\"Get\":{\"key\":\"a\"}}\n");
    let whole = input.len();
    input.extend_from_slice(b"{\"Get\":{\"key\"");
    let served = handle_client(&input, &mut store);
    assert!(served.failure.is_none());
    assert_eq!(served.consumed, whole);
    let mut expected = Vec::new();
    expected.extend_from_slice(OK);
    expected.extend_from_slice(&value("1"));
    expected.extend_from_slice(OK);
    expected.extend_from_slice(&value("2"));
    expected.extend_from_slice(OK);
    expected.extend_from_slice(NOT_FOUND);
    assert_eq!(served.replies, expected);

    // the rest of the last request arrives
    let mut rest = input[served.consumed..].to_vec();
    rest.extend_from_slice(b":\"a\"}}\n");
    let served = handle_client(&rest, &mut store);
    assert!(served.failure.is_none());
    assert_eq!(served.consumed, rest.len());
    assert_eq!(served.replies, NOT_FOUND);
}

#[test]
fn serving_nothing_gives_nothing() {
    let mut store = fresh();
    let served = handle_client(b"", &mut store);
    assert!(served.failure.is_none());
    assert_eq!(served.consumed, 0);
    assert!(served.replies.is_empty());
    let served = handle_client(b"{\"Get\"", &mut store);
    assert!(served.failure.is_none());
    assert_eq!(served.consumed, 0);
    assert!(served.replies.is_empty());
}

#[test]
fn serving_stops_at_a_request_that_is_no_command() {
    let mut store = fresh();
    let first = b"{\"Set\":{\"key\":\"a\",\"value\":\"1\"}}\n";
    let mut input = first.to_vec();
    input.extend_from_slice(b"what\n");
    input.extend_from_slice(b"{\"Set\":{\"key\":\"b\",\"value\":\"2\"}}\n");
    let served = handle_client(&input, &mut store);
    assert!(matches!(served.failure.unwrap().repr(), Repr::Codec(_)));
    assert_eq!(served.consumed, first.len());
    assert_eq!(served.replies, OK);
    assert_eq!(store.get("a".to_string()).unwrap(), Some("1".to_string()));
    assert_eq!(store.get("b".to_string()).unwrap(), None);
}

#[test]
fn a_reply_over_the_wire_matches_the_state_of_the_engine() {
    let mut store = fresh();
    let texts = ["plain", "", "two\nlines", "\"quoted\"", "\u{4e16}\u{754c}"];
    for (i, text) in texts.iter().enumerate() {
        let key = format!("{}{}", text, i);
        let reply = round_trip(&mut store, &put(&key, text));
        assert!(reply.same(&Response::new_ok()));
        assert_eq!(store.get(key.clone()).unwrap(), Some(text.to_string()));
        let reply = round_trip(&mut store, &get(&key));
        assert!(reply.is_ok());
        assert_eq!(Some(reply.get_body().clone()), store.get(key.clone()).unwrap());
        let reply = round_trip(&mut store, &rm(&key));
        assert!(reply.same(&Response::new_ok()));
        assert_eq!(store.get(key.clone()).unwrap(), None);
        let reply = round_trip(&mut store, &get(&key));
        assert!(reply.same(&Response::new_err("Key not found".to_string())));
    }
}

#[test]
fn two_clients_that_set_one_key_read_the_later_write() {
    for first_is_one in [true, false] {
        let mut store = fresh();
        let (first, second) = if first_is_one { ("one", "two") } else { ("two", "one") };
        assert!(round_trip(&mut store, &put("x", first)).is_ok());
        assert!(round_trip(&mut store, &put("x", second)).is_ok());
        let read_by_one = round_trip(&mut store, &get("x"));
        let read_by_two = round_trip(&mut store, &get("x"));
        assert_eq!(read_by_one.get_body(), second);
        assert_eq!(read_by_two.get_body(), second);
    }
}

#[test]
fn rm_of_an_unset_key_fails_at_the_client() {
    let mut store = fresh();
    let request = rm("unset");
    let reply = round_trip(&mut store, &request);
    assert!(!reply.is_ok());
    assert_eq!(reply.get_message(), "Key not found");
    assert_eq!(reply.get_body(), "");
    let told = outcome(&request, &reply);
    assert_ne!(told.code, 0);
    assert!(told.stderr.unwrap().contains("Key not found"));
    assert!(told.stdout.is_none());
}

#[test]
fn what_the_client_tells_its_user() {
    let ok = Response::new_ok();
    let found = Response::new_ok_with_body("zero".to_string());
    let missing = Response::new_err("Key not found".to_string());
    let failed = Response::new_err("disk full".to_string());

    let told = outcome(&put("k", "v"), &ok);
    assert_eq!((told.stdout, told.stderr, told.code), (None, None, 0));
    let told = outcome(&put("k", "v"), &failed);
    assert_eq!((told.stdout, told.stderr, told.code), (None, Some("disk full".to_string()), 1));

    let told = outcome(&get("k"), &found);
    assert_eq!((told.stdout, told.stderr, told.code), (Some("zero".to_string()), None, 0));
    let told = outcome(&get("k"), &missing);
    assert_eq!((told.stdout, told.stderr, told.code), (Some("Key not found".to_string()), None, 0));
    let told = outcome(&get("k"), &failed);
    assert_eq!((told.stdout, told.stderr, told.code), (None, Some("disk full".to_string()), 1));

    let told = outcome(&rm("k"), &ok);
    assert_eq!((told.stdout, told.stderr, told.code), (None, None, 0));
    let told = outcome(&rm("k"), &missing);
    assert_eq!((told.stdout, told.stderr, told.code), (None, Some("Key not found".to_string()), 1));
    let told = outcome(&put("k", "v"), &missing);
    assert_eq!((told.stdout, told.stderr, told.code), (None, Some("Key not found".to_string()), 1));
}

#[test]
fn the_line_of_a_request_and_the_reply_that_came() {
    assert_eq!(send_instruction(&get("a")).unwrap(), b"{\"Get\":{\"key\":\"a\"}}\n");
    assert_eq!(
        send_instruction(&put("a", "1\n")).unwrap(),
        b"{\"Set\":{\"key\":\"a\",\"value\":\"1\\n\"}}\n"
    );
    assert!(read_response(OK).unwrap().same(&Response::new_ok()));
    assert!(read_response(NOT_FOUND)
        .unwrap()
        .same(&Response::new_err("Key not found".to_string())));
    let mut two = value("v");
    two.extend_from_slice(OK);
    assert!(read_response(&two).unwrap().same(&Response::new_ok_with_body("v".to_string())));
    // no whole line came
    assert!(matches!(read_response(&OK[..OK.len() - 1]).unwrap_err().repr(), Repr::Codec(_)));
    assert!(read_response(b"").is_err());
    // the line is no reply
    assert!(read_response(b"{\"Get\":{\"key\":\"a\"}}\n").is_err());
}

/// An engine outside the library: a map behind three calls.
struct Outside {
    map: RefCell<HashMap<String, String>>,
}

impl Outside {
    fn new() -> Outside {
        Outside { map: RefCell::new(HashMap::new()) }
    }

    fn set(&self, key: String, value: String) -> Result<(), KvsError> {
        if key == "full" {
            return Err(KvsError::new(Repr::Io("disk full".to_string())));
        }
        self.map.borrow_mut().insert(key, value);
        Ok(())
    }

    fn get(&self, key: String) -> Result<Option<String>, KvsError> {
        Ok(self.map.borrow().get(&key).cloned())
    }

    fn remove(&self, key: String) -> Result<(), KvsError> {
        match self.map.borrow_mut().remove(&key) {
            Some(_) => Ok(()),
            None => Err(KvsError::key_not_found()),
        }
    }

    fn answer(&self, instruction: Instruction) -> Response {
        execute_by(
            instruction,
            &|key, value| self.set(key, value),
            &|key| self.get(key),
            &|key| self.remove(key),
        )
    }
}

#[test]
fn an_outside_engine_is_asked_through_its_three_calls() {
    let engine = Outside::new();
    assert!(engine.answer(put("a", "1")).same(&Response::new_ok()));
    assert!(engine.answer(get("a")).same(&Response::new_ok_with_body("1".to_string())));
    assert!(engine.answer(get("b")).same(&Response::new_err("Key not found".to_string())));
    assert!(engine.answer(put("full", "1")).same(&Response::new_err("disk full".to_string())));
    assert!(engine.answer(rm("b")).same(&Response::new_err("Key not found".to_string())));
    assert!(engine.answer(rm("a")).same(&Response::new_ok()));
    assert!(engine.answer(get("a")).same(&Response::new_err("Key not found".to_string())));
}

#[test]
fn an_outside_engine_serves_a_connection() {
    let engine = Outside::new();
    let answer = |instruction| engine.answer(instruction);
    assert_eq!(request_by(b"{\"Set\":{\"key\":\"a\",\"value\":\"1\"}}", &answer).unwrap(), OK);
    assert_eq!(request_by(b"{\"Get\":{\"key\":\"a\"}}", &answer).unwrap(), value("1"));
    assert!(matches!(request_by(b"what", &answer).unwrap_err().repr(), Repr::Codec(_)));

    let mut input = Vec::new();
    input.extend_from_slice(b"{\"Get\":{\"key\":\"a\"}}\n");
    input.extend_from_slice(b"{\"Rm\":{\"key\":\"a\"}}\n");
    input.extend_from_slice(b"{\"Get\":{\"key\":\"a\"}}\n");
    let whole = input.len();
    input.extend_from_slice(b"{\"Set\":");
    let served = serve_by(&input, &answer);
    assert!(served.failure.is_none());
    assert_eq!(served.consumed, whole);
    let mut expected = value("1");
    expected.extend_from_slice(OK);
    expected.extend_from_slice(NOT_FOUND);
    assert_eq!(served.replies, expected);

    let first = b"{\"Set\":{\"key\":\"b\",\"value\":\"2\"}}\n";
    let mut input = first.to_vec();
    input.extend_from_slice(b"{}\n{\"Get\":{\"key\":\"b\"}}\n");
    let served = serve_by(&input, &answer);
    assert!(matches!(served.failure.unwrap().repr(), Repr::Codec(_)));
    assert_eq!(served.consumed, first.len());
    assert_eq!(served.replies, OK);
}
