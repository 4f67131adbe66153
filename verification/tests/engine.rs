use kvs::command::Instruction;
use kvs::engine::kvs::THRESHOLD;
use kvs::{KvStore, KvsEngine, Repr};

fn fresh() -> KvStore {
    KvStore::open(Vec::new()).unwrap()
}

fn put_line(key: &str, value: &str) -> Vec<u8> {
    format!("{{\"Set\":{{\"key\":\"{}\",\"value\":\"{}\"}}}}\n", key, value).into_bytes()
}

fn rm_line(key: &str) -> Vec<u8> {
    format!("{{\"Rm\":{{\"key\":\"{}\"}}}}\n", key).into_bytes()
}

#[test]
fn set_then_get_returns_the_value() {
    let mut store = fresh();
    store.set("name".to_string(), "zero".to_string()).unwrap();
    assert_eq!(store.get("name".to_string()).unwrap(), Some("zero".to_string()));
}

#[test]
fn a_fresh_store_is_empty() {
    let store = fresh();
    assert_eq!(store.get("name".to_string()).unwrap(), None);
    assert!(store.log().is_empty());
    assert_eq!(store.stale(), 0);
    assert_eq!(store.compactions(), 0);
}

#[test]
fn set_appends_exactly_one_record() {
    let mut store = fresh();
    store.set("a".to_string(), "1".to_string()).unwrap();
    assert_eq!(store.log().as_slice(), put_line("a", "1").as_slice());
    store.set("b".to_string(), "2".to_string()).unwrap();
    let mut expected = put_line("a", "1");
    expected.extend_from_slice(&put_line("b", "2"));
    assert_eq!(store.log(), &expected);
    assert_eq!(store.stale(), 0);
}

#[test]
fn overwrite_and_remove_then_reopen() {
    let mut store = fresh();
    store.set("a".to_string(), "1".to_string()).unwrap();
    store.set("a".to_string(), "2".to_string()).unwrap();
    assert_eq!(store.get("a".to_string()).unwrap(), Some("2".to_string()));
    assert_eq!(store.stale(), 1);
    store.remove("a".to_string()).unwrap();
    assert_eq!(store.stale(), 2);
    assert_eq!(store.get("a".to_string()).unwrap(), None);
    let mut expected = put_line("a", "1");
    expected.extend_from_slice(&put_line("a", "2"));
    expected.extend_from_slice(&rm_line("a"));
    assert_eq!(store.log(), &expected);

    let reopened = KvStore::open(store.log().clone()).unwrap();
    assert_eq!(reopened.get("a".to_string()).unwrap(), None);
    assert_eq!(reopened.log(), store.log());
}

#[test]
fn remove_of_an_absent_key_is_key_not_found() {
    let mut store = fresh();
    store.set("a".to_string(), "1".to_string()).unwrap();
    let before = store.log().clone();
    let error = store.remove("b".to_string()).unwrap_err();
    assert!(matches!(error.repr(), Repr::KeyNotFound(text) if text == "Key not found"));
    assert_eq!(error.message(), "Key not found");
    assert_eq!(store.log(), &before);
    assert_eq!(store.stale(), 0);
    assert_eq!(store.get("a".to_string()).unwrap(), Some("1".to_string()));
}

#[test]
fn remove_twice_fails_the_second_time() {
    let mut store = fresh();
    store.set("a".to_string(), "1".to_string()).unwrap();
    store.remove("a".to_string()).unwrap();
    assert!(store.remove("a".to_string()).is_err());
}

#[test]
fn empty_key_and_empty_value_are_legal() {
    let mut store = fresh();
    store.set(String::new(), "v".to_string()).unwrap();
    store.set("k".to_string(), String::new()).unwrap();
    assert_eq!(store.get(String::new()).unwrap(), Some("v".to_string()));
    assert_eq!(store.get("k".to_string()).unwrap(), Some(String::new()));
    store.remove(String::new()).unwrap();
    assert_eq!(store.get(String::new()).unwrap(), None);
}

#[test]
fn key_equal_to_value() {
    let mut store = fresh();
    store.set("same".to_string(), "same".to_string()).unwrap();
    assert_eq!(store.get("same".to_string()).unwrap(), Some("same".to_string()));
}

#[test]
fn values_from_one_byte_to_many_kilobytes() {
    let mut store = fresh();
    let sizes = [1usize, 2, 100, 1024, 64 * 1024];
    for size in sizes {
        let value = "x".repeat(size);
        store.set(format!("k{}", size), value).unwrap();
    }
    for size in sizes {
        let value = store.get(format!("k{}", size)).unwrap().unwrap();
        assert_eq!(value.len(), size);
        assert!(value.bytes().all(|b| b == b'x'));
    }
}

#[test]
fn line_feeds_quotes_and_other_text_survive() {
    let texts = [
        "two\nlines",
        "carriage\r\nreturn",
        "a \"quoted\" word",
        "back\\slash",
        "ends with backslash\\",
        "tab\there",
        "\u{0}\u{1}\u{1f}",
        "gr\u{fc}\u{df}e \u{4e16}\u{754c} \u{1f600}",
        "{\"Set\":{\"key\":\"a\",\"value\":\"b\"}}",
        "}}",
        "\"",
    ];
    let mut store = fresh();
    for (i, text) in texts.iter().enumerate() {
        store.set(text.to_string(), format!("{}{}", text, i)).unwrap();
        store.set(format!("key{}", i), text.to_string()).unwrap();
    }
    assert_eq!(store.log().iter().filter(|b| **b == b'\n').count(), 2 * texts.len());
    let reopened = KvStore::open(store.log().clone()).unwrap();
    for (i, text) in texts.iter().enumerate() {
        assert_eq!(store.get(text.to_string()).unwrap(), Some(format!("{}{}", text, i)));
        assert_eq!(store.get(format!("key{}", i)).unwrap(), Some(text.to_string()));
        assert_eq!(reopened.get(text.to_string()).unwrap(), Some(format!("{}{}", text, i)));
        assert_eq!(reopened.get(format!("key{}", i)).unwrap(), Some(text.to_string()));
    }
}

#[test]
fn get_on_a_store_opened_on_a_log() {
    let mut log = put_line("a", "1");
    log.extend_from_slice(&put_line("b", "2"));
    log.extend_from_slice(&put_line("a", "3"));
    log.extend_from_slice(&rm_line("b"));
    let store = KvStore::open(log.clone()).unwrap();
    assert_eq!(store.get("a".to_string()).unwrap(), Some("3".to_string()));
    assert_eq!(store.get("b".to_string()).unwrap(), None);
    assert_eq!(store.log(), &log);
    assert_eq!(store.stale(), 0);
}

#[test]
fn open_passes_over_a_torn_record() {
    let mut log = put_line("a", "1");
    let whole = log.len();
    log.extend_from_slice(b"{\"Set\":{\"key\":\"b\",\"val");
    let mut store = KvStore::open(log).unwrap();
    assert_eq!(store.get("a".to_string()).unwrap(), Some("1".to_string()));
    assert_eq!(store.get("b".to_string()).unwrap(), None);
    assert_eq!(store.log().len(), whole);
    store.set("b".to_string(), "2".to_string()).unwrap();
    let reopened = KvStore::open(store.log().clone()).unwrap();
    assert_eq!(reopened.get("b".to_string()).unwrap(), Some("2".to_string()));
}

#[test]
fn open_passes_over_a_whole_record_without_its_line_feed() {
    let mut log = put_line("a", "1");
    let whole = log.len();
    let mut last = put_line("b", "2");
    last.pop();
    log.extend_from_slice(&last);
    let store = KvStore::open(log).unwrap();
    assert_eq!(store.get("b".to_string()).unwrap(), None);
    assert_eq!(store.log().len(), whole);
}

#[test]
fn open_on_a_log_that_is_one_torn_record() {
    let store = KvStore::open(b"{\"Set\"".to_vec()).unwrap();
    assert!(store.log().is_empty());
    assert_eq!(store.get("a".to_string()).unwrap(), None);
}

#[test]
fn open_passes_over_every_beginning_of_a_line() {
    let first = put_line("a", "1");
    let commands = [
        Instruction::Put { key: "k\n\u{e9}\"".to_string(), value: "v\\".to_string() },
        Instruction::Rm { key: "k\u{1}".to_string() },
        Instruction::Get { key: "k".to_string() },
    ];
    for command in &commands {
        let mut line = command.encode().unwrap();
        line.push(b'\n');
        for cut in 0..line.len() {
            let mut log = first.clone();
            log.extend_from_slice(&line[..cut]);
            let store = KvStore::open(log).unwrap();
            assert_eq!(store.log(), &first);
            assert_eq!(store.get("a".to_string()).unwrap(), Some("1".to_string()));
            assert!(Instruction::could_be_torn(&line[..cut]));
        }
        assert!(!Instruction::could_be_torn(&line));
    }
}

#[test]
fn open_fails_where_the_log_ends_with_bytes_that_are_no_torn_record() {
    let tails: [&[u8]; 12] = [
        b"garbage",
        b" ",
        b"{\"Sat",
        b"{\"Set\":{\"key\":x",
        b"{\"Set\":{\"key\": \"a",
        b"{\"Set\":{\"key\":\"a\\q",
        b"{\"Set\":{\"key\":\"a\";",
        b"{\"Set\":{\"key\":\"a\",\"value\":\"b\"}}}",
        b"{\"Set\":{\"key\":\"a\",\"value\":\"b\"}} ",
        b"{\"Rm\":{\"key\":\"a\",",
        b"{\"Rm\":{\"key\":\"a\\u00zz",
        b"{\"Get\":{\"key\":\"a\"}]",
    ];
    for tail in tails {
        assert!(!Instruction::could_be_torn(tail));
        let mut log = put_line("a", "1");
        log.extend_from_slice(tail);
        let error = KvStore::open(log).err().unwrap();
        assert!(matches!(error.repr(), Repr::Codec(_)));
        assert!(KvStore::open(tail.to_vec()).is_err());
    }
}

#[test]
fn open_fails_on_a_whole_record_that_is_no_command() {
    let mut log = put_line("a", "1");
    log.extend_from_slice(b"garbage\n");
    log.extend_from_slice(&put_line("b", "2"));
    let error = KvStore::open(log).err().unwrap();
    assert!(matches!(error.repr(), Repr::Codec(_)));
}

#[test]
fn open_fails_on_an_empty_line() {
    let mut log = put_line("a", "1");
    log.push(b'\n');
    assert!(matches!(KvStore::open(log).err().unwrap().repr(), Repr::Codec(_)));
}

#[test]
fn open_ignores_a_get_in_the_log() {
    let mut log = put_line("a", "1");
    log.extend_from_slice(b"{\"Get\":{\"key\":\"a\"}}\n");
    let store = KvStore::open(log).unwrap();
    assert_eq!(store.get("a".to_string()).unwrap(), Some("1".to_string()));
}

#[test]
fn open_accepts_the_removal_of_an_absent_key() {
    let mut log = rm_line("a");
    log.extend_from_slice(&put_line("a", "1"));
    let store = KvStore::open(log).unwrap();
    assert_eq!(store.get("a".to_string()).unwrap(), Some("1".to_string()));
}

#[test]
fn build_indx_gives_offsets_and_the_whole_length() {
    let first = put_line("a", "1");
    let second = put_line("b", "2");
    let third = put_line("a", "3");
    let mut log = first.clone();
    log.extend_from_slice(&second);
    log.extend_from_slice(&third);
    log.extend_from_slice(&rm_line("b"));
    let whole = log.len();
    log.extend_from_slice(b"{\"Rm\":{\"key\":\"tor");
    let (index, length) = KvStore::build_indx(&log).unwrap();
    assert_eq!(length, whole);
    assert_eq!(index.len(), 1);
    assert_eq!(index.get("a"), Some(&((first.len() + second.len()) as u64)));
    assert_eq!(index.get("b"), None);
}

#[test]
fn value_at_reads_the_record_at_the_offset() {
    let first = put_line("a", "1");
    let mut log = first.clone();
    log.extend_from_slice(&put_line("b", "2"));
    log.extend_from_slice(&rm_line("a"));
    let rm_at = log.len() - rm_line("a").len();
    log.extend_from_slice(b"{\"Set\":{\"key\":\"c\",\"value\":\"3\"}}");
    let torn_at = rm_at + rm_line("a").len();

    assert_eq!(KvStore::value_at(&log, 0, &"a".to_string()).unwrap(), "1");
    assert_eq!(KvStore::value_at(&log, first.len(), &"b".to_string()).unwrap(), "2");
    // the record sets another key
    assert!(matches!(
        KvStore::value_at(&log, 0, &"b".to_string()).unwrap_err().repr(),
        Repr::Codec(_)
    ));
    // the record is a removal
    assert!(KvStore::value_at(&log, rm_at, &"a".to_string()).is_err());
    // no record starts in the middle of one
    assert!(KvStore::value_at(&log, 1, &"a".to_string()).is_err());
    // the record is not whole
    assert!(KvStore::value_at(&log, torn_at, &"c".to_string()).is_err());
    // beyond the end
    assert!(KvStore::value_at(&log, log.len() + 1, &"a".to_string()).is_err());
    assert!(KvStore::value_at(&log, log.len(), &"a".to_string()).is_err());
}

#[test]
fn compact_keeps_one_record_for_each_key_in_order() {
    let mut store = fresh();
    store.set("a".to_string(), "1".to_string()).unwrap();
    store.set("b".to_string(), "2".to_string()).unwrap();
    store.set("c".to_string(), "3".to_string()).unwrap();
    store.set("a".to_string(), "4".to_string()).unwrap();
    store.remove("b".to_string()).unwrap();
    assert_eq!(store.stale(), 2);
    store.compact();
    let mut expected = put_line("c", "3");
    expected.extend_from_slice(&put_line("a", "4"));
    assert_eq!(store.log(), &expected);
    assert_eq!(store.stale(), 0);
    assert_eq!(store.compactions(), 1);
    assert_eq!(store.get("a".to_string()).unwrap(), Some("4".to_string()));
    assert_eq!(store.get("b".to_string()).unwrap(), None);
    assert_eq!(store.get("c".to_string()).unwrap(), Some("3".to_string()));

    store.set("b".to_string(), "5".to_string()).unwrap();
    assert_eq!(store.get("b".to_string()).unwrap(), Some("5".to_string()));
    let reopened = KvStore::open(store.log().clone()).unwrap();
    assert_eq!(reopened.get("a".to_string()).unwrap(), Some("4".to_string()));
    assert_eq!(reopened.get("b".to_string()).unwrap(), Some("5".to_string()));
}

#[test]
fn compact_of_an_empty_store() {
    let mut store = fresh();
    store.set("a".to_string(), "1".to_string()).unwrap();
    store.remove("a".to_string()).unwrap();
    store.compact();
    assert!(store.log().is_empty());
    assert_eq!(store.get("a".to_string()).unwrap(), None);
}

#[test]
fn do_compaction_waits_for_the_threshold() {
    let mut store = fresh();
    store.set("a".to_string(), "1".to_string()).unwrap();
    store.set("a".to_string(), "2".to_string()).unwrap();
    let before = store.log().clone();
    assert!(!store.do_compaction());
    assert_eq!(store.log(), &before);
    assert_eq!(store.stale(), 1);
    assert_eq!(store.compactions(), 0);
}

#[test]
fn the_log_is_rewritten_when_the_count_reaches_the_threshold() {
    assert_eq!(THRESHOLD, 4096);
    let mut store = fresh();
    store.set("k".to_string(), "0".to_string()).unwrap();
    for i in 1..THRESHOLD {
        store.set("k".to_string(), i.to_string()).unwrap();
        assert_eq!(store.stale(), i);
        assert_eq!(store.compactions(), 0);
    }
    store.set("k".to_string(), "last".to_string()).unwrap();
    assert_eq!(store.stale(), 0);
    assert_eq!(store.compactions(), 1);
    assert_eq!(store.log(), &put_line("k", "last"));
    assert_eq!(store.get("k".to_string()).unwrap(), Some("last".to_string()));
}

#[test]
fn ten_thousand_distinct_keys() {
    let mut store = fresh();
    let mut fresh_log: Vec<u8> = Vec::new();
    for i in 0..10000 {
        let key = format!("key{:05}", i);
        let value = format!("{:08}", i);
        fresh_log.extend_from_slice(&put_line(&key, &value));
        store.set(key, value).unwrap();
    }
    for i in 0..10000 {
        assert_eq!(store.get(format!("key{:05}", i)).unwrap(), Some(format!("{:08}", i)));
    }
    assert!(store.log().len() <= fresh_log.len());
    assert_eq!(store.log(), &fresh_log);
}

#[test]
fn five_thousand_writes_of_one_key() {
    let mut store = fresh();
    for i in 0..5000 {
        store.set("k".to_string(), format!("value{}", i)).unwrap();
    }
    assert_eq!(store.get("k".to_string()).unwrap(), Some("value4999".to_string()));
    assert!(store.compactions() >= 1);
    assert_eq!(store.compactions(), 1);
    assert_eq!(store.stale(), 5000 - 1 - THRESHOLD);
    assert_eq!(store.log().iter().filter(|b| **b == b'\n').count(), 1 + 5000 - 1 - THRESHOLD);
}

#[test]
fn removals_count_towards_the_threshold() {
    let mut store = fresh();
    for i in 0..THRESHOLD {
        store.set(format!("k{}", i), "v".to_string()).unwrap();
    }
    assert_eq!(store.stale(), 0);
    for i in 0..THRESHOLD - 1 {
        store.remove(format!("k{}", i)).unwrap();
        assert_eq!(store.stale(), i + 1);
    }
    store.remove(format!("k{}", THRESHOLD - 1)).unwrap();
    assert_eq!(store.stale(), 0);
    assert_eq!(store.compactions(), 1);
    assert!(store.log().is_empty());
}

#[test]
fn play_applies_a_command_to_an_index() {
    let (mut index, whole) = KvStore::build_indx(b"").unwrap();
    assert_eq!(whole, 0);
    assert!(index.is_empty());
    let put = Instruction::Put { key: "a".to_string(), value: "1".to_string() };
    put.play(&mut index, 7);
    assert_eq!(index.get("a"), Some(&7));
    put.play(&mut index, 40);
    assert_eq!(index.get("a"), Some(&40));
    assert_eq!(index.len(), 1);
    Instruction::Get { key: "a".to_string() }.play(&mut index, 50);
    assert_eq!(index.get("a"), Some(&40));
    Instruction::Rm { key: "b".to_string() }.play(&mut index, 60);
    assert_eq!(index.len(), 1);
    Instruction::Rm { key: "a".to_string() }.play(&mut index, 70);
    assert!(index.is_empty());
}

#[test]
fn append_takes_the_record_of_a_command() {
    let mut store = fresh();
    let put = Instruction::Put { key: "a".to_string(), value: "1".to_string() };
    let line = put.encode().unwrap();
    store.append(&put, &line);
    store.append(&put, &line);
    assert_eq!(store.get("a".to_string()).unwrap(), Some("1".to_string()));
    assert_eq!(store.stale(), 1);
    let rm = Instruction::Rm { key: "a".to_string() };
    store.append(&rm, &rm.encode().unwrap());
    assert_eq!(store.get("a".to_string()).unwrap(), None);
    assert_eq!(store.stale(), 2);
    assert_eq!(store.lookup(&"a".to_string()).unwrap(), None);
    let mut expected = put_line("a", "1");
    expected.extend_from_slice(&put_line("a", "1"));
    expected.extend_from_slice(&rm_line("a"));
    assert_eq!(store.log(), &expected);
}
