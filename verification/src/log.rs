//! The log as bytes, and what it means.
//!
//! A log is a sequence of records, each on a line of its own, ended by a
//! line feed. The record that starts at byte `o` is found again by `o`. Bytes
//! after the last line feed are a record that was not written to its end: they
//! are not part of the log's meaning. A log can be opened if they are a
//! beginning of a record's line; other bytes there make the log corrupt.
use vstd::prelude::*;
use crate::command::{decode_command, is_torn, run, step, Command};
use crate::frame::{unbroken, LINE_FEED};

verus! {

/// The length of the part of `s` that is made of whole records: up to and
/// with its last line feed.
pub open spec fn whole_len(s: Seq<u8>) -> nat
    decreases s.len(),
{
    if s.len() == 0 {
        0
    } else if s.last() == LINE_FEED {
        s.len()
    } else {
        whole_len(s.drop_last())
    }
}

/// Whether `s` ends with a whole record, or is empty.
pub open spec fn is_whole(s: Seq<u8>) -> bool {
    whole_len(s) == s.len()
}

/// A record of a log: where it starts, and its bytes without the line feed.
pub struct Entry {
    pub offset: int,
    pub line: Seq<u8>,
}

/// The whole records of `s`, in the order in which they were written.
pub open spec fn entries(s: Seq<u8>) -> Seq<Entry>
    decreases s.len(),
{
    if s.len() == 0 {
        Seq::empty()
    } else if s.last() != LINE_FEED {
        entries(s.drop_last())
    } else {
        let body = s.drop_last();
        let start = whole_len(body);
        proof {
            lemma_whole_len(body);
        }
        entries(body.take(start as int)).push(
            Entry { offset: start as int, line: body.skip(start as int) },
        )
    }
}

/// Whether the record `e` stands in `s`: its bytes at its offset, a line feed
/// after them and, unless it is the first, a line feed before them.
pub open spec fn sits_at(s: Seq<u8>, e: Entry) -> bool {
    &&& 0 <= e.offset
    &&& e.offset + e.line.len() < s.len()
    &&& s.subrange(e.offset, e.offset + e.line.len()) == e.line
    &&& s[e.offset + e.line.len()] == LINE_FEED
    &&& unbroken(e.line)
    &&& (e.offset == 0 || s[e.offset - 1] == LINE_FEED)
}

/// Whether every record reads as a command.
pub open spec fn sound(es: Seq<Entry>) -> bool {
    forall|i: int| 0 <= i < es.len() ==> decode_command(#[trigger] es[i].line) is Some
}

/// Whether the log `s` can be opened: every whole record reads as a command,
/// and what follows the last whole record is nothing, or what a torn write of
/// a record can have left.
pub open spec fn opens(s: Seq<u8>) -> bool {
    sound(entries(s)) && (is_whole(s) || is_torn(s.skip(whole_len(s) as int)))
}

/// The effect of one record on the map from each key to the record that
/// last set it.
pub open spec fn apply(m: Map<Seq<char>, Entry>, e: Entry) -> Map<Seq<char>, Entry> {
    match decode_command(e.line) {
        Some(Command::Put { key, value }) => m.insert(key, e),
        Some(Command::Rm { key }) => m.remove(key),
        _ => m,
    }
}

/// The map from each key that is set to the record that last set it, after
/// the records `es` in order.
pub open spec fn live(es: Seq<Entry>) -> Map<Seq<char>, Entry>
    decreases es.len(),
{
    if es.len() == 0 {
        Map::empty()
    } else {
        apply(live(es.drop_last()), es.last())
    }
}

/// The value that the record `e` sets.
pub open spec fn value_of(e: Entry) -> Seq<char> {
    match decode_command(e.line) {
        Some(Command::Put { key, value }) => value,
        _ => Seq::empty(),
    }
}

/// The state that the log `s` stands for: each key that is set, with its
/// value.
pub open spec fn state_of(s: Seq<u8>) -> Map<Seq<char>, Seq<char>> {
    live(entries(s)).map_values(|e: Entry| value_of(e))
}

/// `whole_len` marks the last line feed.
pub proof fn lemma_whole_len(s: Seq<u8>)
    ensures
        whole_len(s) <= s.len(),
        whole_len(s) == 0 || s[whole_len(s) - 1] == LINE_FEED,
        unbroken(s.skip(whole_len(s) as int)),
        is_whole(s.take(whole_len(s) as int)),
    decreases s.len(),
{
    if s.len() == 0 {
    } else if s.last() == LINE_FEED {
        assert(s.take(s.len() as int) =~= s);
    } else {
        let t = s.drop_last();
        lemma_whole_len(t);
        let w = whole_len(t) as int;
        assert forall|i: int| 0 <= i < s.skip(w).len() implies s.skip(w)[i] != LINE_FEED by {
            if i < t.skip(w).len() {
                assert(s.skip(w)[i] == t.skip(w)[i]);
            }
        }
        assert(s.take(w) =~= t.take(w));
    }
}

/// Bytes without a line feed, added at the end, leave the whole part as it
/// is.
pub proof fn lemma_whole_len_append(a: Seq<u8>, b: Seq<u8>)
    requires
        unbroken(b),
    ensures
        whole_len(a + b) == whole_len(a),
        entries(a + b) == entries(a),
    decreases b.len(),
{
    if b.len() == 0 {
        assert(a + b =~= a);
    } else {
        let s = a + b;
        assert(s.last() == b.last());
        assert(s.drop_last() =~= a + b.drop_last());
        lemma_whole_len_append(a, b.drop_last());
    }
}

/// A torn record at the end does not count.
pub proof fn lemma_entries_of_whole_part(s: Seq<u8>)
    ensures
        entries(s.take(whole_len(s) as int)) == entries(s),
{
    lemma_whole_len(s);
    let w = whole_len(s) as int;
    assert(s =~= s.take(w) + s.skip(w));
    lemma_whole_len_append(s.take(w), s.skip(w));
}

/// A record that is appended to a log of whole records becomes its last
/// entry, at the offset where the log ended.
pub proof fn lemma_entries_push(a: Seq<u8>, line: Seq<u8>)
    requires
        is_whole(a),
        unbroken(line),
    ensures
        is_whole(a + line + seq![LINE_FEED]),
        entries(a + line + seq![LINE_FEED]) == entries(a).push(
            Entry { offset: a.len() as int, line: line },
        ),
{
    let s = a + line + seq![LINE_FEED];
    let body = s.drop_last();
    assert(s.last() == LINE_FEED);
    assert(body =~= a + line);
    lemma_whole_len_append(a, line);
    assert(body.take(a.len() as int) =~= a);
    assert(body.skip(a.len() as int) =~= line);
}

/// A record that stands in a log stands in every extension of it.
pub proof fn lemma_sits_at_extends(a: Seq<u8>, b: Seq<u8>, e: Entry)
    requires
        sits_at(a, e),
    ensures
        sits_at(a + b, e),
{
    let s = a + b;
    assert(s.subrange(e.offset, e.offset + e.line.len()) =~= a.subrange(
        e.offset,
        e.offset + e.line.len(),
    ));
}

/// Every entry of a log stands in it.
pub proof fn lemma_entries_sit(s: Seq<u8>)
    ensures
        forall|i: int| 0 <= i < entries(s).len() ==> sits_at(s, #[trigger] entries(s)[i]),
    decreases s.len(),
{
    if s.len() == 0 {
    } else if s.last() != LINE_FEED {
        let t = s.drop_last();
        lemma_entries_sit(t);
        assert(s =~= t + seq![s.last()]);
        assert forall|i: int| 0 <= i < entries(s).len() implies sits_at(
            s,
            #[trigger] entries(s)[i],
        ) by {
            lemma_sits_at_extends(t, seq![s.last()], entries(t)[i]);
        }
    } else {
        let body = s.drop_last();
        lemma_whole_len(body);
        let start = whole_len(body) as int;
        let head = body.take(start);
        let line = body.skip(start);
        lemma_entries_sit(head);
        assert(s =~= head + (line + seq![LINE_FEED]));
        let last = Entry { offset: start, line: line };
        assert(s.subrange(start, start + line.len()) =~= line);
        assert(sits_at(s, last));
        assert forall|i: int| 0 <= i < entries(s).len() implies sits_at(
            s,
            #[trigger] entries(s)[i],
        ) by {
            if i < entries(head).len() {
                lemma_sits_at_extends(head, line + seq![LINE_FEED], entries(head)[i]);
            }
        }
    }
}

/// Two records that stand in a log at the same offset are the same record.
pub proof fn lemma_same_offset(s: Seq<u8>, e1: Entry, e2: Entry)
    requires
        sits_at(s, e1),
        sits_at(s, e2),
        e1.offset == e2.offset,
    ensures
        e1 == e2,
{
    let o = e1.offset;
    if e1.line.len() < e2.line.len() {
        let n = e1.line.len() as int;
        assert(s.subrange(o, o + e2.line.len())[n] == s[o + n]);
        assert(e2.line[n] == LINE_FEED);
    } else if e2.line.len() < e1.line.len() {
        let n = e2.line.len() as int;
        assert(s.subrange(o, o + e1.line.len())[n] == s[o + n]);
        assert(e1.line[n] == LINE_FEED);
    }
    assert(e1.line =~= e2.line);
}

/// No record starts inside another.
pub proof fn lemma_no_start_inside(s: Seq<u8>, e1: Entry, e2: Entry)
    requires
        sits_at(s, e1),
        sits_at(s, e2),
    ensures
        !(e1.offset < e2.offset <= e1.offset + e1.line.len()),
{
    if e1.offset < e2.offset <= e1.offset + e1.line.len() {
        let j = e2.offset - 1 - e1.offset;
        assert(s.subrange(e1.offset, e1.offset + e1.line.len())[j] == s[e2.offset - 1]);
        assert(e1.line[j] == LINE_FEED);
    }
}

/// The record that `live` gives for a key is a record of the log, and it sets
/// that key.
pub proof fn lemma_live_members(es: Seq<Entry>)
    ensures
        live(es).dom().finite(),
        forall|k: Seq<char>| #[trigger]
            live(es).contains_key(k) ==> {
                &&& exists|i: int| 0 <= i < es.len() && es[i] == live(es)[k]
                &&& decode_command(live(es)[k].line) matches Some(Command::Put { key, value })
                &&& key == k
            },
    decreases es.len(),
{
    if es.len() == 0 {
    } else {
        let front = es.drop_last();
        lemma_live_members(front);
        assert forall|k: Seq<char>| #[trigger] live(es).contains_key(k) implies {
            &&& exists|i: int| 0 <= i < es.len() && es[i] == live(es)[k]
            &&& decode_command(live(es)[k].line) matches Some(Command::Put { key, value })
            &&& key == k
        } by {
            if live(es)[k] == es.last() && !(live(front).contains_key(k) && live(front)[k]
                == live(es)[k]) {
                assert(es[es.len() - 1] == live(es)[k]);
            } else {
                assert(live(front).contains_key(k));
                let i = choose|i: int| 0 <= i < front.len() && front[i] == live(front)[k];
                assert(es[i] == live(es)[k]);
            }
        }
    }
}

/// A log of whole records is at least as long after more bytes.
pub proof fn lemma_whole_len_grows(a: Seq<u8>, b: Seq<u8>)
    requires
        is_whole(a),
    ensures
        whole_len(a + b) >= a.len(),
    decreases b.len(),
{
    if b.len() == 0 {
        assert(a + b =~= a);
    } else {
        let s = a + b;
        assert(s.last() == b.last());
        assert(s.drop_last() =~= a + b.drop_last());
        lemma_whole_len_grows(a, b.drop_last());
    }
}

/// The records of a log of whole records stay, in their places, when more
/// bytes follow.
pub proof fn lemma_entries_prefix(a: Seq<u8>, b: Seq<u8>)
    requires
        is_whole(a),
    ensures
        entries(a).len() <= entries(a + b).len(),
        forall|i: int| 0 <= i < entries(a).len() ==> entries(a + b)[i] == entries(a)[i],
    decreases b.len(),
{
    let s = a + b;
    if b.len() == 0 {
        assert(s =~= a);
    } else if s.last() != LINE_FEED {
        assert(s.last() == b.last());
        assert(s.drop_last() =~= a + b.drop_last());
        lemma_entries_prefix(a, b.drop_last());
    } else {
        let body = s.drop_last();
        assert(body =~= a + b.drop_last());
        lemma_whole_len(body);
        lemma_whole_len_grows(a, b.drop_last());
        let start = whole_len(body) as int;
        let rest = b.drop_last().take(start - a.len());
        assert(body.take(start) =~= a + rest);
        lemma_entries_prefix(a, rest);
    }
}

/// A log has no more records than bytes.
pub proof fn lemma_entries_len(s: Seq<u8>)
    ensures
        entries(s).len() <= s.len(),
    decreases s.len(),
{
    if s.len() == 0 {
    } else if s.last() != LINE_FEED {
        lemma_entries_len(s.drop_last());
    } else {
        let body = s.drop_last();
        lemma_whole_len(body);
        lemma_entries_len(body.take(whole_len(body) as int));
    }
}

/// Whether the bytes `line`, and a line feed after them, stand in `s` at
/// `offset`.
pub open spec fn reads_at(s: Seq<u8>, offset: int, line: Seq<u8>) -> bool {
    &&& 0 <= offset
    &&& offset + line.len() < s.len()
    &&& s.subrange(offset, offset + line.len()) == line
    &&& s[offset + line.len()] == LINE_FEED
    &&& unbroken(line)
}

/// Whether `index` holds, for each key that is set after the records `es`,
/// the offset of the record that last set it, and nothing else.
pub open spec fn index_matches(index: Map<Seq<char>, u64>, es: Seq<Entry>) -> bool {
    &&& index.dom() =~= live(es).dom()
    &&& forall|k: Seq<char>| #[trigger] live(es).contains_key(k) ==> index[k] == live(es)[k].offset
}

/// The record that is found between a record boundary `pos` and the next
/// line feed, at `end`, is the next entry of the log.
pub proof fn lemma_next_record(s: Seq<u8>, pos: int, end: int)
    requires
        0 <= pos <= end < s.len(),
        is_whole(s.take(pos)),
        s[end] == LINE_FEED,
        unbroken(s.subrange(pos, end)),
    ensures
        ({
            let entry = Entry { offset: pos, line: s.subrange(pos, end) };
            let n = entries(s.take(pos)).len() as int;
            &&& is_whole(s.take(end + 1))
            &&& entries(s.take(end + 1)) == entries(s.take(pos)).push(entry)
            &&& entries(s.take(end + 1)).drop_last() == entries(s.take(pos))
            &&& n < entries(s).len()
            &&& entries(s)[n] == entry
            &&& sits_at(s, entry)
        }),
{
    let done = s.take(pos);
    let line = s.subrange(pos, end);
    let next = s.take(end + 1);
    let entry = Entry { offset: pos, line: line };
    let n = entries(done).len() as int;
    assert(next =~= done + line + seq![LINE_FEED]);
    lemma_entries_push(done, line);
    assert(entries(next).drop_last() =~= entries(done));
    assert(entries(next)[n] == entry);
    assert(s =~= next + s.skip(end + 1));
    lemma_entries_prefix(next, s.skip(end + 1));
    assert(entries(next + s.skip(end + 1))[n] == entries(next)[n]);
    lemma_entries_sit(s);
    assert(sits_at(s, entries(s)[n]));
}

/// No record starts where the whole part of a log has ended.
pub proof fn lemma_no_record_left(s: Seq<u8>, pos: int)
    requires
        0 <= pos <= s.len(),
        is_whole(s.take(pos)),
        unbroken(s.skip(pos)),
    ensures
        whole_len(s) == pos,
        entries(s) == entries(s.take(pos)),
{
    assert(s =~= s.take(pos) + s.skip(pos));
    lemma_whole_len_append(s.take(pos), s.skip(pos));
}

/// Whether the record `e` is the one that last set its key, by the map `m`
/// from each key to the record that last set it.
pub open spec fn is_live(e: Entry, m: Map<Seq<char>, Entry>) -> bool {
    decode_command(e.line) matches Some(Command::Put { key, value }) && m.contains_key(key)
        && m[key].offset == e.offset
}

/// The log that holds, of the records `es`, those that are live by `m`, in
/// their order, each with its line feed.
pub open spec fn compacted(es: Seq<Entry>, m: Map<Seq<char>, Entry>) -> Seq<u8>
    decreases es.len(),
{
    if es.len() == 0 {
        Seq::empty()
    } else if is_live(es.last(), m) {
        compacted(es.drop_last(), m) + es.last().line + seq![LINE_FEED]
    } else {
        compacted(es.drop_last(), m)
    }
}

/// Whether each of the records `es` is the one that last set its key.
pub open spec fn all_live(es: Seq<Entry>) -> bool {
    forall|i: int| 0 <= i < es.len() ==> is_live(#[trigger] es[i], live(es))
}

/// The bytes that the records `es` take in a log, each with its line feed.
pub open spec fn size_of(es: Seq<Entry>) -> nat
    decreases es.len(),
{
    if es.len() == 0 {
        0
    } else {
        size_of(es.drop_last()) + es.last().line.len() + 1
    }
}

/// Whether the log `n` holds the record of each key whose record, by `m`,
/// starts before `pos`, and of no other key.
pub open spec fn copied_up_to(n: Seq<u8>, m: Map<Seq<char>, Entry>, pos: int) -> bool {
    &&& forall|k: Seq<char>| #[trigger]
        live(entries(n)).contains_key(k) ==> m.contains_key(k) && m[k].offset < pos && live(
            entries(n),
        )[k].line == m[k].line
    &&& forall|k: Seq<char>| #[trigger]
        m.contains_key(k) && m[k].offset < pos ==> live(entries(n)).contains_key(k)
}

/// The record that last set a key stands in the log, and it sets that key.
pub proof fn lemma_live_sit(s: Seq<u8>)
    ensures
        live(entries(s)).dom().finite(),
        forall|k: Seq<char>| #[trigger]
            live(entries(s)).contains_key(k) ==> {
                &&& sits_at(s, live(entries(s))[k])
                &&& decode_command(live(entries(s))[k].line) matches Some(
                    Command::Put { key, value },
                )
                &&& key == k
            },
{
    let es = entries(s);
    lemma_live_members(es);
    lemma_entries_sit(s);
    assert forall|k: Seq<char>| #[trigger] live(es).contains_key(k) implies sits_at(
        s,
        live(es)[k],
    ) by {
        let i = choose|i: int| 0 <= i < es.len() && es[i] == live(es)[k];
        assert(sits_at(s, es[i]));
    }
}

/// Copying a live record: the new log then holds the record of its key too,
/// and the index that has the key point at the copy is the index of the new
/// log.
pub proof fn lemma_copy_live(
    s: Seq<u8>,
    pos: int,
    line: Seq<u8>,
    n: Seq<u8>,
    index: Map<Seq<char>, u64>,
)
    requires
        sits_at(s, Entry { offset: pos, line: line }),
        is_live(Entry { offset: pos, line: line }, live(entries(s))),
        is_whole(n),
        n.len() <= u64::MAX,
        sound(entries(n)),
        index_matches(index, entries(n)),
        copied_up_to(n, live(entries(s)), pos),
        entries(n).len() == live(entries(n)).dom().len(),
        all_live(entries(n)),
    ensures
        ({
            let grown = n + line + seq![LINE_FEED];
            let key = decode_command(line)->Some_0.key();
            &&& is_whole(grown)
            &&& sound(entries(grown))
            &&& all_live(entries(grown))
            &&& index_matches(index.insert(key, n.len() as u64), entries(grown))
            &&& copied_up_to(grown, live(entries(s)), pos + line.len() + 1)
            &&& entries(grown).len() == live(entries(grown)).dom().len()
        }),
{
    let m = live(entries(s));
    let e = Entry { offset: pos, line: line };
    let grown = n + line + seq![LINE_FEED];
    let copy = Entry { offset: n.len() as int, line: line };
    lemma_live_sit(s);
    lemma_live_sit(n);
    lemma_entries_push(n, line);
    assert(entries(grown).drop_last() =~= entries(n));
    let key = decode_command(line)->Some_0.key();
    assert(live(entries(grown)) == live(entries(n)).insert(key, copy));
    lemma_same_offset(s, e, m[key]);
    assert(!live(entries(n)).contains_key(key));
    assert forall|k: Seq<char>| #[trigger] live(entries(grown)).contains_key(k) implies m.contains_key(
        k,
    ) && m[k].offset < pos + line.len() + 1 && live(entries(grown))[k].line == m[k].line by {
        if k != key {
            assert(live(entries(n)).contains_key(k));
        }
    }
    assert forall|k: Seq<char>| #[trigger]
        m.contains_key(k) && m[k].offset < pos + line.len() + 1 implies live(
        entries(grown),
    ).contains_key(k) by {
        if k != key {
            lemma_no_start_inside(s, e, m[k]);
            if m[k].offset == pos {
                lemma_same_offset(s, e, m[k]);
            }
            assert(m[k].offset < pos);
        }
    }
    assert(index.insert(key, n.len() as u64).dom() =~= live(entries(grown)).dom());
    assert forall|i: int| 0 <= i < entries(grown).len() implies is_live(
        #[trigger] entries(grown)[i],
        live(entries(grown)),
    ) by {
        if i < entries(n).len() {
            assert(entries(grown)[i] == entries(n)[i]);
            assert(is_live(entries(n)[i], live(entries(n))));
        }
    }
}

/// Passing over a record that is not live: the new log holds what it held.
pub proof fn lemma_copy_dead(s: Seq<u8>, pos: int, line: Seq<u8>, n: Seq<u8>)
    requires
        sits_at(s, Entry { offset: pos, line: line }),
        !is_live(Entry { offset: pos, line: line }, live(entries(s))),
        copied_up_to(n, live(entries(s)), pos),
    ensures
        copied_up_to(n, live(entries(s)), pos + line.len() + 1),
{
    let m = live(entries(s));
    let e = Entry { offset: pos, line: line };
    lemma_live_sit(s);
    assert forall|k: Seq<char>| #[trigger]
        m.contains_key(k) && m[k].offset < pos + line.len() + 1 implies live(
        entries(n),
    ).contains_key(k) by {
        lemma_no_start_inside(s, e, m[k]);
        if m[k].offset == pos {
            lemma_same_offset(s, e, m[k]);
        }
        assert(m[k].offset < pos);
    }
}

/// A log that holds the record of every key that is set, and of no other,
/// stands for the same state.
pub proof fn lemma_copied_all(s: Seq<u8>, n: Seq<u8>)
    requires
        copied_up_to(n, live(entries(s)), s.len() as int),
    ensures
        state_of(n) == state_of(s),
        live(entries(n)).dom() == live(entries(s)).dom(),
{
    let m = live(entries(s));
    lemma_live_sit(s);
    assert(live(entries(n)).dom() =~= m.dom());
    assert forall|k: Seq<char>| live(entries(n)).contains_key(k) implies value_of(
        live(entries(n))[k],
    ) == value_of(m[k]) by {}
    assert(state_of(n) =~= state_of(s));
}

/// A log of whole records is as long as its records are together.
pub proof fn lemma_size(s: Seq<u8>)
    requires
        is_whole(s),
    ensures
        s.len() == size_of(entries(s)),
    decreases s.len(),
{
    if s.len() > 0 {
        lemma_whole_len(s.drop_last());
        let body = s.drop_last();
        let start = whole_len(body) as int;
        lemma_size(body.take(start));
        assert(entries(s).drop_last() =~= entries(body.take(start)));
    }
}

/// An empty log stands for an empty store.
pub proof fn lemma_empty_log()
    ensures
        state_of(Seq::<u8>::empty()) == Map::<Seq<char>, Seq<char>>::empty(),
        entries(Seq::<u8>::empty()) == Seq::<Entry>::empty(),
        is_whole(Seq::<u8>::empty()),
{
    assert(state_of(Seq::<u8>::empty()) =~= Map::<Seq<char>, Seq<char>>::empty());
}

/// The commands that the records `es` hold, in their order.
pub open spec fn commands_of(es: Seq<Entry>) -> Seq<Command> {
    Seq::new(es.len(), |i: int| decode_command(es[i].line)->Some_0)
}

/// The state of a log is what its commands make of an empty store, one
/// after the other.
pub proof fn lemma_state_is_run(s: Seq<u8>)
    requires
        sound(entries(s)),
    ensures
        state_of(s) == run(commands_of(entries(s))),
{
    lemma_values_are_run(entries(s));
}

proof fn lemma_values_are_run(es: Seq<Entry>)
    requires
        sound(es),
    ensures
        live(es).map_values(|e: Entry| value_of(e)) == run(commands_of(es)),
    decreases es.len(),
{
    let values = |e: Entry| value_of(e);
    if es.len() == 0 {
        assert(live(es).map_values(values) =~= Map::<Seq<char>, Seq<char>>::empty());
    } else {
        let front = es.drop_last();
        assert forall|i: int| 0 <= i < front.len() implies decode_command(
            #[trigger] front[i].line,
        ) is Some by {
            assert(front[i] == es[i]);
        }
        lemma_values_are_run(front);
        assert(decode_command(es[es.len() - 1].line) is Some);
        assert(commands_of(es).drop_last() =~= commands_of(front));
        assert(live(es).map_values(values) =~= step(
            live(front).map_values(values),
            commands_of(es).last(),
        ));
    }
}

/// Finds the line feed that ends the record starting at `from`.
pub fn find_line_end(log: &[u8], from: usize) -> (r: Option<usize>)
    ensures
        match r {
            Some(end) => from <= end < log.len() && log@[end as int] == LINE_FEED && unbroken(
                log@.subrange(from as int, end as int),
            ),
            None => from > log.len() || unbroken(log@.skip(from as int)),
        },
{
    if from > log.len() {
        return None;
    }
    let mut at: usize = from;
    while at < log.len()
        invariant
            from <= at <= log.len(),
            forall|j: int| from <= j < at ==> log@[j] != LINE_FEED,
        decreases log.len() - at,
    {
        if log[at] == LINE_FEED {
            return Some(at);
        }
        at += 1;
    }
    None
}

} // verus!
