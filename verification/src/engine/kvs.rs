//! The log-structured engine.
use vstd::prelude::*;
use vstd::hash_map::StringHashMap;
use vstd::slice::slice_subrange;
use crate::command::{
    decode_command, is_record_of, played, record_of, run, step, Command, Instruction,
};
use crate::engine::KvsEngine;
use crate::error::KvsError;
use crate::frame::{append_bytes, codec_error, LINE_FEED};
use crate::log::{
    all_live, commands_of, compacted, copied_up_to, entries, find_line_end, index_matches, is_live,
    is_whole, lemma_copied_all, lemma_copy_dead, lemma_copy_live, lemma_entries_len,
    lemma_entries_of_whole_part, lemma_entries_push, lemma_entries_sit, lemma_live_members,
    lemma_live_sit, lemma_next_record, lemma_no_record_left, lemma_size, lemma_state_is_run,
    lemma_whole_len, live, opens, reads_at, sits_at, size_of, sound, state_of, whole_len, Entry,
};

verus! {

/// The number of stale records at which the log is rewritten.
pub const THRESHOLD: usize = 4096;

/// A store that keeps its state in a log of records.
///
/// The log is the truth: the index and the view follow from it. The index
/// maps each key that is set to the offset of the record that last set it.
pub struct KvStore {
    log: Vec<u8>,
    index: StringHashMap<u64>,
    stale: usize,
    rewrites: u64,
}

impl View for KvStore {
    type V = Map<Seq<char>, Seq<char>>;

    /// The keys that are set, each with its value.
    open spec fn view(&self) -> Map<Seq<char>, Seq<char>> {
        state_of(self.log_bytes())
    }
}

impl KvStore {
    /// The bytes of the log.
    pub closed spec fn log_bytes(&self) -> Seq<u8> {
        self.log@
    }

    /// The index: from each key that is set to the offset of its record.
    pub closed spec fn offsets(&self) -> Map<Seq<char>, u64> {
        self.index@
    }

    /// The count of records that were made stale since the log was opened or
    /// last rewritten.
    pub closed spec fn stale_count(&self) -> nat {
        self.stale as nat
    }

    /// How often the log was rewritten since it was opened.
    pub closed spec fn rewrite_count(&self) -> nat {
        self.rewrites as nat
    }

    /// The store's invariant: the log is made of whole records that all read
    /// as commands, the index is the one that replaying the log gives, and no
    /// more records are counted stale than the log holds.
    pub open spec fn wf(&self) -> bool {
        &&& is_whole(self.log_bytes())
        &&& sound(entries(self.log_bytes()))
        &&& index_matches(self.offsets(), entries(self.log_bytes()))
        &&& self.stale_count() <= entries(self.log_bytes()).len()
    }

    /// Whether the log holds nothing but the record of each key that is set:
    /// every record is the one that last set its key, there is one record
    /// for each key, and the log is as long as these records are together.
    pub open spec fn is_compact(&self) -> bool {
        &&& all_live(entries(self.log_bytes()))
        &&& entries(self.log_bytes()).len() == self@.dom().len()
        &&& self.log_bytes().len() == size_of(entries(self.log_bytes()))
    }

    /// What a `Put` or an `Rm` that is carried out makes of the store
    /// `before`: the record of `command` is appended, the index follows, one
    /// more record is counted stale if it made one stale, and the log is
    /// rewritten if the count has then reached the threshold.
    pub open spec fn follows(&self, before: &KvStore, command: Command, stales: bool) -> bool {
        let appended = before.log_bytes() + record_of(command)->Some_0 + seq![LINE_FEED];
        let stale = before.stale_count() + if stales {
            1nat
        } else {
            0nat
        };
        &&& self@ == step(before@, command)
        &&& if stale >= THRESHOLD {
            &&& self.log_bytes() == compacted(entries(appended), live(entries(appended)))
            &&& self.is_compact()
            &&& self.stale_count() == 0
            &&& self.rewrite_count() == if before.rewrite_count() < u64::MAX {
                before.rewrite_count() + 1
            } else {
                before.rewrite_count()
            }
        } else {
            &&& self.log_bytes() == appended
            &&& self.offsets() == played(
                before.offsets(),
                command,
                before.log_bytes().len() as u64,
            )
            &&& self.stale_count() == stale
            &&& self.rewrite_count() == before.rewrite_count()
        }
    }

    /// Replays a log: reads its records in order from offset 0 and applies
    /// each to an index that starts empty. Returns the index and the length
    /// of the part of the log that is made of whole records. Bytes after the
    /// last line feed are passed over if they can be what a torn write of a
    /// record left. Fails where they cannot, or where a whole record does
    /// not read as a command.
    pub fn build_indx(log: &[u8]) -> (r: Result<(StringHashMap<u64>, usize), KvsError>)
        ensures
            match r {
                Ok((index, whole)) => {
                    &&& opens(log@)
                    &&& whole == whole_len(log@)
                    &&& index_matches(index@, entries(log@))
                },
                Err(e) => !opens(log@) && e.repr() is Codec,
            },
    {
        let mut index: StringHashMap<u64> = StringHashMap::new();
        let mut pos: usize = 0;
        assert(log@.take(0) =~= Seq::<u8>::empty());
        loop
            invariant
                pos <= log.len(),
                is_whole(log@.take(pos as int)),
                sound(entries(log@.take(pos as int))),
                index_matches(index@, entries(log@.take(pos as int))),
            decreases log.len() - pos,
        {
            match find_line_end(log, pos) {
                None => {
                    proof {
                        lemma_no_record_left(log@, pos as int);
                    }
                    let rest = slice_subrange(log, pos, log.len());
                    assert(rest@ =~= log@.skip(pos as int));
                    if pos == log.len() || Instruction::could_be_torn(rest) {
                        return Ok((index, pos));
                    }
                    return Err(codec_error("the log ends with bytes that are no record"));
                },
                Some(end) => {
                    let line = slice_subrange(log, pos, end);
                    proof {
                        lemma_next_record(log@, pos as int, end as int);
                    }
                    match Instruction::decode(line) {
                        Err(e) => {
                            proof {
                                let n = entries(log@.take(pos as int)).len() as int;
                                assert(decode_command(entries(log@)[n].line) is None);
                            }
                            return Err(e);
                        },
                        Ok(instruction) => {
                            instruction.play(&mut index, pos as u64);
                            pos = end + 1;
                        },
                    }
                },
            }
        }
    }

    /// Opens a store on the bytes of its log. Replays the log to rebuild the
    /// index, and drops a torn record at the end of the log. Fails where a
    /// whole record does not read as a command, or where the log ends with
    /// bytes that no torn write of a record can have left.
    pub fn open(log: Vec<u8>) -> (r: Result<KvStore, KvsError>)
        ensures
            match r {
                Ok(store) => {
                    &&& store.wf()
                    &&& opens(log@)
                    &&& store.log_bytes() == log@.take(whole_len(log@) as int)
                    &&& store@ == state_of(log@)
                    &&& store.stale_count() == 0
                    &&& store.rewrite_count() == 0
                },
                Err(e) => !opens(log@) && e.repr() is Codec,
            },
    {
        let mut log = log;
        let ghost given = log@;
        let (index, whole) = KvStore::build_indx(log.as_slice())?;
        proof {
            lemma_whole_len(given);
            lemma_entries_of_whole_part(given);
        }
        log.truncate(whole);
        Ok(KvStore { log, index, stale: 0, rewrites: 0 })
    }

    /// Appends the record `line` of a `Put` or an `Rm` to the log, applies the
    /// command to the index at the record's offset, and counts one more stale
    /// record if the key was set before.
    pub fn append(&mut self, instruction: &Instruction, line: &[u8])
        requires
            old(self).wf(),
            is_record_of(line@, instruction@),
            !(instruction@ is Get),
        ensures
            final(self).wf(),
            final(self).log_bytes() == old(self).log_bytes() + line@ + seq![LINE_FEED],
            final(self).offsets() == played(
                old(self).offsets(),
                instruction@,
                old(self).log_bytes().len() as u64,
            ),
            final(self)@ == step(old(self)@, instruction@),
            final(self).stale_count() == old(self).stale_count() + (if old(self)@.contains_key(
                instruction@.key(),
            ) {
                1nat
            } else {
                0nat
            }),
            final(self).rewrite_count() == old(self).rewrite_count(),
    {
        let offset = self.log.len();
        let existed = self.index.contains_key(instruction.key().as_str());
        let ghost before = self.log@;
        append_bytes(&mut self.log, line);
        self.log.push(LINE_FEED);
        instruction.play(&mut self.index, offset as u64);
        proof {
            assert(self.log@ =~= before + line@ + seq![LINE_FEED]);
            lemma_entries_push(before, line@);
            assert(entries(self.log@).drop_last() =~= entries(before));
            lemma_entries_len(self.log@);
            assert(state_of(self.log@) =~= step(state_of(before), instruction@));
        }
        let grown = self.log.len();
        if existed {
            assert(self.stale < grown);
            self.stale += 1;
        }
    }

    /// Looks `key` up in the index and, where it is set, reads its value from
    /// the record at the offset that the index gives.
    pub fn lookup(&self, key: &String) -> (r: Result<Option<String>, KvsError>)
        requires
            self.wf(),
        ensures
            match r {
                Ok(Some(value)) => self@.contains_key(key@) && self@[key@] == value@,
                Ok(None) => !self@.contains_key(key@),
                Err(_) => false,
            },
    {
        match self.index.get(key.as_str()) {
            None => Ok(None),
            Some(offset) => {
                let len = self.log.len();
                proof {
                    let es = entries(self.log@);
                    lemma_live_members(es);
                    lemma_entries_sit(self.log@);
                    let entry = live(es)[key@];
                    assert(live(es).contains_key(key@));
                    assert(sits_at(self.log@, entry));
                    assert(reads_at(self.log@, entry.offset, entry.line));
                    assert(*offset == entry.offset);
                    assert(*offset < len);
                }
                let at = *offset as usize;
                match KvStore::value_at(self.log.as_slice(), at, key) {
                    Ok(value) => {
                        proof {
                            let entry = live(entries(self.log@))[key@];
                            let line = choose|line: Seq<u8>| #[trigger]
                                reads_at(self.log@, at as int, line) && decode_command(line)
                                    == Some(Command::Put { key: key@, value: value@ });
                            lemma_reads_once(self.log@, at as int, line, entry.line);
                        }
                        Ok(Some(value))
                    },
                    Err(e) => Err(e),
                }
            },
        }
    }

    /// Rewrites the log so that it holds exactly one record for each key that
    /// is set: the record that last set it. The records keep their order.
    /// The index is rebuilt for the new log and the count of stale records
    /// starts again at zero. The state stays as it is.
    pub fn compact(&mut self)
        requires
            old(self).wf(),
        ensures
            final(self).wf(),
            final(self)@ == old(self)@,
            final(self).stale_count() == 0,
            final(self).rewrite_count() == if old(self).rewrite_count() < u64::MAX {
                old(self).rewrite_count() + 1
            } else {
                old(self).rewrite_count()
            },
            final(self).log_bytes() == compacted(
                entries(old(self).log_bytes()),
                live(entries(old(self).log_bytes())),
            ),
            final(self).is_compact(),
    {
        let mut fresh: Vec<u8> = Vec::new();
        let mut index: StringHashMap<u64> = StringHashMap::new();
        let mut pos: usize = 0;
        let ghost given = self.log@;
        let ghost m = live(entries(given));
        proof {
            assert(given.take(0) =~= Seq::<u8>::empty());
            lemma_live_sit(given);
        }
        while pos < self.log.len()
            invariant
                self.wf(),
                self.log@ == given,
                m == live(entries(given)),
                pos <= given.len(),
                is_whole(given.take(pos as int)),
                is_whole(fresh@),
                sound(entries(fresh@)),
                index_matches(index@, entries(fresh@)),
                fresh@ == compacted(entries(given.take(pos as int)), m),
                copied_up_to(fresh@, m, pos as int),
                entries(fresh@).len() == live(entries(fresh@)).dom().len(),
                all_live(entries(fresh@)),
            decreases given.len() - pos,
        {
            match find_line_end(self.log.as_slice(), pos) {
                None => {
                    // the log of a store ends with a whole record
                    proof {
                        lemma_no_record_left(given, pos as int);
                        assert(false);
                    }
                    return ;
                },
                Some(end) => {
                    let line = slice_subrange(self.log.as_slice(), pos, end);
                    let ghost entry = Entry { offset: pos as int, line: line@ };
                    proof {
                        lemma_next_record(given, pos as int, end as int);
                    }
                    match Instruction::decode(line) {
                        Err(_) => {
                            // every record in the log of a store is a command
                            assert(false);
                            return ;
                        },
                        Ok(instruction) => {
                            let keep = match &instruction {
                                Instruction::Put { key, value: _ } => match self.index.get(
                                    key.as_str(),
                                ) {
                                    Some(offset) => *offset == pos as u64,
                                    None => false,
                                },
                                _ => false,
                            };
                            assert(keep == is_live(entry, m));
                            if keep {
                                let at = fresh.len();
                                proof {
                                    lemma_copy_live(given, pos as int, line@, fresh@, index@);
                                }
                                let ghost before = fresh@;
                                append_bytes(&mut fresh, line);
                                fresh.push(LINE_FEED);
                                instruction.play(&mut index, at as u64);
                                assert(fresh@ =~= before + line@ + seq![LINE_FEED]);
                            } else {
                                proof {
                                    lemma_copy_dead(given, pos as int, line@, fresh@);
                                }
                            }
                            pos = end + 1;
                        },
                    }
                },
            }
        }
        proof {
            assert(given.take(pos as int) =~= given);
            lemma_copied_all(given, fresh@);
            lemma_entries_len(fresh@);
            lemma_size(fresh@);
            assert(state_of(fresh@).dom() =~= live(entries(fresh@)).dom());
        }
        self.log = fresh;
        self.index = index;
        self.stale = 0;
        if self.rewrites < u64::MAX {
            self.rewrites += 1;
        }
    }

    /// Rewrites the log if the count of stale records has reached the
    /// threshold. Returns whether it did.
    pub fn do_compaction(&mut self) -> (did: bool)
        requires
            old(self).wf(),
        ensures
            final(self).wf(),
            final(self)@ == old(self)@,
            did == (old(self).stale_count() >= THRESHOLD),
            did ==> {
                &&& final(self).stale_count() == 0
                &&& final(self).rewrite_count() == if old(self).rewrite_count() < u64::MAX {
                    old(self).rewrite_count() + 1
                } else {
                    old(self).rewrite_count()
                }
                &&& final(self).log_bytes() == compacted(
                    entries(old(self).log_bytes()),
                    live(entries(old(self).log_bytes())),
                )
                &&& final(self).is_compact()
            },
            !did ==> *final(self) == *old(self),
    {
        if self.stale < THRESHOLD {
            return false;
        }
        self.compact();
        true
    }

    /// The bytes of the log.
    pub fn log(&self) -> (r: &Vec<u8>)
        ensures
            r@ == self.log_bytes(),
    {
        &self.log
    }

    /// The count of records that were made stale since the log was opened or
    /// last rewritten.
    pub fn stale(&self) -> (r: usize)
        ensures
            r == self.stale_count(),
    {
        self.stale
    }

    /// How often the log was rewritten since it was opened.
    pub fn compactions(&self) -> (r: u64)
        ensures
            r == self.rewrite_count(),
    {
        self.rewrites
    }

    /// Reads the one record that starts at `offset` and returns the value
    /// that it sets for `key`. Fails where no whole record starts there or
    /// the record is not a `Put` of `key`.
    pub fn value_at(log: &[u8], offset: usize, key: &String) -> (r: Result<String, KvsError>)
        ensures
            match r {
                Ok(value) => exists|line: Seq<u8>| #[trigger]
                    reads_at(log@, offset as int, line) && decode_command(line) == Some(
                        Command::Put { key: key@, value: value@ },
                    ),
                Err(e) => e.repr() is Codec && forall|line: Seq<u8>| #[trigger]
                    reads_at(log@, offset as int, line) ==> !(decode_command(line) matches Some(
                        Command::Put { key: found, value },
                    ) && found == key@),
            },
    {
        if offset > log.len() {
            return Err(codec_error("no record starts beyond the end of the log"));
        }
        match find_line_end(log, offset) {
            None => {
                proof {
                    assert forall|line: Seq<u8>| !(#[trigger] reads_at(
                        log@,
                        offset as int,
                        line,
                    )) by {
                        if reads_at(log@, offset as int, line) {
                            assert(log@.skip(offset as int)[line.len() as int] == LINE_FEED);
                        }
                    }
                }
                Err(codec_error("the record is not whole"))
            },
            Some(end) => {
                let line = slice_subrange(log, offset, end);
                proof {
                    assert(reads_at(log@, offset as int, line@));
                    assert forall|other: Seq<u8>| #[trigger]
                        reads_at(log@, offset as int, other) implies other == line@ by {
                        lemma_reads_once(log@, offset as int, line@, other);
                    }
                }
                match Instruction::decode(line) {
                    Ok(Instruction::Put { key: found, value }) => {
                        if found == *key {
                            Ok(value)
                        } else {
                            Err(codec_error("the record sets another key"))
                        }
                    },
                    Ok(_) => Err(codec_error("the record sets no value")),
                    Err(e) => Err(e),
                }
            },
        }
    }
}

impl KvsEngine for KvStore {
    open spec fn contents(&self) -> Map<Seq<char>, Seq<char>> {
        self@
    }

    open spec fn valid(&self) -> bool {
        self.wf()
    }

    /// A `set` fails if and only if the command has no record, and then
    /// changes nothing. Else the store follows the command.
    open spec fn set_gives(
        before: &Self,
        after: &Self,
        key: Seq<char>,
        val: Seq<char>,
        r: Result<(), KvsError>,
    ) -> bool {
        let command = Command::Put { key: key, value: val };
        match r {
            Ok(_) => record_of(command) is Some && after.follows(
                before,
                command,
                before@.contains_key(key),
            ),
            Err(e) => record_of(command) is None && e.repr() is Codec && *after == *before,
        }
    }

    /// A `get` does not fail, and gives the value of the key if and only if
    /// the key is set.
    open spec fn get_gives(&self, key: Seq<char>, r: Result<Option<String>, KvsError>) -> bool {
        match r {
            Ok(Some(value)) => self@.contains_key(key) && self@[key] == value@,
            Ok(None) => !self@.contains_key(key),
            Err(_) => false,
        }
    }

    /// A `remove` of a key that is not set fails with key-not-found. One of a
    /// key that is set fails if and only if the command has no record. A
    /// failure changes nothing. Else the store follows the command.
    open spec fn remove_gives(before: &Self, after: &Self, key: Seq<char>, r: Result<(), KvsError>) -> bool {
        let command = Command::Rm { key: key };
        match r {
            Ok(_) => before@.contains_key(key) && record_of(command) is Some && after.follows(
                before,
                command,
                true,
            ),
            Err(e) => *after == *before && if before@.contains_key(key) {
                record_of(command) is None && e.repr() is Codec
            } else {
                e.is_key_not_found()
            },
        }
    }

    /// Appends a `Put` record, makes the index point at it, counts one more
    /// stale record if the key was set before, and then rewrites the log if
    /// the count has reached the threshold.
    fn set(&mut self, key: String, val: String) -> (r: Result<(), KvsError>) {
        let instruction = Instruction::Put { key, value: val };
        let line = instruction.encode()?;
        self.append(&instruction, line.as_slice());
        self.do_compaction();
        Ok(())
    }

    /// Reads the value of `key` from the record that the index points at.
    fn get(&self, key: String) -> (r: Result<Option<String>, KvsError>) {
        self.lookup(&key)
    }

    /// Fails with key-not-found if the key is not set. Else appends an `Rm`
    /// record, forgets the key, counts one more stale record, and then
    /// rewrites the log if the count has reached the threshold.
    fn remove(&mut self, key: String) -> (r: Result<(), KvsError>) {
        if !self.index.contains_key(key.as_str()) {
            proof {
                assert(!state_of(self.log@).contains_key(key@));
            }
            return Err(KvsError::key_not_found());
        }
        proof {
            assert(state_of(self.log@).contains_key(key@));
        }
        let instruction = Instruction::Rm { key };
        let line = instruction.encode()?;
        self.append(&instruction, line.as_slice());
        self.do_compaction();
        Ok(())
    }
}

/// The log alone determines the store: a store that is opened on the log of
/// another has the same state and the same index, and opening on the log of
/// a store does not fail and keeps every byte.
pub proof fn lemma_reopen(store: &KvStore, reopened: &KvStore)
    requires
        store.wf(),
        reopened.wf(),
        reopened.log_bytes() == store.log_bytes(),
    ensures
        reopened@ == store@,
        reopened.offsets() == store.offsets(),
        opens(store.log_bytes()),
        whole_len(store.log_bytes()) == store.log_bytes().len(),
{
    let m = live(entries(store.log_bytes()));
    assert forall|k: Seq<char>| store.offsets().contains_key(k) implies reopened.offsets()[k]
        == store.offsets()[k] by {
        assert(m.contains_key(k));
    }
    assert(reopened.offsets() =~= store.offsets());
}

/// The index points at records: for every key that is set, a whole record
/// starts at the key's offset, and it is the `Put` of the key with the key's
/// value.
pub proof fn lemma_index_points_at_puts(store: &KvStore, key: Seq<char>)
    requires
        store.wf(),
        store@.contains_key(key),
    ensures
        store.offsets().contains_key(key),
        exists|line: Seq<u8>| #[trigger]
            reads_at(store.log_bytes(), store.offsets()[key] as int, line) && decode_command(line)
                == Some(Command::Put { key: key, value: store@[key] }),
{
    let es = entries(store.log_bytes());
    lemma_live_sit(store.log_bytes());
    let entry = live(es)[key];
    assert(live(es).contains_key(key));
    assert(sits_at(store.log_bytes(), entry));
    assert(reads_at(store.log_bytes(), entry.offset, entry.line));
}

/// The state and the index follow the records of the log in their order: the
/// state is what the commands of the log make of an empty store, and the
/// index holds exactly the keys that are set. So a key is in the index if
/// and only if the last record that changes it is a `Put`.
pub proof fn lemma_store_is_run(store: &KvStore)
    requires
        store.wf(),
    ensures
        store@ == run(commands_of(entries(store.log_bytes()))),
        store.offsets().dom() == store@.dom(),
{
    lemma_state_is_run(store.log_bytes());
    assert(store@.dom() =~= live(entries(store.log_bytes())).dom());
}

/// Every offset in the index lies inside the log. A `Put` that follows makes
/// its key point at the end of the log as it was, so the offset of a key
/// only grows as long as the log is not rewritten.
pub proof fn lemma_offsets_inside(store: &KvStore, key: Seq<char>)
    requires
        store.wf(),
        store.offsets().contains_key(key),
    ensures
        store.offsets()[key] < store.log_bytes().len(),
{
    lemma_live_sit(store.log_bytes());
    assert(live(entries(store.log_bytes())).contains_key(key));
}

/// At most one record is read at an offset.
pub proof fn lemma_reads_once(s: Seq<u8>, offset: int, a: Seq<u8>, b: Seq<u8>)
    requires
        reads_at(s, offset, a),
        reads_at(s, offset, b),
    ensures
        a == b,
{
    if a.len() < b.len() {
        let n = a.len() as int;
        assert(s.subrange(offset, offset + b.len())[n] == s[offset + n]);
        assert(b[n] == LINE_FEED);
    } else if b.len() < a.len() {
        let n = b.len() as int;
        assert(s.subrange(offset, offset + a.len())[n] == s[offset + n]);
        assert(a[n] == LINE_FEED);
    }
    assert(a =~= b);
}

} // verus!
