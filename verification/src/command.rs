//! The commands of the store, and their records.
use vstd::prelude::*;
use vstd::hash_map::StringHashMap;
use vstd::string::StringSliceAdditionalSpecFns;
use crate::error::KvsError;
use crate::frame::{
    codec_error, cut_pair, cut_single, has_at, is_cut_pair, is_cut_single, is_unbroken, pair_bytes,
    pair_of, read_pair, read_single, single_bytes, single_of, stands_at, unbroken, write_pair,
    write_single,
};

verus! {

/// How the record of a `Put` opens.
pub const PUT_HEAD: &'static str = "{\"Set\":{\"key\":";

/// What stands between the key and the value of a `Put`.
pub const VALUE_SEP: &'static str = ",\"value\":";

/// How the record of an `Rm` opens.
pub const RM_HEAD: &'static str = "{\"Rm\":{\"key\":";

/// How the record of a `Get` opens.
pub const GET_HEAD: &'static str = "{\"Get\":{\"key\":";

/// How the record of a command closes.
pub const COMMAND_TAIL: &'static str = "}}";

/// A command of the store. `Get` travels on the wire only; the log holds
/// `Put` and `Rm`.
#[derive(Debug)]
pub enum Instruction {
    /// Asks for the value of `key`. Its record is tagged `Get`.
    Get { key: String },
    /// Sets `key` to `value`. Its record is tagged `Set`.
    Put { key: String, value: String },
    /// Removes `key`. Its record is tagged `Rm`.
    Rm { key: String },
}

/// A command as a mathematical value.
pub enum Command {
    Get { key: Seq<char> },
    Put { key: Seq<char>, value: Seq<char> },
    Rm { key: Seq<char> },
}

impl View for Instruction {
    type V = Command;

    open spec fn view(&self) -> Command {
        match self {
            Instruction::Get { key } => Command::Get { key: key@ },
            Instruction::Put { key, value } => Command::Put { key: key@, value: value@ },
            Instruction::Rm { key } => Command::Rm { key: key@ },
        }
    }
}

impl Command {
    /// Whether the command sets or removes `key`.
    pub open spec fn changes(self, key: Seq<char>) -> bool {
        match self {
            Command::Get { key: k } => false,
            Command::Put { key: k, value } => k == key,
            Command::Rm { key: k } => k == key,
        }
    }

    /// The key that the command speaks of.
    pub open spec fn key(self) -> Seq<char> {
        match self {
            Command::Get { key } => key,
            Command::Put { key, value } => key,
            Command::Rm { key } => key,
        }
    }
}

/// The state after `command`, from the state `m` before it: the keys that are
/// set, each with its value.
pub open spec fn step(m: Map<Seq<char>, Seq<char>>, command: Command) -> Map<
    Seq<char>,
    Seq<char>,
> {
    match command {
        Command::Get { key } => m,
        Command::Put { key, value } => m.insert(key, value),
        Command::Rm { key } => m.remove(key),
    }
}

/// The index after `command`, whose record stands at `position`, from the
/// index before it: a `Put` makes its key point at the record, an `Rm`
/// forgets its key, a `Get` changes nothing.
pub open spec fn played(index: Map<Seq<char>, u64>, command: Command, position: u64) -> Map<
    Seq<char>,
    u64,
> {
    match command {
        Command::Get { key } => index,
        Command::Put { key, value } => index.insert(key, position),
        Command::Rm { key } => index.remove(key),
    }
}

/// The state after the commands `ops` in their order, on a store that starts
/// empty.
pub open spec fn run(ops: Seq<Command>) -> Map<Seq<char>, Seq<char>>
    decreases ops.len(),
{
    if ops.len() == 0 {
        Map::empty()
    } else {
        step(run(ops.drop_last()), ops.last())
    }
}

/// Commands that are carried out one after the other, each on the state that
/// the one before it left, from an empty store, leave the state that `run`
/// gives.
pub proof fn lemma_steps_are_run(states: Seq<Map<Seq<char>, Seq<char>>>, ops: Seq<Command>)
    requires
        states.len() == ops.len() + 1,
        states[0] == Map::<Seq<char>, Seq<char>>::empty(),
        forall|i: int| 0 <= i < ops.len() ==> #[trigger] states[i + 1] == step(states[i], ops[i]),
    ensures
        states.last() == run(ops),
    decreases ops.len(),
{
    if ops.len() > 0 {
        let n = ops.len() as int;
        let front = ops.drop_last();
        let before = states.drop_last();
        assert forall|i: int| 0 <= i < front.len() implies #[trigger] before[i + 1] == step(
            before[i],
            front[i],
        ) by {
            assert(states[i + 1] == step(states[i], ops[i]));
        }
        lemma_steps_are_run(before, front);
        assert(states[n - 1 + 1] == step(states[n - 1], ops[n - 1]));
    }
}

/// A key reads as the last command that changed it left it: with the value
/// of a `Put`, and not at all after an `Rm`.
pub proof fn lemma_last_change_decides(ops: Seq<Command>, key: Seq<char>, i: int)
    requires
        0 <= i < ops.len(),
        ops[i].changes(key),
        forall|j: int| i < j < ops.len() ==> !(#[trigger] ops[j]).changes(key),
    ensures
        match ops[i] {
            Command::Put { key: _, value } => run(ops).contains_key(key) && run(ops)[key] == value,
            _ => !run(ops).contains_key(key),
        },
    decreases ops.len(),
{
    if i < ops.len() - 1 {
        let front = ops.drop_last();
        assert(!ops[ops.len() - 1].changes(key));
        assert forall|j: int| i < j < front.len() implies !(#[trigger] front[j]).changes(key) by {
            assert(front[j] == ops[j]);
        }
        lemma_last_change_decides(front, key, i);
    }
}

/// A key that no command changed is not set.
pub proof fn lemma_unchanged_is_unset(ops: Seq<Command>, key: Seq<char>)
    requires
        forall|j: int| 0 <= j < ops.len() ==> !(#[trigger] ops[j]).changes(key),
    ensures
        !run(ops).contains_key(key),
    decreases ops.len(),
{
    if ops.len() > 0 {
        let front = ops.drop_last();
        assert(!ops[ops.len() - 1].changes(key));
        assert forall|j: int| 0 <= j < front.len() implies !(#[trigger] front[j]).changes(key) by {
            assert(front[j] == ops[j]);
        }
        lemma_unchanged_is_unset(front, key);
    }
}

/// The commands of `ops` that change `key`, in their order.
pub open spec fn history_of(ops: Seq<Command>, key: Seq<char>) -> Seq<Command>
    decreases ops.len(),
{
    if ops.len() == 0 {
        Seq::empty()
    } else if ops.last().changes(key) {
        history_of(ops.drop_last(), key).push(ops.last())
    } else {
        history_of(ops.drop_last(), key)
    }
}

/// What a key reads as depends on the commands that change that key alone,
/// in the order in which the store took them: commands on other keys,
/// wherever they stand between them, make no difference.
pub proof fn lemma_key_history(ops: Seq<Command>, key: Seq<char>)
    ensures
        run(ops).contains_key(key) == run(history_of(ops, key)).contains_key(key),
        run(ops).contains_key(key) ==> run(ops)[key] == run(history_of(ops, key))[key],
    decreases ops.len(),
{
    if ops.len() > 0 {
        let front = ops.drop_last();
        lemma_key_history(front, key);
        if ops.last().changes(key) {
            assert(history_of(ops, key).drop_last() =~= history_of(front, key));
        }
    }
}

/// The bytes that are written for `command`: fixed text around the JSON
/// literals of its strings. `None` where a string cannot be written.
pub open spec fn command_bytes(command: Command) -> Option<Seq<u8>> {
    match command {
        Command::Get { key } => single_bytes(
            GET_HEAD.spec_bytes(),
            key,
            COMMAND_TAIL.spec_bytes(),
        ),
        Command::Put { key, value } => pair_bytes(
            PUT_HEAD.spec_bytes(),
            key,
            VALUE_SEP.spec_bytes(),
            value,
            COMMAND_TAIL.spec_bytes(),
        ),
        Command::Rm { key } => single_bytes(RM_HEAD.spec_bytes(), key, COMMAND_TAIL.spec_bytes()),
    }
}

/// The command that the record `s` holds, if it is the record of one.
pub open spec fn decode_command(s: Seq<u8>) -> Option<Command> {
    if has_at(s, 0, PUT_HEAD.spec_bytes()) {
        match pair_of(s, PUT_HEAD.spec_bytes(), VALUE_SEP.spec_bytes(), COMMAND_TAIL.spec_bytes()) {
            Some((key, value)) => Some(Command::Put { key, value }),
            None => None,
        }
    } else if has_at(s, 0, RM_HEAD.spec_bytes()) {
        match single_of(s, RM_HEAD.spec_bytes(), COMMAND_TAIL.spec_bytes()) {
            Some(key) => Some(Command::Rm { key }),
            None => None,
        }
    } else if has_at(s, 0, GET_HEAD.spec_bytes()) {
        match single_of(s, GET_HEAD.spec_bytes(), COMMAND_TAIL.spec_bytes()) {
            Some(key) => Some(Command::Get { key }),
            None => None,
        }
    } else {
        None
    }
}

/// Whether `s` could be what a write of a command's line left when it was
/// torn: a beginning of the line that breaks off before the line feed.
pub open spec fn is_torn(s: Seq<u8>) -> bool {
    ||| cut_pair(s, PUT_HEAD.spec_bytes(), VALUE_SEP.spec_bytes(), COMMAND_TAIL.spec_bytes())
    ||| cut_single(s, RM_HEAD.spec_bytes(), COMMAND_TAIL.spec_bytes())
    ||| cut_single(s, GET_HEAD.spec_bytes(), COMMAND_TAIL.spec_bytes())
}

/// Whether `s` is a record of `command` that can stand on one line of a log
/// or of a connection: it reads as `command` and holds no line feed.
pub open spec fn is_record_of(s: Seq<u8>, command: Command) -> bool {
    decode_command(s) == Some(command) && unbroken(s)
}

/// The record of `command`: the bytes that are written for it, where they
/// can be written and are a record of it.
pub open spec fn record_of(command: Command) -> Option<Seq<u8>> {
    match command_bytes(command) {
        Some(line) => if is_record_of(line, command) {
            Some(line)
        } else {
            None
        },
        None => None,
    }
}

impl Clone for Instruction {
    fn clone(&self) -> (r: Instruction)
        ensures
            r@ == self@,
    {
        match self {
            Instruction::Get { key } => Instruction::Get { key: key.clone() },
            Instruction::Put { key, value } => Instruction::Put {
                key: key.clone(),
                value: value.clone(),
            },
            Instruction::Rm { key } => Instruction::Rm { key: key.clone() },
        }
    }
}

impl Instruction {
    /// The key that the command speaks of.
    pub fn key(&self) -> (r: &String)
        ensures
            r@ == self@.key(),
    {
        match self {
            Instruction::Get { key } => key,
            Instruction::Put { key, value: _ } => key,
            Instruction::Rm { key } => key,
        }
    }

    /// Applies the command to an index from keys to log offsets: a `Put`
    /// found at `position` makes the key point there, an `Rm` forgets the
    /// key, a `Get` changes nothing.
    pub fn play(&self, store: &mut StringHashMap<u64>, position: u64)
        ensures
            final(store)@ == played(old(store)@, self@, position),
    {
        match self {
            Instruction::Put { key, value: _ } => {
                store.insert(key.clone(), position);
            },
            Instruction::Rm { key } => {
                store.remove(key.as_str());
            },
            Instruction::Get { key: _ } => {},
        }
    }

    /// Whether the two commands are the same.
    pub fn same(&self, other: &Instruction) -> (r: bool)
        ensures
            r == (self@ == other@),
    {
        match (self, other) {
            (Instruction::Get { key: a }, Instruction::Get { key: b }) => *a == *b,
            (Instruction::Put { key: a, value: v }, Instruction::Put { key: b, value: w }) => *a
                == *b && *v == *w,
            (Instruction::Rm { key: a }, Instruction::Rm { key: b }) => *a == *b,
            _ => false,
        }
    }

    /// Reads a command from its record.
    pub fn decode(s: &[u8]) -> (r: Result<Instruction, KvsError>)
        ensures
            match r {
                Ok(instruction) => decode_command(s@) == Some(instruction@),
                Err(e) => decode_command(s@) is None && e.repr() is Codec,
            },
    {
        if stands_at(s, 0, PUT_HEAD.as_bytes()) {
            let (key, value) = read_pair(
                s,
                PUT_HEAD.as_bytes(),
                VALUE_SEP.as_bytes(),
                COMMAND_TAIL.as_bytes(),
            )?;
            Ok(Instruction::Put { key, value })
        } else if stands_at(s, 0, RM_HEAD.as_bytes()) {
            let key = read_single(s, RM_HEAD.as_bytes(), COMMAND_TAIL.as_bytes())?;
            Ok(Instruction::Rm { key })
        } else if stands_at(s, 0, GET_HEAD.as_bytes()) {
            let key = read_single(s, GET_HEAD.as_bytes(), COMMAND_TAIL.as_bytes())?;
            Ok(Instruction::Get { key })
        } else {
            Err(codec_error("the record is not a command"))
        }
    }

    /// Whether `s` could be what a write of a command's line left when it
    /// was torn.
    pub fn could_be_torn(s: &[u8]) -> (r: bool)
        ensures
            r == is_torn(s@),
    {
        is_cut_pair(s, PUT_HEAD.as_bytes(), VALUE_SEP.as_bytes(), COMMAND_TAIL.as_bytes())
            || is_cut_single(s, RM_HEAD.as_bytes(), COMMAND_TAIL.as_bytes()) || is_cut_single(
            s,
            GET_HEAD.as_bytes(),
            COMMAND_TAIL.as_bytes(),
        )
    }

    /// Writes the bytes of the command: fixed text around the JSON literals
    /// of its strings. Fails where a string cannot be written.
    pub fn to_bytes(&self) -> (r: Result<Vec<u8>, KvsError>)
        ensures
            match r {
                Ok(line) => command_bytes(self@) == Some(line@),
                Err(e) => command_bytes(self@) is None && e.repr() is Codec,
            },
    {
        match self {
            Instruction::Get { key } => write_single(
                GET_HEAD.as_bytes(),
                key,
                COMMAND_TAIL.as_bytes(),
            ),
            Instruction::Put { key, value } => write_pair(
                PUT_HEAD.as_bytes(),
                key,
                VALUE_SEP.as_bytes(),
                value,
                COMMAND_TAIL.as_bytes(),
            ),
            Instruction::Rm { key } => write_single(
                RM_HEAD.as_bytes(),
                key,
                COMMAND_TAIL.as_bytes(),
            ),
        }
    }

    /// Hands `line` on if it is a record of the command: it reads back as the
    /// command and holds no line feed.
    pub fn checked(&self, line: Vec<u8>) -> (r: Result<Vec<u8>, KvsError>)
        ensures
            match r {
                Ok(out) => out@ == line@ && is_record_of(line@, self@),
                Err(e) => !is_record_of(line@, self@) && e.repr() is Codec,
            },
    {
        if !is_unbroken(line.as_slice()) {
            return Err(codec_error("a record holds a line feed"));
        }
        let back = Instruction::decode(line.as_slice())?;
        if !back.same(self) {
            return Err(codec_error("a record does not read back"));
        }
        Ok(line)
    }

    /// Writes the command's record: its bytes, read back before they are
    /// handed out. Every record that comes back reads as the command again
    /// and holds no line feed.
    pub fn encode(&self) -> (r: Result<Vec<u8>, KvsError>)
        ensures
            match r {
                Ok(line) => record_of(self@) == Some(line@),
                Err(e) => record_of(self@) is None && e.repr() is Codec,
            },
    {
        let line = self.to_bytes()?;
        self.checked(line)
    }
}

} // verus!
