//! Storage engines: what the request pipeline asks of one, and the
//! log-structured one.
use vstd::prelude::*;
use vstd::string::StringExecFns;
use crate::error::{KvsError, Repr};

pub mod kvs;
pub mod sled;

pub use kvs::KvStore;

verus! {

/// The engines that a server can run.
#[derive(Debug, Clone, Copy, PartialEq, Eq, Structural)]
pub enum Engine {
    /// The log-structured engine of this library.
    Kvs,
    /// The embedded tree.
    Sled,
}

/// The name of the log-structured engine, as it is given on the command
/// line.
pub const KVS_NAME: &'static str = "kvs";

/// The name of the embedded tree, as it is given on the command line.
pub const SLED_NAME: &'static str = "sled";

/// The name of the file that holds the log, in the directory of the store.
pub const KVS_FILE: &'static str = "kvs.db";

/// The name of the file by which the data of the embedded tree is known, in
/// the directory of the store.
pub const SLED_FILE: &'static str = "db";

/// How the text of the failure on an unknown engine name opens.
pub const UNSUPPORTED: &'static str = "Unsupported engine ";

/// Whether the two strings hold the same text.
pub fn same_text(a: &str, b: &str) -> (r: bool)
    ensures
        r == (a@ == b@),
{
    let x = a.to_owned();
    let y = b.to_owned();
    x == y
}

/// The engine that the name `s` stands for.
pub open spec fn engine_named(s: Seq<char>) -> Option<Engine> {
    if s == KVS_NAME@ {
        Some(Engine::Kvs)
    } else if s == SLED_NAME@ {
        Some(Engine::Sled)
    } else {
        None
    }
}

/// The engine that a server runs: the one asked for, else the one whose data
/// the directory holds, else the log-structured one. `None` where the
/// directory holds data of an engine that is not the one to run.
pub open spec fn engine_to_run(asked: Option<Engine>, kvs_data: bool, sled_data: bool) -> Option<
    Engine,
> {
    match asked {
        Some(Engine::Kvs) => if sled_data {
            None
        } else {
            Some(Engine::Kvs)
        },
        Some(Engine::Sled) => if kvs_data {
            None
        } else {
            Some(Engine::Sled)
        },
        None => if kvs_data && sled_data {
            None
        } else if sled_data {
            Some(Engine::Sled)
        } else {
            Some(Engine::Kvs)
        },
    }
}

impl Engine {
    /// Reads the name of an engine: `kvs` or `sled`. Any other name fails
    /// as an unsupported engine, with the name in the text.
    pub fn parse(s: &str) -> (r: Result<Engine, KvsError>)
        ensures
            match r {
                Ok(engine) => engine_named(s@) == Some(engine),
                Err(e) => {
                    &&& engine_named(s@) is None
                    &&& e.repr() matches Repr::UnsupportedEngine(m)
                    &&& m@ == UNSUPPORTED@ + s@
                },
            },
    {
        if same_text(s, KVS_NAME) {
            Ok(Engine::Kvs)
        } else if same_text(s, SLED_NAME) {
            Ok(Engine::Sled)
        } else {
            let mut text = UNSUPPORTED.to_owned();
            text.append(s);
            Err(KvsError::from_unsupported_engine(text.as_str()))
        }
    }

    /// The name of the engine.
    pub fn name(&self) -> (r: &'static str)
        ensures
            engine_named(r@) == Some(*self),
            r@ == match self {
                Engine::Kvs => KVS_NAME@,
                Engine::Sled => SLED_NAME@,
            },
    {
        match self {
            Engine::Kvs => KVS_NAME,
            Engine::Sled => {
                proof {
                    reveal_strlit("kvs");
                    reveal_strlit("sled");
                    assert(KVS_NAME@.len() != SLED_NAME@.len());
                }
                SLED_NAME
            },
        }
    }

    /// The name of the file by which the engine's data is known in a
    /// directory.
    pub fn file_name(&self) -> (r: &'static str)
        ensures
            r@ == match self {
                Engine::Kvs => KVS_FILE@,
                Engine::Sled => SLED_FILE@,
            },
    {
        match self {
            Engine::Kvs => KVS_FILE,
            Engine::Sled => SLED_FILE,
        }
    }

    /// Decides which engine a server runs in a directory, from the engine
    /// that was asked for and the data that the directory holds. Fails where
    /// the directory holds data of an engine that is not the one to run.
    pub fn select(asked: Option<Engine>, kvs_data: bool, sled_data: bool) -> (r: Result<
        Engine,
        KvsError,
    >)
        ensures
            match r {
                Ok(engine) => engine_to_run(asked, kvs_data, sled_data) == Some(engine),
                Err(e) => engine_to_run(asked, kvs_data, sled_data) is None
                    && e.repr() is UnsupportedEngine,
            },
    {
        match asked {
            Some(Engine::Kvs) => {
                if sled_data {
                    Err(
                        KvsError::from_unsupported_engine(
                            "the directory holds the data of the sled engine",
                        ),
                    )
                } else {
                    Ok(Engine::Kvs)
                }
            },
            Some(Engine::Sled) => {
                if kvs_data {
                    Err(
                        KvsError::from_unsupported_engine(
                            "the directory holds the data of the kvs engine",
                        ),
                    )
                } else {
                    Ok(Engine::Sled)
                }
            },
            None => {
                if kvs_data && sled_data {
                    Err(
                        KvsError::from_unsupported_engine(
                            "the directory holds the data of two engines",
                        ),
                    )
                } else if sled_data {
                    Ok(Engine::Sled)
                } else {
                    Ok(Engine::Kvs)
                }
            },
        }
    }
}

impl core::str::FromStr for Engine {
    type Err = KvsError;

    fn from_str(s: &str) -> (r: Result<Engine, KvsError>)
        ensures
            match r {
                Ok(engine) => engine_named(s@) == Some(engine),
                Err(e) => engine_named(s@) is None && e.repr() is UnsupportedEngine,
            },
    {
        Engine::parse(s)
    }
}

/// What the request pipeline asks of a storage engine: a map from keys to
/// values that can be set, read and removed.
///
/// Every engine promises what the three methods state here. What one engine
/// promises beyond that, such as when a call fails, it says in `set_gives`,
/// `get_gives` and `remove_gives`.
pub trait KvsEngine {
    /// The keys that are set, each with its value.
    spec fn contents(&self) -> Map<Seq<char>, Seq<char>>;

    /// What the engine needs to hold of itself between calls.
    spec fn valid(&self) -> bool;

    /// What this engine promises of a call of `set` that took it from
    /// `before` to `after` and returned `r`.
    spec fn set_gives(
        before: &Self,
        after: &Self,
        key: Seq<char>,
        val: Seq<char>,
        r: Result<(), KvsError>,
    ) -> bool;

    /// What this engine promises of a call of `get` that returned `r`.
    spec fn get_gives(&self, key: Seq<char>, r: Result<Option<String>, KvsError>) -> bool;

    /// What this engine promises of a call of `remove` that took it from
    /// `before` to `after` and returned `r`.
    spec fn remove_gives(before: &Self, after: &Self, key: Seq<char>, r: Result<(), KvsError>) -> bool;

    /// Sets the value of a string key to a string.
    ///
    /// An engine may fail to write; a call that returns `Ok` has set the key.
    fn set(&mut self, key: String, val: String) -> (r: Result<(), KvsError>)
        requires
            old(self).valid(),
        ensures
            final(self).valid(),
            r is Ok ==> final(self).contents() == old(self).contents().insert(key@, val@),
            Self::set_gives(old(self), final(self), key@, val@, r),
    ;

    /// Gets the string value of a string key, or `None` where the key is not
    /// set.
    fn get(&self, key: String) -> (r: Result<Option<String>, KvsError>)
        requires
            self.valid(),
        ensures
            match r {
                Ok(Some(value)) => self.contents().contains_key(key@) && self.contents()[key@]
                    == value@,
                Ok(None) => !self.contents().contains_key(key@),
                Err(_) => true,
            },
            self.get_gives(key@, r),
    ;

    /// Removes a given key. Fails with key-not-found where the key is not
    /// set, and leaves the contents as they are.
    fn remove(&mut self, key: String) -> (r: Result<(), KvsError>)
        requires
            old(self).valid(),
        ensures
            final(self).valid(),
            r is Ok ==> old(self).contents().contains_key(key@) && final(self).contents() == old(
                self,
            ).contents().remove(key@),
            !old(self).contents().contains_key(key@) ==> r is Err && r->Err_0.is_key_not_found()
                && final(self).contents() == old(self).contents(),
            Self::remove_gives(old(self), final(self), key@, r),
    ;
}

} // verus!
