//! The failures that the store and the request pipeline report.
use vstd::prelude::*;

verus! {

/// What went wrong. Each kind carries the text shown to the user.
#[derive(Debug)]
pub enum Repr {
    /// The underlying storage could not be read or written.
    Io(String),
    /// A record could not be serialized, or bytes do not parse as a record.
    Codec(String),
    /// The embedded tree reported a failure.
    External(String),
    /// A stored value is not valid text.
    Encoding(String),
    /// The key of a removal is not in the store.
    KeyNotFound(String),
    /// The name of the storage engine is not known.
    UnsupportedEngine(String),
}

#[derive(Debug)]
pub struct KvsError {
    repr: Repr,
}

pub type Result<T> = core::result::Result<T, KvsError>;

/// The text reported when a key is not in the store.
pub open spec fn key_not_found_text() -> Seq<char> {
    "Key not found"@
}

impl Repr {
    /// The text carried by the failure.
    pub open spec fn text(self) -> Seq<char> {
        match self {
            Repr::Io(m) => m@,
            Repr::Codec(m) => m@,
            Repr::External(m) => m@,
            Repr::Encoding(m) => m@,
            Repr::KeyNotFound(m) => m@,
            Repr::UnsupportedEngine(m) => m@,
        }
    }
}

impl KvsError {
    pub closed spec fn spec_repr(&self) -> &Repr {
        &self.repr
    }

    /// Whether this is the domain error of removing an absent key.
    pub open spec fn is_key_not_found(&self) -> bool {
        self.repr() matches Repr::KeyNotFound(m) && m@ == key_not_found_text()
    }

    /// A failure of the given kind.
    pub fn new(repr: Repr) -> (e: KvsError)
        ensures
            *e.repr() == repr,
    {
        KvsError { repr }
    }

    /// A key-not-found failure with the given text.
    pub fn from_string(msg: &str) -> (e: KvsError)
        ensures
            e.repr() matches Repr::KeyNotFound(m) && m@ == msg@,
    {
        KvsError { repr: Repr::KeyNotFound(msg.to_owned()) }
    }

    /// An unsupported-engine failure with the given text.
    pub fn from_unsupported_engine(msg: &str) -> (e: KvsError)
        ensures
            e.repr() matches Repr::UnsupportedEngine(m) && m@ == msg@,
    {
        KvsError { repr: Repr::UnsupportedEngine(msg.to_owned()) }
    }

    /// The failure of removing a key that is not in the store.
    pub fn key_not_found() -> (e: KvsError)
        ensures
            e.is_key_not_found(),
    {
        KvsError::from_string("Key not found")
    }

    #[verifier::when_used_as_spec(spec_repr)]
    pub fn repr(&self) -> (r: &Repr)
        ensures
            r == self.repr(),
    {
        &self.repr
    }

    /// The text of the failure, as it is shown to the user.
    pub fn message(&self) -> (m: String)
        ensures
            m@ == self.repr().text(),
    {
        match &self.repr {
            Repr::Io(m) => m.clone(),
            Repr::Codec(m) => m.clone(),
            Repr::External(m) => m.clone(),
            Repr::Encoding(m) => m.clone(),
            Repr::KeyNotFound(m) => m.clone(),
            Repr::UnsupportedEngine(m) => m.clone(),
        }
    }
}

} // verus!
