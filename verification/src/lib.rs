//! A log-structured key-value store and the request pipeline around it.
//!
//! Setting a key appends a `Set` record to a sequential log and remembers the
//! record's offset in an in-memory index; removing a key appends an `Rm`
//! record and forgets the key. Reading a key looks the offset up, reads the
//! one record that starts there and returns its value. The log alone
//! determines the state: replaying it rebuilds the index.
//!
//! The store works on the bytes of the log and leaves the file to the
//! program around it. A program opens the store on the bytes that the file
//! holds and, after each call that changes the store, brings the file up to
//! `KvStore::log()`: as long as `KvStore::compactions()` stays as it was, the
//! log has only grown at its end; when it has changed, the log was
//! rewritten and takes the place of the file as a whole.
pub mod command;
pub mod engine;
pub mod error;
pub mod frame;
pub mod json;
pub mod log;
pub mod network;
pub mod thread_pool;

pub use engine::{Engine, KvStore, KvsEngine};
pub use error::{KvsError, Repr, Result};
pub use network::{Response, Status};
