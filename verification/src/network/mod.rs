//! The request pipeline: requests and replies as records, and what the
//! server and the client decide.
pub mod client;
pub mod response;
pub mod server;

pub use response::{Response, Status};
