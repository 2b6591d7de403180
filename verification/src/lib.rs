//! An asynchronous DNS resolver core: wire codec, per-query state machine,
//! channel bookkeeping, TCP framing and address/name utilities.
//!
//! The library performs no I/O. A caller owns the sockets and the clock, feeds
//! what it received into the channel and carries out the actions it gets back.
//!
//! - `bytes`, `text`: big-endian integers and decimal numbers.
//! - `name`: domain names in dotted and in wire form.
//! - `message`: header, questions and records of a message.
//! - `cname`, `a`, `records`, `response`: the typed results.
//! - `codec`, `respond`, `answers`: queries, answers, and the law that what
//!   goes into an answer comes out of the decoder.
//! - `query`: the state machine of one query.
//! - `channel`: the session that holds the queries in flight.
//! - `framing`: messages on a TCP stream.
//! - `addr`, `sortlist`: addresses, reverse-lookup names and address
//!   preference.
//! - `ids`: the source of transaction ids.
//! - `version`: version numbers of the resolver library.

pub mod a;
pub mod addr;
pub mod answers;
pub mod bytes;
pub mod channel;
pub mod cname;
pub mod codec;
pub mod error;
pub mod framing;
pub mod ids;
pub mod message;
pub mod name;
pub mod query;
pub mod records;
pub mod respond;
pub mod response;
pub mod sortlist;
pub mod text;
pub mod version;
