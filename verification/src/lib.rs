//! Copies tables from one PostgreSQL database to another: the order in which
//! the tables go, the machine that transfers one table batch by batch, the
//! codec that writes each value as a literal, and the job that accounts for
//! every table. The library decides and computes; whoever uses it talks to
//! the databases.

pub mod cancel;
pub mod codec;
pub mod codec_laws;
pub mod connection;
pub mod dependencies;
pub mod diff;
pub mod job;
pub mod job_laws;
pub mod migrate;
pub mod paging_laws;
pub mod resolver;
pub mod resolver_laws;
pub mod schema;
pub mod statements;
pub mod text;
pub mod transfer;
pub mod transfer_laws;
