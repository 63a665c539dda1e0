//! Verified core of a peer-to-peer file sharing agent: authorization of
//! filesystem requests, chunked reads, catalog reconciliation after a scan,
//! the correlation of outbound requests, sessions and the staged updater.

pub mod access;
pub mod catalog;
pub mod chunk;
pub mod digest;
pub mod dispatch;
pub mod entries;
pub mod format;
pub mod handle;
pub mod http;
pub mod node;
pub mod paths;
pub mod peers;
pub mod results;
pub mod scan;
pub mod search;
pub mod session;
pub mod shell;
pub mod streams;
pub mod text;
pub mod update;
pub mod users;
