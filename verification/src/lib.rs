//! An in-memory decentralized limit order book (DLOB) for a derivatives/spot
//! trading venue whose authoritative state lives as on-chain accounts.
//!
//! The book consumes user-account snapshots plus a monotonic slot clock and
//! serves ranked bid/ask books per (market kind, market index).  Orders are
//! classified into per-market lanes, promoted from taking to resting as the
//! slot advances, and merged with oracle-relative orders at query time.

pub mod order;
pub mod order_list;
pub mod market;
pub mod dlob;
pub mod decode;
pub mod ingest;
pub mod laws;
