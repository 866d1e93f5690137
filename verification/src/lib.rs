//! Governance kernel for a decentralized autonomous organization toolkit.
//!
//! A set of independent actors — token ledgers, a voting manager, a wallet
//! executor and a historical voting-power ledger — cooperate through message
//! passing to let members propose, vote on, and execute remote calls, with
//! role-based access control and time-indexed voting power.  This crate holds
//! the verified state and decision logic of every actor; the host shell that
//! delivers messages, identifies callers and reads the clock hands plain
//! values in and takes plain values back.

pub mod assoc;
pub mod claim;
pub mod config;
pub mod executor;
pub mod fungible;
pub mod history;
pub mod listeners;
pub mod manager;
pub mod ratio;
pub mod shares;
pub mod types;
pub mod voting;
pub mod vpl;
