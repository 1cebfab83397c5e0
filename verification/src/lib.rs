//! Core of a small grade-records application: a policy compiler that turns a
//! user directory into a rule table, an enforcer that answers
//! (subject, resource, action) queries over that table, a credential verifier
//! built on a memory-hard hash, and an encrypted persistence layer for the
//! record store.  File and console I/O live outside this crate; every function
//! here computes on plain values and carries a contract.

pub mod access_control;
pub mod codec;
pub mod db;
pub mod encryption;
pub mod hashing;
pub mod input_validation;
pub mod mocking;
pub mod policy_writer;
pub mod state;
pub mod user;
