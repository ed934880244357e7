//! Delivery: sinks that keep what they are given to themselves until they
//! publish it, and what can go wrong.

pub mod calendar;
pub mod delivery_laws;
pub mod discard;
pub mod failure;
pub mod fanout;
pub mod local_lock;
pub mod maildir;
pub mod mbox;
pub mod mbox_append;
pub mod mode;
pub mod sink;
pub mod staging;
