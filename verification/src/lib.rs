//! A sealed-ballot survey: the rules by which secret votes are admitted, tallied
//! out of sight, opened as an aggregate only, attested by a quorum, and committed.

pub mod address;
pub mod codec;
pub mod ledger;
pub mod survey;
pub mod zk_compute;
