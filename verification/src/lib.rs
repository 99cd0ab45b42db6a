//! An in-memory directory of businesses. Each business record carries an
//! optional ledger of user reviews and an optional ledger of photos; a
//! keyed store maps business names to records and owns all mutation rules
//! (conflict on duplicate create, first-write-wins review adds, the
//! anonymous-author exemption, last-write-wins photo updates).

pub mod business;
pub mod outcome;
pub mod photos;
pub mod reviews;
pub mod seq_facts;
pub mod store;
