//! The tagged outcomes that mutation operations report instead of mutating
//! silently: a ledger either applies a change or declines it by policy; a
//! record additionally reports that it has no ledger at all; the store
//! additionally reports an unknown business key.

use vstd::prelude::*;

verus! {

/// What a ledger did with a requested mutation.
#[derive(Clone, Copy, Debug, PartialEq, Eq, Structural)]
pub enum LedgerOutcome {
    /// The mutation was performed.
    Applied,
    /// The ledger exists but its policy declined the mutation
    /// (a duplicate non-anonymous review add, or a delete or update
    /// that names the anonymous sentinel).
    Rejected,
}

/// What a business record did with a requested ledger mutation.
#[derive(Clone, Copy, Debug, PartialEq, Eq, Structural)]
pub enum MutationOutcome {
    /// The record was created without the relevant ledger, so there is
    /// nothing to mutate; the call is a no-op.
    Absent,
    /// The mutation was performed.
    Applied,
    /// The ledger exists but its policy declined the mutation.
    Rejected,
}

/// What the store did with a mutation routed to a named business record.
#[derive(Clone, Copy, Debug, PartialEq, Eq, Structural)]
pub enum StoreOutcome {
    /// No business is stored under the given name.
    NotFound,
    /// The record exists but has no ledger of the relevant kind.
    Absent,
    /// The mutation was performed.
    Applied,
    /// The ledger exists but its policy declined the mutation.
    Rejected,
}

/// What the store did with a `insert` of a fresh record.
#[derive(Clone, Copy, Debug, PartialEq, Eq, Structural)]
pub enum InsertOutcome {
    /// The name was free and the record is now stored under it.
    Created,
    /// A record already holds the name; the store is unchanged.
    Conflict,
}

/// Lifts a record-level outcome to the store level.
pub open spec fn lift_outcome(o: MutationOutcome) -> StoreOutcome {
    match o {
        MutationOutcome::Absent => StoreOutcome::Absent,
        MutationOutcome::Applied => StoreOutcome::Applied,
        MutationOutcome::Rejected => StoreOutcome::Rejected,
    }
}

} // verus!
