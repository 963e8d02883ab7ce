//! The step from schema version 0 to 1: each bare DNA blob becomes a record
//! that keeps the blob and carries the fixed name "abcd".
use crate::migrations::{migrated, run_step, step_due};
use crate::store::{records_in, KittyStore};
use vstd::prelude::*;

verus! {

/// Runs the step from version 0 to version 1 if the namespace records version 0
/// and the running code targets version 1; otherwise leaves the store as it is.
/// Returns the cost: the number of records rewritten, zero when nothing ran.
/// The recorded version is not advanced here.
pub fn migrate(store: &mut KittyStore) -> (cost: u64)
    requires
        old(store).wf(),
    ensures
        final(store).wf(),
        final(store).on_chain_spec() == old(store).on_chain_spec(),
        final(store).current_spec() == old(store).current_spec(),
        final(store).namespace_spec() == old(store).namespace_spec(),
        step_due(old(store).on_chain_spec(), old(store).current_spec(), 0, 1) ==> {
            &&& final(store)@ == migrated(old(store)@, 0)
            &&& cost == records_in(old(store)@, 0).dom().len()
        },
        !step_due(old(store).on_chain_spec(), old(store).current_spec(), 0, 1) ==> {
            &&& final(store)@ == old(store)@
            &&& cost == 0
        },
{
    run_step(store, 0, 1)
}

} // verus!
