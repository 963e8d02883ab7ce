//! The step from schema version 1 to 2: each record keeps its DNA
//! and takes the first eight bytes of it as its name.
use crate::migrations::{migrated, run_step, step_due};
use crate::store::{records_in, KittyStore};
use vstd::prelude::*;

verus! {

/// Runs the step from version 1 to version 2 if the namespace records version 1
/// and the running code targets version 2; otherwise leaves the store as it is.
/// Returns the cost: the number of records rewritten, zero when nothing ran.
/// The recorded version is not advanced here.
pub fn migrate(store: &mut KittyStore) -> (cost: u64)
    requires
        old(store).wf(),
    ensures
        final(store).wf(),
        final(store).on_chain_spec() == old(store).on_chain_spec(),
        final(store).current_spec() == old(store).current_spec(),
        final(store).namespace_spec() == old(store).namespace_spec(),
        step_due(old(store).on_chain_spec(), old(store).current_spec(), 1, 2) ==> {
            &&& final(store)@ == migrated(old(store)@, 1)
            &&& cost == records_in(old(store)@, 1).dom().len()
        },
        !step_due(old(store).on_chain_spec(), old(store).current_spec(), 1, 2) ==> {
            &&& final(store)@ == old(store)@
            &&& cost == 0
        },
{
    run_step(store, 1, 2)
}

} // verus!
