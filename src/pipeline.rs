//! The path of a new capsule: registered in the ledger for its upload
//! reward, then stored under the same id with a reference to the ledger.
use vstd::prelude::*;
use crate::capsule::MemoryCapsule;
use crate::ledger::BlockchainLedger;
use crate::vector_store::VectorMemoryDatabase;

verus! {

/// The ledger reference recorded for a capsule id.
pub open spec fn reference_for(id: Seq<char>) -> Seq<char> {
    "blockchain_hash_"@ + id
}

/// Registers a capsule in the ledger and, when the ledger accepts it,
/// stores it with its ledger reference. A malformed capsule changes
/// neither and yields `false`.
pub fn register_and_store(
    ledger: &mut BlockchainLedger,
    store: &mut VectorMemoryDatabase,
    capsule: &MemoryCapsule,
    uploader: String,
    now: u64,
) -> (r: bool)
    requires
        old(ledger).wf(),
        old(store).wf(),
    ensures
        final(ledger).wf(),
        final(store).wf(),
        r == capsule.in_range(),
        !r ==> *final(ledger) == *old(ledger) && *final(store) == *old(store),
        r ==> final(ledger).record(capsule.capsule_id@) is Some,
        r ==> (final(store).entry(capsule.capsule_id@) is Some && (final(store).ledger_reference(
            capsule.capsule_id@,
        ) matches Some(h) && h.1@ == reference_for(capsule.capsule_id@))),
{
    match ledger.register_memory_capsule(capsule, uploader, now) {
        Some(id) => {
            let mut reference = String::from_str("blockchain_hash_");
            reference.append(id.as_str());
            store.store_memory_capsule(capsule, reference)
        },
        None => false,
    }
}

} // verus!
