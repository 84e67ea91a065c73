use vstd::prelude::*;

verus! {

/// The memory orderings of atomic operations.
#[derive(Clone, Copy, Debug, PartialEq, Eq, Structural)]
pub enum MemOrdering {
    Relaxed,
    Release,
    Acquire,
    AcqRel,
    SeqCst,
}

/// How much an ordering constrains: `Relaxed` none, `SeqCst` the most.
pub open spec fn strength(o: MemOrdering) -> nat {
    match o {
        MemOrdering::Relaxed => 0,
        MemOrdering::Release => 1,
        MemOrdering::Acquire => 1,
        MemOrdering::AcqRel => 2,
        MemOrdering::SeqCst => 3,
    }
}

/// Orderings a store accepts.
pub open spec fn valid_for_store(o: MemOrdering) -> bool {
    o is Relaxed || o is Release || o is SeqCst
}

/// Orderings a load accepts.
pub open spec fn valid_for_load(o: MemOrdering) -> bool {
    o is Relaxed || o is Acquire || o is SeqCst
}

/// The ordering forced on every atomic store.
pub const STORE_ORDER: MemOrdering = MemOrdering::Relaxed;

/// The ordering forced on every atomic load.
pub const LOAD_ORDER: MemOrdering = MemOrdering::Relaxed;

/// The ordering forced on every atomic read-modify-write.
pub const RMW_ORDER: MemOrdering = MemOrdering::Relaxed;

/// Each forced ordering is one its operation accepts, and no accepted ordering
/// is weaker.
pub proof fn lemma_policy_weakest()
    ensures
        valid_for_store(STORE_ORDER),
        valid_for_load(LOAD_ORDER),
        forall|o: MemOrdering| valid_for_store(o) ==> strength(STORE_ORDER) <= #[trigger] strength(o),
        forall|o: MemOrdering| valid_for_load(o) ==> strength(LOAD_ORDER) <= #[trigger] strength(o),
        forall|o: MemOrdering| strength(RMW_ORDER) <= #[trigger] strength(o),
{
}

} // verus!
