//! Basic index and version vocabulary shared by the whole engine.

use vstd::prelude::*;

verus! {

/// Position of a transaction inside its block, starting from 0.
pub type TxnIndex = usize;

/// Re-execution counter of one transaction, starting from 0.
pub type Incarnation = usize;

/// Identity of a single execution attempt: `(transaction index, incarnation)`.
pub type Version = (TxnIndex, Incarnation);

} // verus!
