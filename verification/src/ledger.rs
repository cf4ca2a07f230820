//! The base state the engine starts a block from: account balances keyed by
//! plain integers, kept as an association vector with distinct keys and
//! viewed as a mathematical map.

use vstd::prelude::*;

use crate::kvmap::{has_key, keys_unique, lemma_has_key_index, lemma_map_of_dom,
    lemma_map_of_index, lemma_map_of_push, lemma_map_of_remove, lemma_map_of_update, map_of};
use crate::traits::Storage;

verus! {

/// A key-to-balance store used both as base state and as the target the
/// block's final changes are applied to.
pub struct Ledger {
    accounts: Vec<(usize, usize)>,
}

impl View for Ledger {
    type V = Map<usize, usize>;

    closed spec fn view(&self) -> Map<usize, usize> {
        map_of(self.accounts@)
    }
}

impl Ledger {
    /// Internal shape: every key appears at most once.
    pub closed spec fn wf(&self) -> bool {
        keys_unique(self.accounts@)
    }

    /// An empty ledger.
    pub fn new() -> (r: Ledger)
        ensures
            r.wf(),
            r@ == Map::<usize, usize>::empty(),
    {
        Ledger { accounts: Vec::new() }
    }

    /// Index of the pair holding `k`, if the ledger has the key.
    fn find(&self, k: usize) -> (r: Option<usize>)
        requires
            self.wf(),
        ensures
            match r {
                Some(i) => i < self.accounts@.len() && self.accounts@[i as int].0 == k
                    && self@.contains_key(k),
                None => !self@.contains_key(k),
            },
    {
        let n = self.accounts.len();
        let mut i: usize = 0;
        while i < n
            invariant
                self.wf(),
                n == self.accounts@.len(),
                i <= n,
                forall|j: int| 0 <= j < i ==> (#[trigger] self.accounts@[j]).0 != k,
            decreases n - i,
        {
            if self.accounts[i].0 == k {
                proof {
                    lemma_map_of_index(self.accounts@, i as int);
                }
                return Some(i);
            }
            i += 1;
        }
        proof {
            lemma_map_of_dom(self.accounts@, k);
            lemma_has_key_index(self.accounts@, k);
        }
        None
    }

    /// Whether the ledger holds the key.
    pub fn contains_key(&self, k: usize) -> (r: bool)
        requires
            self.wf(),
        ensures
            r == self@.contains_key(k),
    {
        self.find(k).is_some()
    }

    /// The balance at `k`, if the ledger holds the key.
    pub fn get(&self, k: usize) -> (r: Option<usize>)
        requires
            self.wf(),
        ensures
            match r {
                Some(v) => self@.contains_key(k) && self@[k] == v,
                None => !self@.contains_key(k),
            },
    {
        match self.find(k) {
            Some(i) => {
                proof {
                    lemma_map_of_index(self.accounts@, i as int);
                }
                Some(self.accounts[i].1)
            },
            None => None,
        }
    }

    /// Set the balance at `k`, adding the key if it is new.
    pub fn insert(&mut self, k: usize, v: usize)
        requires
            old(self).wf(),
        ensures
            final(self).wf(),
            final(self)@ == old(self)@.insert(k, v),
    {
        match self.find(k) {
            Some(i) => {
                proof {
                    lemma_map_of_update(self.accounts@, i as int, v);
                }
                self.accounts[i] = (k, v);
            },
            None => {
                proof {
                    lemma_map_of_dom(self.accounts@, k);
                    lemma_map_of_push(self.accounts@, k, v);
                }
                self.accounts.push((k, v));
            },
        }
    }

    /// Drop the key, if the ledger holds it.
    pub fn remove(&mut self, k: usize)
        requires
            old(self).wf(),
        ensures
            final(self).wf(),
            final(self)@ == old(self)@.remove(k),
    {
        match self.find(k) {
            Some(i) => {
                proof {
                    lemma_map_of_remove(self.accounts@, i as int);
                }
                self.accounts.remove(i);
            },
            None => {
                proof {
                    assert(self@ =~= self@.remove(k));
                }
            },
        }
    }

    /// How many keys the ledger holds.
    pub fn len(&self) -> (r: usize)
        requires
            self.wf(),
        ensures
            r == self@.len(),
    {
        proof {
            crate::kvmap::lemma_map_of_len(self.accounts@);
        }
        self.accounts.len()
    }
}

impl Clone for Ledger {
    /// A clone holds exactly the same balances.
    fn clone(&self) -> (r: Ledger)
        ensures
            r@ == self@,
            r.wf() == self.wf(),
    {
        let n = self.accounts.len();
        let mut pairs: Vec<(usize, usize)> = Vec::new();
        let mut i: usize = 0;
        while i < n
            invariant
                n == self.accounts@.len(),
                i <= n,
                pairs@ == self.accounts@.take(i as int),
            decreases n - i,
        {
            pairs.push(self.accounts[i]);
            proof {
                assert(pairs@ =~= self.accounts@.take(i + 1 as int));
            }
            i += 1;
        }
        proof {
            assert(pairs@ =~= self.accounts@);
        }
        Ledger { accounts: pairs }
    }
}

impl Storage for Ledger {
    open spec fn spec_readable(&self, key: usize) -> bool {
        self.wf() && self@.contains_key(key)
    }

    open spec fn spec_read(&self, key: usize) -> usize {
        self@[key]
    }

    fn read(&self, key: &usize) -> (r: usize) {
        self.get(*key).unwrap()
    }
}

} // verus!
