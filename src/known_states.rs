//! The record of every state seen so far, by canonical key, with the smallest number of
//! moves at which it was found.
use std::collections::HashMap;
use vstd::prelude::*;

verus! {

broadcast use vstd::std_specs::hash::group_hash_axioms;

pub struct KnownStates {
    states: HashMap<u128, u8>,
}

impl View for KnownStates {
    type V = Map<u128, u8>;

    closed spec fn view(&self) -> Map<u128, u8> {
        self.states@
    }
}

impl KnownStates {
    pub fn new() -> (r: Self)
        ensures
            r@ == Map::<u128, u8>::empty(),
    {
        KnownStates { states: HashMap::new() }
    }

    pub fn state_known(&self, key: u128) -> (r: bool)
        ensures
            r == self@.contains_key(key),
    {
        self.states.contains_key(&key)
    }

    /// Records `key` at `depth` unless it is already recorded: the first depth stays.
    pub fn add_known_state(&mut self, key: u128, depth: u8)
        ensures
            final(self)@ == if old(self)@.contains_key(key) {
                old(self)@
            } else {
                old(self)@.insert(key, depth)
            },
            final(self)@.len() == old(self)@.len() + if old(self)@.contains_key(key) {
                0int
            } else {
                1int
            },
    {
        if !self.states.contains_key(&key) {
            proof {
                assert(self.states@.dom().finite());
                assert(self.states@.insert(key, depth).dom() =~= self.states@.dom().insert(key));
            }
            self.states.insert(key, depth);
        }
    }

    /// The depth at which `key` is recorded.
    pub fn depth_of(&self, key: u128) -> (r: Option<u8>)
        ensures
            r == if self@.contains_key(key) {
                Some(self@[key])
            } else {
                None::<u8>
            },
    {
        match self.states.get(&key) {
            Some(d) => Some(*d),
            None => None,
        }
    }

    /// The record holds finitely many states.
    pub proof fn lemma_finite(&self)
        ensures
            self@.dom().finite(),
    {
    }

    /// The number of recorded states.
    pub fn len(&self) -> (r: usize)
        ensures
            r == self@.len(),
    {
        self.states.len()
    }
}

} // verus!
