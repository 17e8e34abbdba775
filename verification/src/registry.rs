//! The membership registry: which token belongs to which member.

use crate::member::Member;
use crate::model::{
    lemma_register_keeps_well_formed, next_token, registry_has_username, registry_well_formed,
    MemberView,
};
use std::collections::HashMap;
use vstd::prelude::*;
use vstd::relations::injective_on;
use vstd::set_lib::lemma_map_size;
use vstd::std_specs::hash::spec_values_iter;
use vstd::std_specs::iter::IteratorSpec;

verus! {

/// The members that have joined, each under the token it was given.
#[derive(Debug)]
pub struct MembershipRegistry {
    members: HashMap<u64, Member>,
}

/// A registry is the map from each token in use to the member that holds it.
impl View for MembershipRegistry {
    type V = Map<nat, MemberView>;

    closed spec fn view(&self) -> Map<nat, MemberView> {
        Map::new(
            |t: nat| t <= u64::MAX && self.members@.contains_key(t as u64),
            |t: nat| self.members@[t as u64]@,
        )
    }
}

impl Default for MembershipRegistry {
    fn default() -> (registry: MembershipRegistry)
        ensures
            registry.well_formed(),
            registry@ == Map::<nat, MemberView>::empty(),
    {
        MembershipRegistry::new()
    }
}

impl MembershipRegistry {
    /// The registry's invariant: `new` establishes it and `register` keeps it.
    pub open spec fn well_formed(&self) -> bool {
        registry_well_formed(self@)
    }

    /// The model has as many members as the table has entries.
    proof fn lemma_len(&self)
        ensures
            self@.dom().finite(),
            self@.len() == self.members@.len(),
    {
        broadcast use vstd::std_specs::hash::group_hash_axioms;

        let widen = |k: u64| k as nat;
        assert(injective_on(widen, self.members@.dom()));
        assert(self.members@.dom().map(widen) =~= self@.dom()) by {
            assert forall|t: nat| self@.dom().contains(t) implies self.members@.dom().map(
                widen,
            ).contains(t) by {
                assert(self.members@.dom().contains(t as u64) && widen(t as u64) == t);
            }
        }
        lemma_map_size(self.members@.dom(), self@.dom(), widen);
    }

    /// A registry without members.
    pub fn new() -> (registry: MembershipRegistry)
        ensures
            registry.well_formed(),
            registry@ == Map::<nat, MemberView>::empty(),
    {
        MembershipRegistry { members: HashMap::new() }
    }

    /// The number of members.
    pub fn len(&self) -> (count: usize)
        ensures
            count == self@.len(),
    {
        proof {
            self.lemma_len();
        }
        self.members.len()
    }

    /// Whether a registered member goes by `username`; the match is exact.
    pub fn has_username(&self, username: &String) -> (found: bool)
        ensures
            found == registry_has_username(self@, username@),
    {
        broadcast use vstd::std_specs::hash::group_hash_axioms;

        let ghost held = spec_values_iter(&self.members).remaining().unref();
        for member in it: self.members.values()
            invariant
                it.seq().unref() == held,
                held.to_set() == self.members@.values(),
                forall|j: int| 0 <= j < it.index() ==> (#[trigger] held[j]).username@ != username@,
        {
            if member.username == *username {
                proof {
                    let same = held[it.index()];
                    assert(held.to_set().contains(same));
                    let k = choose|k: u64| #[trigger]
                        self.members@.contains_key(k) && self.members@[k] == same;
                    assert(self@.contains_key(k as nat) && self@[k as nat].username == username@);
                }
                return true;
            }
        }
        proof {
            assert forall|t: nat| #[trigger] self@.contains_key(t) implies self@[t].username
                != username@ by {
                let other = self.members@[t as u64];
                assert(held.to_set().contains(other));
                let j = choose|j: int| 0 <= j < held.len() && held[j] == other;
                assert(held[j].username@ != username@);
            }
        }
        false
    }

    /// Registers `member` under a fresh token: one more than the number of
    /// members so far. The caller has checked that the username is free.
    pub fn register(&mut self, member: Member) -> (token: u64)
        requires
            old(self).well_formed(),
            member@.complete(),
            !registry_has_username(old(self)@, member@.username),
            old(self)@.len() < usize::MAX,
        ensures
            final(self).well_formed(),
            token == next_token(old(self)@),
            !old(self)@.contains_key(token as nat),
            final(self)@ == old(self)@.insert(token as nat, member@),
    {
        broadcast use vstd::std_specs::hash::group_hash_axioms;

        let ghost added = member@;
        proof {
            self.lemma_len();
            lemma_register_keeps_well_formed(self@, added);
        }
        let token = (self.members.len() + 1) as u64;
        self.members.insert(token, member);
        assert(self@ =~= old(self)@.insert(token as nat, added));
        token
    }

    /// The username that `token` stands for, if a member holds it.
    pub fn resolve_username(&self, token: u64) -> (username: Option<String>)
        ensures
            match username {
                Some(name) => self@.contains_key(token as nat) && name@ == self@[token
                    as nat].username,
                None => !self@.contains_key(token as nat),
            },
    {
        broadcast use vstd::std_specs::hash::group_hash_axioms;

        match self.members.get(&token) {
            Some(member) => Some(member.username.clone()),
            None => None,
        }
    }
}

} // verus!
