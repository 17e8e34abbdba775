//! The identity that a client presents when it joins.

use crate::model::MemberView;
use vstd::prelude::*;

verus! {

/// A username with the credential presented at join time.
#[derive(Clone, Debug, PartialEq, Eq)]
pub struct Member {
    pub username: String,
    pub password: String,
}

impl View for Member {
    type V = MemberView;

    open spec fn view(&self) -> MemberView {
        MemberView { username: self.username@, password: self.password@ }
    }
}

impl Member {
    /// A member with the given name and credential.
    pub fn new(username: String, password: String) -> (member: Member)
        ensures
            member@ == (MemberView { username: username@, password: password@ }),
    {
        Member { username, password }
    }
}

} // verus!
