//! Voter enrollment and login. Voters are keyed internally by their id;
//! the name-based login resolves the first enrolled voter carrying the
//! name, a collaborator-side convenience and no security boundary.

use vstd::prelude::*;
use vstd::string::StringSliceAdditionalSpecFns;

use crate::auth::{hash_password, verifies, verify_password};
use crate::models::{Registration, Voter};
use crate::store::Store;

verus! {

/// Name-based login against an enrollment list: the first registration
/// whose full name matches decides — its voter id when the credential
/// verifies, and nothing otherwise or when no name matches.
pub open spec fn login_of(regs: Seq<Registration>, name: Seq<char>, pin: Seq<char>) -> Option<i64>
    decreases regs.len(),
{
    if regs.len() == 0 {
        None
    } else if regs[0].voter.fullname@ == name {
        if verifies(regs[0].pinhash@, pin) {
            Some(regs[0].voter.id)
        } else {
            None
        }
    } else {
        login_of(regs.drop_first(), name, pin)
    }
}

impl Store {
    /// Enrolls a voter, storing the credential hash of `pin`, and returns
    /// the fresh voter id. The credential collaborator refuses a secret
    /// over `u32::MAX` bytes, so such a `pin` is left out.
    pub fn register_voter(&mut self, fullname: String, dob: String, pin: &str) -> (r: i64)
        requires
            old(self).wf(),
            old(self).next_voter_id < i64::MAX,
            pin.spec_bytes().len() <= 0xFFFF_FFFF,
        ensures
            final(self).wf(),
            r == old(self).next_voter_id,
            final(self).voters@.len() == old(self).voters@.len() + 1,
            final(self).voters@.drop_last() == old(self).voters@,
            final(self).voters@.last().voter == (Voter { id: r, fullname, dob }),
            verifies(final(self).voters@.last().pinhash@, pin@),
            final(self).next_voter_id == old(self).next_voter_id + 1,
            final(self).agrees_outside_voters(*old(self)),
    {
        let id = self.next_voter_id;
        let pinhash = hash_password(pin);
        self.voters.push(Registration { voter: Voter { id, fullname, dob }, pinhash });
        self.next_voter_id = self.next_voter_id + 1;
        proof {
            let pre = *old(self);
            let post = *self;
            assert(post.voters_wf());
            assert forall|k: int| 0 <= k < post.candidates@.len() implies post.candidate_linked(
                #[trigger] post.candidates@[k],
            ) by {
                Store::lemma_candidate_linked_preserved(pre, post, post.candidates@[k]);
            }
            assert(post.voters@.drop_last() =~= pre.voters@);
        }
        id
    }

    /// Removes an enrolled voter. Their votes, if any, stay in the ledger:
    /// votes are never deleted. Unknown ids change nothing.
    pub fn remove_voter(&mut self, voter_id: i64)
        requires
            old(self).wf(),
        ensures
            final(self).wf(),
            final(self).agrees_outside_voters(*old(self)),
            final(self).next_voter_id == old(self).next_voter_id,
            if old(self).has_voter(voter_id) {
                final(self).voters@ == old(self).voters@.remove(old(self).voter_idx(voter_id))
            } else {
                *final(self) == *old(self)
            },
    {
        let mut i: usize = 0;
        while i < self.voters.len()
            invariant
                *self == *old(self),
                self.wf(),
                i <= self.voters@.len(),
                forall|j: int| 0 <= j < i ==> (#[trigger] self.voters@[j]).voter.id != voter_id,
            decreases self.voters@.len() - i,
        {
            if self.voters[i].voter.id == voter_id {
                proof {
                    self.lemma_voter_idx_is(i as int, voter_id);
                }
                self.voters.remove(i);
                proof {
                    let pre = *old(self);
                    let post = *self;
                    assert forall|a: int, b: int|
                        #![trigger post.voters@[a], post.voters@[b]]
                        0 <= a < b < post.voters@.len() implies post.voters@[a].voter.id
                        < post.voters@[b].voter.id by {
                        assert(post.voters@[a] == if a < i as int {
                            pre.voters@[a]
                        } else {
                            pre.voters@[a + 1]
                        });
                        assert(post.voters@[b] == if b < i as int {
                            pre.voters@[b]
                        } else {
                            pre.voters@[b + 1]
                        });
                    }
                    assert forall|a: int|
                        0 <= a < post.voters@.len() implies (#[trigger] post.voters@[a]).voter.id
                        < post.next_voter_id by {
                        assert(post.voters@[a] == if a < i as int {
                            pre.voters@[a]
                        } else {
                            pre.voters@[a + 1]
                        });
                    }
                    assert forall|k: int| 0 <= k < post.candidates@.len() implies post.candidate_linked(
                        #[trigger] post.candidates@[k],
                    ) by {
                        Store::lemma_candidate_linked_preserved(pre, post, post.candidates@[k]);
                    }
                }
                return ;
            }
            i = i + 1;
        }
    }

    /// Name-based login: resolves the first enrolled voter whose full name
    /// matches and checks the credential against their stored hash.
    pub fn voter_login(&self, fullname: &String, pin: &str) -> (r: Option<i64>)
        ensures
            r == login_of(self.voters@, fullname@, pin@),
    {
        proof {
            assert(self.voters@.skip(0) =~= self.voters@);
        }
        let mut i: usize = 0;
        while i < self.voters.len()
            invariant
                i <= self.voters@.len(),
                login_of(self.voters@, fullname@, pin@) == login_of(
                    self.voters@.skip(i as int),
                    fullname@,
                    pin@,
                ),
            decreases self.voters@.len() - i,
        {
            proof {
                assert(self.voters@.skip(i as int)[0] == self.voters@[i as int]);
                assert(self.voters@.skip(i as int).drop_first() =~= self.voters@.skip(i as int + 1));
            }
            if self.voters[i].voter.fullname == *fullname {
                let ok = verify_password(self.voters[i].pinhash.as_str(), pin);
                if ok {
                    return Some(self.voters[i].voter.id);
                } else {
                    return None;
                }
            }
            i = i + 1;
        }
        None
    }
}

} // verus!
