use vstd::prelude::*;

verus! {

/// Whether `id` has already voted in the round described by the two
/// voter lists.
pub open spec fn spec_has_voted(agree: Seq<u128>, disagree: Seq<u128>, id: u128) -> bool {
    agree.contains(id) || disagree.contains(id)
}

/// The voter lists after one `vote` event: a repeated voter changes
/// nothing, otherwise the voter joins exactly one list.
pub open spec fn spec_tally_after(agree: Seq<u128>, disagree: Seq<u128>, id: u128, is_agree: bool) -> (
    Seq<u128>,
    Seq<u128>,
) {
    if spec_has_voted(agree, disagree, id) {
        (agree, disagree)
    } else if is_agree {
        (agree.push(id), disagree)
    } else {
        (agree, disagree.push(id))
    }
}

/// The in-progress count and per-voter record for the option currently
/// being decided.
pub struct VoteData {
    agree: usize,
    disagree: usize,
    agree_list: Vec<u128>,
    disagree_list: Vec<u128>,
}

impl VoteData {
    /// Counts match the voter lists, no voter is recorded twice, and the
    /// two lists are disjoint.
    pub closed spec fn wf(&self) -> bool {
        &&& self.agree == self.agree_list@.len()
        &&& self.disagree == self.disagree_list@.len()
        &&& self.agree_list@.no_duplicates()
        &&& self.disagree_list@.no_duplicates()
        &&& forall|id: u128| !(self.agree_list@.contains(id) && self.disagree_list@.contains(id))
    }

    pub closed spec fn agree_voters(&self) -> Seq<u128> {
        self.agree_list@
    }

    pub closed spec fn disagree_voters(&self) -> Seq<u128> {
        self.disagree_list@
    }

    pub closed spec fn agree_count(&self) -> int {
        self.agree as int
    }

    pub closed spec fn disagree_count(&self) -> int {
        self.disagree as int
    }

    pub closed spec fn spec_total(&self) -> int {
        self.agree_list@.len() + self.disagree_list@.len() as int
    }

    pub fn new() -> (v: VoteData)
        ensures
            v.wf(),
            v.agree_voters() == Seq::<u128>::empty(),
            v.disagree_voters() == Seq::<u128>::empty(),
            v.agree_count() == 0,
            v.disagree_count() == 0,
    {
        VoteData { agree: 0, disagree: 0, agree_list: Vec::new(), disagree_list: Vec::new() }
    }

    /// Records one vote; a session that has already voted in this round
    /// is rejected and nothing changes.
    pub fn vote(&mut self, user_id: u128, is_agree: bool) -> (accepted: bool)
        requires
            old(self).wf(),
        ensures
            final(self).wf(),
            accepted == !spec_has_voted(
                old(self).agree_voters(),
                old(self).disagree_voters(),
                user_id,
            ),
            (final(self).agree_voters(), final(self).disagree_voters()) == spec_tally_after(
                old(self).agree_voters(),
                old(self).disagree_voters(),
                user_id,
                is_agree,
            ),
            final(self).agree_count() == final(self).agree_voters().len(),
            final(self).disagree_count() == final(self).disagree_voters().len(),
    {
        if crate::util::contains_id(&self.agree_list, user_id) || crate::util::contains_id(
            &self.disagree_list,
            user_id,
        ) {
            return false;
        }
        if is_agree {
            proof {
                crate::util::lemma_push_no_duplicates(self.agree_list@, user_id);
            }
            self.agree_list.push(user_id);
            self.agree = self.agree_list.len();
        } else {
            proof {
                crate::util::lemma_push_no_duplicates(self.disagree_list@, user_id);
            }
            self.disagree_list.push(user_id);
            self.disagree = self.disagree_list.len();
        }
        true
    }

    /// How many sessions have voted so far in this round.
    pub fn total_votes(&self) -> (n: usize)
        requires
            self.wf(),
            self.spec_total() <= usize::MAX,
        ensures
            n == self.spec_total(),
    {
        self.agree_list.len() + self.disagree_list.len()
    }

    /// Running counts as plain numbers, for the tally broadcast.
    pub fn counts(&self) -> (c: (usize, usize))
        ensures
            c.0 == self.agree_count(),
            c.1 == self.disagree_count(),
    {
        (self.agree, self.disagree)
    }

    /// The sessions that have voted against, in voting order.
    pub fn disagree_ids(&self) -> (r: &Vec<u128>)
        ensures
            r@ == self.disagree_voters(),
    {
        &self.disagree_list
    }

    /// What well-formedness gives callers: counts equal the list lengths,
    /// no voter is recorded twice, and nobody stands in both lists.
    pub proof fn lemma_wf(&self)
        requires
            self.wf(),
        ensures
            self.agree_count() == self.agree_voters().len(),
            self.disagree_count() == self.disagree_voters().len(),
            self.spec_total() == self.agree_voters().len() + self.disagree_voters().len(),
            self.agree_voters().no_duplicates(),
            self.disagree_voters().no_duplicates(),
            forall|id: u128|
                !(self.agree_voters().contains(id) && self.disagree_voters().contains(id)),
    {
    }

    /// Drops a departed session from the round, keeping the record
    /// well-formed; other voters are untouched.
    pub fn forget_voter(&mut self, user_id: u128)
        requires
            old(self).wf(),
        ensures
            final(self).wf(),
            final(self).agree_voters() == old(self).agree_voters().filter(
                |y: u128| y != user_id,
            ),
            final(self).disagree_voters() == old(self).disagree_voters().filter(
                |y: u128| y != user_id,
            ),
    {
        proof {
            crate::util::lemma_filter_no_duplicates(self.agree_list@, |y: u128| y != user_id);
            crate::util::lemma_filter_no_duplicates(self.disagree_list@, |y: u128| y != user_id);
        }
        crate::util::remove_id(&mut self.agree_list, user_id);
        crate::util::remove_id(&mut self.disagree_list, user_id);
        let a = self.agree_list.len();
        let d = self.disagree_list.len();
        self.agree = a;
        self.disagree = d;
        proof {
            assert forall|id: u128|
                !(self.agree_list@.contains(id) && self.disagree_list@.contains(id)) by {
                if self.agree_list@.contains(id) {
                    old(self).agree_list@.lemma_filter_contains_rev(|y: u128| y != user_id, id);
                }
                if self.disagree_list@.contains(id) {
                    old(self).disagree_list@.lemma_filter_contains_rev(|y: u128| y != user_id, id);
                }
            }
        }
    }
}

/// A vote that a session repeats in the same round changes the tally at
/// most once: after the first vote is recorded, a second vote by the same
/// session (either way) leaves the voter lists exactly as they were.
pub proof fn lemma_vote_idempotent_per_round(
    agree: Seq<u128>,
    disagree: Seq<u128>,
    id: u128,
    first: bool,
    second: bool,
)
    ensures
        spec_tally_after(
            spec_tally_after(agree, disagree, id, first).0,
            spec_tally_after(agree, disagree, id, first).1,
            id,
            second,
        ) == spec_tally_after(agree, disagree, id, first),
{
    let (a1, d1) = spec_tally_after(agree, disagree, id, first);
    if !spec_has_voted(agree, disagree, id) {
        if first {
            assert(a1.contains(id)) by {
                assert(a1[a1.len() - 1] == id);
            }
        } else {
            assert(d1.contains(id)) by {
                assert(d1[d1.len() - 1] == id);
            }
        }
    }
    assert(spec_has_voted(a1, d1, id));
}

} // verus!
