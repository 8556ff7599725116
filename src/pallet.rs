//! The command surface over the voter list: the `rebag` call, the hooks that
//! keep the list in step with the staking system, and the events they emit.
use vstd::prelude::*;

use crate::bands::{band_of, lemma_band_bounds};
use crate::voter_list::{
    band_end, holds_id, index_of, insert_spec, lemma_index_of, lemma_insert_at_band_tail,
    lemma_insert_wf, lemma_remove_wf, list_wf, remove_spec, Node, SanityError, VoterList,
    VoterType,
};
use crate::{AccountId, VoteWeight};

verus! {

/// What the pallet announces.
#[derive(Clone, Copy, Debug, PartialEq, Eq, Structural)]
pub enum Event {
    /// Moved an account from one bag to another: who, from, to.
    Rebagged(AccountId, VoteWeight, VoteWeight),
}

/// Who dispatched a call.
#[derive(Clone, Copy, Debug, PartialEq, Eq, Structural)]
pub enum Origin {
    /// A signed account.
    Signed(AccountId),
    /// The privileged root.
    Root,
    /// No signer.
    Unsigned,
}

/// Why a call was refused.
#[derive(Clone, Copy, Debug, PartialEq, Eq, Structural)]
pub enum DispatchError {
    /// The call needs a signed origin.
    BadOrigin,
}

/// The voter list together with the events deposited so far.
pub struct Pallet {
    list: VoterList,
    events: Vec<Event>,
}

/// The result of re-resolving `id` at `weight` in list `l`, with the node
/// moved: `None` where `id` is absent or stays in its band.
pub open spec fn movement(l: VoterList, id: AccountId, weight: VoteWeight) -> Option<(VoteWeight, VoteWeight)> {
    if !holds_id(l.nodes_spec(), id) {
        None
    } else {
        let n = l.nodes_spec()[index_of(l.nodes_spec(), id)];
        let b = band_of(l.thresholds_spec(), weight);
        if b == n.bag_upper {
            None
        } else {
            Some((n.bag_upper, b))
        }
    }
}

/// The nodes of `l` after re-resolving `id` at `weight`.
pub open spec fn rebagged(l: VoterList, id: AccountId, weight: VoteWeight) -> Seq<Node> {
    match movement(l, id, weight) {
        None => l.nodes_spec(),
        Some((_, b)) => {
            let n = l.nodes_spec()[index_of(l.nodes_spec(), id)];
            insert_spec(
                remove_spec(l.nodes_spec(), id),
                (Node { id: n.id, voter_type: n.voter_type, bag_upper: b }),
            )
        },
    }
}

/// A voter that changes bags ends up at the tail of its new band, its only
/// node sits in that band, and the list stays well formed.
pub proof fn lemma_rebag_lands_at_tail(l: VoterList, id: AccountId, weight: VoteWeight)
    requires
        l.wf(),
        movement(l, id, weight) is Some,
    ensures
        ({
            let to = movement(l, id, weight).unwrap().1;
            let r = rebagged(l, id, weight);
            &&& list_wf(l.thresholds_spec(), r)
            &&& holds_id(r, id)
            &&& r[index_of(r, id)].bag_upper == to
            &&& forall|j: int| 0 <= j < r.len() && r[j].bag_upper == to ==> j <= index_of(r, id)
            &&& forall|j: int| 0 <= j < r.len() && r[j].id == id ==> r[j].bag_upper == to
        }),
{
    let t = l.thresholds_spec();
    let s = l.nodes_spec();
    let n = s[index_of(s, id)];
    let b = band_of(t, weight);
    let m = Node { id: n.id, voter_type: n.voter_type, bag_upper: b };
    let rest = remove_spec(s, id);
    assert(n.id == id);
    lemma_remove_wf(t, s, id);
    lemma_band_bounds(t, weight);
    lemma_insert_wf(t, rest, m);
    lemma_insert_at_band_tail(rest, m);
    let r = insert_spec(rest, m);
    let p = band_end(rest, b);
    lemma_index_of(r, id, p);
}

impl Pallet {
    /// The voter list.
    pub closed spec fn list_spec(&self) -> VoterList {
        self.list
    }

    /// The events deposited so far, oldest first.
    pub closed spec fn events_spec(&self) -> Seq<Event> {
        self.events@
    }

    /// The pallet is well formed.
    pub open spec fn wf(&self) -> bool {
        self.list_spec().wf()
    }

    /// An empty pallet over `thresholds`, or `None` where they are not strictly
    /// increasing.
    pub fn new(thresholds: Vec<u64>) -> (r: Option<Pallet>)
        ensures
            r is Some <==> crate::bands::thresholds_sorted(thresholds@),
            r matches Some(p) ==> p.wf() && p.list_spec().thresholds_spec() == thresholds@
                && p.list_spec().nodes_spec().len() == 0 && p.events_spec().len() == 0,
    {
        match VoterList::new(thresholds) {
            Some(list) => Some(Pallet { list, events: Vec::new() }),
            None => None,
        }
    }

    /// The voter list, read only.
    pub fn list(&self) -> (r: &VoterList)
        ensures
            *r == self.list_spec(),
    {
        &self.list
    }

    /// The events deposited so far, oldest first.
    pub fn events(&self) -> (r: Vec<Event>)
        ensures
            r@ == self.events_spec(),
    {
        let mut r: Vec<Event> = Vec::new();
        let mut i: usize = 0;
        while i < self.events.len()
            invariant
                i <= self.events@.len(),
                r@ == self.events@.take(i as int),
            decreases self.events@.len() - i,
        {
            r.push(self.events[i]);
            proof {
                assert(self.events@.take(i as int).push(self.events@[i as int]) =~= self.events@.take(i + 1));
            }
            i = i + 1;
        }
        r
    }

    /// Moves `stash` to the band of its current `weight`, depositing
    /// `Rebagged` where it changed bags. Returns `Some((from, to))` then.
    pub fn do_rebag(&mut self, stash: AccountId, weight: VoteWeight) -> (r: Option<(VoteWeight, VoteWeight)>)
        requires
            old(self).wf(),
        ensures
            final(self).wf(),
            r == movement(old(self).list_spec(), stash, weight),
            final(self).list_spec().thresholds_spec() == old(self).list_spec().thresholds_spec(),
            final(self).list_spec().nodes_spec() == rebagged(old(self).list_spec(), stash, weight),
            r is None ==> final(self).events_spec() == old(self).events_spec(),
            r matches Some((from, to)) ==> final(self).events_spec() == old(self).events_spec().push(
                Event::Rebagged(stash, from, to),
            ),
    {
        let r = self.list.update_position_for(stash, weight);
        if let Some((from, to)) = r {
            self.events.push(Event::Rebagged(stash, from, to));
        }
        r
    }

    /// Declares that `stash` may belong to another bag now that its weight is
    /// `weight`, and moves it there. Anyone signed may call it for any stash.
    pub fn rebag(&mut self, origin: Origin, stash: AccountId, weight: VoteWeight) -> (r: Result<(), DispatchError>)
        requires
            old(self).wf(),
        ensures
            final(self).wf(),
            r is Ok <==> origin is Signed,
            r is Err ==> r == Err::<(), DispatchError>(DispatchError::BadOrigin)
                && final(self).list_spec() == old(self).list_spec()
                && final(self).events_spec() == old(self).events_spec(),
            r is Ok ==> final(self).list_spec().nodes_spec() == rebagged(old(self).list_spec(), stash, weight)
                && final(self).list_spec().thresholds_spec() == old(self).list_spec().thresholds_spec()
                && final(self).events_spec() == match movement(old(self).list_spec(), stash, weight) {
                    None => old(self).events_spec(),
                    Some((from, to)) => old(self).events_spec().push(Event::Rebagged(stash, from, to)),
                },
    {
        match origin {
            Origin::Signed(_) => {
                let _ = self.do_rebag(stash, weight);
                Ok(())
            },
            _ => Err(DispatchError::BadOrigin),
        }
    }

    /// The first `n` voters in iteration order, or all where there are fewer.
    pub fn get_voters(&self, n: usize) -> (r: Vec<Node>)
        ensures
            r@ == self.list_spec().nodes_spec().take(
                if n < self.list_spec().nodes_spec().len() { n as int } else { self.list_spec().nodes_spec().len() as int },
            ),
    {
        self.list.take(n)
    }

    /// A new validator joins the list at the band of `weight`.
    pub fn on_validator_insert(&mut self, voter: AccountId, weight: VoteWeight) -> (r: bool)
        requires
            old(self).wf(),
        ensures
            final(self).wf(),
            final(self).events_spec() == old(self).events_spec(),
            final(self).list_spec().thresholds_spec() == old(self).list_spec().thresholds_spec(),
            r == !holds_id(old(self).list_spec().nodes_spec(), voter),
            r ==> final(self).list_spec().nodes_spec() == insert_spec(
                old(self).list_spec().nodes_spec(),
                (Node { id: voter, voter_type: VoterType::Validator, bag_upper: band_of(old(self).list_spec().thresholds_spec(), weight) }),
            ),
            !r ==> final(self).list_spec().nodes_spec() == old(self).list_spec().nodes_spec(),
    {
        self.list.insert_as(voter, VoterType::Validator, weight)
    }

    /// A new nominator joins the list at the band of `weight`.
    pub fn on_nominator_insert(&mut self, voter: AccountId, weight: VoteWeight) -> (r: bool)
        requires
            old(self).wf(),
        ensures
            final(self).wf(),
            final(self).events_spec() == old(self).events_spec(),
            final(self).list_spec().thresholds_spec() == old(self).list_spec().thresholds_spec(),
            r == !holds_id(old(self).list_spec().nodes_spec(), voter),
            r ==> final(self).list_spec().nodes_spec() == insert_spec(
                old(self).list_spec().nodes_spec(),
                (Node { id: voter, voter_type: VoterType::Nominator, bag_upper: band_of(old(self).list_spec().thresholds_spec(), weight) }),
            ),
            !r ==> final(self).list_spec().nodes_spec() == old(self).list_spec().nodes_spec(),
    {
        self.list.insert_as(voter, VoterType::Nominator, weight)
    }

    /// The weight of `voter` changed: move it as `do_rebag` does.
    pub fn on_voter_update(&mut self, voter: AccountId, weight: VoteWeight)
        requires
            old(self).wf(),
        ensures
            final(self).wf(),
            final(self).list_spec().nodes_spec() == rebagged(old(self).list_spec(), voter, weight),
            final(self).list_spec().thresholds_spec() == old(self).list_spec().thresholds_spec(),
            final(self).events_spec() == match movement(old(self).list_spec(), voter, weight) {
                None => old(self).events_spec(),
                Some((from, to)) => old(self).events_spec().push(Event::Rebagged(voter, from, to)),
            },
    {
        let _ = self.do_rebag(voter, weight);
    }

    /// `voter` leaves the list.
    pub fn on_voter_remove(&mut self, voter: AccountId)
        requires
            old(self).wf(),
        ensures
            final(self).wf(),
            final(self).events_spec() == old(self).events_spec(),
            final(self).list_spec().thresholds_spec() == old(self).list_spec().thresholds_spec(),
            final(self).list_spec().nodes_spec() == remove_spec(old(self).list_spec().nodes_spec(), voter),
    {
        let _ = self.list.remove(voter);
    }

    /// Checks the list's structural invariants.
    pub fn sanity_check(&self) -> (r: Result<(), SanityError>)
        ensures
            r is Ok <==> self.wf(),
    {
        self.list.sanity_check()
    }
}

} // verus!
