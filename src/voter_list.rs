//! The bagged voter list: voters grouped by band, heaviest band first, and in
//! order of arrival within a band.
use vstd::prelude::*;

use crate::bands::{band_of, is_band, lemma_band_bounds, notional_bag_for, thresholds_sorted};
use crate::{AccountId, VoteWeight};

verus! {

/// The role of a voter.
#[derive(Clone, Copy, Debug, PartialEq, Eq, Structural)]
pub enum VoterType {
    Validator,
    Nominator,
}

/// The record of one voter: who it is, its role, and the upper bound of the
/// band it was last placed in.
#[derive(Clone, Copy, Debug, PartialEq, Eq, Structural)]
pub struct Node {
    pub id: AccountId,
    pub voter_type: VoterType,
    pub bag_upper: VoteWeight,
}

/// Bands never rise along the sequence.
pub open spec fn sorted_desc(s: Seq<Node>) -> bool {
    forall|i: int, j: int| 0 <= i < j < s.len() ==> s[i].bag_upper >= s[j].bag_upper
}

/// No identity appears twice.
pub open spec fn unique_ids(s: Seq<Node>) -> bool {
    forall|i: int, j: int| 0 <= i < s.len() && 0 <= j < s.len() && i != j ==> s[i].id != s[j].id
}

/// Every node sits in a band of the table.
pub open spec fn bands_valid(t: Seq<u64>, s: Seq<Node>) -> bool {
    forall|i: int| 0 <= i < s.len() ==> is_band(t, #[trigger] s[i].bag_upper)
}

/// The structural invariants of a list with thresholds `t` and nodes `s`.
pub open spec fn list_wf(t: Seq<u64>, s: Seq<Node>) -> bool {
    &&& thresholds_sorted(t)
    &&& sorted_desc(s)
    &&& unique_ids(s)
    &&& bands_valid(t, s)
}

/// `id` has a node in `s`.
pub open spec fn holds_id(s: Seq<Node>, id: AccountId) -> bool {
    exists|i: int| 0 <= i < s.len() && s[i].id == id
}

/// The position of the node of `id` in `s` (meaningful where `holds_id(s, id)`).
pub open spec fn index_of(s: Seq<Node>, id: AccountId) -> int {
    choose|i: int| 0 <= i < s.len() && s[i].id == id
}

/// The position just past the last node whose band is at least `b`: the tail
/// of band `b` in a sorted sequence.
pub open spec fn band_end(s: Seq<Node>, b: u64) -> int
    decreases s.len(),
{
    if s.len() == 0 {
        0
    } else if s.last().bag_upper >= b {
        s.len() as int
    } else {
        band_end(s.drop_last(), b)
    }
}

/// `s` with `n` appended at the tail of its band.
pub open spec fn insert_spec(s: Seq<Node>, n: Node) -> Seq<Node> {
    s.insert(band_end(s, n.bag_upper), n)
}

/// `s` without the node of `id`, or `s` itself where there is none.
pub open spec fn remove_spec(s: Seq<Node>, id: AccountId) -> Seq<Node> {
    if holds_id(s, id) {
        s.remove(index_of(s, id))
    } else {
        s
    }
}

/// The band end splits a sorted sequence into the nodes of band `b` or above,
/// and those below.
pub proof fn lemma_band_end(s: Seq<Node>, b: u64)
    requires
        sorted_desc(s),
    ensures
        0 <= band_end(s, b) <= s.len(),
        forall|j: int| 0 <= j < band_end(s, b) ==> s[j].bag_upper >= b,
        forall|j: int| band_end(s, b) <= j < s.len() ==> s[j].bag_upper < b,
    decreases s.len(),
{
    if s.len() > 0 && s.last().bag_upper < b {
        let d = s.drop_last();
        assert(sorted_desc(d));
        lemma_band_end(d, b);
        assert forall|j: int| band_end(s, b) <= j < s.len() implies s[j].bag_upper < b by {
            if j < s.len() - 1 {
                assert(d[j] == s[j]);
            }
        }
        assert forall|j: int| 0 <= j < band_end(s, b) implies s[j].bag_upper >= b by {
            assert(d[j] == s[j]);
        }
    }
}

/// The node of `id` is at `index_of`, and it is the only one.
pub proof fn lemma_index_of(s: Seq<Node>, id: AccountId, i: int)
    requires
        unique_ids(s),
        0 <= i < s.len(),
        s[i].id == id,
    ensures
        holds_id(s, id),
        index_of(s, id) == i,
{
    assert(holds_id(s, id));
    let k = index_of(s, id);
    assert(s[k].id == id);
}

/// Inserting a new identity at the tail of a valid band keeps the list well formed.
pub proof fn lemma_insert_wf(t: Seq<u64>, s: Seq<Node>, n: Node)
    requires
        list_wf(t, s),
        !holds_id(s, n.id),
        is_band(t, n.bag_upper),
    ensures
        list_wf(t, insert_spec(s, n)),
        insert_spec(s, n).len() == s.len() + 1,
        insert_spec(s, n)[band_end(s, n.bag_upper)] == n,
        forall|id: AccountId| #[trigger] holds_id(insert_spec(s, n), id) <==> (holds_id(s, id) || id == n.id),
{
    let p = band_end(s, n.bag_upper);
    lemma_band_end(s, n.bag_upper);
    s.insert_ensures(p, n);
    let r = insert_spec(s, n);
    assert forall|i: int| 0 <= i < r.len() && i != p implies (#[trigger] r[i]) == (if i < p { s[i] } else { s[i - 1] }) by {
        if i > p {
            assert(r[(i - 1) + 1] == s[i - 1]);
        }
    }
    assert forall|i: int, j: int| 0 <= i < j < r.len() implies r[i].bag_upper >= r[j].bag_upper by {}
    assert forall|i: int, j: int| 0 <= i < r.len() && 0 <= j < r.len() && i != j implies r[i].id != r[j].id by {
        if i == p {
            assert(s[if j < p { j } else { j - 1 }].id != n.id);
        } else if j == p {
            assert(s[if i < p { i } else { i - 1 }].id != n.id);
        }
    }
    assert forall|i: int| 0 <= i < r.len() implies is_band(t, #[trigger] r[i].bag_upper) by {
        if i != p {
            assert(is_band(t, s[if i < p { i } else { i - 1 }].bag_upper));
        }
    }
    assert forall|id: AccountId| holds_id(r, id) <==> (holds_id(s, id) || id == n.id) by {
        if holds_id(r, id) {
            let k = choose|k: int| 0 <= k < r.len() && r[k].id == id;
            if k != p {
                let m = if k < p { k } else { k - 1 };
                assert(s[m].id == id);
            }
        }
        if holds_id(s, id) {
            let k = choose|k: int| 0 <= k < s.len() && s[k].id == id;
            if k < p {
                assert(r[k].id == id);
            } else {
                assert(r[k + 1].id == id);
            }
        }
        if id == n.id {
            assert(r[p].id == id);
        }
    }
}

/// Removing a node keeps the list well formed, and takes its identity out.
pub proof fn lemma_remove_wf(t: Seq<u64>, s: Seq<Node>, id: AccountId)
    requires
        list_wf(t, s),
    ensures
        list_wf(t, remove_spec(s, id)),
        !holds_id(remove_spec(s, id), id),
        forall|x: AccountId| x != id ==> (holds_id(remove_spec(s, id), x) <==> holds_id(s, x)),
        holds_id(s, id) ==> remove_spec(s, id).len() == s.len() - 1,
{
    if holds_id(s, id) {
        let p = index_of(s, id);
        s.remove_ensures(p);
        let r = s.remove(p);
        assert forall|i: int| 0 <= i < r.len() implies (#[trigger] r[i]) == (if i < p { s[i] } else { s[i + 1] }) by {}
        assert forall|i: int, j: int| 0 <= i < j < r.len() implies r[i].bag_upper >= r[j].bag_upper by {}
        assert forall|i: int, j: int| 0 <= i < r.len() && 0 <= j < r.len() && i != j implies r[i].id != r[j].id by {}
        assert forall|i: int| 0 <= i < r.len() implies is_band(t, #[trigger] r[i].bag_upper) by {
            assert(is_band(t, s[if i < p { i } else { i + 1 }].bag_upper));
        }
        assert forall|x: AccountId| true implies (holds_id(r, x) <==> (holds_id(s, x) && x != id)) by {
            if holds_id(r, x) {
                let k = choose|k: int| 0 <= k < r.len() && r[k].id == x;
                assert(s[if k < p { k } else { k + 1 }].id == x);
            }
            if holds_id(s, x) && x != id {
                let k = choose|k: int| 0 <= k < s.len() && s[k].id == x;
                assert(k != p);
                if k < p {
                    assert(r[k].id == x);
                } else {
                    assert(r[k - 1].id == x);
                }
            }
        }
    }
}

/// The nodes of band `b` are exactly those from position `i` to position `j`.
pub open spec fn is_bag_span(s: Seq<Node>, b: u64, i: int, j: int) -> bool {
    forall|k: int| 0 <= k < s.len() ==> (s[k].bag_upper == b <==> i <= k <= j)
}

/// The node before position `i` in its band, if any.
pub open spec fn prev_in_bag(s: Seq<Node>, i: int) -> Option<AccountId> {
    if 0 < i < s.len() && s[i - 1].bag_upper == s[i].bag_upper {
        Some(s[i - 1].id)
    } else {
        None
    }
}

/// The node after position `i` in its band, if any.
pub open spec fn next_in_bag(s: Seq<Node>, i: int) -> Option<AccountId> {
    if 0 <= i && i + 1 < s.len() && s[i + 1].bag_upper == s[i].bag_upper {
        Some(s[i + 1].id)
    } else {
        None
    }
}

/// One band's chain: its upper bound, its first node and its last node.
#[derive(Clone, Copy, Debug, PartialEq, Eq, Structural)]
pub struct Bag {
    pub bag_upper: VoteWeight,
    pub head: AccountId,
    pub tail: AccountId,
}

/// Whether `u` is the upper bound of a band of `t`.
fn is_band_exec(t: &Vec<u64>, u: u64) -> (r: bool)
    ensures
        r == is_band(t@, u),
{
    if u == u64::MAX {
        return true;
    }
    let mut i: usize = 0;
    while i < t.len()
        invariant
            i <= t@.len(),
            forall|k: int| 0 <= k < i ==> t@[k] != u,
        decreases t@.len() - i,
    {
        if t[i] == u {
            assert(t@.contains(u)) by {
                assert(t@[i as int] == u);
            }
            return true;
        }
        i = i + 1;
    }
    false
}

/// The first structural invariant found broken, with the voter concerned.
#[derive(Clone, Copy, Debug, PartialEq, Eq, Structural)]
pub enum SanityError {
    /// The thresholds are not strictly increasing.
    ThresholdsUnsorted,
    /// This voter's band is above that of the voter before it.
    OutOfOrder(AccountId),
    /// This voter appears twice.
    DuplicateId(AccountId),
    /// This voter sits in a band that the thresholds do not define.
    InvalidBand(AccountId, VoteWeight),
}

/// The nodes of `s` placed one after another, in order, at the tail of the band
/// of their weight in `ws` under thresholds `t`.
pub open spec fn rebuild(t: Seq<u64>, s: Seq<Node>, ws: Seq<VoteWeight>) -> Seq<Node>
    decreases s.len(),
{
    if s.len() == 0 || ws.len() != s.len() {
        Seq::empty()
    } else {
        insert_spec(
            rebuild(t, s.drop_last(), ws.drop_last()),
            (Node { id: s.last().id, voter_type: s.last().voter_type, bag_upper: band_of(t, ws.last()) }),
        )
    }
}

/// Inserting a voter that is not in the list and then removing it gives back
/// the list as it was.
pub proof fn lemma_insert_then_remove(l: VoterList, id: AccountId, voter_type: VoterType, weight: VoteWeight)
    requires
        l.wf(),
        !holds_id(l.nodes_spec(), id),
    ensures
        remove_spec(
            insert_spec(l.nodes_spec(), (Node { id, voter_type, bag_upper: band_of(l.thresholds_spec(), weight) })),
            id,
        ) == l.nodes_spec(),
{
    let s = l.nodes_spec();
    let n = Node { id, voter_type, bag_upper: band_of(l.thresholds_spec(), weight) };
    lemma_band_bounds(l.thresholds_spec(), weight);
    lemma_insert_wf(l.thresholds_spec(), s, n);
    let p = band_end(s, n.bag_upper);
    let r = insert_spec(s, n);
    lemma_band_end(s, n.bag_upper);
    s.insert_ensures(p, n);
    lemma_index_of(r, id, p);
    r.remove_ensures(p);
    assert(r.remove(p) =~= s) by {
        assert forall|k: int| 0 <= k < s.len() implies r.remove(p)[k] == s[k] by {
            if k >= p {
                assert(r[k + 1] == s[k]);
            }
        }
    }
}

/// A voter inserted into a sorted sequence lands after every node of its own
/// band, and the other nodes keep their order.
pub proof fn lemma_insert_at_band_tail(s: Seq<Node>, n: Node)
    requires
        sorted_desc(s),
    ensures
        ({
            let p = band_end(s, n.bag_upper);
            let r = insert_spec(s, n);
            &&& 0 <= p < r.len()
            &&& r[p] == n
            &&& forall|j: int| 0 <= j < r.len() && r[j].bag_upper == n.bag_upper ==> j <= p
            &&& r.remove(p) == s
        }),
{
    let p = band_end(s, n.bag_upper);
    let r = insert_spec(s, n);
    lemma_band_end(s, n.bag_upper);
    s.insert_ensures(p, n);
    r.remove_ensures(p);
    assert forall|j: int| 0 <= j < r.len() && r[j].bag_upper == n.bag_upper implies j <= p by {
        if j > p {
            assert(r[(j - 1) + 1] == s[j - 1]);
        }
    }
    assert(r.remove(p) =~= s) by {
        assert forall|k: int| 0 <= k < s.len() implies r.remove(p)[k] == s[k] by {
            if k >= p {
                assert(r[k + 1] == s[k]);
            }
        }
    }
}

/// The identities of the live voters.
pub open spec fn live_ids(s: Seq<Node>) -> Set<AccountId> {
    s.map_values(|n: Node| n.id).to_set()
}

/// In a well-formed list the population count is the number of distinct live
/// identities, and an identity is live exactly where it has a node.
pub proof fn lemma_population_matches(l: VoterList)
    requires
        l.wf(),
    ensures
        live_ids(l.nodes_spec()).len() == l.nodes_spec().len(),
        forall|id: AccountId| live_ids(l.nodes_spec()).contains(id) <==> holds_id(l.nodes_spec(), id),
{
    let s = l.nodes_spec();
    let m = s.map_values(|n: Node| n.id);
    assert(m.no_duplicates()) by {
        assert forall|i: int, j: int| 0 <= i < m.len() && 0 <= j < m.len() && i != j implies m[i] != m[j] by {
            assert(s[i].id != s[j].id);
        }
    }
    m.unique_seq_to_set();
    assert forall|id: AccountId| live_ids(s).contains(id) <==> holds_id(s, id) by {
        if m.contains(id) {
            let k = choose|k: int| 0 <= k < m.len() && m[k] == id;
            assert(s[k].id == id);
        }
        if holds_id(s, id) {
            let k = choose|k: int| 0 <= k < s.len() && s[k].id == id;
            assert(m[k] == id);
        }
    }
}

/// A semi-sorted list of voters over a fixed table of band thresholds.
pub struct VoterList {
    thresholds: Vec<u64>,
    nodes: Vec<Node>,
}

impl VoterList {
    /// The thresholds in use.
    pub closed spec fn thresholds_spec(&self) -> Seq<u64> {
        self.thresholds@
    }

    /// The nodes in iteration order.
    pub closed spec fn nodes_spec(&self) -> Seq<Node> {
        self.nodes@
    }

    /// The list is well formed.
    pub open spec fn wf(&self) -> bool {
        list_wf(self.thresholds_spec(), self.nodes_spec())
    }

    /// An empty list over `thresholds`, or `None` where they are not strictly
    /// increasing.
    pub fn new(thresholds: Vec<u64>) -> (r: Option<VoterList>)
        ensures
            r is Some <==> thresholds_sorted(thresholds@),
            r matches Some(l) ==> l.wf() && l.thresholds_spec() == thresholds@ && l.nodes_spec().len() == 0,
    {
        if crate::bands::is_sorted_strictly(&thresholds) {
            Some(VoterList { thresholds, nodes: Vec::new() })
        } else {
            None
        }
    }

    /// The number of voters in the list.
    pub fn count(&self) -> (r: usize)
        ensures
            r == self.nodes_spec().len(),
    {
        self.nodes.len()
    }

    /// The position of the node of `id`, if there is one.
    fn find(&self, id: AccountId) -> (r: Option<usize>)
        ensures
            r matches Some(i) ==> i < self.nodes_spec().len() && self.nodes_spec()[i as int].id == id,
            r is None <==> !holds_id(self.nodes_spec(), id),
    {
        let mut i: usize = 0;
        while i < self.nodes.len()
            invariant
                i <= self.nodes@.len(),
                forall|k: int| 0 <= k < i ==> self.nodes@[k].id != id,
            decreases self.nodes@.len() - i,
        {
            if self.nodes[i].id == id {
                return Some(i);
            }
            i = i + 1;
        }
        None
    }

    /// Whether `id` has a node in the list.
    pub fn contains(&self, id: AccountId) -> (r: bool)
        ensures
            r == holds_id(self.nodes_spec(), id),
    {
        self.find(id).is_some()
    }

    /// The node of `id`, if it is in the list.
    pub fn get_node(&self, id: AccountId) -> (r: Option<Node>)
        requires
            self.wf(),
        ensures
            r is Some <==> holds_id(self.nodes_spec(), id),
            r matches Some(n) ==> n == self.nodes_spec()[index_of(self.nodes_spec(), id)],
    {
        match self.find(id) {
            Some(i) => {
                proof {
                    lemma_index_of(self.nodes@, id, i as int);
                }
                Some(self.nodes[i])
            },
            None => None,
        }
    }

    /// The tail position of band `b`.
    fn band_end_exec(&self, b: u64) -> (r: usize)
        requires
            self.wf(),
        ensures
            r == band_end(self.nodes_spec(), b),
    {
        let mut i: usize = self.nodes.len();
        proof {
            assert(self.nodes@.subrange(0, i as int) =~= self.nodes@);
        }
        while i > 0 && self.nodes[i - 1].bag_upper < b
            invariant
                i <= self.nodes@.len(),
                band_end(self.nodes@.subrange(0, i as int), b) == band_end(self.nodes@, b),
            decreases i,
        {
            proof {
                assert(self.nodes@.subrange(0, i as int).drop_last() =~= self.nodes@.subrange(0, i - 1));
            }
            i = i - 1;
        }
        i
    }

    /// Places a node at the tail of its band. The node's identity must be new.
    fn splice_in(&mut self, n: Node)
        requires
            old(self).wf(),
            !holds_id(old(self).nodes_spec(), n.id),
            is_band(old(self).thresholds_spec(), n.bag_upper),
        ensures
            final(self).wf(),
            final(self).thresholds_spec() == old(self).thresholds_spec(),
            final(self).nodes_spec() == insert_spec(old(self).nodes_spec(), n),
    {
        let p = self.band_end_exec(n.bag_upper);
        proof {
            lemma_band_end(self.nodes@, n.bag_upper);
            lemma_insert_wf(self.thresholds@, self.nodes@, n);
        }
        self.nodes.insert(p, n);
    }

    /// Inserts `id` with `voter_type` at the tail of the band of `weight`.
    /// An identity already in the list is left where it is, and `false` is
    /// returned.
    pub fn insert_as(&mut self, id: AccountId, voter_type: VoterType, weight: VoteWeight) -> (r: bool)
        requires
            old(self).wf(),
        ensures
            final(self).wf(),
            final(self).thresholds_spec() == old(self).thresholds_spec(),
            r == !holds_id(old(self).nodes_spec(), id),
            r ==> final(self).nodes_spec() == insert_spec(
                old(self).nodes_spec(),
                Node { id, voter_type, bag_upper: band_of(old(self).thresholds_spec(), weight) },
            ),
            !r ==> final(self).nodes_spec() == old(self).nodes_spec(),
    {
        if self.contains(id) {
            return false;
        }
        let bag_upper = notional_bag_for(&self.thresholds, weight);
        proof {
            lemma_band_bounds(self.thresholds@, weight);
        }
        self.splice_in(Node { id, voter_type, bag_upper });
        true
    }

    /// Removes the node of `id`, if there is one, and returns it.
    pub fn remove(&mut self, id: AccountId) -> (r: Option<Node>)
        requires
            old(self).wf(),
        ensures
            final(self).wf(),
            final(self).thresholds_spec() == old(self).thresholds_spec(),
            final(self).nodes_spec() == remove_spec(old(self).nodes_spec(), id),
            r is Some <==> holds_id(old(self).nodes_spec(), id),
            r matches Some(n) ==> n == old(self).nodes_spec()[index_of(old(self).nodes_spec(), id)],
    {
        proof {
            lemma_remove_wf(self.thresholds@, self.nodes@, id);
        }
        match self.find(id) {
            Some(i) => {
                proof {
                    lemma_index_of(self.nodes@, id, i as int);
                }
                let n = self.nodes.remove(i);
                Some(n)
            },
            None => None,
        }
    }

    /// Re-resolves the band of `id` for its current `weight`. Where the band is
    /// unchanged, or `id` is not in the list, nothing moves and `None` comes
    /// back. Otherwise the node leaves its old band, joins the tail of the new
    /// one, and `Some((old_band, new_band))` comes back.
    pub fn update_position_for(&mut self, id: AccountId, weight: VoteWeight) -> (r: Option<(VoteWeight, VoteWeight)>)
        requires
            old(self).wf(),
        ensures
            final(self).wf(),
            final(self).thresholds_spec() == old(self).thresholds_spec(),
            !holds_id(old(self).nodes_spec(), id) ==> r is None && final(self).nodes_spec() == old(self).nodes_spec(),
            holds_id(old(self).nodes_spec(), id) ==> ({
                let n = old(self).nodes_spec()[index_of(old(self).nodes_spec(), id)];
                let b = band_of(old(self).thresholds_spec(), weight);
                &&& b == n.bag_upper ==> r is None && final(self).nodes_spec() == old(self).nodes_spec()
                &&& b != n.bag_upper ==> r == Some((n.bag_upper, b)) && final(self).nodes_spec()
                    == insert_spec(
                    remove_spec(old(self).nodes_spec(), id),
                    (Node { id: n.id, voter_type: n.voter_type, bag_upper: b }),
                )
            }),
    {
        let i = match self.find(id) {
            Some(i) => i,
            None => {
                return None;
            },
        };
        proof {
            lemma_index_of(self.nodes@, id, i as int);
            lemma_band_bounds(self.thresholds@, weight);
            lemma_remove_wf(self.thresholds@, self.nodes@, id);
        }
        let n = self.nodes[i];
        let b = notional_bag_for(&self.thresholds, weight);
        if b == n.bag_upper {
            return None;
        }
        let _ = self.remove(id);
        self.splice_in(Node { id: n.id, voter_type: n.voter_type, bag_upper: b });
        Some((n.bag_upper, b))
    }

    /// The nodes in iteration order: bands from the highest down, and within a
    /// band from head to tail.
    pub fn iter(&self) -> (r: Vec<Node>)
        requires
            self.wf(),
        ensures
            r@ == self.nodes_spec(),
            sorted_desc(r@),
    {
        self.take(self.nodes.len())
    }

    /// The first `n` nodes in iteration order, or all of them where there are fewer.
    pub fn take(&self, n: usize) -> (r: Vec<Node>)
        ensures
            r@ == self.nodes_spec().take(if n < self.nodes_spec().len() { n as int } else { self.nodes_spec().len() as int }),
    {
        let m: usize = if n < self.nodes.len() { n } else { self.nodes.len() };
        let mut r: Vec<Node> = Vec::new();
        let mut i: usize = 0;
        while i < m
            invariant
                m <= self.nodes@.len(),
                i <= m,
                r@ == self.nodes@.take(i as int),
            decreases m - i,
        {
            r.push(self.nodes[i]);
            proof {
                assert(self.nodes@.take(i as int).push(self.nodes@[i as int]) =~= self.nodes@.take(i + 1));
            }
            i = i + 1;
        }
        r
    }

    /// The bag of band `bag_upper`: its head and tail, where it has any node.
    pub fn get_bag(&self, bag_upper: VoteWeight) -> (r: Option<Bag>)
        requires
            self.wf(),
        ensures
            r is Some <==> exists|k: int| 0 <= k < self.nodes_spec().len() && self.nodes_spec()[k].bag_upper == bag_upper,
            r matches Some(bag) ==> bag.bag_upper == bag_upper && exists|i: int, j: int|
                0 <= i <= j < self.nodes_spec().len() && is_bag_span(self.nodes_spec(), bag_upper, i, j)
                && self.nodes_spec()[i].id == bag.head && self.nodes_spec()[j].id == bag.tail,
    {
        let len = self.nodes.len();
        let mut i: usize = 0;
        while i < len && self.nodes[i].bag_upper != bag_upper
            invariant
                len == self.nodes@.len(),
                i <= len,
                forall|k: int| 0 <= k < i ==> self.nodes@[k].bag_upper != bag_upper,
            decreases len - i,
        {
            i = i + 1;
        }
        if i == len {
            return None;
        }
        let mut j: usize = i;
        while j + 1 < len && self.nodes[j + 1].bag_upper == bag_upper
            invariant
                len == self.nodes@.len(),
                i <= j < len,
                forall|k: int| i <= k <= j ==> self.nodes@[k].bag_upper == bag_upper,
            decreases len - j,
        {
            j = j + 1;
        }
        proof {
            assert forall|k: int| j < k < len implies self.nodes@[k].bag_upper != bag_upper by {
                assert(self.nodes@[j + 1].bag_upper != bag_upper);
                assert(self.nodes@[j + 1].bag_upper <= bag_upper);
            }
            assert(is_bag_span(self.nodes@, bag_upper, i as int, j as int));
        }
        Some(Bag { bag_upper, head: self.nodes[i].id, tail: self.nodes[j].id })
    }

    /// Checks every structural invariant and reports the first that is broken.
    pub fn sanity_check(&self) -> (r: Result<(), SanityError>)
        ensures
            r is Ok <==> self.wf(),
    {
        if !crate::bands::is_sorted_strictly(&self.thresholds) {
            return Err(SanityError::ThresholdsUnsorted);
        }
        let len = self.nodes.len();
        let mut i: usize = 0;
        while i < len
            invariant
                len == self.nodes@.len(),
                i <= len,
                thresholds_sorted(self.thresholds@),
                forall|a: int, b: int| 0 <= a < b < i ==> self.nodes@[a].bag_upper >= self.nodes@[b].bag_upper,
                forall|a: int, b: int| 0 <= a < i && 0 <= b < i && a != b ==> self.nodes@[a].id != self.nodes@[b].id,
                forall|a: int| 0 <= a < i ==> is_band(self.thresholds@, #[trigger] self.nodes@[a].bag_upper),
            decreases len - i,
        {
            let n = self.nodes[i];
            if i > 0 && self.nodes[i - 1].bag_upper < n.bag_upper {
                return Err(SanityError::OutOfOrder(n.id));
            }
            if !is_band_exec(&self.thresholds, n.bag_upper) {
                return Err(SanityError::InvalidBand(n.id, n.bag_upper));
            }
            let mut j: usize = 0;
            while j < i
                invariant
                    len == self.nodes@.len(),
                    j <= i < len,
                    n == self.nodes@[i as int],
                    forall|b: int| 0 <= b < j ==> self.nodes@[b].id != n.id,
                decreases i - j,
            {
                if self.nodes[j].id == n.id {
                    return Err(SanityError::DuplicateId(n.id));
                }
                j = j + 1;
            }
            i = i + 1;
        }
        Ok(())
    }

    /// Moves every voter to its band under `new_thresholds`, reading each
    /// voter's weight from `weight_of`, in iteration order. Thresholds that are
    /// not strictly increasing are refused: `false` comes back and nothing
    /// changes.
    pub fn migrate<F: Fn(AccountId) -> VoteWeight>(&mut self, new_thresholds: Vec<u64>, weight_of: &F) -> (r: bool)
        requires
            old(self).wf(),
            forall|id: AccountId| weight_of.requires((id,)),
        ensures
            final(self).wf(),
            r == thresholds_sorted(new_thresholds@),
            !r ==> final(self).nodes_spec() == old(self).nodes_spec() && final(self).thresholds_spec() == old(self).thresholds_spec(),
            r ==> final(self).thresholds_spec() == new_thresholds@ && exists|ws: Seq<VoteWeight>|
                ws.len() == old(self).nodes_spec().len()
                && (forall|k: int| 0 <= k < ws.len() ==> weight_of.ensures((old(self).nodes_spec()[k].id,), #[trigger] ws[k]))
                && final(self).nodes_spec() == rebuild(new_thresholds@, old(self).nodes_spec(), ws),
    {
        if !crate::bands::is_sorted_strictly(&new_thresholds) {
            return false;
        }
        let mut fresh = VoterList { thresholds: new_thresholds, nodes: Vec::new() };
        let ghost olds = self.nodes@;
        let ghost t = fresh.thresholds@;
        let ghost mut ws: Seq<VoteWeight> = Seq::empty();
        let len = self.nodes.len();
        let mut i: usize = 0;
        proof {
            assert(olds.subrange(0, 0) =~= Seq::<Node>::empty());
        }
        while i < len
            invariant
                len == olds.len(),
                olds == self.nodes@,
                list_wf(self.thresholds@, olds),
                i <= len,
                fresh.wf(),
                fresh.thresholds@ == t,
                ws.len() == i,
                forall|k: int| 0 <= k < i ==> weight_of.ensures((olds[k].id,), #[trigger] ws[k]),
                forall|id: AccountId| weight_of.requires((id,)),
                fresh.nodes@ == rebuild(t, olds.subrange(0, i as int), ws),
                forall|id: AccountId| holds_id(fresh.nodes@, id) <==> exists|k: int| 0 <= k < i && olds[k].id == id,
            decreases len - i,
        {
            let n = self.nodes[i];
            let w = weight_of(n.id);
            let b = notional_bag_for(&fresh.thresholds, w);
            let ghost m = Node { id: n.id, voter_type: n.voter_type, bag_upper: b };
            let ghost prev = fresh.nodes@;
            proof {
                lemma_band_bounds(t, w);
                assert forall|k: int| 0 <= k < i implies olds[k].id != n.id by {}
                let sub = olds.subrange(0, i + 1);
                assert(sub.drop_last() =~= olds.subrange(0, i as int));
                assert(ws.push(w).drop_last() =~= ws);
                assert(sub.last() == n);
            }
            fresh.splice_in(Node { id: n.id, voter_type: n.voter_type, bag_upper: b });
            proof {
                ws = ws.push(w);
                assert forall|id: AccountId| holds_id(fresh.nodes@, id) <==> exists|k: int| 0 <= k < i + 1 && olds[k].id == id by {
                    lemma_insert_wf(t, prev, m);
                    assert(holds_id(insert_spec(prev, m), id) <==> (holds_id(prev, id) || id == m.id));
                    if id == n.id {
                        assert(olds[i as int].id == id);
                    }
                    if exists|k: int| 0 <= k < i + 1 && olds[k].id == id {
                        let k = choose|k: int| 0 <= k < i + 1 && olds[k].id == id;
                        if k < i {
                            assert(holds_id(prev, id));
                        }
                    }
                }
            }
            i = i + 1;
        }
        proof {
            assert(olds.subrange(0, len as int) =~= olds);
        }
        *self = fresh;
        true
    }

    /// The band that `id` currently sits in, if it is in the list.
    pub fn bag_for(&self, id: AccountId) -> (r: Option<VoteWeight>)
        requires
            self.wf(),
        ensures
            r is Some <==> holds_id(self.nodes_spec(), id),
            r matches Some(b) ==> b == self.nodes_spec()[index_of(self.nodes_spec(), id)].bag_upper,
    {
        match self.get_node(id) {
            Some(n) => Some(n.bag_upper),
            None => None,
        }
    }

    /// The neighbours of `id` within its band: the node before it and the node
    /// after it, where those are in the same band.
    pub fn links(&self, id: AccountId) -> (r: Option<(Option<AccountId>, Option<AccountId>)>)
        requires
            self.wf(),
        ensures
            r is Some <==> holds_id(self.nodes_spec(), id),
            r matches Some((prev, next)) ==> prev == prev_in_bag(self.nodes_spec(), index_of(self.nodes_spec(), id))
                && next == next_in_bag(self.nodes_spec(), index_of(self.nodes_spec(), id)),
    {
        let i = match self.find(id) {
            Some(i) => i,
            None => {
                return None;
            },
        };
        proof {
            lemma_index_of(self.nodes@, id, i as int);
        }
        let b = self.nodes[i].bag_upper;
        let prev = if i > 0 && self.nodes[i - 1].bag_upper == b {
            Some(self.nodes[i - 1].id)
        } else {
            None
        };
        let next = if i < self.nodes.len() - 1 && self.nodes[i + 1].bag_upper == b {
            Some(self.nodes[i + 1].id)
        } else {
            None
        };
        Some((prev, next))
    }
}

} // verus!
