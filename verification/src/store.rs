//! The rumor store: the rumors a node holds, one for each key, each with its
//! heat: how often it has been sent to each peer.

use crate::frame::{encode_rumor, frame_bytes};
use crate::member::{verdict_of, Member, MemberId, Verdict};
use crate::message::{entry_bytes, lemma_entry_bytes_len, member_bytes, put_member};
use crate::rumor::{key_less, lemma_key_order, Rumor, RumorId, RumorKey, RumorView};
use vstd::prelude::*;

verus! {

/// How often a rumor has been sent to one peer.
#[derive(Clone, Copy, Debug, PartialEq, Eq, Structural)]
pub struct HeatEntry {
    pub peer: MemberId,
    pub count: u64,
}

/// What became of a rumor that was offered to the store.
#[derive(Clone, Copy, Debug, PartialEq, Eq, Structural)]
pub enum Outcome {
    /// The rumor is new or newer than the one held, and is held now.
    Changed,
    /// The rumor says what the one held says.
    Duplicate,
    /// The rumor is older than the one held.
    Stale,
}

/// A rumor with its heat.
struct Slot {
    rumor: Rumor,
    heat: Vec<HeatEntry>,
}

/// The rumors of a node. For each key at most one rumor is held. A rumor is
/// hot for a peer while it has been sent to that peer fewer times than the
/// threshold says; no count ever goes beyond the threshold plus one.
pub struct RumorStore {
    slots: Vec<Slot>,
    threshold: u64,
}

/// A held rumor and its heat.
pub struct Entry {
    pub rumor: RumorView,
    pub heat: Seq<HeatEntry>,
}

/// What a store holds, in the order in which the keys came.
pub struct StoreState {
    pub entries: Seq<Entry>,
    pub threshold: u64,
}

/// How often a rumor with this heat has been sent to the peer: zero where the
/// heat does not name the peer.
pub open spec fn send_count(heat: Seq<HeatEntry>, peer: MemberId) -> nat {
    if exists|k: int| 0 <= k < heat.len() && heat[k].peer == peer {
        let k = choose|k: int| 0 <= k < heat.len() && heat[k].peer == peer;
        heat[k].count as nat
    } else {
        0
    }
}

/// A rumor of the key is held.
pub open spec fn holds_key(entries: Seq<Entry>, key: RumorKey) -> bool {
    exists|i: int| 0 <= i < entries.len() && entries[i].rumor.key() == key
}

/// The place of the rumor of the key.
pub open spec fn slot_of(entries: Seq<Entry>, key: RumorKey) -> int {
    choose|i: int| 0 <= i < entries.len() && entries[i].rumor.key() == key
}

/// The store is in order: no key is held twice, no heat names a peer twice,
/// and no count is beyond the threshold plus one.
pub open spec fn well_formed(v: StoreState) -> bool {
    &&& v.threshold < u64::MAX
    &&& forall|i: int, j: int|
        0 <= i < j < v.entries.len() ==> v.entries[i].rumor.key() != v.entries[j].rumor.key()
    &&& forall|i: int, k: int, l: int|
        0 <= i < v.entries.len() && 0 <= k < l < v.entries[i].heat.len()
            ==> v.entries[i].heat[k].peer != v.entries[i].heat[l].peer
    &&& forall|i: int, k: int|
        0 <= i < v.entries.len() && 0 <= k < v.entries[i].heat.len() ==> (
        #[trigger] v.entries[i].heat[k]).count <= v.threshold + 1
}

/// The store with its threshold raised to the given one, unless it is that
/// high already.
pub open spec fn raised(v: StoreState, threshold: nat) -> StoreState {
    if threshold > v.threshold && threshold < u64::MAX {
        StoreState { threshold: threshold as u64, ..v }
    } else {
        v
    }
}

/// The incoming rumor takes the place of the held one of its key: a member's
/// standing by the reconciliation rules, anything else by a higher version.
pub open spec fn supersedes(incoming: RumorView, held: RumorView) -> bool {
    match (incoming, held) {
        (RumorView::Member(a), RumorView::Member(b)) => verdict_of(
            Some(b.standing_of()),
            a.standing_of(),
        ) == Verdict::Update,
        _ => incoming.version() > held.version(),
    }
}

/// The incoming rumor says what the held one of its key says: the same
/// standing of a member, the same version of anything else.
pub open spec fn repeats(incoming: RumorView, held: RumorView) -> bool {
    match (incoming, held) {
        (RumorView::Member(a), RumorView::Member(b)) => a.standing_of() == b.standing_of(),
        _ => incoming.version() == held.version(),
    }
}

/// What becomes of a rumor that is offered.
pub open spec fn outcome_of(entries: Seq<Entry>, rumor: RumorView) -> Outcome {
    if !holds_key(entries, rumor.key()) {
        Outcome::Changed
    } else {
        let held = entries[slot_of(entries, rumor.key())].rumor;
        if supersedes(rumor, held) {
            Outcome::Changed
        } else if repeats(rumor, held) {
            Outcome::Duplicate
        } else {
            Outcome::Stale
        }
    }
}

/// What the store holds once a rumor has been offered: a rumor of a new key
/// is added at the end, one that supersedes the held rumor of its key takes
/// its place, and either starts with no heat; any other changes nothing.
pub open spec fn offered(entries: Seq<Entry>, rumor: RumorView) -> Seq<Entry> {
    let fresh = Entry { rumor, heat: Seq::empty() };
    if !holds_key(entries, rumor.key()) {
        entries.push(fresh)
    } else {
        let at = slot_of(entries, rumor.key());
        if supersedes(rumor, entries[at].rumor) {
            entries.update(at, fresh)
        } else {
            entries
        }
    }
}

/// The heat once one more sending to the peer is counted: the count goes up
/// by one and stops at the cap.
pub open spec fn warmed(heat: Seq<HeatEntry>, peer: MemberId, cap: u64) -> Seq<HeatEntry> {
    if exists|k: int| 0 <= k < heat.len() && heat[k].peer == peer {
        let k = choose|k: int| 0 <= k < heat.len() && heat[k].peer == peer;
        if heat[k].count < cap {
            heat.update(k, HeatEntry { peer, count: (heat[k].count + 1) as u64 })
        } else {
            heat
        }
    } else {
        heat.push(HeatEntry { peer, count: 1 })
    }
}

/// What the store holds once a sending of the rumor of a key to a peer has
/// been counted. Where no rumor of the key is held, nothing changes.
pub open spec fn marked(v: StoreState, key: RumorKey, peer: MemberId) -> Seq<Entry> {
    if !holds_key(v.entries, key) {
        v.entries
    } else {
        let at = slot_of(v.entries, key);
        v.entries.update(
            at,
            Entry {
                rumor: v.entries[at].rumor,
                heat: warmed(v.entries[at].heat, peer, (v.threshold + 1) as u64),
            },
        )
    }
}

/// Counting one more sending never lowers a count, raises the count of the
/// peer by one unless it is at the cap already, leaves every other peer's
/// count as it was, and keeps every count within the cap.
pub proof fn lemma_warmed(heat: Seq<HeatEntry>, peer: MemberId, cap: u64, other: MemberId)
    requires
        cap >= 1,
        forall|k: int, l: int| 0 <= k < l < heat.len() ==> heat[k].peer != heat[l].peer,
        forall|k: int| 0 <= k < heat.len() ==> (#[trigger] heat[k]).count <= cap,
    ensures
        send_count(heat, peer) <= cap,
        send_count(warmed(heat, peer, cap), peer) == if send_count(heat, peer) < cap {
            send_count(heat, peer) + 1
        } else {
            cap as nat
        },
        other != peer ==> send_count(warmed(heat, peer, cap), other) == send_count(heat, other),
        forall|k: int, l: int|
            0 <= k < l < warmed(heat, peer, cap).len() ==> warmed(heat, peer, cap)[k].peer
                != warmed(heat, peer, cap)[l].peer,
        forall|k: int|
            0 <= k < warmed(heat, peer, cap).len() ==> (#[trigger] warmed(
                heat,
                peer,
                cap,
            )[k]).count <= cap,
{
    let after = warmed(heat, peer, cap);
    if exists|k: int| 0 <= k < heat.len() && heat[k].peer == peer {
        let k = choose|k: int| 0 <= k < heat.len() && heat[k].peer == peer;
        assert(after[k].peer == peer);
        let k2 = choose|k2: int| 0 <= k2 < after.len() && after[k2].peer == peer;
        assert(k2 == k);
        assert(heat[k].count <= cap);
    } else {
        let k = heat.len() as int;
        assert(after[k].peer == peer);
        let k2 = choose|k2: int| 0 <= k2 < after.len() && after[k2].peer == peer;
        assert(k2 == k);
    }
    if other != peer {
        if exists|m: int| 0 <= m < heat.len() && heat[m].peer == other {
            let m = choose|m: int| 0 <= m < heat.len() && heat[m].peer == other;
            assert(after[m] == heat[m]);
            let m2 = choose|m2: int| 0 <= m2 < after.len() && after[m2].peer == other;
            assert(m2 == m);
        } else {
            if exists|m: int| 0 <= m < after.len() && after[m].peer == other {
                let m = choose|m: int| 0 <= m < after.len() && after[m].peer == other;
                assert(m < heat.len());
                assert(heat[m].peer == other);
            }
        }
    }
}

impl View for RumorStore {
    type V = StoreState;

    closed spec fn view(&self) -> StoreState {
        StoreState {
            entries: Seq::new(
                self.slots@.len(),
                |i: int| Entry { rumor: self.slots@[i].rumor@, heat: self.slots@[i].heat@ },
            ),
            threshold: self.threshold,
        }
    }
}

/// The place of a peer in a heat, if the heat names it.
fn find_peer(heat: &Vec<HeatEntry>, peer: MemberId) -> (at: Option<usize>)
    ensures
        match at {
            Some(k) => k < heat@.len() && heat@[k as int].peer == peer,
            None => forall|k: int| 0 <= k < heat@.len() ==> heat@[k].peer != peer,
        },
{
    let mut k: usize = 0;
    while k < heat.len()
        invariant
            k <= heat@.len(),
            forall|j: int| 0 <= j < k ==> heat@[j].peer != peer,
        decreases heat@.len() - k,
    {
        if heat[k].peer == peer {
            return Some(k);
        }
        k = k + 1;
    }
    None
}

/// How often a rumor with this heat has been sent to the peer.
fn count_for(heat: &Vec<HeatEntry>, peer: MemberId) -> (count: u64)
    requires
        forall|k: int, l: int| 0 <= k < l < heat@.len() ==> heat@[k].peer != heat@[l].peer,
    ensures
        count == send_count(heat@, peer),
{
    match find_peer(heat, peer) {
        Some(k) => {
            proof {
                let k2 = choose|k2: int| 0 <= k2 < heat@.len() && heat@[k2].peer == peer;
                assert(k2 == k);
            }
            heat[k].count
        },
        None => 0,
    }
}

impl RumorStore {
    /// The store is in order.
    pub open spec fn wf(&self) -> bool {
        well_formed(self@)
    }

    /// An empty store with the given threshold.
    pub fn new(threshold: u32) -> (store: RumorStore)
        ensures
            store.wf(),
            store@.entries.len() == 0,
            store@.threshold == threshold,
    {
        RumorStore { slots: Vec::new(), threshold: threshold as u64 }
    }

    /// Raises the threshold to the given one, unless it is that high
    /// already. Nothing else changes.
    pub fn raise_threshold(&mut self, threshold: u32)
        requires
            old(self).wf(),
        ensures
            final(self).wf(),
            final(self)@ == raised(old(self)@, threshold as nat),
    {
        if (threshold as u64) > self.threshold {
            self.threshold = threshold as u64;
        }
        proof {
            assert(self@.entries =~= old(self)@.entries);
        }
    }

    /// The threshold below which a rumor is hot.
    pub fn threshold(&self) -> (threshold: u64)
        ensures
            threshold == self@.threshold,
    {
        self.threshold
    }

    /// The number of rumors held.
    pub fn len(&self) -> (count: usize)
        ensures
            count == self@.entries.len(),
    {
        self.slots.len()
    }

    /// The place of the rumor of a key, if one is held.
    fn find(&self, id: &RumorId) -> (at: Option<usize>)
        requires
            self.wf(),
        ensures
            match at {
                Some(i) => holds_key(self@.entries, id@) && i == slot_of(self@.entries, id@) && i
                    < self@.entries.len(),
                None => !holds_key(self@.entries, id@),
            },
    {
        let mut i: usize = 0;
        while i < self.slots.len()
            invariant
                i <= self.slots@.len(),
                self.wf(),
                forall|j: int| 0 <= j < i ==> self@.entries[j].rumor.key() != id@,
            decreases self.slots@.len() - i,
        {
            if self.slots[i].rumor.has_id(id) {
                proof {
                    assert(self@.entries[i as int].rumor.key() == id@);
                    let at = slot_of(self@.entries, id@);
                    assert(at == i);
                }
                return Some(i);
            }
            i = i + 1;
        }
        None
    }

    /// Offers a rumor to the store. A rumor of a key that is not held is
    /// added. One that supersedes the held rumor of its key takes its place.
    /// In both cases the rumor starts with no heat and the store has changed.
    /// Any other rumor is discarded, as a duplicate where it says what the
    /// held one says, as stale otherwise.
    pub fn insert(&mut self, rumor: Rumor) -> (outcome: Outcome)
        requires
            old(self).wf(),
        ensures
            final(self).wf(),
            outcome == outcome_of(old(self)@.entries, rumor@),
            final(self)@.entries == offered(old(self)@.entries, rumor@),
            final(self)@.threshold == old(self)@.threshold,
    {
        match self.find(&rumor.id()) {
            None => {
                self.slots.push(Slot { rumor, heat: Vec::new() });
                proof {
                    assert(self@.entries =~= offered(old(self)@.entries, rumor@));
                }
                Outcome::Changed
            },
            Some(at) => {
                let held = &self.slots[at].rumor;
                let (replace, same) = match (&rumor, held) {
                    (Rumor::Member(a), Rumor::Member(b)) => {
                        let verdict = crate::member::reconcile(Some(b.standing()), a.standing());
                        (verdict == Verdict::Update, a.standing() == b.standing())
                    },
                    _ => (rumor.version() > held.version(), rumor.version() == held.version()),
                };
                if replace {
                    let ghost fresh = Entry { rumor: rumor@, heat: Seq::empty() };
                    self.slots[at] = Slot { rumor, heat: Vec::new() };
                    proof {
                        assert(self@.entries =~= old(self)@.entries.update(at as int, fresh));
                    }
                    Outcome::Changed
                } else if same {
                    Outcome::Duplicate
                } else {
                    Outcome::Stale
                }
            },
        }
    }

    /// Counts one more sending of the rumor of a key to a peer. The count
    /// goes up by one and stops at the threshold plus one: no count of any
    /// rumor for any peer goes down or beyond that. Nothing else changes, and
    /// nothing at all where no rumor of the key is held.
    pub fn mark_sent(&mut self, id: &RumorId, peer: MemberId)
        requires
            old(self).wf(),
        ensures
            final(self).wf(),
            final(self)@.entries == marked(old(self)@, id@, peer),
            final(self)@.threshold == old(self)@.threshold,
            final(self)@.entries.len() == old(self)@.entries.len(),
            forall|i: int, to: MemberId|
                0 <= i < old(self)@.entries.len() ==> send_count(old(self)@.entries[i].heat, to)
                    <= #[trigger] send_count(final(self)@.entries[i].heat, to)
                    <= old(self)@.threshold + 1,
            holds_key(old(self)@.entries, id@) ==> ({
                let at = slot_of(old(self)@.entries, id@);
                let before = send_count(old(self)@.entries[at].heat, peer);
                send_count(final(self)@.entries[at].heat, peer) == if before <= old(
                    self,
                )@.threshold {
                    before + 1
                } else {
                    before
                }
            }),
    {
        let cap = self.threshold + 1;
        proof {
            assert forall|i: int, to: MemberId| 0 <= i < self@.entries.len() implies send_count(
                self@.entries[i].heat,
                to,
            ) <= #[trigger] send_count(marked(self@, id@, peer)[i].heat, to)
                <= self@.threshold + 1 by {
                lemma_marked_counts(self@, id@, peer, i, to);
            }
            if holds_key(self@.entries, id@) {
                let at = slot_of(self@.entries, id@);
                lemma_marked_counts(self@, id@, peer, at, peer);
                lemma_warmed(self@.entries[at].heat, peer, cap, peer);
            }
        }
        match self.find(id) {
            None => {},
            Some(at) => {
                proof {
                    lemma_warmed(self@.entries[at as int].heat, peer, cap, peer);
                }
                let slot = &mut self.slots[at];
                match find_peer(&slot.heat, peer) {
                    Some(k) => {
                        proof {
                            let k2 = choose|k2: int|
                                0 <= k2 < slot.heat@.len() && slot.heat@[k2].peer == peer;
                            assert(k2 == k);
                        }
                        let count = slot.heat[k].count;
                        if count < cap {
                            slot.heat[k] = HeatEntry { peer, count: count + 1 };
                        }
                    },
                    None => {
                        slot.heat.push(HeatEntry { peer, count: 1 });
                    },
                }
                proof {
                    assert(self@.entries =~= marked(old(self)@, id@, peer));
                }
            },
        }
    }

    /// How often the rumor of a key has been sent to a peer; zero where no
    /// rumor of the key is held.
    pub fn sent_to(&self, id: &RumorId, peer: MemberId) -> (count: u64)
        requires
            self.wf(),
        ensures
            count <= self@.threshold + 1,
            count == if holds_key(self@.entries, id@) {
                send_count(self@.entries[slot_of(self@.entries, id@)].heat, peer)
            } else {
                0
            },
    {
        match self.find(id) {
            None => 0,
            Some(at) => {
                proof {
                    let heat = self@.entries[at as int].heat;
                    lemma_warmed(heat, peer, (self.threshold + 1) as u64, peer);
                }
                count_for(&self.slots[at].heat, peer)
            },
        }
    }
}

/// What carries the rumors: a probe datagram, which takes only membership
/// rumors, or the gossip stream, which takes every kind.
#[derive(Clone, Copy, Debug, PartialEq, Eq, Structural)]
pub enum Carrier {
    Datagram,
    Stream,
}

/// The rumor may go to the peer on the carrier: it is hot for the peer, and
/// the carrier takes its kind.
pub open spec fn eligible(entry: Entry, peer: MemberId, threshold: u64, carrier: Carrier) -> bool {
    &&& send_count(entry.heat, peer) < threshold
    &&& carrier == Carrier::Stream || entry.rumor is Member
}

/// The bytes that a rumor takes on the carrier.
pub open spec fn cost(rumor: RumorView, carrier: Carrier) -> nat {
    match carrier {
        Carrier::Stream => frame_bytes(rumor).len(),
        Carrier::Datagram => match rumor {
            RumorView::Member(m) => entry_bytes(m).len(),
            RumorView::Data(_) => 0,
        },
    }
}

/// The order in which rumors go to a peer: the one sent to it less often
/// first, and of two sent equally often the one with the lesser key.
pub open spec fn rank_less(a: Entry, b: Entry, peer: MemberId) -> bool {
    send_count(a.heat, peer) < send_count(b.heat, peer) || (send_count(a.heat, peer) == send_count(
        b.heat,
        peer,
    ) && key_less(a.rumor.key(), b.rumor.key()))
}

/// The places are in the order in which their rumors go to the peer.
pub open spec fn ranked(entries: Seq<Entry>, peer: MemberId, order: Seq<usize>) -> bool {
    &&& forall|i: int| 0 <= i < order.len() ==> (#[trigger] order[i]) < entries.len()
    &&& forall|i: int, j: int|
        0 <= i < j < order.len() ==> rank_less(
            entries[order[i] as int],
            entries[order[j] as int],
            peer,
        )
}

/// The places of all the rumors that may go to the peer on the carrier, in the
/// order in which they go.
pub open spec fn is_hot_order(v: StoreState, peer: MemberId, carrier: Carrier, order: Seq<usize>)
    -> bool {
    &&& ranked(v.entries, peer, order)
    &&& forall|i: int|
        0 <= i < order.len() ==> eligible(
            v.entries[(#[trigger] order[i]) as int],
            peer,
            v.threshold,
            carrier,
        )
    &&& forall|e: usize|
        e < v.entries.len() && eligible(v.entries[e as int], peer, v.threshold, carrier)
            ==> order.contains(e)
}

/// How many of the first costs fit the budget together.
pub open spec fn fitting(costs: Seq<nat>, budget: nat) -> nat
    decreases costs.len(),
{
    if costs.len() == 0 || costs[0] > budget {
        0
    } else {
        1 + fitting(costs.drop_first(), (budget - costs[0]) as nat)
    }
}

/// The sum of the first costs.
pub open spec fn total(costs: Seq<nat>, count: nat) -> nat
    decreases count,
{
    if count == 0 || costs.len() == 0 {
        0
    } else {
        costs[0] + total(costs.drop_first(), (count - 1) as nat)
    }
}

/// The costs that fit are not more than there are, and together they are
/// within the budget.
pub proof fn lemma_fitting_within(costs: Seq<nat>, budget: nat)
    ensures
        fitting(costs, budget) <= costs.len(),
        total(costs, fitting(costs, budget)) <= budget,
    decreases costs.len(),
{
    if costs.len() > 0 && costs[0] <= budget {
        lemma_fitting_within(costs.drop_first(), (budget - costs[0]) as nat);
    }
}

/// The costs of the rumors at the places.
pub open spec fn costs_of(v: StoreState, carrier: Carrier, order: Seq<usize>) -> Seq<nat> {
    Seq::new(order.len(), |i: int| cost(v.entries[order[i] as int].rumor, carrier))
}

/// The rumors are those at the first places of the order, as many as fit the
/// budget.
pub open spec fn selected(
    v: StoreState,
    carrier: Carrier,
    order: Seq<usize>,
    budget: nat,
    rumors: Seq<RumorView>,
) -> bool {
    &&& rumors.len() == fitting(costs_of(v, carrier, order), budget)
    &&& rumors.len() <= order.len()
    &&& forall|i: int|
        0 <= i < rumors.len() ==> #[trigger] rumors[i] == v.entries[order[i] as int].rumor
}

/// The views of rumors.
pub open spec fn views(rumors: Seq<Rumor>) -> Seq<RumorView> {
    Seq::new(rumors.len(), |i: int| rumors[i]@)
}

/// The members as rumors.
pub open spec fn as_rumors(members: Seq<Member>) -> Seq<RumorView> {
    Seq::new(members.len(), |i: int| RumorView::Member(members[i]))
}

/// Of two held rumors one goes before the other, and the order is strict.
pub proof fn lemma_rank_order(v: StoreState, peer: MemberId, a: int, b: int, c: int)
    requires
        well_formed(v),
        0 <= a < v.entries.len(),
        0 <= b < v.entries.len(),
        0 <= c < v.entries.len(),
    ensures
        !rank_less(v.entries[a], v.entries[a], peer),
        a != b ==> rank_less(v.entries[a], v.entries[b], peer) || rank_less(
            v.entries[b],
            v.entries[a],
            peer,
        ),
        !(rank_less(v.entries[a], v.entries[b], peer) && rank_less(
            v.entries[b],
            v.entries[a],
            peer,
        )),
        rank_less(v.entries[a], v.entries[b], peer) && rank_less(v.entries[b], v.entries[c], peer)
            ==> rank_less(v.entries[a], v.entries[c], peer),
{
    lemma_key_order(v.entries[a].rumor.key(), v.entries[b].rumor.key(), v.entries[c].rumor.key());
    if a != b {
        if a < b {
            assert(v.entries[a].rumor.key() != v.entries[b].rumor.key());
        } else {
            assert(v.entries[b].rumor.key() != v.entries[a].rumor.key());
        }
    }
}

/// There is only one order in which the rumors go to a peer: two sequences of
/// places that are both in order and hold the same places are the same.
pub proof fn lemma_ranked_unique(v: StoreState, peer: MemberId, a: Seq<usize>, b: Seq<usize>)
    requires
        well_formed(v),
        ranked(v.entries, peer, a),
        ranked(v.entries, peer, b),
        forall|x: usize| a.contains(x) <==> b.contains(x),
    ensures
        a == b,
    decreases a.len(),
{
    if a.len() == 0 {
        if b.len() > 0 {
            assert(b.contains(b[0]));
        }
        assert(a =~= b);
    } else {
        assert(a.contains(a[0]));
        let j = choose|j: int| 0 <= j < b.len() && b[j] == a[0];
        assert(b.contains(b[0]));
        let i = choose|i: int| 0 <= i < a.len() && a[i] == b[0];
        lemma_rank_order(v, peer, a[0] as int, b[0] as int, a[0] as int);
        assert(j == 0) by {
            if j > 0 {
                assert(rank_less(v.entries[b[0] as int], v.entries[b[j] as int], peer));
                if i > 0 {
                    assert(rank_less(v.entries[a[0] as int], v.entries[a[i] as int], peer));
                }
            }
        }
        let ta = a.drop_first();
        let tb = b.drop_first();
        assert forall|x: usize| ta.contains(x) <==> tb.contains(x) by {
            if ta.contains(x) {
                let k = choose|k: int| 0 <= k < ta.len() && ta[k] == x;
                assert(a[k + 1] == x);
                assert(a.contains(x));
                lemma_rank_order(v, peer, a[0] as int, x as int, a[0] as int);
                assert(rank_less(v.entries[a[0] as int], v.entries[a[k + 1] as int], peer));
                let m = choose|m: int| 0 <= m < b.len() && b[m] == x;
                assert(m > 0);
                assert(tb[m - 1] == x);
            }
            if tb.contains(x) {
                let k = choose|k: int| 0 <= k < tb.len() && tb[k] == x;
                assert(b[k + 1] == x);
                assert(b.contains(x));
                lemma_rank_order(v, peer, b[0] as int, x as int, b[0] as int);
                assert(rank_less(v.entries[b[0] as int], v.entries[b[k + 1] as int], peer));
                let m = choose|m: int| 0 <= m < a.len() && a[m] == x;
                assert(m > 0);
                assert(ta[m - 1] == x);
            }
        }
        assert(ranked(v.entries, peer, ta)) by {
            assert forall|p: int, q: int| 0 <= p < q < ta.len() implies rank_less(
                v.entries[ta[p] as int],
                v.entries[ta[q] as int],
                peer,
            ) by {
                assert(ta[p] == a[p + 1] && ta[q] == a[q + 1]);
            }
            assert forall|p: int| 0 <= p < ta.len() implies (#[trigger] ta[p])
                < v.entries.len() by {
                assert(ta[p] == a[p + 1]);
            }
        }
        assert(ranked(v.entries, peer, tb)) by {
            assert forall|p: int, q: int| 0 <= p < q < tb.len() implies rank_less(
                v.entries[tb[p] as int],
                v.entries[tb[q] as int],
                peer,
            ) by {
                assert(tb[p] == b[p + 1] && tb[q] == b[q + 1]);
            }
            assert forall|p: int| 0 <= p < tb.len() implies (#[trigger] tb[p])
                < v.entries.len() by {
                assert(tb[p] == b[p + 1]);
            }
        }
        lemma_ranked_unique(v, peer, ta, tb);
        assert(a =~= seq![a[0]] + ta);
        assert(b =~= seq![b[0]] + tb);
    }
}

/// What goes to a peer on a carrier is determined by what the store holds:
/// there is only one order of the rumors that may go.
pub proof fn lemma_hot_order_unique(
    v: StoreState,
    peer: MemberId,
    carrier: Carrier,
    a: Seq<usize>,
    b: Seq<usize>,
)
    requires
        well_formed(v),
        is_hot_order(v, peer, carrier, a),
        is_hot_order(v, peer, carrier, b),
    ensures
        a == b,
{
    assert forall|x: usize| a.contains(x) <==> b.contains(x) by {
        if a.contains(x) {
            let k = choose|k: int| 0 <= k < a.len() && a[k] == x;
            assert(eligible(v.entries[a[k] as int], peer, v.threshold, carrier));
        }
        if b.contains(x) {
            let k = choose|k: int| 0 <= k < b.len() && b[k] == x;
            assert(eligible(v.entries[b[k] as int], peer, v.threshold, carrier));
        }
    }
    lemma_ranked_unique(v, peer, a, b);
}

impl RumorStore {
    /// Whether the rumor at a place may go to the peer on the carrier.
    fn may_go(&self, at: usize, peer: MemberId, carrier: Carrier) -> (yes: bool)
        requires
            self.wf(),
            at < self@.entries.len(),
        ensures
            yes == eligible(self@.entries[at as int], peer, self@.threshold, carrier),
    {
        let slot = &self.slots[at];
        proof {
            assert(self@.entries[at as int].heat == slot.heat@);
            assert(forall|k: int, l: int|
                0 <= k < l < slot.heat@.len() ==> self@.entries[at as int].heat[k].peer
                    != self@.entries[at as int].heat[l].peer);
        }
        let hot = count_for(&slot.heat, peer) < self.threshold;
        let taken = match carrier {
            Carrier::Stream => true,
            Carrier::Datagram => match slot.rumor {
                Rumor::Member(_) => true,
                Rumor::Data(_) => false,
            },
        };
        hot && taken
    }

    /// Whether the rumor at one place goes to the peer before the rumor at
    /// another.
    fn goes_before(&self, a: usize, b: usize, peer: MemberId) -> (yes: bool)
        requires
            self.wf(),
            a < self@.entries.len(),
            b < self@.entries.len(),
        ensures
            yes == rank_less(self@.entries[a as int], self@.entries[b as int], peer),
    {
        let x = &self.slots[a];
        let y = &self.slots[b];
        proof {
            assert(self@.entries[a as int].heat == x.heat@);
            assert(self@.entries[b as int].heat == y.heat@);
            assert(forall|k: int, l: int|
                0 <= k < l < x.heat@.len() ==> self@.entries[a as int].heat[k].peer
                    != self@.entries[a as int].heat[l].peer);
            assert(forall|k: int, l: int|
                0 <= k < l < y.heat@.len() ==> self@.entries[b as int].heat[k].peer
                    != self@.entries[b as int].heat[l].peer);
        }
        let sent_x = count_for(&x.heat, peer);
        let sent_y = count_for(&y.heat, peer);
        if sent_x != sent_y {
            sent_x < sent_y
        } else {
            x.rumor.key_before(&y.rumor)
        }
    }

    /// The places of the rumors that may go to the peer on the carrier, in the
    /// order in which they go.
    fn hot_order(&self, peer: MemberId, carrier: Carrier) -> (order: Vec<usize>)
        requires
            self.wf(),
        ensures
            is_hot_order(self@, peer, carrier, order@),
    {
        let n = self.slots.len();
        let mut order: Vec<usize> = Vec::new();
        let mut e: usize = 0;
        while e < n
            invariant
                self.wf(),
                n == self@.entries.len(),
                e <= n,
                ranked(self@.entries, peer, order@),
                forall|i: int| 0 <= i < order@.len() ==> (#[trigger] order@[i]) < e,
                forall|i: int|
                    0 <= i < order@.len() ==> eligible(
                        self@.entries[(#[trigger] order@[i]) as int],
                        peer,
                        self@.threshold,
                        carrier,
                    ),
                forall|x: usize|
                    x < e && eligible(self@.entries[x as int], peer, self@.threshold, carrier)
                        ==> order@.contains(x),
            decreases n - e,
        {
            if self.may_go(e, peer, carrier) {
                let mut p: usize = 0;
                while p < order.len() && self.goes_before(order[p], e, peer)
                    invariant
                        self.wf(),
                        e < self@.entries.len(),
                        p <= order@.len(),
                        forall|i: int| 0 <= i < order@.len() ==> (#[trigger] order@[i]) < e,
                        forall|i: int|
                            0 <= i < p ==> rank_less(
                                self@.entries[order@[i] as int],
                                self@.entries[e as int],
                                peer,
                            ),
                    decreases order@.len() - p,
                {
                    p = p + 1;
                }
                let ghost before = order@;
                proof {
                    assert forall|i: int| p <= i < before.len() implies rank_less(
                        self@.entries[e as int],
                        self@.entries[before[i] as int],
                        peer,
                    ) by {
                        lemma_rank_order(self@, peer, before[p as int] as int, e as int, before[i] as int);
                        lemma_rank_order(self@, peer, e as int, before[p as int] as int, before[i] as int);
                    }
                }
                order.insert(p, e);
                proof {
                    assert forall|i: int, j: int| 0 <= i < j < order@.len() implies rank_less(
                        self@.entries[order@[i] as int],
                        self@.entries[order@[j] as int],
                        peer,
                    ) by {
                        if j < p {
                            assert(order@[i] == before[i] && order@[j] == before[j]);
                        } else if j == p {
                            assert(order@[i] == before[i]);
                        } else if i < p {
                            assert(order@[i] == before[i] && order@[j] == before[j - 1]);
                        } else if i == p {
                            assert(order@[j] == before[j - 1]);
                        } else {
                            assert(order@[i] == before[i - 1] && order@[j] == before[j - 1]);
                        }
                    }
                    assert forall|i: int| 0 <= i < order@.len() implies (#[trigger] order@[i]) < e
                        + 1 && eligible(
                        self@.entries[order@[i] as int],
                        peer,
                        self@.threshold,
                        carrier,
                    ) by {
                        if i < p {
                            assert(order@[i] == before[i]);
                        } else if i > p {
                            assert(order@[i] == before[i - 1]);
                        }
                    }
                    assert forall|x: usize|
                        x < e + 1 && eligible(
                            self@.entries[x as int],
                            peer,
                            self@.threshold,
                            carrier,
                        ) implies order@.contains(x) by {
                        if x == e {
                            assert(order@[p as int] == x);
                        } else {
                            assert(before.contains(x));
                            let k = choose|k: int| 0 <= k < before.len() && before[k] == x;
                            if k < p {
                                assert(order@[k] == x);
                            } else {
                                assert(order@[k + 1] == x);
                            }
                        }
                    }
                }
            }
            e = e + 1;
        }
        order
    }

    /// The bytes that the rumor at a place takes on the carrier.
    fn cost_at(&self, at: usize, carrier: Carrier) -> (bytes: usize)
        requires
            at < self@.entries.len(),
        ensures
            bytes == cost(self@.entries[at as int].rumor, carrier),
    {
        let rumor = &self.slots[at].rumor;
        match carrier {
            Carrier::Stream => encode_rumor(rumor).len(),
            Carrier::Datagram => match rumor {
                Rumor::Member(m) => {
                    let mut record: Vec<u8> = Vec::new();
                    put_member(&mut record, m);
                    proof {
                        lemma_entry_bytes_len(*m);
                        crate::message::lemma_member_bytes_len(*m);
                        assert(record@ =~= member_bytes(*m));
                    }
                    record.len() + 2
                },
                Rumor::Data(_) => 0,
            },
        }
    }

    /// How many of the rumors in the order fit the budget, from the first on.
    fn fit(&self, order: &Vec<usize>, carrier: Carrier, budget: usize) -> (count: usize)
        requires
            forall|i: int| 0 <= i < order@.len() ==> (#[trigger] order@[i]) < self@.entries.len(),
        ensures
            count == fitting(costs_of(self@, carrier, order@), budget as nat),
            count <= order@.len(),
    {
        let ghost costs = costs_of(self@, carrier, order@);
        let mut used: usize = 0;
        let mut i: usize = 0;
        let mut going = true;
        assert(costs.skip(0) =~= costs);
        while i < order.len() && going
            invariant
                forall|i: int|
                    0 <= i < order@.len() ==> (#[trigger] order@[i]) < self@.entries.len(),
                costs == costs_of(self@, carrier, order@),
                i <= order@.len(),
                used <= budget,
                going ==> fitting(costs, budget as nat) == i + fitting(
                    costs.skip(i as int),
                    (budget - used) as nat,
                ),
                !going ==> fitting(costs, budget as nat) == i,
            decreases order@.len() - i + if going { 1int } else { 0int },
        {
            let bytes = self.cost_at(order[i], carrier);
            proof {
                assert(costs.skip(i as int)[0] == costs[i as int]);
                assert(costs.skip(i as int).drop_first() =~= costs.skip(i + 1));
            }
            if bytes > budget - used {
                going = false;
            } else {
                used = used + bytes;
                i = i + 1;
            }
        }
        i
    }

    /// The rumors that are hot for a peer, the one sent to it less often
    /// first and of two sent equally often the one with the lesser key, as
    /// many from the first on as fit the budget of bytes together, each at
    /// the length of its frame.
    pub fn hot_for(&self, peer: MemberId, budget: usize) -> (rumors: Vec<Rumor>)
        requires
            self.wf(),
        ensures
            exists|order: Seq<usize>| #[trigger]
                is_hot_order(self@, peer, Carrier::Stream, order) && selected(
                    self@,
                    Carrier::Stream,
                    order,
                    budget as nat,
                    views(rumors@),
                ),
    {
        let order = self.hot_order(peer, Carrier::Stream);
        let count = self.fit(&order, Carrier::Stream, budget);
        let mut rumors: Vec<Rumor> = Vec::new();
        let mut i: usize = 0;
        while i < count
            invariant
                count <= order@.len(),
                i <= count,
                rumors@.len() == i,
                forall|k: int|
                    0 <= k < order@.len() ==> (#[trigger] order@[k]) < self@.entries.len(),
                forall|k: int| 0 <= k < i ==> rumors@[k]@ == self@.entries[order@[k] as int].rumor,
            decreases count - i,
        {
            rumors.push(self.slots[order[i]].rumor.duplicate());
            i = i + 1;
        }
        proof {
            assert(selected(self@, Carrier::Stream, order@, budget as nat, views(rumors@)));
        }
        rumors
    }

    /// The membership rumors that ride along on a probe datagram to a peer:
    /// those that are hot for the peer, in the order in which rumors go, as
    /// many from the first on as fit the budget of bytes together, each at
    /// the length it has in a datagram.
    pub fn piggyback_for(&self, peer: MemberId, budget: usize) -> (members: Vec<Member>)
        requires
            self.wf(),
        ensures
            exists|order: Seq<usize>| #[trigger]
                is_hot_order(self@, peer, Carrier::Datagram, order) && selected(
                    self@,
                    Carrier::Datagram,
                    order,
                    budget as nat,
                    as_rumors(members@),
                ),
    {
        let order = self.hot_order(peer, Carrier::Datagram);
        let count = self.fit(&order, Carrier::Datagram, budget);
        let mut members: Vec<Member> = Vec::new();
        let mut i: usize = 0;
        while i < count
            invariant
                self.wf(),
                is_hot_order(self@, peer, Carrier::Datagram, order@),
                count <= order@.len(),
                i <= count,
                members@.len() == i,
                forall|k: int|
                    0 <= k < i ==> RumorView::Member(members@[k]) == self@.entries[order@[k] as int].rumor,
            decreases count - i,
        {
            assert(order@[i as int] < self@.entries.len());
            assert(eligible(
                self@.entries[order@[i as int] as int],
                peer,
                self@.threshold,
                Carrier::Datagram,
            ));
            match &self.slots[order[i]].rumor {
                Rumor::Member(m) => {
                    members.push(*m);
                },
                Rumor::Data(_) => {},
            }
            i = i + 1;
        }
        proof {
            assert(selected(
                self@,
                Carrier::Datagram,
                order@,
                budget as nat,
                as_rumors(members@),
            ));
        }
        members
    }
}

/// Two to a power.
pub open spec fn pow2(n: nat) -> nat
    decreases n,
{
    if n == 0 {
        1
    } else {
        2 * pow2((n - 1) as nat)
    }
}

/// The number is the default threshold for a cluster of the given size: three
/// times the binary logarithm of the size plus one, rounded up. That is the
/// least power to which two must be raised to reach the cube of the size plus
/// one.
pub open spec fn is_default_threshold(size: nat, k: nat) -> bool {
    let cube = (size + 1) * (size + 1) * (size + 1);
    pow2(k) >= cube && (k == 0 || pow2((k - 1) as nat) < cube)
}

/// The default threshold for a cluster of the given size.
pub open spec fn default_threshold_of(size: nat) -> nat {
    choose|k: nat| is_default_threshold(size, k)
}

/// Only one number is the default threshold for a size.
pub proof fn lemma_default_threshold_unique(size: nat, a: nat, b: nat)
    requires
        is_default_threshold(size, a),
        is_default_threshold(size, b),
    ensures
        a == b,
{
    if a < b {
        lemma_pow2_grows(a, (b - 1) as nat);
    } else if b < a {
        lemma_pow2_grows(b, (a - 1) as nat);
    }
}

/// The default threshold for a cluster of the given size.
pub fn default_threshold(size: u32) -> (k: u32)
    ensures
        is_default_threshold(size as nat, k as nat),
        k == default_threshold_of(size as nat),
        k <= 96,
{
    let base: u128 = size as u128 + 1;
    assert(base * base <= 0x1_0000_0000 * 0x1_0000_0000) by (nonlinear_arith)
        requires
            base <= 0x1_0000_0000,
    ;
    let square: u128 = base * base;
    assert(square * base <= 0x1_0000_0000_0000_0000 * 0x1_0000_0000) by (nonlinear_arith)
        requires
            square <= 0x1_0000_0000_0000_0000,
            base <= 0x1_0000_0000,
    ;
    let cube: u128 = square * base;
    let mut k: u32 = 0;
    let mut power: u128 = 1;
    proof {
        lemma_pow2_ninety_six();
    }
    while power < cube
        invariant
            power == pow2(k as nat),
            cube == (size + 1) * (size + 1) * (size + 1),
            cube <= 0x1_0000_0000_0000_0000_0000_0000,
            k <= 96,
            pow2(96) == 0x1_0000_0000_0000_0000_0000_0000,
            k == 0 || pow2((k - 1) as nat) < cube,
        decreases 96 - k,
    {
        proof {
            if k == 96 {
                assert(false);
            }
            lemma_pow2_grows((k + 1) as nat, 96);
        }
        power = power * 2;
        k = k + 1;
    }
    proof {
        lemma_default_threshold_unique(size as nat, k as nat, default_threshold_of(size as nat));
    }
    k
}

/// Two to the power of 96.
proof fn lemma_pow2_ninety_six()
    ensures
        pow2(96) == 0x1_0000_0000_0000_0000_0000_0000,
{
    reveal_with_fuel(pow2, 33);
    assert(pow2(32) == 0x1_0000_0000);
    assert(pow2(64) == 0x1_0000_0000 * pow2(32));
    assert(pow2(96) == 0x1_0000_0000 * pow2(64));
}

/// Two to a power does not shrink as the power grows.
proof fn lemma_pow2_grows(low: nat, high: nat)
    requires
        low <= high,
    ensures
        pow2(low) <= pow2(high),
    decreases high,
{
    if low < high {
        lemma_pow2_grows(low, (high - 1) as nat);
    }
}

/// Counting a sending keeps the store in order, never lowers a count and
/// never takes one beyond the threshold plus one: of every held rumor and
/// every peer, the count after is at least the count before, and at most the
/// threshold plus one.
pub proof fn lemma_marked_counts(v: StoreState, key: RumorKey, peer: MemberId, at: int, to: MemberId)
    requires
        well_formed(v),
        0 <= at < v.entries.len(),
    ensures
        well_formed(StoreState { entries: marked(v, key, peer), threshold: v.threshold }),
        marked(v, key, peer).len() == v.entries.len(),
        marked(v, key, peer)[at].rumor == v.entries[at].rumor,
        send_count(v.entries[at].heat, to) <= send_count(marked(v, key, peer)[at].heat, to)
            <= v.threshold + 1,
{
    let cap = (v.threshold + 1) as u64;
    let after = marked(v, key, peer);
    lemma_warmed(v.entries[at].heat, peer, cap, to);
    lemma_warmed(v.entries[at].heat, to, cap, to);
    if holds_key(v.entries, key) {
        let hit = slot_of(v.entries, key);
        lemma_warmed(v.entries[hit].heat, peer, cap, to);
        assert forall|i: int, j: int| 0 <= i < j < after.len() implies after[i].rumor.key()
            != after[j].rumor.key() by {
            assert(after[i].rumor == v.entries[i].rumor);
            assert(after[j].rumor == v.entries[j].rumor);
        }
    }
}

/// Offering a rumor leaves every held rumor of another key as it was, heat
/// and all.
pub proof fn lemma_offered_keeps(v: StoreState, rumor: RumorView, at: int)
    requires
        well_formed(v),
        0 <= at < v.entries.len(),
        v.entries[at].rumor.key() != rumor.key(),
    ensures
        at < offered(v.entries, rumor).len(),
        offered(v.entries, rumor)[at] == v.entries[at],
{
}

impl RumorStore {
    /// Counts one more sending to a peer for each of the rumors, in their
    /// order.
    pub fn mark_all_sent(&mut self, rumors: &Vec<Rumor>, peer: MemberId)
        requires
            old(self).wf(),
        ensures
            final(self).wf(),
            final(self)@ == marked_all(old(self)@, views(rumors@), peer),
    {
        let mut i: usize = 0;
        assert(views(rumors@).take(0) =~= Seq::<RumorView>::empty());
        while i < rumors.len()
            invariant
                i <= rumors@.len(),
                self.wf(),
                self@ == marked_all(old(self)@, views(rumors@).take(i as int), peer),
            decreases rumors@.len() - i,
        {
            self.mark_sent(&rumors[i].id(), peer);
            proof {
                let done = views(rumors@).take(i + 1);
                assert(done.drop_last() =~= views(rumors@).take(i as int));
                assert(done.last() == rumors@[i as int]@);
            }
            i = i + 1;
        }
        assert(views(rumors@).take(rumors@.len() as int) =~= views(rumors@));
    }

    /// Copies of the rumors held, in the order in which their keys came.
    pub fn rumors(&self) -> (rumors: Vec<Rumor>)
        ensures
            rumors@.len() == self@.entries.len(),
            forall|i: int| 0 <= i < rumors@.len() ==> rumors@[i]@ == self@.entries[i].rumor,
    {
        let mut rumors: Vec<Rumor> = Vec::new();
        let mut i: usize = 0;
        while i < self.slots.len()
            invariant
                i <= self@.entries.len(),
                rumors@.len() == i,
                forall|j: int| 0 <= j < i ==> rumors@[j]@ == self@.entries[j].rumor,
            decreases self@.entries.len() - i,
        {
            rumors.push(self.slots[i].rumor.duplicate());
            i = i + 1;
        }
        rumors
    }
}

/// What the store holds once one more sending to a peer has been counted for
/// each of the rumors, in their order.
pub open spec fn marked_all(v: StoreState, rumors: Seq<RumorView>, peer: MemberId) -> StoreState
    decreases rumors.len(),
{
    if rumors.len() == 0 {
        v
    } else {
        let before = marked_all(v, rumors.drop_last(), peer);
        StoreState { entries: marked(before, rumors.last().key(), peer), threshold: before.threshold }
    }
}

} // verus!
