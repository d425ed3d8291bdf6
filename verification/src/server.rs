//! The server: the one object that holds the membership list and the rumor
//! store of a node, and through which everything reaches them.

use crate::error::Error;
use crate::frame::{decode_rumor, parse_frame};
use crate::member::{
    must_refute, refute, refuting_incarnation, Address, Health, Member, MemberId, Standing,
};
use crate::member_list::{
    candidates, draw_from, drawn, knows, lemma_reconciled_standing, lookup, probe_candidates,
    reconciled, MemberList, Record,
};
use crate::message::{
    datagram_bytes, decode_swim, entries_len, entry_bytes, lemma_datagram_len, parse_datagram,
    DecodeError, Swim, SwimKind, SwimView, MAX_DATAGRAM,
};
use crate::probe::{advance, step, Action, Event, Phase, Timing};
use crate::rumor::{Datum, Rumor, RumorView};
use crate::store::{
    as_rumors, costs_of, default_threshold, default_threshold_of, is_hot_order,
    lemma_fitting_within, marked_all, offered, outcome_of, raised, selected, total, views,
    well_formed, Carrier, Outcome, RumorStore, StoreState,
};
use vstd::prelude::*;

verus! {

/// The length of a ring key in bytes.
pub const RING_KEY_LEN: usize = 32;

/// The membership and the rumors of a node, and where its probing stands.
pub struct Server {
    me: Member,
    members: MemberList,
    rumors: RumorStore,
    phase: Phase,
    rotation: Vec<MemberId>,
    timing: Timing,
    dropped: u64,
    ring_key: Option<Vec<u8>>,
}

/// What a server holds.
pub struct ServerView {
    /// The node itself.
    pub me: Member,
    /// The other members, as the node knows them.
    pub members: Seq<Record>,
    /// The rumors with their heat.
    pub rumors: StoreState,
    /// Where the probe cycle stands.
    pub phase: Phase,
    /// The probe targets that are left of the current round, the next one last.
    pub rotation: Seq<MemberId>,
    /// The times of the protocol.
    pub timing: Timing,
    /// How many datagrams and frames were dropped because they could not be read.
    pub dropped: u64,
    /// The ring key, where the node has one.
    pub ring_key: Option<Seq<u8>>,
}

/// The store once a rumor has been offered to it.
pub open spec fn store_offered(store: StoreState, rumor: RumorView) -> StoreState {
    StoreState { entries: offered(store.entries, rumor), threshold: store.threshold }
}

/// The size of a cluster in which a node knows of so many others: those and
/// the node itself, counted no further than 32 bits go.
pub open spec fn cluster_size(others: nat) -> nat {
    if others >= u32::MAX {
        u32::MAX as nat
    } else {
        others + 1
    }
}

/// What the server holds once a rumor of a member has been applied at a time.
///
/// A rumor about the node itself changes something only where it must be
/// refuted: the node then takes the refuting incarnation, stays Alive, and
/// offers that standing of itself to its store. A rumor about another member
/// goes through the reconciliation rules into the list; the threshold of the
/// store is raised to the default one for the cluster as it is known then,
/// and the rumor is offered to the store.
pub open spec fn applied(v: ServerView, m: Member, now: u64) -> ServerView {
    if m.id == v.me.id {
        if must_refute(v.me.incarnation, m.standing_of()) {
            let me = Member { incarnation: refuting_incarnation(m.incarnation), ..v.me };
            ServerView { me, rumors: store_offered(v.rumors, RumorView::Member(me)), ..v }
        } else {
            v
        }
    } else {
        let members = reconciled(v.members, m, m.standing_of(), now);
        ServerView {
            members,
            rumors: store_offered(
                raised(v.rumors, default_threshold_of(cluster_size(members.len()))),
                RumorView::Member(m),
            ),
            ..v
        }
    }
}

/// What the server holds once rumors of members have been applied one after
/// the other.
pub open spec fn applied_all(v: ServerView, members: Seq<Member>, now: u64) -> ServerView
    decreases members.len(),
{
    if members.len() == 0 {
        v
    } else {
        applied(applied_all(v, members.drop_last(), now), members.last(), now)
    }
}

/// What a server holds when it starts: itself, Alive, with its own standing
/// as the first rumor in a store with the default threshold for a cluster of
/// one; then the initial peers, applied one after the other.
pub open spec fn started(
    local: Member,
    peers: Seq<Member>,
    ring_key: Option<Seq<u8>>,
    now: u64,
) -> ServerView {
    let me = Member { health: Health::Alive, ..local };
    let store = StoreState { entries: Seq::empty(), threshold: default_threshold_of(1) as u64 };
    applied_all(
        ServerView {
            me,
            members: Seq::empty(),
            rumors: store_offered(store, RumorView::Member(me)),
            phase: Phase::Idle,
            rotation: Seq::empty(),
            timing: (Timing {
                period: 1000,
                ack_timeout: 300,
                fanout: 5,
                suspicion: 5000,
                expire_every: 100,
            }),
            dropped: 0,
            ring_key,
        },
        peers,
        now,
    )
}

/// What the server holds once a rumor has come in: a rumor of a member is
/// applied, any other is offered to the store.
pub open spec fn received(v: ServerView, rumor: RumorView, now: u64) -> ServerView {
    match rumor {
        RumorView::Member(m) => applied(v, m, now),
        RumorView::Data(_) => ServerView { rumors: store_offered(v.rumors, rumor), ..v },
    }
}

/// The server is in order: its list and its store are, the node itself is
/// Alive, and it is not in its own list of the others.
pub open spec fn in_order(v: ServerView) -> bool {
    &&& crate::member_list::distinct(v.members)
    &&& well_formed(v.rumors)
    &&& v.me.health == Health::Alive
    &&& !knows(v.members, v.me.id)
}

/// One more, unless the count is at its highest already.
pub open spec fn one_more(count: u64) -> u64 {
    if count < u64::MAX {
        (count + 1) as u64
    } else {
        count
    }
}

/// Applying a rumor of a member keeps the server in order, keeps the node
/// Alive, and never lowers the node's incarnation.
pub proof fn lemma_applied(v: ServerView, m: Member, now: u64)
    requires
        in_order(v),
    ensures
        in_order(applied(v, m, now)),
        applied(v, m, now).me.id == v.me.id,
        applied(v, m, now).me.incarnation >= v.me.incarnation,
        applied(v, m, now).me.incarnation != v.me.incarnation ==> m.id == v.me.id && must_refute(
            v.me.incarnation,
            m.standing_of(),
        ),
        applied(v, m, now).rumors.threshold >= v.rumors.threshold,
{
    let after = applied(v, m, now);
    if m.id == v.me.id {
        if must_refute(v.me.incarnation, m.standing_of()) {
            let me = Member { incarnation: refuting_incarnation(m.incarnation), ..v.me };
            lemma_offered_in_order(v.rumors, RumorView::Member(me));
        }
    } else {
        let members = reconciled(v.members, m, m.standing_of(), now);
        lemma_offered_in_order(
            raised(v.rumors, default_threshold_of(cluster_size(members.len()))),
            RumorView::Member(m),
        );
        lemma_reconciled_standing(v.members, m, m.standing_of(), now, v.me.id);
        assert(lookup(v.members, v.me.id) is None);
    }
}

/// Applying rumors of members one after the other keeps the server in order,
/// and lowers neither the node's incarnation nor the threshold of the store.
pub proof fn lemma_applied_all(v: ServerView, members: Seq<Member>, now: u64)
    requires
        in_order(v),
    ensures
        in_order(applied_all(v, members, now)),
        applied_all(v, members, now).me.id == v.me.id,
        applied_all(v, members, now).me.incarnation >= v.me.incarnation,
        applied_all(v, members, now).rumors.threshold >= v.rumors.threshold,
    decreases members.len(),
{
    if members.len() > 0 {
        lemma_applied_all(v, members.drop_last(), now);
        lemma_applied(applied_all(v, members.drop_last(), now), members.last(), now);
    }
}

/// Offering a rumor keeps a store in order.
pub proof fn lemma_offered_in_order(store: StoreState, rumor: RumorView)
    requires
        well_formed(store),
    ensures
        well_formed(store_offered(store, rumor)),
{
    let after = store_offered(store, rumor);
    let key = rumor.key();
    assert forall|i: int, j: int| 0 <= i < j < after.entries.len() implies after.entries[i].rumor.key()
        != after.entries[j].rumor.key() by {
        if crate::store::holds_key(store.entries, key) {
            let at = crate::store::slot_of(store.entries, key);
            assert(store.entries[i].rumor.key() != store.entries[j].rumor.key());
        } else {
            if j < store.entries.len() {
                assert(store.entries[i].rumor.key() != store.entries[j].rumor.key());
            }
        }
    }
}

impl View for Server {
    type V = ServerView;

    closed spec fn view(&self) -> ServerView {
        ServerView {
            me: self.me,
            members: self.members@,
            rumors: self.rumors@,
            phase: self.phase,
            rotation: self.rotation@,
            timing: self.timing,
            dropped: self.dropped,
            ring_key: crate::rumor::opt_view(self.ring_key),
        }
    }
}

impl Server {
    /// The server is in order.
    pub open spec fn wf(&self) -> bool {
        in_order(self@)
    }

    /// Applies a rumor of a member at a time.
    fn apply_member(&mut self, m: Member, now: u64)
        requires
            old(self).wf(),
        ensures
            final(self).wf(),
            final(self)@ == applied(old(self)@, m, now),
    {
        proof {
            lemma_applied(self@, m, now);
        }
        if m.id == self.me.id {
            match refute(self.me.incarnation, m.standing()) {
                Some(incarnation) => {
                    self.me = Member { incarnation, ..self.me };
                    self.rumors.insert(Rumor::Member(self.me));
                },
                None => {},
            }
        } else {
            self.members.insert(m, m.health, m.incarnation, now);
            let others = self.members.len();
            let size: u32 = if others >= u32::MAX as usize {
                u32::MAX
            } else {
                (others + 1) as u32
            };
            self.rumors.raise_threshold(default_threshold(size));
            self.rumors.insert(Rumor::Member(m));
        }
    }

    /// Applies rumors of members at a time, one after the other.
    fn apply_members(&mut self, members: &Vec<Member>, now: u64)
        requires
            old(self).wf(),
        ensures
            final(self).wf(),
            final(self)@ == applied_all(old(self)@, members@, now),
    {
        let mut i: usize = 0;
        assert(members@.take(0) =~= Seq::<Member>::empty());
        while i < members.len()
            invariant
                i <= members@.len(),
                self.wf(),
                self@ == applied_all(old(self)@, members@.take(i as int), now),
            decreases members@.len() - i,
        {
            self.apply_member(members[i], now);
            proof {
                assert(members@.take(i + 1).drop_last() =~= members@.take(i as int));
                assert(members@.take(i + 1).last() == members@[i as int]);
            }
            i = i + 1;
        }
        assert(members@.take(members@.len() as int) =~= members@);
    }

    /// Starts a server for a node with its initial peers at a time. A ring
    /// key that is not 32 bytes long is turned away and nothing else is. The
    /// node is Alive and holds its own standing as a rumor; the peers are
    /// applied as rumors of members, one after the other.
    pub fn start(local: Member, initial_peers: Vec<Member>, ring_key: Option<Vec<u8>>, now: u64) -> (r:
        Result<Server, Error>)
        ensures
            match r {
                Ok(server) => {
                    &&& server.wf()
                    &&& (ring_key matches Some(key) ==> key@.len() == RING_KEY_LEN)
                    &&& server@ == started(
                        local,
                        initial_peers@,
                        crate::rumor::opt_view(ring_key),
                        now,
                    )
                },
                Err(e) => e is InvalidRingKey && (ring_key matches Some(key) && key@.len()
                    != RING_KEY_LEN),
            },
    {
        match &ring_key {
            Some(key) => {
                if key.len() != RING_KEY_LEN {
                    return Err(Error::InvalidRingKey);
                }
            },
            None => {},
        }
        let me = Member { health: Health::Alive, ..local };
        let threshold = default_threshold(1);
        let mut rumors = RumorStore::new(threshold);
        let ghost empty = StoreState { entries: Seq::empty(), threshold: threshold as u64 };
        assert(rumors@.entries =~= empty.entries);
        assert(rumors@ == empty);
        rumors.insert(Rumor::Member(me));
        assert(rumors@ == store_offered(empty, RumorView::Member(me)));
        let mut server = Server {
            me,
            members: MemberList::new(),
            rumors,
            phase: Phase::Idle,
            rotation: Vec::new(),
            timing: Timing::standard(),
            dropped: 0,
            ring_key,
        };
        proof {
            assert(server@.members =~= Seq::<Record>::empty());
            assert(server@.rotation =~= Seq::<MemberId>::empty());
            lemma_offered_in_order(empty, RumorView::Member(me));
            assert(server.wf());
        }
        server.apply_members(&initial_peers, now);
        Ok(server)
    }

    /// The node itself, as it stands.
    pub fn me(&self) -> (me: Member)
        ensures
            me == self@.me,
    {
        self.me
    }

    /// Where the probe cycle stands.
    pub fn phase(&self) -> (phase: Phase)
        ensures
            phase == self@.phase,
    {
        self.phase
    }

    /// The health that is believed of the member of an identity, if the
    /// member is known.
    pub fn health_of(&self, id: MemberId) -> (health: Option<Health>)
        requires
            self.wf(),
        ensures
            health == match lookup(self@.members, id) {
                Some(record) => Some(record.member.health),
                None => None,
            },
    {
        self.members.health_of(id)
    }

    /// Whether the node has a ring key.
    pub fn has_ring(&self) -> (yes: bool)
        ensures
            yes == self@.ring_key is Some,
    {
        self.ring_key.is_some()
    }

    /// How many datagrams and frames were dropped because they could not be
    /// read.
    pub fn dropped(&self) -> (count: u64)
        ensures
            count == self@.dropped,
    {
        self.dropped
    }

    /// Takes in what is said of a member at a time: the member with the given
    /// health, at the incarnation it carries.
    pub fn insert_member(&mut self, member: Member, health: Health, now: u64)
        requires
            old(self).wf(),
        ensures
            final(self).wf(),
            final(self)@ == applied(old(self)@, Member { health, ..member }, now),
    {
        self.apply_member(Member { health, ..member }, now);
    }

    /// Offers a rumor with a payload to the store.
    pub fn insert_service_rumor(&mut self, datum: Datum) -> (outcome: Outcome)
        requires
            old(self).wf(),
        ensures
            final(self).wf(),
            outcome == outcome_of(old(self)@.rumors.entries, RumorView::Data(datum@)),
            final(self)@ == (ServerView {
                rumors: store_offered(old(self)@.rumors, RumorView::Data(datum@)),
                ..old(self)@
            }),
    {
        let rumor = Rumor::Data(datum);
        let outcome = self.rumors.insert(rumor);
        outcome
    }

    /// The other members as the node knows them, in the order in which it
    /// came to know them.
    pub fn member_list_snapshot(&self) -> (members: Vec<Member>)
        ensures
            members@ == self@.members.map_values(|r: Record| r.member),
    {
        self.members.members()
    }

    /// Copies of the rumors held, in the order in which their keys came.
    pub fn rumor_snapshot(&self) -> (rumors: Vec<Rumor>)
        ensures
            rumors@.len() == self@.rumors.entries.len(),
            forall|i: int| 0 <= i < rumors@.len() ==> rumors@[i]@ == self@.rumors.entries[i].rumor,
    {
        self.rumors.rumors()
    }

    /// Takes in a frame that came over the gossip stream at a time. A frame
    /// that cannot be read is dropped and counted. The rumor of any other is
    /// received: applied if it is of a member, offered to the store if not.
    pub fn on_frame(&mut self, buf: &[u8], now: u64) -> (r: Result<(), DecodeError>)
        requires
            old(self).wf(),
        ensures
            final(self).wf(),
            match parse_frame(buf@) {
                Ok(rumor) => r is Ok && final(self)@ == received(old(self)@, rumor, now),
                Err(e) => r == Err::<(), DecodeError>(e) && final(self)@ == (ServerView {
                    dropped: one_more(old(self)@.dropped),
                    ..old(self)@
                }),
            },
    {
        match decode_rumor(buf) {
            Ok(rumor) => {
                match rumor {
                    Rumor::Member(m) => {
                        self.apply_member(m, now);
                    },
                    Rumor::Data(d) => {
                        proof {
                            lemma_offered_in_order(self@.rumors, RumorView::Data(d@));
                        }
                        self.rumors.insert(Rumor::Data(d));
                    },
                }
                Ok(())
            },
            Err(e) => {
                if self.dropped < u64::MAX {
                    self.dropped = self.dropped + 1;
                }
                Err(e)
            },
        }
    }

    /// The rumors to stream to a peer: all that are hot for it, in the order
    /// in which rumors go.
    pub fn rumors_for(&self, peer: MemberId) -> (rumors: Vec<Rumor>)
        requires
            self.wf(),
        ensures
            exists|order: Seq<usize>| #[trigger]
                crate::store::is_hot_order(self@.rumors, peer, crate::store::Carrier::Stream, order)
                    && crate::store::selected(
                    self@.rumors,
                    crate::store::Carrier::Stream,
                    order,
                    usize::MAX as nat,
                    views(rumors@),
                ),
    {
        self.rumors.hot_for(peer, usize::MAX)
    }

    /// Notes how a push to a peer went. Where the rumors were delivered, one
    /// more sending to the peer is counted for each; where the connection
    /// failed, nothing changes.
    pub fn pushed(&mut self, peer: MemberId, rumors: &Vec<Rumor>, delivered: bool)
        requires
            old(self).wf(),
        ensures
            final(self).wf(),
            final(self)@ == if delivered {
                ServerView { rumors: marked_all(old(self)@.rumors, views(rumors@), peer), ..old(self)@ }
            } else {
                old(self)@
            },
    {
        if delivered {
            self.rumors.mark_all_sent(rumors, peer);
        }
    }

    /// Confirms the suspicions that have lasted as long as the suspicion
    /// timeout, and offers the new standing of each confirmed member to the
    /// store. The members confirmed by this call are returned.
    pub fn expire(&mut self, now: u64) -> (confirmed: Vec<Member>)
        requires
            old(self).wf(),
        ensures
            final(self).wf(),
            final(self)@.members == old(self)@.members.map_values(
                |r: Record| crate::member_list::expired(r, now, old(self)@.timing.suspicion),
            ),
            confirmed@ == old(self)@.members.filter(
                |r: Record|
                    r.member.health == Health::Suspect && crate::member_list::overdue(
                        r.since,
                        now,
                        old(self)@.timing.suspicion,
                    ),
            ).map_values(
                |r: Record| crate::member_list::expired(r, now, old(self)@.timing.suspicion).member,
            ),
            final(self)@.rumors == offered_all(old(self)@.rumors, confirmed@),
            final(self)@.me == old(self)@.me,
            final(self)@.phase == old(self)@.phase,
            final(self)@.rotation == old(self)@.rotation,
            final(self)@.timing == old(self)@.timing,
            final(self)@.dropped == old(self)@.dropped,
    {
        let confirmed = self.members.expire(now, self.timing.suspicion);
        proof {
            assert(!knows(self@.members, self@.me.id)) by {
                if knows(self@.members, self@.me.id) {
                    let i = choose|i: int|
                        0 <= i < self@.members.len() && self@.members[i].member.id == self@.me.id;
                    assert(old(self)@.members[i].member.id == self@.me.id);
                }
            }
        }
        let mut i: usize = 0;
        assert(confirmed@.take(0) =~= Seq::<Member>::empty());
        while i < confirmed.len()
            invariant
                i <= confirmed@.len(),
                self.wf(),
                self@.rumors == offered_all(old(self)@.rumors, confirmed@.take(i as int)),
                self@.members == old(self)@.members.map_values(
                    |r: Record| crate::member_list::expired(r, now, old(self)@.timing.suspicion),
                ),
                self@.me == old(self)@.me,
                self@.phase == old(self)@.phase,
                self@.rotation == old(self)@.rotation,
                self@.timing == old(self)@.timing,
                self@.dropped == old(self)@.dropped,
            decreases confirmed@.len() - i,
        {
            proof {
                lemma_offered_in_order(self@.rumors, RumorView::Member(confirmed@[i as int]));
                assert(confirmed@.take(i + 1).drop_last() =~= confirmed@.take(i as int));
                assert(confirmed@.take(i + 1).last() == confirmed@[i as int]);
            }
            self.rumors.insert(Rumor::Member(confirmed[i]));
            i = i + 1;
        }
        assert(confirmed@.take(confirmed@.len() as int) =~= confirmed@);
        confirmed
    }
}

/// The store once the standing of each of the members has been offered to
/// it, one after the other.
pub open spec fn offered_all(store: StoreState, members: Seq<Member>) -> StoreState
    decreases members.len(),
{
    if members.len() == 0 {
        store
    } else {
        store_offered(offered_all(store, members.drop_last()), RumorView::Member(members.last()))
    }
}

/// The bytes that the rumors of one datagram may take: what is left of 512
/// bytes after the version, the length, and the kind, sender and subject.
pub const PIGGYBACK_BUDGET: usize = 471;

/// To how many peers the rumors are pushed in one round.
pub const PUSH_FANOUT: usize = 5;

/// A datagram to send, and the member to send it to.
#[derive(Clone, Debug, PartialEq, Eq)]
pub struct Outgoing {
    pub to: MemberId,
    pub message: Swim,
}

/// The rumors are those that ride along to the member from the store: the
/// membership rumors that are hot for it, in the order in which rumors go, as
/// many from the first on as fit the budget of a datagram.
pub open spec fn piggybacked(store: StoreState, to: MemberId, membership: Seq<Member>) -> bool {
    exists|order: Seq<usize>| #[trigger]
        is_hot_order(store, to, Carrier::Datagram, order) && selected(
            store,
            Carrier::Datagram,
            order,
            PIGGYBACK_BUDGET as nat,
            as_rumors(membership),
        )
}

/// What the server holds once a datagram with these rumors has gone to the
/// member: one more sending to the member is counted for each of the rumors.
pub open spec fn sent(v: ServerView, to: MemberId, membership: Seq<Member>) -> ServerView {
    ServerView { rumors: marked_all(v.rumors, as_rumors(membership), to), ..v }
}

/// Where the costs are the lengths of the members' entries, their sum is the
/// length of the rumors on the wire.
pub proof fn lemma_total_is_entries_len(costs: Seq<nat>, members: Seq<Member>)
    requires
        members.len() <= costs.len(),
        forall|i: int| 0 <= i < members.len() ==> costs[i] == entry_bytes(members[i]).len(),
    ensures
        total(costs, members.len()) == entries_len(members),
    decreases members.len(),
{
    if members.len() > 0 {
        let rest_costs = costs.drop_first();
        let rest = members.drop_first();
        assert forall|i: int| 0 <= i < rest.len() implies rest_costs[i] == entry_bytes(
            rest[i],
        ).len() by {
            assert(rest_costs[i] == costs[i + 1]);
            assert(rest[i] == members[i + 1]);
        }
        lemma_total_is_entries_len(rest_costs, rest);
        assert(costs[0] == entry_bytes(members[0]).len());
    }
}

/// The rumors that ride along take no more bytes than the budget of a
/// datagram allows, so the datagram that carries them is within 512 bytes.
pub proof fn lemma_piggyback_fits(
    store: StoreState,
    to: MemberId,
    kind: SwimKind,
    sender: MemberId,
    subject: MemberId,
    membership: Seq<Member>,
)
    requires
        piggybacked(store, to, membership),
    ensures
        entries_len(membership) <= PIGGYBACK_BUDGET,
        datagram_bytes(SwimView { kind, sender, subject, membership }).len() <= MAX_DATAGRAM,
{
    let order = choose|order: Seq<usize>| #[trigger]
        is_hot_order(store, to, Carrier::Datagram, order) && selected(
            store,
            Carrier::Datagram,
            order,
            PIGGYBACK_BUDGET as nat,
            as_rumors(membership),
        );
    let costs = costs_of(store, Carrier::Datagram, order);
    lemma_fitting_within(costs, PIGGYBACK_BUDGET as nat);
    assert(as_rumors(membership).len() == membership.len());
    assert forall|i: int| 0 <= i < membership.len() implies costs[i] == entry_bytes(
        membership[i],
    ).len() by {
        assert(as_rumors(membership)[i] == store.entries[order[i] as int].rumor);
    }
    lemma_total_is_entries_len(costs, membership);
    lemma_datagram_len(SwimView { kind, sender, subject, membership });
}

/// The datagram is the one of this kind, sender and subject for the member,
/// with the rumors that ride along from the store of the server. Such a
/// datagram is within 512 bytes.
pub open spec fn composed(
    v: ServerView,
    out: Outgoing,
    kind: SwimKind,
    sender: MemberId,
    to: MemberId,
    subject: MemberId,
) -> bool {
    &&& out.to == to
    &&& out.message@.kind == kind
    &&& out.message@.sender == sender
    &&& out.message@.subject == subject
    &&& piggybacked(v.rumors, to, out.message@.membership)
    &&& datagram_bytes(out.message@).len() <= MAX_DATAGRAM
}

/// What the server holds once it has heard a datagram at a time, before it
/// answers: the rumors that rode along are applied, and an Ack that is owed
/// to this node is handed to the probe cycle as the answer of its sender.
pub open spec fn heard(v: ServerView, msg: SwimView, now: u64) -> ServerView {
    let after = applied_all(v, msg.membership, now);
    if msg.kind == SwimKind::Ack && msg.subject == after.me.id {
        ServerView {
            phase: step(after.phase, Event::Ack { from: msg.sender }, after.timing).0,
            ..after
        }
    } else {
        after
    }
}

/// The kind, the sender, the receiver and the subject of the datagram that
/// answers a datagram, if one does. A Ping is answered with an Ack to its
/// sender, which carries the subject of the Ping. A PingReq is answered with
/// a Ping to its subject, sent on behalf of its sender. An Ack that is owed to
/// another member is passed on to that member as it is; one that is owed to
/// this node is not answered.
pub open spec fn answer_head(me: MemberId, msg: SwimView) -> Option<
    (SwimKind, MemberId, MemberId, MemberId),
> {
    match msg.kind {
        SwimKind::Ping => Some((SwimKind::Ack, me, msg.sender, msg.subject)),
        SwimKind::PingReq => Some((SwimKind::Ping, me, msg.subject, msg.sender)),
        SwimKind::Ack => if msg.subject == me {
            None
        } else {
            Some((SwimKind::Ack, msg.sender, msg.subject, msg.subject))
        },
    }
}

/// The answer and the server after it are what a heard datagram calls for.
pub open spec fn answers(
    v: ServerView,
    msg: SwimView,
    now: u64,
    reply: Option<Outgoing>,
    after: ServerView,
) -> bool {
    let listened = heard(v, msg, now);
    match answer_head(listened.me.id, msg) {
        None => reply is None && after == listened,
        Some((kind, sender, to, subject)) => reply is Some && composed(
            listened,
            reply->Some_0,
            kind,
            sender,
            to,
            subject,
        ) && after == sent(listened, to, reply->Some_0.message@.membership),
    }
}

/// What the server holds once time has passed: the probe cycle has taken the
/// tick, and where that brings the suspicion of a member that is known, the
/// member has been applied as Suspect at the incarnation it is known with.
pub open spec fn ticked(v: ServerView, now: u64) -> ServerView {
    let (phase, action) = step(v.phase, Event::Tick { now }, v.timing);
    let moved = ServerView { phase, ..v };
    match action {
        Action::Suspect(target) => match lookup(v.members, target) {
            Some(record) => applied(
                moved,
                Member { health: Health::Suspect, ..record.member },
                now,
            ),
            None => moved,
        },
        _ => moved,
    }
}

/// The identities of members.
pub open spec fn ids_of(members: Seq<Member>) -> Seq<MemberId> {
    members.map_values(|m: Member| m.id)
}

/// The target and the rest of the round are what the server takes next: the
/// last of the round that is under way, or, where that is used up, the last
/// of a new round, which is the probe candidates in a random order.
pub open spec fn takes_next(v: ServerView, target: Option<MemberId>, rest: Seq<MemberId>) -> bool {
    if v.rotation.len() > 0 {
        target == Some(v.rotation.last()) && rest == v.rotation.drop_last()
    } else {
        exists|round: Seq<Member>| #[trigger]
            drawn(
                probe_candidates(v.members, v.me.id),
                probe_candidates(v.members, v.me.id).len(),
                round,
            ) && if round.len() == 0 {
                target is None && rest == Seq::<MemberId>::empty()
            } else {
                target == Some(round.last().id) && rest == ids_of(round).drop_last()
            }
    }
}

/// What the server holds once the datagrams have gone out one after the
/// other.
pub open spec fn sent_all(v: ServerView, outs: Seq<Outgoing>) -> ServerView
    decreases outs.len(),
{
    if outs.len() == 0 {
        v
    } else {
        sent(sent_all(v, outs.drop_last()), outs.last().to, outs.last().message@.membership)
    }
}

/// Each of the datagrams asks its receiver to probe the target, and carries
/// the rumors that rode along from the store as it stood when the datagrams
/// before it had gone out.
pub open spec fn requests(v: ServerView, outs: Seq<Outgoing>, relays: Seq<Member>, target: MemberId)
    -> bool
    decreases outs.len(),
{
    outs.len() <= relays.len() && (outs.len() == 0 || (requests(
        v,
        outs.drop_last(),
        relays,
        target,
    ) && composed(
        sent_all(v, outs.drop_last()),
        outs.last(),
        SwimKind::PingReq,
        v.me.id,
        relays[outs.len() - 1].id,
        target,
    )))
}

/// Counting sendings keeps a server in order.
pub proof fn lemma_sent_in_order(v: ServerView, to: MemberId, rumors: Seq<RumorView>)
    requires
        in_order(v),
    ensures
        well_formed(marked_all(v.rumors, rumors, to)),
        marked_all(v.rumors, rumors, to).threshold == v.rumors.threshold,
    decreases rumors.len(),
{
    if rumors.len() > 0 {
        lemma_sent_in_order(v, to, rumors.drop_last());
        let before = marked_all(v.rumors, rumors.drop_last(), to);
        if before.entries.len() > 0 {
            crate::store::lemma_marked_counts(before, rumors.last().key(), to, 0, to);
        } else {
            assert(!crate::store::holds_key(before.entries, rumors.last().key()));
        }
    }
}

/// Whatever a server hears, receives, sends or lets pass, the node stays
/// itself and Alive, and its incarnation never goes down.
pub proof fn lemma_node_is_stable(
    v: ServerView,
    msg: SwimView,
    rumor: RumorView,
    to: MemberId,
    membership: Seq<Member>,
    now: u64,
)
    requires
        in_order(v),
    ensures
        ({
            let after = heard(v, msg, now);
            after.me.id == v.me.id && after.me.health == Health::Alive && after.me.incarnation
                >= v.me.incarnation
        }),
        ({
            let after = received(v, rumor, now);
            after.me.id == v.me.id && after.me.health == Health::Alive && after.me.incarnation
                >= v.me.incarnation
        }),
        ({
            let after = ticked(v, now);
            after.me.id == v.me.id && after.me.health == Health::Alive && after.me.incarnation
                >= v.me.incarnation
        }),
        sent(v, to, membership).me == v.me,
{
    lemma_applied_all(v, msg.membership, now);
    if rumor is Member {
        lemma_applied(v, rumor->Member_0, now);
    }
    let (phase, action) = step(v.phase, Event::Tick { now }, v.timing);
    let moved = ServerView { phase, ..v };
    if action is Suspect {
        let target = action->Suspect_0;
        if lookup(v.members, target) is Some {
            lemma_applied(
                moved,
                Member { health: Health::Suspect, ..lookup(v.members, target)->Some_0.member },
                now,
            );
        }
    }
}

impl Server {
    /// Makes a datagram for a member, with the rumors that ride along, and
    /// counts a sending to the member for each of them.
    fn compose(&mut self, kind: SwimKind, sender: MemberId, to: MemberId, subject: MemberId) -> (out:
        Outgoing)
        requires
            old(self).wf(),
        ensures
            final(self).wf(),
            composed(old(self)@, out, kind, sender, to, subject),
            final(self)@ == sent(old(self)@, to, out.message@.membership),
    {
        let membership = self.rumors.piggyback_for(to, PIGGYBACK_BUDGET);
        proof {
            lemma_piggyback_fits(self@.rumors, to, kind, sender, subject, membership@);
        }
        let mut i: usize = 0;
        assert(as_rumors(membership@).take(0) =~= Seq::<RumorView>::empty());
        while i < membership.len()
            invariant
                i <= membership@.len(),
                self.wf(),
                self@ == sent(old(self)@, to, membership@.take(i as int)),
            decreases membership@.len() - i,
        {
            self.rumors.mark_sent(&Rumor::Member(membership[i]).id(), to);
            proof {
                let done = as_rumors(membership@.take(i + 1));
                assert(done.drop_last() =~= as_rumors(membership@.take(i as int)));
                assert(done.last() == RumorView::Member(membership@[i as int]));
            }
            i = i + 1;
        }
        assert(membership@.take(membership@.len() as int) =~= membership@);
        Outgoing { to, message: Swim { kind, sender, subject, membership } }
    }

    /// Takes in a datagram that came in at a time. A datagram that cannot be
    /// read is dropped and counted. Of any other the rumors are applied, an
    /// Ack owed to this node is handed to the probe cycle, and the datagram
    /// that answers it, if one does, is returned with its rumors counted as
    /// sent.
    pub fn on_datagram(&mut self, buf: &[u8], now: u64) -> (r: Result<Option<Outgoing>, DecodeError>)
        requires
            old(self).wf(),
        ensures
            final(self).wf(),
            match parse_datagram(buf@) {
                Ok(msg) => r is Ok && answers(old(self)@, msg, now, r->Ok_0, final(self)@),
                Err(e) => r == Err::<Option<Outgoing>, DecodeError>(e) && final(self)@ == (
                ServerView { dropped: one_more(old(self)@.dropped), ..old(self)@ }),
            },
    {
        let msg = match decode_swim(buf) {
            Ok(msg) => msg,
            Err(e) => {
                if self.dropped < u64::MAX {
                    self.dropped = self.dropped + 1;
                }
                return Err(e);
            },
        };
        proof {
            lemma_applied_all(self@, msg@.membership, now);
        }
        self.apply_members(&msg.membership, now);
        let me = self.me.id;
        match msg.kind {
            SwimKind::Ping => Ok(Some(self.compose(SwimKind::Ack, me, msg.sender, msg.subject))),
            SwimKind::PingReq => Ok(
                Some(self.compose(SwimKind::Ping, me, msg.subject, msg.sender)),
            ),
            SwimKind::Ack => {
                if msg.subject == me {
                    let (phase, _) = advance(self.phase, Event::Ack { from: msg.sender }, &self.timing);
                    self.phase = phase;
                    Ok(None)
                } else {
                    Ok(Some(self.compose(SwimKind::Ack, msg.sender, msg.subject, msg.subject)))
                }
            },
        }
    }

    /// Lets time pass for the probe cycle, and says what is to be done. Where
    /// the cycle ends in the suspicion of a member that is known, the member
    /// is applied as Suspect at the incarnation it is known with.
    pub fn on_tick(&mut self, now: u64) -> (action: Action)
        requires
            old(self).wf(),
        ensures
            final(self).wf(),
            action == step(old(self)@.phase, Event::Tick { now }, old(self)@.timing).1,
            final(self)@ == ticked(old(self)@, now),
    {
        let (phase, action) = advance(self.phase, Event::Tick { now }, &self.timing);
        self.phase = phase;
        match action {
            Action::Suspect(target) => {
                match self.members.get(target) {
                    Some(member) => {
                        self.apply_member(Member { health: Health::Suspect, ..member }, now);
                    },
                    None => {},
                }
            },
            _ => {},
        }
        action
    }

    /// Takes the next target of the probe rounds: the last of the round under
    /// way, or, where that is used up, of a new round through the probe
    /// candidates in a random order.
    fn next_target(&mut self) -> (target: Option<MemberId>)
        requires
            old(self).wf(),
        ensures
            final(self).wf(),
            takes_next(old(self)@, target, final(self)@.rotation),
            final(self)@ == (ServerView { rotation: final(self)@.rotation, ..old(self)@ }),
    {
        if self.rotation.len() == 0 {
            let pool = self.members.probe_pool(self.me.id);
            let size = pool.len();
            let round = draw_from(pool, size);
            let mut ids: Vec<MemberId> = Vec::new();
            let mut i: usize = 0;
            while i < round.len()
                invariant
                    i <= round@.len(),
                    ids@.len() == i,
                    forall|j: int| 0 <= j < i ==> ids@[j] == round@[j].id,
                decreases round@.len() - i,
            {
                ids.push(round[i].id);
                i = i + 1;
            }
            assert(ids@ =~= ids_of(round@));
            self.rotation = ids;
            let target = self.rotation.pop();
            proof {
                if round@.len() == 0 {
                    assert(self@.rotation =~= Seq::<MemberId>::empty());
                } else {
                    assert(self@.rotation =~= ids_of(round@).drop_last());
                }
            }
            target
        } else {
            self.rotation.pop()
        }
    }

    /// Begins a probe cycle at a time, if none is under way and there is a
    /// member to probe: the next target is taken, and the Ping for it is
    /// returned, sent by this node on its own behalf, with its rumors counted
    /// as sent. Where a cycle is under way nothing changes.
    pub fn begin_probe(&mut self, now: u64) -> (ping: Option<Outgoing>)
        requires
            old(self).wf(),
        ensures
            final(self).wf(),
            old(self)@.phase != Phase::Idle ==> ping is None && final(self)@ == old(self)@,
            old(self)@.phase == Phase::Idle ==> takes_next(
                old(self)@,
                match ping {
                    Some(out) => Some(out.to),
                    None => None,
                },
                final(self)@.rotation,
            ),
            old(self)@.phase == Phase::Idle ==> match ping {
                Some(out) => {
                    let begun = ServerView {
                        phase: Phase::AwaitingAck { target: out.to, started: now },
                        rotation: final(self)@.rotation,
                        ..old(self)@
                    };
                    &&& composed(
                        begun,
                        out,
                        SwimKind::Ping,
                        old(self)@.me.id,
                        out.to,
                        old(self)@.me.id,
                    )
                    &&& final(self)@ == sent(begun, out.to, out.message@.membership)
                },
                None => final(self)@ == (ServerView {
                    rotation: final(self)@.rotation,
                    ..old(self)@
                }),
            },
    {
        match self.phase {
            Phase::Idle => {},
            _ => {
                return None;
            },
        }
        match self.next_target() {
            None => None,
            Some(target) => {
                let (phase, _) = advance(self.phase, Event::Begin { target, now }, &self.timing);
                self.phase = phase;
                let me = self.me.id;
                Some(self.compose(SwimKind::Ping, me, target, me))
            },
        }
    }

    /// Asks other members to probe a target: as many as the fan-out says and
    /// there are, picked at random among the members other than the target.
    /// The requests are returned, each with its rumors counted as sent.
    pub fn ping_requests(&mut self, target: MemberId) -> (outs: Vec<Outgoing>)
        requires
            old(self).wf(),
        ensures
            final(self).wf(),
            exists|relays: Seq<Member>| #[trigger]
                drawn(
                    candidates(old(self)@.members, seq![target]),
                    old(self)@.timing.fanout as nat,
                    relays,
                ) && outs@.len() == relays.len() && requests(old(self)@, outs@, relays, target),
            final(self)@ == sent_all(old(self)@, outs@),
    {
        let mut exclude: Vec<MemberId> = Vec::new();
        exclude.push(target);
        assert(exclude@ =~= seq![target]);
        let relays = self.members.random_targets(self.timing.fanout, &exclude);
        let mut outs: Vec<Outgoing> = Vec::new();
        let me = self.me.id;
        let mut i: usize = 0;
        while i < relays.len()
            invariant
                i <= relays@.len(),
                outs@.len() == i,
                self.wf(),
                me == old(self)@.me.id,
                drawn(
                    candidates(old(self)@.members, seq![target]),
                    old(self)@.timing.fanout as nat,
                    relays@,
                ),
                requests(old(self)@, outs@, relays@, target),
                self@ == sent_all(old(self)@, outs@),
            decreases relays@.len() - i,
        {
            let out = self.compose(SwimKind::PingReq, me, relays[i].id, target);
            proof {
                assert(outs@.push(out).drop_last() =~= outs@);
                assert(outs@.push(out).last() == out);
            }
            outs.push(out);
            i = i + 1;
        }
        outs
    }

    /// Makes the Ping with which the node presents itself to a peer of which
    /// it knows the address and nothing else. The Ping is sent by the node on
    /// its own behalf, and its rumors are counted as sent to the identity of
    /// all zeros, which stands for such peers.
    pub fn greet(&mut self) -> (out: Outgoing)
        requires
            old(self).wf(),
        ensures
            final(self).wf(),
            composed(
                old(self)@,
                out,
                SwimKind::Ping,
                old(self)@.me.id,
                MemberId(0),
                old(self)@.me.id,
            ),
            final(self)@ == sent(old(self)@, MemberId(0), out.message@.membership),
    {
        let me = self.me.id;
        self.compose(SwimKind::Ping, me, MemberId(0), me)
    }

    /// Where the member of an identity is reached, if the member is known.
    pub fn address_of(&self, id: MemberId) -> (address: Option<Address>)
        requires
            self.wf(),
        ensures
            address == match lookup(self@.members, id) {
                Some(record) => Some(record.member.address),
                None => None,
            },
    {
        match self.members.get(id) {
            Some(member) => Some(member.address),
            None => None,
        }
    }

    /// The peers of one round of pushing: up to five, picked at random among
    /// the members that are not Confirmed and the persistent ones.
    pub fn push_targets(&self) -> (targets: Vec<Member>)
        ensures
            drawn(
                probe_candidates(self@.members, self@.me.id),
                PUSH_FANOUT as nat,
                targets@,
            ),
    {
        draw_from(self.members.probe_pool(self.me.id), PUSH_FANOUT)
    }
}

} // verus!
