//! The membership list: every member a node knows of, once each, with the
//! health it believes of it.

use crate::member::{reconcile, resolve, verdict_of, Health, Member, MemberId, Standing, Verdict};
use rand::Rng;
use vstd::prelude::*;

verus! {

/// A member and the time at which it came to the health it has.
#[derive(Clone, Copy, Debug, PartialEq, Eq, Structural)]
pub struct Record {
    pub member: Member,
    pub since: u64,
}

/// The members that a node knows of, in the order in which it came to know
/// them. No identity occurs twice.
pub struct MemberList {
    records: Vec<Record>,
}

/// `rand::Rng::gen_range` of `rand::thread_rng()` over the range from zero up
/// to, and without, the bound: some number in that range. The bound must not
/// be zero, for the call panics on an empty range.
#[verifier::external_body]
fn random_below(bound: usize) -> (number: usize)
    requires
        bound > 0,
    ensures
        number < bound,
{
    rand::thread_rng().gen_range(0..bound)
}

/// A member of the identity is known.
pub open spec fn knows(list: Seq<Record>, id: MemberId) -> bool {
    exists|i: int| 0 <= i < list.len() && list[i].member.id == id
}

/// The place of the member of the identity.
pub open spec fn place_of(list: Seq<Record>, id: MemberId) -> int {
    choose|i: int| 0 <= i < list.len() && list[i].member.id == id
}

/// What is known of the identity, if anything.
pub open spec fn lookup(list: Seq<Record>, id: MemberId) -> Option<Record> {
    if knows(list, id) {
        Some(list[place_of(list, id)])
    } else {
        None
    }
}

/// No identity occurs twice.
pub open spec fn distinct(list: Seq<Record>) -> bool {
    forall|i: int, j: int| 0 <= i < j < list.len() ==> list[i].member.id != list[j].member.id
}

/// The standing that is held of the identity, if any.
pub open spec fn standing_in(list: Seq<Record>, id: MemberId) -> Option<Standing> {
    match lookup(list, id) {
        Some(record) => Some(record.member.standing_of()),
        None => None,
    }
}

/// The list once a standing of a member has come in at a time. Where the
/// reconciliation rules discard the incoming standing, nothing changes.
/// Otherwise the member is recorded as it came, with the incoming standing,
/// at the end of the list if it was not known and in its old place if it was,
/// and the time is noted.
pub open spec fn reconciled(list: Seq<Record>, member: Member, incoming: Standing, now: u64) -> Seq<
    Record,
> {
    let record = Record { member: member.with_standing(incoming), since: now };
    match verdict_of(standing_in(list, member.id), incoming) {
        Verdict::Insert => list.push(record),
        Verdict::Update => list.update(place_of(list, member.id), record),
        Verdict::Keep => list,
    }
}

/// A member's standing changes only by the reconciliation rules: once a
/// standing of a member has come in, the standing held of that member is what
/// the rules make of the one held before and the incoming one; every member
/// known before is still known, in its place; and of every other member
/// everything is as it was.
pub proof fn lemma_reconciled_standing(
    list: Seq<Record>,
    member: Member,
    incoming: Standing,
    now: u64,
    other: MemberId,
)
    requires
        distinct(list),
    ensures
        distinct(reconciled(list, member, incoming, now)),
        standing_in(reconciled(list, member, incoming, now), member.id) == Some(
            resolve(standing_in(list, member.id), incoming),
        ),
        reconciled(list, member, incoming, now).len() >= list.len(),
        forall|i: int|
            0 <= i < list.len() ==> (#[trigger] reconciled(list, member, incoming, now)[i]).member.id
                == list[i].member.id,
        other != member.id ==> lookup(reconciled(list, member, incoming, now), other) == lookup(
            list,
            other,
        ),
{
    let after = reconciled(list, member, incoming, now);
    assert(distinct(after)) by {
        assert forall|i: int, j: int| 0 <= i < j < after.len() implies after[i].member.id
            != after[j].member.id by {
            if j < list.len() {
                assert(list[i].member.id != list[j].member.id);
            }
        }
    }
    if knows(list, member.id) {
        let at = place_of(list, member.id);
        assert(after[at].member.id == member.id);
        assert(knows(after, member.id));
        assert(place_of(after, member.id) == at);
    } else {
        assert(after[list.len() as int].member.id == member.id);
        assert(knows(after, member.id));
        assert(place_of(after, member.id) == list.len());
    }
    if other != member.id {
        if knows(list, other) {
            let at = place_of(list, other);
            assert(after[at] == list[at]);
            assert(knows(after, other));
            assert(place_of(after, other) == at);
        } else if knows(after, other) {
            let at = place_of(after, other);
            if at < list.len() {
                assert(list[at].member.id == other);
            }
        }
    }
}

/// A suspicion that began at a time has lasted as long as the timeout says.
pub open spec fn overdue(since: u64, now: u64, timeout: u64) -> bool {
    now >= since && now - since >= timeout
}

/// A record once the suspicions that have lasted too long are confirmed: a
/// Suspect whose suspicion is overdue becomes Confirmed at its incarnation,
/// and the time is noted; any other record stays.
pub open spec fn expired(record: Record, now: u64, timeout: u64) -> Record {
    if record.member.health == Health::Suspect && overdue(record.since, now, timeout) {
        Record { member: Member { health: Health::Confirmed, ..record.member }, since: now }
    } else {
        record
    }
}

/// Confirming an overdue suspicion is the reconciliation of the member's own
/// standing with Confirmed at the same incarnation; the member stays the
/// member it was, and a record that is not an overdue Suspect is untouched.
pub proof fn lemma_expired_is_reconciled(record: Record, now: u64, timeout: u64)
    ensures
        expired(record, now, timeout).member.id == record.member.id,
        expired(record, now, timeout).member.incarnation == record.member.incarnation,
        record.member.health == Health::Suspect && overdue(record.since, now, timeout) ==> expired(
            record,
            now,
            timeout,
        ).member.standing_of() == resolve(
            Some(record.member.standing_of()),
            Standing { health: Health::Confirmed, incarnation: record.member.incarnation },
        ),
        !(record.member.health == Health::Suspect && overdue(record.since, now, timeout))
            ==> expired(record, now, timeout) == record,
{
}

/// The members picked from a pool by a sequence of draws, without
/// replacement: each draw, taken modulo the size of what is left of the pool,
/// names the next pick. The picking ends with the draws or with the pool.
pub open spec fn picked(pool: Seq<Member>, draws: Seq<usize>) -> Seq<Member>
    decreases draws.len(),
{
    if draws.len() == 0 || pool.len() == 0 {
        Seq::empty()
    } else {
        let at = draws[0] as int % pool.len() as int;
        seq![pool[at]] + picked(pool.remove(at), draws.drop_first())
    }
}

/// The members that may be picked: the known ones that are not excluded, in
/// the order of the list.
pub open spec fn candidates(list: Seq<Record>, exclude: Seq<MemberId>) -> Seq<Member> {
    list.filter(|r: Record| !exclude.contains(r.member.id)).map_values(|r: Record| r.member)
}

/// The picks are as many as the draws or the pool allow, each from the pool
/// and, where no member occurs twice in the pool, none of them twice.
pub proof fn lemma_picked(pool: Seq<Member>, draws: Seq<usize>)
    ensures
        picked(pool, draws).len() == if draws.len() <= pool.len() {
            draws.len()
        } else {
            pool.len()
        },
        forall|i: int| 0 <= i < picked(pool, draws).len() ==> pool.contains(picked(pool, draws)[i]),
        pool.no_duplicates() ==> picked(pool, draws).no_duplicates(),
    decreases draws.len(),
{
    if draws.len() == 0 || pool.len() == 0 {
    } else {
        let at = draws[0] as int % pool.len() as int;
        let rest_pool = pool.remove(at);
        let rest = picked(rest_pool, draws.drop_first());
        lemma_picked(rest_pool, draws.drop_first());
        let all = picked(pool, draws);
        assert(all == seq![pool[at]] + rest);
        assert forall|i: int| 0 <= i < all.len() implies pool.contains(all[i]) by {
            if i == 0 {
                assert(pool[at] == all[0]);
            } else {
                assert(all[i] == rest[i - 1]);
                assert(rest_pool.contains(rest[i - 1]));
                let k = choose|k: int| 0 <= k < rest_pool.len() && rest_pool[k] == rest[i - 1];
                if k < at {
                    assert(pool[k] == rest_pool[k]);
                } else {
                    assert(pool[k + 1] == rest_pool[k]);
                }
            }
        }
        if pool.no_duplicates() {
            assert(rest_pool.no_duplicates()) by {
                assert forall|a: int, b: int|
                    0 <= a < rest_pool.len() && 0 <= b < rest_pool.len() && a != b implies rest_pool[a]
                    != rest_pool[b] by {
                    let a2 = if a < at { a } else { a + 1 };
                    let b2 = if b < at { b } else { b + 1 };
                    assert(rest_pool[a] == pool[a2] && rest_pool[b] == pool[b2]);
                }
            }
            assert forall|a: int, b: int|
                0 <= a < all.len() && 0 <= b < all.len() && a != b implies all[a] != all[b] by {
                if a > 0 && b > 0 {
                    assert(all[a] == rest[a - 1] && all[b] == rest[b - 1]);
                } else {
                    let other = if a == 0 { b } else { a };
                    assert(all[other] == rest[other - 1]);
                    assert(rest_pool.contains(rest[other - 1]));
                    let k = choose|k: int|
                        0 <= k < rest_pool.len() && rest_pool[k] == rest[other - 1];
                    let k2 = if k < at { k } else { k + 1 };
                    assert(pool[k2] == rest_pool[k]);
                }
            }
        }
    }
}

/// The member belongs to a probe round of the node: it is not the node
/// itself, and it is not Confirmed or is persistent.
pub open spec fn probed(m: Member, local: MemberId) -> bool {
    m.id != local && (m.health != Health::Confirmed || m.persistent)
}

/// The members that a probe round goes through, in the order of the list.
pub open spec fn probe_candidates(list: Seq<Record>, local: MemberId) -> Seq<Member> {
    list.filter(|r: Record| probed(r.member, local)).map_values(|r: Record| r.member)
}

/// The members are what some draws pick from the pool: as many draws as `n`
/// and the size of the pool allow.
pub open spec fn drawn(pool: Seq<Member>, n: nat, members: Seq<Member>) -> bool {
    exists|draws: Seq<usize>|
        #[trigger] picked(pool, draws) == members && draws.len() <= n && draws.len() <= pool.len()
            && (draws.len() == n || draws.len() == pool.len())
}

/// Picks members from a pool, one for each draw as long as any is left: each
/// draw, taken modulo the number of members left, names the next pick.
pub fn pick_from(pool: Vec<Member>, draws: &Vec<usize>) -> (targets: Vec<Member>)
    ensures
        targets@ == picked(pool@, draws@),
{
    let mut pool = pool;
    let ghost whole = pool@;
    let mut targets: Vec<Member> = Vec::new();
    let mut i: usize = 0;
    assert(draws@.skip(0) =~= draws@);
    while i < draws.len() && pool.len() > 0
        invariant
            i <= draws@.len(),
            picked(whole, draws@) == targets@ + picked(pool@, draws@.skip(i as int)),
        decreases draws@.len() - i,
    {
        let at = draws[i] % pool.len();
        let member = pool.remove(at);
        proof {
            assert(draws@.skip(i as int)[0] == draws@[i as int]);
            assert(draws@.skip(i as int).drop_first() =~= draws@.skip(i + 1));
            assert(targets@.push(member) + picked(pool@, draws@.skip(i + 1)) =~= targets@ + (
            seq![member] + picked(pool@, draws@.skip(i + 1))));
        }
        targets.push(member);
        i = i + 1;
    }
    proof {
        assert(targets@ + Seq::<Member>::empty() =~= targets@);
    }
    targets
}

/// Picks up to `n` members from a pool, at random and without replacement.
pub fn draw_from(pool: Vec<Member>, n: usize) -> (targets: Vec<Member>)
    ensures
        drawn(pool@, n as nat, targets@),
{
    let available = pool.len();
    let mut draws: Vec<usize> = Vec::new();
    let mut i: usize = 0;
    while i < n && i < available
        invariant
            i <= n,
            i <= available,
            draws@.len() == i,
        decreases n - i,
    {
        draws.push(random_below(available - i));
        i = i + 1;
    }
    let ghost whole = pool@;
    let targets = pick_from(pool, &draws);
    assert(picked(whole, draws@) == targets@);
    targets
}

impl View for MemberList {
    type V = Seq<Record>;

    closed spec fn view(&self) -> Seq<Record> {
        self.records@
    }
}

impl MemberList {
    /// No identity occurs twice.
    pub open spec fn wf(&self) -> bool {
        distinct(self@)
    }

    /// A list that knows of nobody.
    pub fn new() -> (list: MemberList)
        ensures
            list.wf(),
            list@.len() == 0,
    {
        MemberList { records: Vec::new() }
    }

    /// The number of members known.
    pub fn len(&self) -> (count: usize)
        ensures
            count == self@.len(),
    {
        self.records.len()
    }

    /// The place of the member of an identity, if it is known.
    fn find(&self, id: MemberId) -> (at: Option<usize>)
        requires
            self.wf(),
        ensures
            match at {
                Some(i) => knows(self@, id) && i == place_of(self@, id) && i < self@.len(),
                None => !knows(self@, id),
            },
    {
        let mut i: usize = 0;
        while i < self.records.len()
            invariant
                self.wf(),
                i <= self@.len(),
                forall|j: int| 0 <= j < i ==> self@[j].member.id != id,
            decreases self@.len() - i,
        {
            if self.records[i].member.id == id {
                proof {
                    let at = place_of(self@, id);
                    assert(at == i);
                }
                return Some(i);
            }
            i = i + 1;
        }
        None
    }

    /// Takes in a standing of a member at a time, by the reconciliation
    /// rules, and says whether the list has changed.
    pub fn insert(&mut self, member: Member, health: Health, incarnation: u64, now: u64) -> (changed:
        bool)
        requires
            old(self).wf(),
        ensures
            final(self).wf(),
            final(self)@ == reconciled(old(self)@, member, Standing { health, incarnation }, now),
            changed == (verdict_of(
                standing_in(old(self)@, member.id),
                Standing { health, incarnation },
            ) != Verdict::Keep),
    {
        let incoming = Standing { health, incarnation };
        let record = Record {
            member: Member { health, incarnation, ..member },
            since: now,
        };
        match self.find(member.id) {
            None => {
                self.records.push(record);
                true
            },
            Some(at) => {
                let held = self.records[at].member.standing();
                match reconcile(Some(held), incoming) {
                    Verdict::Keep => false,
                    _ => {
                        self.records[at] = record;
                        true
                    },
                }
            },
        }
    }

    /// What is known of the member of an identity.
    pub fn get(&self, id: MemberId) -> (found: Option<Member>)
        requires
            self.wf(),
        ensures
            found == match lookup(self@, id) {
                Some(record) => Some(record.member),
                None => None,
            },
    {
        match self.find(id) {
            Some(at) => Some(self.records[at].member),
            None => None,
        }
    }

    /// The health that is believed of the member of an identity.
    pub fn health_of(&self, id: MemberId) -> (health: Option<Health>)
        requires
            self.wf(),
        ensures
            health == match lookup(self@, id) {
                Some(record) => Some(record.member.health),
                None => None,
            },
    {
        match self.find(id) {
            Some(at) => Some(self.records[at].member.health),
            None => None,
        }
    }

    /// The time at which the member of an identity came to its health.
    pub fn since(&self, id: MemberId) -> (since: Option<u64>)
        requires
            self.wf(),
        ensures
            since == match lookup(self@, id) {
                Some(record) => Some(record.since),
                None => None,
            },
    {
        match self.find(id) {
            Some(at) => Some(self.records[at].since),
            None => None,
        }
    }

    /// Notes that the member of an identity has left for good, and says
    /// whether the member is known. Nothing else changes.
    pub fn set_departed(&mut self, id: MemberId) -> (known: bool)
        requires
            old(self).wf(),
        ensures
            final(self).wf(),
            known == knows(old(self)@, id),
            final(self)@ == match lookup(old(self)@, id) {
                Some(record) => old(self)@.update(
                    place_of(old(self)@, id),
                    Record { member: Member { departed: true, ..record.member }, since: record.since },
                ),
                None => old(self)@,
            },
    {
        match self.find(id) {
            Some(at) => {
                let record = self.records[at];
                self.records[at] = Record {
                    member: Member { departed: true, ..record.member },
                    since: record.since,
                };
                true
            },
            None => false,
        }
    }

    /// Confirms the suspicions that have lasted as long as the timeout says:
    /// each such Suspect becomes Confirmed at its incarnation and the time is
    /// noted. The members confirmed by this call are returned as they are
    /// now, in the order of the list.
    pub fn expire(&mut self, now: u64, timeout: u64) -> (confirmed: Vec<Member>)
        requires
            old(self).wf(),
        ensures
            final(self).wf(),
            final(self)@ == old(self)@.map_values(|r: Record| expired(r, now, timeout)),
            confirmed@ == old(self)@.filter(
                |r: Record| r.member.health == Health::Suspect && overdue(r.since, now, timeout),
            ).map_values(|r: Record| expired(r, now, timeout).member),
    {
        let mut confirmed: Vec<Member> = Vec::new();
        let mut i: usize = 0;
        let ghost due = |r: Record| r.member.health == Health::Suspect && overdue(r.since, now, timeout);
        let ghost after = |r: Record| expired(r, now, timeout).member;
        assert(old(self)@.take(0) =~= Seq::<Record>::empty());
        while i < self.records.len()
            invariant
                i <= self@.len(),
                self@.len() == old(self)@.len(),
                due == |r: Record| r.member.health == Health::Suspect && overdue(r.since, now, timeout),
                after == |r: Record| expired(r, now, timeout).member,
                forall|j: int| 0 <= j < i ==> self@[j] == expired(old(self)@[j], now, timeout),
                forall|j: int| i <= j < self@.len() ==> self@[j] == old(self)@[j],
                confirmed@ == old(self)@.take(i as int).filter(due).map_values(after),
            decreases self@.len() - i,
        {
            let record = self.records[i];
            proof {
                assert(old(self)@.take(i + 1) =~= old(self)@.take(i as int).push(record));
                assert(old(self)@.take(i + 1).drop_last() =~= old(self)@.take(i as int));
                reveal(Seq::filter);
            }
            if record.member.health == Health::Suspect && now >= record.since && now - record.since
                >= timeout {
                let member = Member { health: Health::Confirmed, ..record.member };
                self.records[i] = Record { member, since: now };
                confirmed.push(member);
            }
            proof {
                assert(confirmed@ =~= old(self)@.take(i + 1).filter(due).map_values(after));
            }
            i = i + 1;
        }
        proof {
            assert(old(self)@.take(old(self)@.len() as int) =~= old(self)@);
            assert(self@ =~= old(self)@.map_values(|r: Record| expired(r, now, timeout)));
            assert forall|a: int, b: int| 0 <= a < b < self@.len() implies self@[a].member.id
                != self@[b].member.id by {
                assert(old(self)@[a].member.id != old(self)@[b].member.id);
            }
        }
        confirmed
    }

    /// The members that are not excluded, in the order of the list.
    fn pool(&self, exclude: &Vec<MemberId>) -> (pool: Vec<Member>)
        ensures
            pool@ == candidates(self@, exclude@),
    {
        let mut pool: Vec<Member> = Vec::new();
        let mut i: usize = 0;
        let ghost keep = |r: Record| !exclude@.contains(r.member.id);
        let ghost member = |r: Record| r.member;
        assert(self@.take(0) =~= Seq::<Record>::empty());
        while i < self.records.len()
            invariant
                i <= self@.len(),
                keep == |r: Record| !exclude@.contains(r.member.id),
                member == |r: Record| r.member,
                pool@ == self@.take(i as int).filter(keep).map_values(member),
            decreases self@.len() - i,
        {
            let record = self.records[i];
            let mut excluded = false;
            let mut k: usize = 0;
            while k < exclude.len()
                invariant
                    k <= exclude@.len(),
                    excluded <==> exists|j: int| 0 <= j < k && exclude@[j] == record.member.id,
                decreases exclude@.len() - k,
            {
                if exclude[k] == record.member.id {
                    excluded = true;
                }
                k = k + 1;
            }
            proof {
                assert(self@.take(i + 1) =~= self@.take(i as int).push(record));
                assert(self@.take(i + 1).drop_last() =~= self@.take(i as int));
                reveal(Seq::filter);
                assert(excluded == exclude@.contains(record.member.id));
            }
            if !excluded {
                pool.push(record.member);
            }
            proof {
                assert(pool@ =~= self@.take(i + 1).filter(keep).map_values(member));
            }
            i = i + 1;
        }
        assert(self@.take(self@.len() as int) =~= self@);
        pool
    }

    /// The members that a probe round goes through: every member but the
    /// node itself that is not Confirmed, and the persistent ones whatever
    /// their health, in the order of the list.
    pub fn probe_pool(&self, local: MemberId) -> (pool: Vec<Member>)
        ensures
            pool@ == probe_candidates(self@, local),
    {
        let mut pool: Vec<Member> = Vec::new();
        let mut i: usize = 0;
        let ghost keep = |r: Record| probed(r.member, local);
        let ghost member = |r: Record| r.member;
        assert(self@.take(0) =~= Seq::<Record>::empty());
        while i < self.records.len()
            invariant
                i <= self@.len(),
                keep == |r: Record| probed(r.member, local),
                member == |r: Record| r.member,
                pool@ == self@.take(i as int).filter(keep).map_values(member),
            decreases self@.len() - i,
        {
            let record = self.records[i];
            proof {
                assert(self@.take(i + 1) =~= self@.take(i as int).push(record));
                assert(self@.take(i + 1).drop_last() =~= self@.take(i as int));
                reveal(Seq::filter);
            }
            let m = record.member;
            if m.id != local && (m.health != Health::Confirmed || m.persistent) {
                pool.push(m);
            }
            proof {
                assert(pool@ =~= self@.take(i + 1).filter(keep).map_values(member));
            }
            i = i + 1;
        }
        assert(self@.take(self@.len() as int) =~= self@);
        pool
    }

    /// Picks members that are not excluded, one for each draw as long as any
    /// is left: each draw, taken modulo the number of members left to pick
    /// from, names the next pick among them.
    pub fn pick_targets(&self, exclude: &Vec<MemberId>, draws: &Vec<usize>) -> (targets: Vec<Member>)
        ensures
            targets@ == picked(candidates(self@, exclude@), draws@),
    {
        pick_from(self.pool(exclude), draws)
    }

    /// Picks up to `n` members that are not excluded, at random and without
    /// replacement: as many as `n` and the number of such members allow.
    /// Whatever the draws were, the result is what `pick_targets` makes of
    /// that many draws.
    pub fn random_targets(&self, n: usize, exclude: &Vec<MemberId>) -> (targets: Vec<Member>)
        ensures
            drawn(candidates(self@, exclude@), n as nat, targets@),
    {
        draw_from(self.pool(exclude), n)
    }

    /// The members known, in the order of the list.
    pub fn members(&self) -> (members: Vec<Member>)
        ensures
            members@ == self@.map_values(|r: Record| r.member),
    {
        let mut members: Vec<Member> = Vec::new();
        let mut i: usize = 0;
        while i < self.records.len()
            invariant
                i <= self@.len(),
                members@.len() == i,
                forall|j: int| 0 <= j < i ==> members@[j] == self@[j].member,
            decreases self@.len() - i,
        {
            members.push(self.records[i].member);
            i = i + 1;
        }
        assert(members@ =~= self@.map_values(|r: Record| r.member));
        members
    }
}

} // verus!
