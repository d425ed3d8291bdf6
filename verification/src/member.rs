//! Members of the cluster: identity, address, health and incarnation, and the
//! rules by which a node settles what it believes of a member.

use vstd::prelude::*;

verus! {

/// The sixteen hexadecimal digits, in order.
pub open spec fn hex_digit(n: nat) -> char
    recommends
        n < 16,
{
    seq!['0', '1', '2', '3', '4', '5', '6', '7', '8', '9', 'a', 'b', 'c', 'd', 'e', 'f'][n as int]
}

/// A number written with the given count of hexadecimal digits, the most
/// significant first.
pub open spec fn hex_text(value: nat, digits: nat) -> Seq<char>
    decreases digits,
{
    if digits == 0 {
        Seq::empty()
    } else {
        hex_text(value / 16, (digits - 1) as nat).push(hex_digit(value % 16))
    }
}

/// The number has the form of a version 4 UUID: of its sixteen bytes, the
/// most significant first, the seventh has 4 as its upper half and the ninth
/// has 1 and 0 as its two top bits. The other 122 bits are free.
pub open spec fn is_version_four(value: u128) -> bool {
    value & 0xf000_c000_0000_0000_0000u128 == 0x4000_8000_0000_0000_0000u128
}

/// `uuid::Uuid::new_v4`, read as a number by `as_u128`: a fresh random
/// identity. The call draws 128 random bits, then clears and sets the bits of
/// the version and of the variant, so whatever was drawn the number has the
/// form of a version 4 UUID; nothing else is claimed of it. The call panics
/// where the operating system hands out no random bytes.
#[verifier::external_body]
fn fresh_uuid() -> (value: u128)
    ensures
        is_version_four(value),
{
    uuid::Uuid::new_v4().as_u128()
}

/// `uuid::Uuid::from_u128` and the `Display` of its `simple` form: the
/// sixteen bytes of the value, most significant first, each as two lowercase
/// hexadecimal digits, with nothing between them.
#[verifier::external_body]
fn simple_text(value: u128) -> (text: String)
    ensures
        text@ == hex_text(value as nat, 32),
{
    uuid::Uuid::from_u128(value).simple().to_string()
}

/// The identity of a member: sixteen bytes, held as one number whose most
/// significant byte is the first. Identities are ordered as their bytes are,
/// byte by byte from the first.
#[derive(Clone, Copy, Debug, PartialEq, Eq, Hash, Structural)]
pub struct MemberId(pub u128);

impl MemberId {
    /// The sixteen bytes of the identity, the first byte first.
    pub open spec fn bytes(self) -> Seq<u8> {
        crate::wire::be_bytes(self.0 as nat, 16)
    }

    /// This identity comes before the other.
    pub open spec fn before(self, other: MemberId) -> bool {
        self.0 < other.0
    }

    /// A fresh identity, drawn at random. Whatever is drawn, it has the form
    /// of a version 4 UUID, and so is never the identity of all zeros, which
    /// stands for a peer whose identity is not known yet.
    pub fn generate() -> (id: MemberId)
        ensures
            is_version_four(id.0),
            id != MemberId(0),
    {
        let value = fresh_uuid();
        assert(value != 0) by (bit_vector)
            requires
                value & 0xf000_c000_0000_0000_0000u128 == 0x4000_8000_0000_0000_0000u128,
        ;
        MemberId(value)
    }

    /// The identity as 32 hexadecimal digits.
    pub fn as_string(&self) -> (text: String)
        ensures
            text@ == hex_text(self.0 as nat, 32),
    {
        simple_text(self.0)
    }
}

/// How a member looks to the node that holds the record.
#[derive(Clone, Copy, Debug, PartialEq, Eq, Structural)]
pub enum Health {
    Alive,
    Suspect,
    Confirmed,
}

impl Health {
    /// The place of a health among the three: Alive before Suspect before Confirmed.
    pub open spec fn rank(self) -> nat {
        match self {
            Health::Alive => 0,
            Health::Suspect => 1,
            Health::Confirmed => 2,
        }
    }

    /// The place of this health among the three, as a number.
    pub fn severity(self) -> (r: u8)
        ensures
            r as nat == self.rank(),
    {
        match self {
            Health::Alive => 0,
            Health::Suspect => 1,
            Health::Confirmed => 2,
        }
    }
}

/// What is said of a member at one moment: a health, and the incarnation it
/// is said of.
#[derive(Clone, Copy, Debug, PartialEq, Eq, Structural)]
pub struct Standing {
    pub health: Health,
    pub incarnation: u64,
}

impl Standing {
    /// The order of standings: a higher incarnation is above a lower one, and
    /// at one incarnation Alive is below Suspect and Suspect below Confirmed.
    pub open spec fn below(self, other: Standing) -> bool {
        self.incarnation < other.incarnation || (self.incarnation == other.incarnation
            && self.health.rank() < other.health.rank())
    }

    /// Below the other, or the same.
    pub open spec fn at_most(self, other: Standing) -> bool {
        self == other || self.below(other)
    }

    /// The higher of two standings.
    pub open spec fn join(self, other: Standing) -> Standing {
        if self.below(other) {
            other
        } else {
            self
        }
    }
}

/// What becomes of an incoming standing.
#[derive(Clone, Copy, Debug, PartialEq, Eq, Structural)]
pub enum Verdict {
    /// Nothing was known of the member: the incoming standing is recorded.
    Insert,
    /// The incoming standing takes the place of the recorded one.
    Update,
    /// The recorded standing stays and the incoming one is discarded.
    Keep,
}

/// The reconciliation rules. An incoming standing of a lower incarnation than
/// the recorded one is discarded, whatever the two healths are. Otherwise the
/// two healths decide, and for some pairs the incoming incarnation must be
/// strictly higher. A recorded Confirmed gives way only to Alive or Suspect of a
/// higher incarnation, never to another Confirmed.
pub open spec fn verdict_of(existing: Option<Standing>, incoming: Standing) -> Verdict {
    match existing {
        None => Verdict::Insert,
        Some(held) => {
            let higher = incoming.incarnation > held.incarnation;
            if incoming.incarnation < held.incarnation {
                Verdict::Keep
            } else {
                match (held.health, incoming.health) {
                    (Health::Alive, Health::Alive) => if higher {
                        Verdict::Update
                    } else {
                        Verdict::Keep
                    },
                    (Health::Alive, Health::Suspect) => Verdict::Update,
                    (Health::Alive, Health::Confirmed) => Verdict::Update,
                    (Health::Suspect, Health::Alive) => if higher {
                        Verdict::Update
                    } else {
                        Verdict::Keep
                    },
                    (Health::Suspect, Health::Suspect) => if higher {
                        Verdict::Update
                    } else {
                        Verdict::Keep
                    },
                    (Health::Suspect, Health::Confirmed) => Verdict::Update,
                    (Health::Confirmed, Health::Alive) => if higher {
                        Verdict::Update
                    } else {
                        Verdict::Keep
                    },
                    (Health::Confirmed, Health::Suspect) => if higher {
                        Verdict::Update
                    } else {
                        Verdict::Keep
                    },
                    (Health::Confirmed, Health::Confirmed) => Verdict::Keep,
                }
            }
        },
    }
}

/// The standing that is recorded once an incoming standing has been reconciled.
pub open spec fn resolve(existing: Option<Standing>, incoming: Standing) -> Standing {
    match existing {
        Some(held) if verdict_of(existing, incoming) == Verdict::Keep => held,
        _ => incoming,
    }
}

/// A Confirmed of a higher incarnation arrives where Confirmed is recorded:
/// the one case in which the higher standing does not win.
pub open spec fn reconfirms(existing: Option<Standing>, incoming: Standing) -> bool {
    existing matches Some(held) && held.health == Health::Confirmed && incoming.health
        == Health::Confirmed && incoming.incarnation > held.incarnation
}

/// Reconciles an incoming standing with the recorded one, if there is one.
pub fn reconcile(existing: Option<Standing>, incoming: Standing) -> (verdict: Verdict)
    ensures
        verdict == verdict_of(existing, incoming),
{
    match existing {
        None => Verdict::Insert,
        Some(held) => {
            if incoming.incarnation < held.incarnation {
                Verdict::Keep
            } else if incoming.incarnation > held.incarnation {
                if held.health == Health::Confirmed && incoming.health == Health::Confirmed {
                    Verdict::Keep
                } else {
                    Verdict::Update
                }
            } else if incoming.health.severity() > held.health.severity() {
                Verdict::Update
            } else {
                Verdict::Keep
            }
        },
    }
}

/// The standing that is left when a sequence of standings of one member is
/// reconciled one after the other, starting with nothing recorded.
pub open spec fn settle(inputs: Seq<Standing>) -> Option<Standing>
    decreases inputs.len(),
{
    if inputs.len() == 0 {
        None
    } else {
        Some(resolve(settle(inputs.drop_last()), inputs.last()))
    }
}

/// Every standing of the sequence that was discarded because a Confirmed of
/// a higher incarnation met a recorded Confirmed is at most the given one.
pub open spec fn discards_within(inputs: Seq<Standing>, top: Standing) -> bool {
    forall|j: int|
        0 <= j < inputs.len() && reconfirms(settle(inputs.take(j)), #[trigger] inputs[j])
            ==> inputs[j].at_most(top)
}

/// The standing is one of the sequence and none of the sequence is above it.
pub open spec fn is_supremum(top: Standing, inputs: Seq<Standing>) -> bool {
    &&& inputs.contains(top)
    &&& forall|k: int| 0 <= k < inputs.len() ==> (#[trigger] inputs[k]).at_most(top)
}

/// Reconciliation keeps the higher of the recorded and the incoming standing,
/// unless a Confirmed of a higher incarnation meets a recorded Confirmed.
pub proof fn lemma_resolve_is_join(held: Standing, incoming: Standing)
    requires
        !reconfirms(Some(held), incoming),
    ensures
        resolve(Some(held), incoming) == held.join(incoming),
{
}

/// Where a Confirmed of a higher incarnation meets a recorded Confirmed, the
/// recorded standing stays as it is.
pub proof fn lemma_reconfirmation_is_discarded(held: Standing, incoming: Standing)
    requires
        reconfirms(Some(held), incoming),
    ensures
        resolve(Some(held), incoming) == held,
        held.below(incoming),
{
}

/// The order of standings is a strict total order.
pub proof fn lemma_standing_order(a: Standing, b: Standing, c: Standing)
    ensures
        !a.below(a),
        a.below(b) && b.below(c) ==> a.below(c),
        a.below(b) || b.below(a) || a == b,
        !(a.below(b) && b.below(a)),
{
}

/// Alive of a higher incarnation is above Confirmed, and takes its place.
pub proof fn lemma_alive_overrides_confirmed(confirmed: u64, alive: u64)
    requires
        confirmed < alive,
    ensures
        ({
            let held = Standing { health: Health::Confirmed, incarnation: confirmed };
            let incoming = Standing { health: Health::Alive, incarnation: alive };
            held.below(incoming) && resolve(Some(held), incoming) == incoming
        }),
{
}

/// Reconciliation never takes a recorded standing down: what is recorded
/// after is what was recorded before, or above it.
pub proof fn lemma_resolve_never_descends(held: Standing, incoming: Standing)
    ensures
        held.at_most(resolve(Some(held), incoming)),
        resolve(Some(held), incoming) == held || resolve(Some(held), incoming) == incoming,
{
}

/// What is left of a sequence of standings is one of them, and every one of
/// them is at most that, but for those that were discarded because a
/// Confirmed of a higher incarnation met a recorded Confirmed.
pub proof fn lemma_settle_bounds(inputs: Seq<Standing>)
    requires
        inputs.len() > 0,
    ensures
        settle(inputs) is Some,
        inputs.contains(settle(inputs)->Some_0),
        forall|j: int|
            0 <= j < inputs.len() && !reconfirms(settle(inputs.take(j)), #[trigger] inputs[j])
                ==> inputs[j].at_most(settle(inputs)->Some_0),
    decreases inputs.len(),
{
    let prefix = inputs.drop_last();
    let last = inputs.last();
    let top = settle(inputs)->Some_0;
    assert(inputs.take(inputs.len() - 1) =~= prefix);
    if prefix.len() == 0 {
        assert(settle(prefix) is None);
        assert(top == last);
        assert(inputs[inputs.len() - 1] == last);
    } else {
        lemma_settle_bounds(prefix);
        let held = settle(prefix)->Some_0;
        lemma_resolve_never_descends(held, last);
        let w = choose|w: int| 0 <= w < prefix.len() && prefix[w] == held;
        assert(inputs[w] == held);
        assert(inputs[inputs.len() - 1] == last);
        assert forall|j: int|
            0 <= j < inputs.len() && !reconfirms(
                settle(inputs.take(j)),
                #[trigger] inputs[j],
            ) implies inputs[j].at_most(top) by {
            if j < prefix.len() {
                assert(inputs.take(j) =~= prefix.take(j));
                assert(prefix[j] == inputs[j]);
                assert(prefix[j].at_most(held));
            }
        }
    }
}

/// However many standings of one member are reconciled, in whatever order
/// they come, what is left is the highest of them, as long as every Confirmed
/// that was discarded against a recorded Confirmed is at most what is left.
pub proof fn lemma_settle_is_supremum(inputs: Seq<Standing>)
    requires
        inputs.len() > 0,
        discards_within(inputs, settle(inputs)->Some_0),
    ensures
        settle(inputs) is Some,
        is_supremum(settle(inputs)->Some_0, inputs),
{
    lemma_settle_bounds(inputs);
}

/// The condition of `lemma_settle_is_supremum` leaves out no sequence that
/// it need not: where what is left is the highest of the sequence, every
/// discarded standing is at most that.
pub proof fn lemma_supremum_covers_discards(inputs: Seq<Standing>)
    requires
        settle(inputs) is Some,
        is_supremum(settle(inputs)->Some_0, inputs),
    ensures
        discards_within(inputs, settle(inputs)->Some_0),
{
}

/// Two sequences that hold the same standings, in whatever order, settle to the
/// same standing, as long as in each every Confirmed that was discarded
/// against a recorded Confirmed is at most what is left.
pub proof fn lemma_settle_order_independent(first: Seq<Standing>, second: Seq<Standing>)
    requires
        first.to_multiset() == second.to_multiset(),
        first.len() > 0 ==> discards_within(first, settle(first)->Some_0),
        second.len() > 0 ==> discards_within(second, settle(second)->Some_0),
    ensures
        settle(first) == settle(second),
{
    first.to_multiset_ensures();
    second.to_multiset_ensures();
    if first.len() > 0 {
        lemma_settle_is_supremum(first);
        lemma_settle_is_supremum(second);
        let a = settle(first)->Some_0;
        let b = settle(second)->Some_0;
        assert(first.contains(a));
        assert(first.to_multiset().count(a) > 0);
        assert(second.to_multiset().count(a) > 0);
        assert(second.contains(a));
        assert(second.contains(b));
        assert(second.to_multiset().count(b) > 0);
        assert(first.to_multiset().count(b) > 0);
        assert(first.contains(b));
        let i = choose|i: int| 0 <= i < second.len() && second[i] == a;
        let j = choose|j: int| 0 <= j < first.len() && first[j] == b;
        assert(second[i].at_most(b));
        assert(first[j].at_most(a));
    }
}

/// A rumor about the node itself calls for a refutation: it says Suspect or
/// Confirmed, of the node's own incarnation or a later one.
pub open spec fn must_refute(own_incarnation: u64, rumor: Standing) -> bool {
    rumor.health != Health::Alive && rumor.incarnation >= own_incarnation
}

/// The incarnation that refutes a rumor: one more than the rumor's, or the
/// highest there is where the rumor already holds that.
pub open spec fn refuting_incarnation(rumor_incarnation: u64) -> u64 {
    if rumor_incarnation < u64::MAX {
        (rumor_incarnation + 1) as u64
    } else {
        u64::MAX
    }
}

/// Decides whether a rumor about the node itself must be refuted, and with
/// which incarnation the node then declares itself Alive. The node's
/// incarnation never goes down, and changes only in a refutation.
pub fn refute(own_incarnation: u64, rumor: Standing) -> (bumped: Option<u64>)
    ensures
        bumped == if must_refute(own_incarnation, rumor) {
            Some(refuting_incarnation(rumor.incarnation))
        } else {
            None
        },
        bumped matches Some(next) ==> next >= own_incarnation,
{
    if rumor.health != Health::Alive && rumor.incarnation >= own_incarnation {
        if rumor.incarnation < u64::MAX {
            Some(rumor.incarnation + 1)
        } else {
            Some(u64::MAX)
        }
    } else {
        None
    }
}

/// Where a member is reached: its host, the port of its probe traffic and the
/// port of its rumor traffic. An IPv4 host is held in its IPv4-mapped form.
#[derive(Clone, Copy, Debug, PartialEq, Eq, Structural)]
pub struct Address {
    pub ip: u128,
    pub swim_port: u16,
    pub gossip_port: u16,
}

/// One member of the cluster, as a node knows it.
#[derive(Clone, Copy, Debug, PartialEq, Eq, Structural)]
pub struct Member {
    pub id: MemberId,
    pub address: Address,
    pub incarnation: u64,
    pub health: Health,
    pub persistent: bool,
    pub departed: bool,
}

impl Member {
    /// The health and incarnation of the member.
    pub open spec fn standing_of(self) -> Standing {
        Standing { health: self.health, incarnation: self.incarnation }
    }

    /// The member with another health and incarnation.
    pub open spec fn with_standing(self, standing: Standing) -> Member {
        Member { health: standing.health, incarnation: standing.incarnation, ..self }
    }

    /// A member that has just come to life: Alive, at incarnation zero, neither
    /// persistent nor departed.
    pub fn new(id: MemberId, address: Address) -> (member: Member)
        ensures
            member == (Member {
                id,
                address,
                incarnation: 0,
                health: Health::Alive,
                persistent: false,
                departed: false,
            }),
    {
        Member {
            id,
            address,
            incarnation: 0,
            health: Health::Alive,
            persistent: false,
            departed: false,
        }
    }

    /// The health and incarnation of the member.
    pub fn standing(&self) -> (standing: Standing)
        ensures
            standing == self.standing_of(),
    {
        Standing { health: self.health, incarnation: self.incarnation }
    }
}

} // verus!
