//! Rumors: what the gossip layer carries from node to node, the key under
//! which a newer rumor takes the place of an older one, and the order of keys.

use crate::member::{Member, MemberId};
use crate::service_group::ServiceGroup;
use crate::wire::{be_bytes, be_value, lemma_be_round_trip, lemma_pow256_sixteen, pow256};
use vstd::prelude::*;
use vstd::string::*;

verus! {

/// The kinds of rumor.
#[derive(Clone, Copy, Debug, PartialEq, Eq, Structural)]
pub enum RumorKind {
    Member,
    Service,
    ServiceConfig,
    ServiceFile,
    Election,
    ElectionUpdate,
}

impl RumorKind {
    /// The place of the kind among the six, which is also the number that
    /// stands for it on the wire.
    pub open spec fn rank(self) -> nat {
        match self {
            RumorKind::Member => 0,
            RumorKind::Service => 1,
            RumorKind::ServiceConfig => 2,
            RumorKind::ServiceFile => 3,
            RumorKind::Election => 4,
            RumorKind::ElectionUpdate => 5,
        }
    }

    /// The place of the kind among the six.
    pub fn code(self) -> (code: u64)
        ensures
            code == self.rank(),
    {
        match self {
            RumorKind::Member => 0,
            RumorKind::Service => 1,
            RumorKind::ServiceConfig => 2,
            RumorKind::ServiceFile => 3,
            RumorKind::Election => 4,
            RumorKind::ElectionUpdate => 5,
        }
    }
}

/// The kinds of rumor that carry a payload of their own.
#[derive(Clone, Copy, Debug, PartialEq, Eq, Structural)]
pub enum DataKind {
    Service,
    ServiceConfig,
    ServiceFile,
    Election,
    ElectionUpdate,
}

impl DataKind {
    /// The kind of rumor that this is.
    pub open spec fn as_kind(self) -> RumorKind {
        match self {
            DataKind::Service => RumorKind::Service,
            DataKind::ServiceConfig => RumorKind::ServiceConfig,
            DataKind::ServiceFile => RumorKind::ServiceFile,
            DataKind::Election => RumorKind::Election,
            DataKind::ElectionUpdate => RumorKind::ElectionUpdate,
        }
    }

    /// The kind of rumor that this is.
    pub fn kind(self) -> (kind: RumorKind)
        ensures
            kind == self.as_kind(),
    {
        match self {
            DataKind::Service => RumorKind::Service,
            DataKind::ServiceConfig => RumorKind::ServiceConfig,
            DataKind::ServiceFile => RumorKind::ServiceFile,
            DataKind::Election => RumorKind::Election,
            DataKind::ElectionUpdate => RumorKind::ElectionUpdate,
        }
    }
}

/// A rumor with a payload: a service announcement, a configuration blob, a
/// file, or a message of an election. The primary identity is the member it
/// comes from; the secondary one, where there is one, is the text form of a
/// service group. A higher version takes the place of a lower one.
#[derive(Clone, Debug, PartialEq, Eq)]
pub struct Datum {
    pub kind: DataKind,
    pub primary: MemberId,
    pub secondary: Option<Vec<u8>>,
    pub version: u64,
    pub payload: Vec<u8>,
}

/// A rumor: of a member's standing, or one with a payload.
#[derive(Clone, Debug, PartialEq, Eq)]
pub enum Rumor {
    Member(Member),
    Data(Datum),
}

/// A rumor with a payload, its bytes as sequences.
pub struct DatumView {
    pub kind: DataKind,
    pub primary: MemberId,
    pub secondary: Option<Seq<u8>>,
    pub version: u64,
    pub payload: Seq<u8>,
}

/// A rumor, its bytes as sequences.
pub enum RumorView {
    Member(Member),
    Data(DatumView),
}

/// The key of a rumor: its kind, its primary identity and, where it has one,
/// its secondary identity. Of two rumors with one key only one is kept.
pub struct RumorKey {
    pub kind: RumorKind,
    pub primary: MemberId,
    pub secondary: Option<Seq<u8>>,
}

/// The key of a rumor as a value to hand about.
#[derive(Clone, Debug, PartialEq, Eq)]
pub struct RumorId {
    pub kind: RumorKind,
    pub primary: MemberId,
    pub secondary: Option<Vec<u8>>,
}

/// The view of bytes that may be absent.
pub open spec fn opt_view(bytes: Option<Vec<u8>>) -> Option<Seq<u8>> {
    match bytes {
        Some(b) => Some(b@),
        None => None,
    }
}

impl View for Datum {
    type V = DatumView;

    open spec fn view(&self) -> DatumView {
        DatumView {
            kind: self.kind,
            primary: self.primary,
            secondary: opt_view(self.secondary),
            version: self.version,
            payload: self.payload@,
        }
    }
}

impl View for RumorId {
    type V = RumorKey;

    open spec fn view(&self) -> RumorKey {
        RumorKey { kind: self.kind, primary: self.primary, secondary: opt_view(self.secondary) }
    }
}

impl View for Rumor {
    type V = RumorView;

    open spec fn view(&self) -> RumorView {
        match *self {
            Rumor::Member(m) => RumorView::Member(m),
            Rumor::Data(d) => RumorView::Data(d@),
        }
    }
}

impl RumorView {
    /// The key of the rumor.
    pub open spec fn key(self) -> RumorKey {
        match self {
            RumorView::Member(m) => RumorKey {
                kind: RumorKind::Member,
                primary: m.id,
                secondary: None,
            },
            RumorView::Data(d) => RumorKey {
                kind: d.kind.as_kind(),
                primary: d.primary,
                secondary: d.secondary,
            },
        }
    }

    /// The number by which a rumor is newer or older than another of its key:
    /// the incarnation of a member, the version of anything else.
    pub open spec fn version(self) -> u64 {
        match self {
            RumorView::Member(m) => m.incarnation,
            RumorView::Data(d) => d.version,
        }
    }
}

/// The order of byte strings: byte by byte from the first, and a string
/// before every longer one that starts with it.
pub open spec fn lex_less(a: Seq<u8>, b: Seq<u8>) -> bool
    decreases a.len(),
{
    if b.len() == 0 {
        false
    } else if a.len() == 0 {
        true
    } else if a[0] != b[0] {
        a[0] < b[0]
    } else {
        lex_less(a.drop_first(), b.drop_first())
    }
}

/// The order of secondary identities: none before any, and two of them as
/// byte strings.
pub open spec fn secondary_less(a: Option<Seq<u8>>, b: Option<Seq<u8>>) -> bool {
    match (a, b) {
        (None, None) => false,
        (None, Some(_)) => true,
        (Some(_), None) => false,
        (Some(x), Some(y)) => lex_less(x, y),
    }
}

/// The order of keys: by kind, then by primary identity, then by secondary
/// identity.
pub open spec fn key_less(a: RumorKey, b: RumorKey) -> bool {
    if a.kind != b.kind {
        a.kind.rank() < b.kind.rank()
    } else if a.primary != b.primary {
        a.primary.before(b.primary)
    } else {
        secondary_less(a.secondary, b.secondary)
    }
}

/// No byte string is before itself.
pub proof fn lemma_lex_irreflexive(a: Seq<u8>)
    ensures
        !lex_less(a, a),
    decreases a.len(),
{
    if a.len() > 0 {
        lemma_lex_irreflexive(a.drop_first());
    }
}

/// The order of byte strings is transitive.
pub proof fn lemma_lex_transitive(a: Seq<u8>, b: Seq<u8>, c: Seq<u8>)
    requires
        lex_less(a, b),
        lex_less(b, c),
    ensures
        lex_less(a, c),
    decreases a.len(),
{
    if a.len() > 0 && a[0] == b[0] && b[0] == c[0] {
        lemma_lex_transitive(a.drop_first(), b.drop_first(), c.drop_first());
    }
}

/// Of two different byte strings one is before the other.
pub proof fn lemma_lex_total(a: Seq<u8>, b: Seq<u8>)
    ensures
        lex_less(a, b) || lex_less(b, a) || a == b,
    decreases a.len(),
{
    if a.len() == 0 || b.len() == 0 {
        if a.len() == 0 && b.len() == 0 {
            assert(a =~= b);
        }
    } else if a[0] == b[0] {
        lemma_lex_total(a.drop_first(), b.drop_first());
        if a.drop_first() == b.drop_first() {
            assert(a =~= seq![a[0]] + a.drop_first());
            assert(b =~= seq![b[0]] + b.drop_first());
        }
    }
}

/// Of two byte strings of one length with one more byte each, the first is
/// before the second exactly when it is so without the last bytes, or the
/// two are the same without them and the last bytes decide.
pub proof fn lemma_lex_push(a: Seq<u8>, x: u8, b: Seq<u8>, y: u8)
    requires
        a.len() == b.len(),
    ensures
        lex_less(a.push(x), b.push(y)) == (lex_less(a, b) || (a == b && x < y)),
    decreases a.len(),
{
    let ax = a.push(x);
    let by = b.push(y);
    assert(lex_less(ax, by) == if ax[0] != by[0] {
        ax[0] < by[0]
    } else {
        lex_less(ax.drop_first(), by.drop_first())
    });
    if a.len() == 0 {
        assert(a =~= b);
        assert(ax.drop_first() =~= Seq::<u8>::empty());
        assert(by.drop_first() =~= Seq::<u8>::empty());
        assert(ax[0] == x && by[0] == y);
        assert(!lex_less(Seq::<u8>::empty(), Seq::<u8>::empty()));
        assert(!lex_less(a, b));
    } else {
        assert(ax[0] == a[0] && by[0] == b[0]);
        assert(ax.drop_first() =~= a.drop_first().push(x));
        assert(by.drop_first() =~= b.drop_first().push(y));
        assert(lex_less(a, b) == if a[0] != b[0] {
            a[0] < b[0]
        } else {
            lex_less(a.drop_first(), b.drop_first())
        });
        lemma_lex_push(a.drop_first(), x, b.drop_first(), y);
        if a[0] == b[0] {
            if a.drop_first() == b.drop_first() {
                assert(a =~= seq![a[0]] + a.drop_first());
                assert(b =~= seq![b[0]] + b.drop_first());
            }
            if a == b {
                assert(a.drop_first() == b.drop_first());
            }
        }
    }
}

/// Numbers are in the order of their bytes, the most significant first.
pub proof fn lemma_be_bytes_order(x: nat, y: nat, count: nat)
    requires
        x < pow256(count),
        y < pow256(count),
    ensures
        x < y <==> lex_less(be_bytes(x, count), be_bytes(y, count)),
    decreases count,
{
    if count > 0 {
        let less = (count - 1) as nat;
        lemma_be_bytes_order(x / 256, y / 256, less);
        lemma_be_round_trip(x / 256, less);
        lemma_be_round_trip(y / 256, less);
        lemma_lex_push(
            be_bytes(x / 256, less),
            (x % 256) as u8,
            be_bytes(y / 256, less),
            (y % 256) as u8,
        );
        if be_bytes(x / 256, less) == be_bytes(y / 256, less) {
            assert(x / 256 == be_value(be_bytes(x / 256, less)));
            assert(x / 256 == y / 256);
        }
    }
}

/// Identities are in the order of their sixteen bytes, byte by byte from the
/// first.
pub proof fn lemma_identity_order(a: MemberId, b: MemberId)
    ensures
        a.before(b) <==> lex_less(a.bytes(), b.bytes()),
{
    lemma_pow256_sixteen();
    lemma_be_bytes_order(a.0 as nat, b.0 as nat, 16);
}

/// The order of keys is a strict total order.
pub proof fn lemma_key_order(a: RumorKey, b: RumorKey, c: RumorKey)
    ensures
        !key_less(a, a),
        key_less(a, b) && key_less(b, c) ==> key_less(a, c),
        key_less(a, b) || key_less(b, a) || a == b,
        !(key_less(a, b) && key_less(b, a)),
{
    if a.secondary is Some {
        lemma_lex_irreflexive(a.secondary->Some_0);
    }
    if a.secondary is Some && b.secondary is Some {
        let x = a.secondary->Some_0;
        let y = b.secondary->Some_0;
        lemma_lex_total(x, y);
        if lex_less(x, y) && lex_less(y, x) {
            lemma_lex_transitive(x, y, x);
            lemma_lex_irreflexive(x);
        }
        if c.secondary is Some {
            let z = c.secondary->Some_0;
            if lex_less(x, y) && lex_less(y, z) {
                lemma_lex_transitive(x, y, z);
            }
        }
    }
    assert(a.kind.rank() == b.kind.rank() ==> a.kind == b.kind);
    assert(b.kind.rank() == c.kind.rank() ==> b.kind == c.kind);
}

/// Whether a byte string is before another.
pub fn bytes_less(a: &[u8], b: &[u8]) -> (less: bool)
    ensures
        less == lex_less(a@, b@),
{
    let mut i: usize = 0;
    assert(a@.skip(0) =~= a@ && b@.skip(0) =~= b@);
    while i < a.len() && i < b.len()
        invariant
            i <= a@.len(),
            i <= b@.len(),
            lex_less(a@, b@) == lex_less(a@.skip(i as int), b@.skip(i as int)),
        decreases a@.len() - i,
    {
        proof {
            assert(a@.skip(i as int)[0] == a@[i as int]);
            assert(b@.skip(i as int)[0] == b@[i as int]);
            assert(a@.skip(i as int).drop_first() =~= a@.skip(i + 1));
            assert(b@.skip(i as int).drop_first() =~= b@.skip(i + 1));
        }
        if a[i] != b[i] {
            return a[i] < b[i];
        }
        i = i + 1;
    }
    i < b.len()
}

/// Whether a secondary identity is before another.
fn secondary_before(a: &Option<Vec<u8>>, b: &Option<Vec<u8>>) -> (less: bool)
    ensures
        less == secondary_less(opt_view(*a), opt_view(*b)),
{
    match (a, b) {
        (None, None) => false,
        (None, Some(_)) => true,
        (Some(_), None) => false,
        (Some(x), Some(y)) => bytes_less(x.as_slice(), y.as_slice()),
    }
}

/// Whether two byte strings are the same.
pub fn bytes_same(x: &[u8], y: &[u8]) -> (same: bool)
    ensures
        same == (x@ == y@),
{
    if x.len() != y.len() {
        return false;
    }
    let mut i: usize = 0;
    while i < x.len()
        invariant
            x@.len() == y@.len(),
            i <= x@.len(),
            forall|j: int| 0 <= j < i ==> x@[j] == y@[j],
        decreases x@.len() - i,
    {
        if x[i] != y[i] {
            return false;
        }
        i = i + 1;
    }
    assert(x@ =~= y@);
    true
}

/// Whether a secondary identity is the same as another.
fn secondary_same(a: &Option<Vec<u8>>, b: &Option<Vec<u8>>) -> (same: bool)
    ensures
        same == (opt_view(*a) == opt_view(*b)),
{
    match (a, b) {
        (None, None) => true,
        (None, Some(_)) => false,
        (Some(_), None) => false,
        (Some(x), Some(y)) => bytes_same(x.as_slice(), y.as_slice()),
    }
}

impl Datum {
    /// A rumor about a service group: its secondary identity is the text
    /// form of the group, in UTF-8.
    pub fn for_group(
        kind: DataKind,
        primary: MemberId,
        group: &ServiceGroup,
        version: u64,
        payload: Vec<u8>,
    ) -> (datum: Datum)
        ensures
            datum@ == (DatumView {
                kind,
                primary,
                secondary: Some(vstd::utf8::encode_utf8(group@.canonical())),
                version,
                payload: payload@,
            }),
    {
        let text = group.as_string();
        Datum { kind, primary, secondary: Some(text.as_str().as_bytes_vec()), version, payload }
    }
}

impl Rumor {
    /// The kind of the rumor.
    pub fn kind(&self) -> (kind: RumorKind)
        ensures
            kind == self@.key().kind,
    {
        match self {
            Rumor::Member(_) => RumorKind::Member,
            Rumor::Data(d) => d.kind.kind(),
        }
    }

    /// The primary identity of the rumor.
    pub fn primary(&self) -> (id: MemberId)
        ensures
            id == self@.key().primary,
    {
        match self {
            Rumor::Member(m) => m.id,
            Rumor::Data(d) => d.primary,
        }
    }

    /// The incarnation of a member, the version of anything else.
    pub fn version(&self) -> (version: u64)
        ensures
            version == self@.version(),
    {
        match self {
            Rumor::Member(m) => m.incarnation,
            Rumor::Data(d) => d.version,
        }
    }

    /// The key of the rumor.
    pub fn id(&self) -> (id: RumorId)
        ensures
            id@ == self@.key(),
    {
        match self {
            Rumor::Member(m) => RumorId { kind: RumorKind::Member, primary: m.id, secondary: None },
            Rumor::Data(d) => {
                let secondary = match &d.secondary {
                    Some(bytes) => Some(bytes.clone()),
                    None => None,
                };
                RumorId { kind: d.kind.kind(), primary: d.primary, secondary }
            },
        }
    }

    /// Whether the rumor has the key.
    pub fn has_id(&self, id: &RumorId) -> (yes: bool)
        ensures
            yes == (self@.key() == id@),
    {
        if self.kind() != id.kind || self.primary() != id.primary {
            return false;
        }
        match self {
            Rumor::Member(_) => id.secondary.is_none(),
            Rumor::Data(d) => secondary_same(&d.secondary, &id.secondary),
        }
    }

    /// Whether the two rumors have one key.
    pub fn same_key(&self, other: &Rumor) -> (same: bool)
        ensures
            same == (self@.key() == other@.key()),
    {
        if self.kind() != other.kind() || self.primary() != other.primary() {
            return false;
        }
        match (self, other) {
            (Rumor::Data(a), Rumor::Data(b)) => secondary_same(&a.secondary, &b.secondary),
            _ => true,
        }
    }

    /// Whether the key of this rumor is before the key of the other.
    pub fn key_before(&self, other: &Rumor) -> (less: bool)
        ensures
            less == key_less(self@.key(), other@.key()),
    {
        let mine = self.kind();
        let theirs = other.kind();
        if mine != theirs {
            return mine.code() < theirs.code();
        }
        let a = self.primary();
        let b = other.primary();
        if a != b {
            return a.0 < b.0;
        }
        match (self, other) {
            (Rumor::Data(x), Rumor::Data(y)) => secondary_before(&x.secondary, &y.secondary),
            _ => false,
        }
    }

    /// A copy of the rumor.
    pub fn duplicate(&self) -> (copy: Rumor)
        ensures
            copy@ == self@,
    {
        match self {
            Rumor::Member(m) => Rumor::Member(*m),
            Rumor::Data(d) => {
                let secondary = match &d.secondary {
                    Some(bytes) => Some(bytes.clone()),
                    None => None,
                };
                Rumor::Data(
                    Datum {
                        kind: d.kind,
                        primary: d.primary,
                        secondary,
                        version: d.version,
                        payload: d.payload.clone(),
                    },
                )
            },
        }
    }
}

} // verus!
