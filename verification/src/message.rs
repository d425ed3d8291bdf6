//! The probe datagrams: Ping, Ack and PingReq, each with the membership
//! rumors that ride along, and their form on the wire.

use crate::member::{Address, Health, Member, MemberId};
use crate::wire::{
    get_id_field, get_num_field, get_varint, holds_at, id_field, lemma_be_bytes_len,
    lemma_holds_at_concat, lemma_id_field_round_trip,
    lemma_num_field_round_trip, lemma_varint_len, lemma_varint_len_grows,
    lemma_varint_round_trip, num_field,
    parse_id_field, parse_num_field, parse_varint, put_id_field, put_num_field, put_varint,
    varint,
};
use vstd::prelude::*;

verus! {

/// The version of the wire format, the first byte of every datagram and frame.
pub const WIRE_VERSION: u8 = 1;

/// No datagram is larger than this many bytes.
pub const MAX_DATAGRAM: usize = 512;

/// The three kinds of probe datagram.
#[derive(Clone, Copy, Debug, PartialEq, Eq, Structural)]
pub enum SwimKind {
    Ping,
    Ack,
    PingReq,
}

impl SwimKind {
    /// The number that stands for the kind on the wire.
    pub open spec fn code(self) -> nat {
        match self {
            SwimKind::Ping => 0,
            SwimKind::Ack => 1,
            SwimKind::PingReq => 2,
        }
    }

    /// The kind that a number stands for on the wire.
    pub open spec fn of_code(code: u64) -> SwimKind {
        if code == 0 {
            SwimKind::Ping
        } else if code == 1 {
            SwimKind::Ack
        } else {
            SwimKind::PingReq
        }
    }
}

/// A probe datagram. The subject of a PingReq is the member to be probed. The
/// subject of a Ping is the member on whose behalf it is sent, the sender
/// itself unless it answers a PingReq. The subject of an Ack is the subject of
/// the Ping that it answers: the member to whom the answer is owed.
#[derive(Clone, Debug, PartialEq, Eq)]
pub struct Swim {
    pub kind: SwimKind,
    pub sender: MemberId,
    pub subject: MemberId,
    pub membership: Vec<Member>,
}

/// A probe datagram with its rumors as a sequence.
pub struct SwimView {
    pub kind: SwimKind,
    pub sender: MemberId,
    pub subject: MemberId,
    pub membership: Seq<Member>,
}

impl View for Swim {
    type V = SwimView;

    open spec fn view(&self) -> SwimView {
        SwimView {
            kind: self.kind,
            sender: self.sender,
            subject: self.subject,
            membership: self.membership@,
        }
    }
}

/// Why a datagram or a frame was dropped.
#[derive(Clone, Copy, Debug, PartialEq, Eq, Structural)]
pub enum DecodeError {
    /// The first byte names a version of the format that is not known.
    UnknownVersion(u8),
    /// The bytes are not a record of the known version.
    Malformed,
}

/// The number that stands for a truth value on the wire.
pub open spec fn flag(b: bool) -> nat {
    if b {
        1
    } else {
        0
    }
}

/// The record of one member: identity, host, the two ports, incarnation,
/// health, and the two flags, each as a field, in this order.
pub open spec fn member_bytes(m: Member) -> Seq<u8> {
    id_field(0x0a, m.id.0) + id_field(0x12, m.address.ip) + num_field(
        0x18,
        m.address.swim_port as nat,
    ) + num_field(0x20, m.address.gossip_port as nat) + num_field(0x28, m.incarnation as nat)
        + num_field(0x30, m.health.rank()) + num_field(0x38, flag(m.persistent)) + num_field(
        0x40,
        flag(m.departed),
    )
}

/// The health that a number stands for on the wire.
pub open spec fn health_of_code(code: u64) -> Health {
    if code == 0 {
        Health::Alive
    } else if code == 1 {
        Health::Suspect
    } else {
        Health::Confirmed
    }
}

/// The record of a member that starts at a position, and the position after
/// it. The fields must come in their order, each with its key, the ports
/// within sixteen bits, the health one of the three and each flag 0 or 1.
pub open spec fn parse_member(s: Seq<u8>, pos: int) -> Option<(Member, int)> {
    match parse_id_field(s, pos, 0x0a) {
        Some((id, p1)) => match parse_id_field(s, p1, 0x12) {
            Some((ip, p2)) => match parse_num_field(s, p2, 0x18, 0xffff) {
                Some((swim_port, p3)) => match parse_num_field(s, p3, 0x20, 0xffff) {
                    Some((gossip_port, p4)) => match parse_num_field(s, p4, 0x28, u64::MAX) {
                        Some((incarnation, p5)) => match parse_num_field(s, p5, 0x30, 2) {
                            Some((health, p6)) => match parse_num_field(s, p6, 0x38, 1) {
                                Some((persistent, p7)) => match parse_num_field(s, p7, 0x40, 1) {
                                    Some((departed, p8)) => Some(
                                        (
                                            Member {
                                                id: MemberId(id),
                                                address: Address {
                                                    ip,
                                                    swim_port: swim_port as u16,
                                                    gossip_port: gossip_port as u16,
                                                },
                                                incarnation,
                                                health: health_of_code(health),
                                                persistent: persistent == 1,
                                                departed: departed == 1,
                                            },
                                            p8,
                                        ),
                                    ),
                                    None => None,
                                },
                                None => None,
                            },
                            None => None,
                        },
                        None => None,
                    },
                    None => None,
                },
                None => None,
            },
            None => None,
        },
        None => None,
    }
}

/// The record of a member is between 48 and 61 bytes long.
pub proof fn lemma_member_bytes_len(m: Member)
    ensures
        48 <= member_bytes(m).len() <= 61,
{
    lemma_be_bytes_len(m.id.0 as nat, 16);
    lemma_be_bytes_len(m.address.ip as nat, 16);
    lemma_varint_len(m.address.swim_port as u64);
    lemma_varint_len(m.address.gossip_port as u64);
    lemma_varint_len(m.incarnation);
    reveal_with_fuel(varint, 4);
    assert(varint(m.address.swim_port as nat).len() <= 3);
    assert(varint(m.address.gossip_port as nat).len() <= 3);
    assert(varint(m.health.rank()).len() == 1);
    assert(varint(flag(m.persistent)).len() == 1);
    assert(varint(flag(m.departed)).len() == 1);
}

/// A written member record reads back as the member.
pub proof fn lemma_member_round_trip(s: Seq<u8>, pos: int, m: Member)
    requires
        holds_at(s, pos, member_bytes(m)),
    ensures
        parse_member(s, pos) == Some((m, pos + member_bytes(m).len())),
{
    let f1 = id_field(0x0a, m.id.0);
    let f2 = id_field(0x12, m.address.ip);
    let f3 = num_field(0x18, m.address.swim_port as nat);
    let f4 = num_field(0x20, m.address.gossip_port as nat);
    let f5 = num_field(0x28, m.incarnation as nat);
    let f6 = num_field(0x30, m.health.rank());
    let f7 = num_field(0x38, flag(m.persistent));
    let f8 = num_field(0x40, flag(m.departed));
    lemma_holds_at_concat(s, pos, f1 + f2 + f3 + f4 + f5 + f6 + f7, f8);
    lemma_holds_at_concat(s, pos, f1 + f2 + f3 + f4 + f5 + f6, f7);
    lemma_holds_at_concat(s, pos, f1 + f2 + f3 + f4 + f5, f6);
    lemma_holds_at_concat(s, pos, f1 + f2 + f3 + f4, f5);
    lemma_holds_at_concat(s, pos, f1 + f2 + f3, f4);
    lemma_holds_at_concat(s, pos, f1 + f2, f3);
    lemma_holds_at_concat(s, pos, f1, f2);
    lemma_id_field_round_trip(s, pos, 0x0a, m.id.0);
    let p1 = pos + 18;
    lemma_id_field_round_trip(s, p1, 0x12, m.address.ip);
    let p2 = p1 + 18;
    lemma_num_field_round_trip(s, p2, 0x18, m.address.swim_port as u64, 0xffff);
    let p3 = p2 + f3.len();
    lemma_num_field_round_trip(s, p3, 0x20, m.address.gossip_port as u64, 0xffff);
    let p4 = p3 + f4.len();
    lemma_num_field_round_trip(s, p4, 0x28, m.incarnation, u64::MAX);
    let p5 = p4 + f5.len();
    lemma_num_field_round_trip(s, p5, 0x30, m.health.rank() as u64, 2);
    let p6 = p5 + f6.len();
    lemma_num_field_round_trip(s, p6, 0x38, flag(m.persistent) as u64, 1);
    let p7 = p6 + f7.len();
    lemma_num_field_round_trip(s, p7, 0x40, flag(m.departed) as u64, 1);
}

/// Appends the record of a member.
pub fn put_member(out: &mut Vec<u8>, m: &Member)
    ensures
        final(out)@ == old(out)@ + member_bytes(*m),
{
    put_id_field(out, 0x0a, m.id.0);
    put_id_field(out, 0x12, m.address.ip);
    put_num_field(out, 0x18, m.address.swim_port as u64);
    put_num_field(out, 0x20, m.address.gossip_port as u64);
    put_num_field(out, 0x28, m.incarnation);
    put_num_field(out, 0x30, m.health.severity() as u64);
    put_num_field(out, 0x38, if m.persistent { 1 } else { 0 });
    put_num_field(out, 0x40, if m.departed { 1 } else { 0 });
    assert(out@ =~= old(out)@ + member_bytes(*m));
}

/// Reads the record of a member at a position.
pub fn get_member(buf: &[u8], pos: usize) -> (r: Option<(Member, usize)>)
    ensures
        match r {
            Some((m, next)) => parse_member(buf@, pos as int) == Some((m, next as int)) && pos
                < next <= buf@.len(),
            None => parse_member(buf@, pos as int) is None,
        },
{
    let (id, p1) = get_id_field(buf, pos, 0x0a)?;
    let (ip, p2) = get_id_field(buf, p1, 0x12)?;
    let (swim_port, p3) = get_num_field(buf, p2, 0x18, 0xffff)?;
    let (gossip_port, p4) = get_num_field(buf, p3, 0x20, 0xffff)?;
    let (incarnation, p5) = get_num_field(buf, p4, 0x28, u64::MAX)?;
    let (health, p6) = get_num_field(buf, p5, 0x30, 2)?;
    let (persistent, p7) = get_num_field(buf, p6, 0x38, 1)?;
    let (departed, p8) = get_num_field(buf, p7, 0x40, 1)?;
    let health = if health == 0 {
        Health::Alive
    } else if health == 1 {
        Health::Suspect
    } else {
        Health::Confirmed
    };
    Some(
        (
            Member {
                id: MemberId(id),
                address: Address { ip, swim_port: swim_port as u16, gossip_port: gossip_port as u16 },
                incarnation,
                health,
                persistent: persistent == 1,
                departed: departed == 1,
            },
            p8,
        ),
    )
}

/// One rumor that rides along: the key of the repeated field, the length of
/// the member's record, then the record.
pub open spec fn entry_bytes(m: Member) -> Seq<u8> {
    num_field(0x22, member_bytes(m).len()) + member_bytes(m)
}

/// The rumors that ride along, one after the other.
pub open spec fn entries_bytes(members: Seq<Member>) -> Seq<u8>
    decreases members.len(),
{
    if members.len() == 0 {
        Seq::empty()
    } else {
        entry_bytes(members.first()) + entries_bytes(members.drop_first())
    }
}

/// The record of a probe datagram: kind, sender and subject, then the rumors.
pub open spec fn swim_body(v: SwimView) -> Seq<u8> {
    num_field(0x08, v.kind.code()) + id_field(0x12, v.sender.0) + id_field(0x1a, v.subject.0)
        + entries_bytes(v.membership)
}

/// A probe datagram on the wire: the version byte, the length of the record,
/// then the record.
pub open spec fn datagram_bytes(v: SwimView) -> Seq<u8> {
    seq![WIRE_VERSION] + varint(swim_body(v).len()) + swim_body(v)
}

/// The datagram with only the first rumors of its list.
pub open spec fn truncated(v: SwimView, kept: int) -> SwimView {
    SwimView { membership: v.membership.take(kept), ..v }
}

/// The rumors that stand between a position and an end, one entry after the
/// other with nothing left over.
pub open spec fn parse_entries(s: Seq<u8>, pos: int, end: int) -> Option<Seq<Member>>
    decreases end - pos,
{
    if pos == end {
        Some(Seq::empty())
    } else if pos > end {
        None
    } else {
        match parse_num_field(s, pos, 0x22, 61) {
            Some((len, start)) => match parse_member(s, start) {
                Some((m, next)) => if next == start + len && pos < next <= end {
                    match parse_entries(s, next, end) {
                        Some(rest) => Some(seq![m] + rest),
                        None => None,
                    }
                } else {
                    None
                },
                None => None,
            },
            None => None,
        }
    }
}

/// The datagram that the head fields and the outcome of reading the rumors
/// make.
pub open spec fn assemble(kind: u64, sender: u128, subject: u128, entries: Option<Seq<Member>>)
    -> Result<SwimView, DecodeError> {
    match entries {
        Some(membership) => Ok(
            SwimView {
                kind: SwimKind::of_code(kind),
                sender: MemberId(sender),
                subject: MemberId(subject),
                membership,
            },
        ),
        None => Err(DecodeError::Malformed),
    }
}

/// The record of a probe datagram that fills the bytes from a position to
/// their end: kind, sender and subject, each with its key, then the rumors.
pub open spec fn parse_body(s: Seq<u8>, pos: int) -> Result<SwimView, DecodeError> {
    match parse_num_field(s, pos, 0x08, 2) {
        Some((kind, p1)) => match parse_id_field(s, p1, 0x12) {
            Some((sender, p2)) => match parse_id_field(s, p2, 0x1a) {
                Some((subject, p3)) => assemble(
                    kind,
                    sender,
                    subject,
                    parse_entries(s, p3, s.len() as int),
                ),
                None => Err(DecodeError::Malformed),
            },
            None => Err(DecodeError::Malformed),
        },
        None => Err(DecodeError::Malformed),
    }
}

/// What a received datagram reads as. Bytes that start with another version
/// byte are of an unknown version. Anything else that is not one whole record
/// of at most 512 bytes, with its fields in order, is malformed.
pub open spec fn parse_datagram(s: Seq<u8>) -> Result<SwimView, DecodeError> {
    if s.len() == 0 {
        Err(DecodeError::Malformed)
    } else if s[0] != WIRE_VERSION {
        Err(DecodeError::UnknownVersion(s[0]))
    } else if s.len() > MAX_DATAGRAM {
        Err(DecodeError::Malformed)
    } else {
        match parse_varint(s, 1, 10) {
            Some((len, p0)) => if p0 + len != s.len() {
                Err(DecodeError::Malformed)
            } else {
                parse_body(s, p0)
            },
            None => Err(DecodeError::Malformed),
        }
    }
}

/// The bytes of a list with one more rumor are those of the list, then those
/// of the rumor.
pub proof fn lemma_entries_push(members: Seq<Member>, m: Member)
    ensures
        entries_bytes(members.push(m)) == entries_bytes(members) + entry_bytes(m),
    decreases members.len(),
{
    if members.len() == 0 {
        assert(members.push(m).drop_first() =~= Seq::<Member>::empty());
        assert(members.push(m).first() == m);
        assert(entries_bytes(Seq::<Member>::empty()) =~= Seq::<u8>::empty());
        assert(entries_bytes(members.push(m)) =~= entry_bytes(m));
        assert(entries_bytes(members) + entry_bytes(m) =~= entry_bytes(m));
    } else {
        assert(members.push(m).drop_first() =~= members.drop_first().push(m));
        lemma_entries_push(members.drop_first(), m);
        assert(entries_bytes(members.push(m)) =~= entries_bytes(members) + entry_bytes(m));
    }
}

/// One rumor on the wire is its record and two bytes more.
pub proof fn lemma_entry_bytes_len(m: Member)
    ensures
        entry_bytes(m).len() == member_bytes(m).len() + 2,
        entry_bytes(m) == seq![0x22u8, member_bytes(m).len() as u8] + member_bytes(m),
{
    lemma_member_bytes_len(m);
    assert(varint(member_bytes(m).len()) =~= seq![member_bytes(m).len() as u8]);
    assert(entry_bytes(m) =~= seq![0x22u8, member_bytes(m).len() as u8] + member_bytes(m));
}

/// Written rumors read back as the list they were written from.
pub proof fn lemma_entries_round_trip(s: Seq<u8>, pos: int, members: Seq<Member>)
    requires
        holds_at(s, pos, entries_bytes(members)),
    ensures
        parse_entries(s, pos, pos + entries_bytes(members).len()) == Some(members),
    decreases members.len(),
{
    let end = pos + entries_bytes(members).len();
    if members.len() == 0 {
        assert(members =~= Seq::<Member>::empty());
    } else {
        let m = members.first();
        let rest = members.drop_first();
        lemma_member_bytes_len(m);
        lemma_entry_bytes_len(m);
        lemma_holds_at_concat(s, pos, entry_bytes(m), entries_bytes(rest));
        lemma_holds_at_concat(
            s,
            pos,
            num_field(0x22, member_bytes(m).len()),
            member_bytes(m),
        );
        lemma_num_field_round_trip(s, pos, 0x22, member_bytes(m).len() as u64, 61);
        lemma_member_round_trip(s, pos + 2, m);
        let next = pos + 2 + member_bytes(m).len();
        lemma_entries_round_trip(s, next, rest);
        assert(seq![m] + rest =~= members);
    }
}

/// A written record reads back as the datagram it was written from.
pub proof fn lemma_body_round_trip(s: Seq<u8>, pos: int, v: SwimView)
    requires
        holds_at(s, pos, swim_body(v)),
        pos + swim_body(v).len() == s.len(),
    ensures
        parse_body(s, pos) == Ok::<SwimView, DecodeError>(v),
{
    let f1 = num_field(0x08, v.kind.code());
    let f2 = id_field(0x12, v.sender.0);
    let f3 = id_field(0x1a, v.subject.0);
    let f4 = entries_bytes(v.membership);
    lemma_holds_at_concat(s, pos, f1 + f2 + f3, f4);
    lemma_holds_at_concat(s, pos, f1 + f2, f3);
    lemma_holds_at_concat(s, pos, f1, f2);
    lemma_num_field_round_trip(s, pos, 0x08, v.kind.code() as u64, 2);
    let p1: int = pos + f1.len();
    lemma_id_field_round_trip(s, p1, 0x12, v.sender.0);
    lemma_id_field_round_trip(s, p1 + 18, 0x1a, v.subject.0);
    lemma_entries_round_trip(s, p1 + 36, v.membership);
    assert(SwimKind::of_code(v.kind.code() as u64) == v.kind);
}

/// Encoding then decoding a datagram of at most 512 bytes gives the datagram
/// back.
pub proof fn lemma_datagram_round_trip(v: SwimView)
    requires
        datagram_bytes(v).len() <= MAX_DATAGRAM,
    ensures
        parse_datagram(datagram_bytes(v)) == Ok::<SwimView, DecodeError>(v),
{
    let body = swim_body(v);
    let s = datagram_bytes(v);
    let prefix = seq![WIRE_VERSION] + varint(body.len());
    lemma_varint_len(body.len() as u64);
    assert(s[0] == WIRE_VERSION);
    assert(holds_at(s, 0, s));
    lemma_holds_at_concat(s, 0, prefix, body);
    lemma_holds_at_concat(s, 0, seq![WIRE_VERSION], varint(body.len()));
    lemma_varint_round_trip(s, 1, body.len() as u64, 10);
    lemma_body_round_trip(s, prefix.len() as int, v);
}

impl SwimKind {
    /// The number that stands for the kind on the wire.
    pub fn wire_code(self) -> (code: u64)
        ensures
            code == self.code(),
    {
        match self {
            SwimKind::Ping => 0,
            SwimKind::Ack => 1,
            SwimKind::PingReq => 2,
        }
    }
}

/// The rumors on the wire are as long as their entries together.
pub open spec fn entries_len(members: Seq<Member>) -> nat
    decreases members.len(),
{
    if members.len() == 0 {
        0
    } else {
        entry_bytes(members.first()).len() + entries_len(members.drop_first())
    }
}

/// The rumors on the wire are as long as their entries together, and the
/// first of them are no longer than all.
pub proof fn lemma_entries_len(members: Seq<Member>, kept: int)
    requires
        0 <= kept <= members.len(),
    ensures
        entries_bytes(members).len() == entries_len(members),
        entries_len(members.take(kept)) <= entries_len(members),
    decreases members.len(),
{
    if members.len() == 0 {
        assert(members.take(kept) =~= members);
    } else {
        lemma_entries_len(members.drop_first(), 0);
        if kept > 0 {
            lemma_entries_len(members.drop_first(), kept - 1);
            assert(members.take(kept).drop_first() =~= members.drop_first().take(kept - 1));
            assert(members.take(kept).first() == members.first());
        } else {
            assert(members.take(0).len() == 0);
        }
    }
}

/// A datagram with only the first of its rumors is no longer than the whole.
pub proof fn lemma_truncated_is_shorter(v: SwimView, kept: int)
    requires
        0 <= kept <= v.membership.len(),
    ensures
        datagram_bytes(truncated(v, kept)).len() <= datagram_bytes(v).len(),
{
    lemma_entries_len(v.membership, kept);
    lemma_entries_len(v.membership.take(kept), 0);
    lemma_varint_len_grows(swim_body(truncated(v, kept)).len(), swim_body(v).len());
}

/// A datagram is its rumors and at most 41 bytes more, so one whose rumors
/// take no more than 471 bytes is within the limit.
pub proof fn lemma_datagram_len(v: SwimView)
    requires
        entries_len(v.membership) <= 471,
    ensures
        datagram_bytes(v).len() <= MAX_DATAGRAM,
{
    lemma_entries_len(v.membership, 0);
    crate::wire::lemma_be_bytes_len(v.sender.0 as nat, 16);
    crate::wire::lemma_be_bytes_len(v.subject.0 as nat, 16);
    let body = swim_body(v);
    assert(body.len() == 38 + entries_len(v.membership));
    reveal_with_fuel(varint, 3);
    assert(varint(body.len()).len() <= 2);
}

/// The length of a datagram whose record has the given length.
pub open spec fn framed_len(body: nat) -> nat {
    1 + varint(body).len() + body
}

/// The length of a datagram whose record has the given length.
fn framed(body: usize) -> (total: usize)
    requires
        body < 16384,
    ensures
        total == framed_len(body as nat),
{
    proof {
        reveal_with_fuel(varint, 3);
    }
    if body < 128 {
        body + 2
    } else {
        body + 3
    }
}

/// Encodes a probe datagram. Where all its rumors would make it larger than
/// 512 bytes, the list is cut at its end: the datagram carries as many of the
/// first rumors as fit, and their count is returned beside the bytes.
pub fn encode_swim(msg: &Swim) -> (r: (Vec<u8>, usize))
    ensures
        r.1 <= msg@.membership.len(),
        r.0@ == datagram_bytes(truncated(msg@, r.1 as int)),
        r.0@.len() <= MAX_DATAGRAM,
        r.1 < msg@.membership.len() ==> datagram_bytes(truncated(msg@, r.1 + 1)).len()
            > MAX_DATAGRAM,
        datagram_bytes(msg@).len() <= MAX_DATAGRAM ==> r.1 == msg@.membership.len() && r.0@
            == datagram_bytes(msg@),
{
    proof {
        assert(msg@.membership.take(msg@.membership.len() as int) =~= msg@.membership);
        assert(truncated(msg@, msg@.membership.len() as int) == msg@);
    }
    let mut body: Vec<u8> = Vec::new();
    put_num_field(&mut body, 0x08, msg.kind.wire_code());
    put_id_field(&mut body, 0x12, msg.sender.0);
    put_id_field(&mut body, 0x1a, msg.subject.0);
    proof {
        crate::wire::lemma_be_bytes_len(msg.sender.0 as nat, 16);
        crate::wire::lemma_be_bytes_len(msg.subject.0 as nat, 16);
        assert(msg@.membership.take(0) =~= Seq::<Member>::empty());
        assert(body@ =~= swim_body(truncated(msg@, 0)));
        assert(body@.len() == 38);
    }
    let count = msg.membership.len();
    let mut kept: usize = 0;
    let mut full = false;
    while kept < count && !full
        invariant
            count == msg@.membership.len(),
            kept <= count,
            body@ == swim_body(truncated(msg@, kept as int)),
            framed_len(body@.len()) <= MAX_DATAGRAM,
            body@.len() < 512,
            full ==> kept < count && datagram_bytes(truncated(msg@, kept + 1)).len()
                > MAX_DATAGRAM,
        decreases count - kept + if full { 0int } else { 1int },
    {
        let mut entry: Vec<u8> = Vec::new();
        put_member(&mut entry, &msg.membership[kept]);
        proof {
            let m = msg@.membership[kept as int];
            assert(entry@ =~= member_bytes(m));
            lemma_member_bytes_len(m);
            lemma_entry_bytes_len(m);
            assert(msg@.membership.take(kept + 1) =~= msg@.membership.take(kept as int).push(m));
            lemma_entries_push(msg@.membership.take(kept as int), m);
            assert(swim_body(truncated(msg@, kept + 1)) =~= body@ + entry_bytes(m));
        }
        let grown = body.len() + 2 + entry.len();
        if framed(grown) > MAX_DATAGRAM {
            full = true;
        } else {
            body.push(0x22);
            body.push(entry.len() as u8);
            body.append(&mut entry);
            kept = kept + 1;
            proof {
                let m = msg@.membership[kept - 1];
                assert(body@ =~= swim_body(truncated(msg@, kept as int)));
            }
        }
    }
    let mut out: Vec<u8> = Vec::new();
    out.push(WIRE_VERSION);
    put_varint(&mut out, body.len() as u64);
    out.append(&mut body);
    proof {
        assert(out@ =~= datagram_bytes(truncated(msg@, kept as int)));
        if kept < count {
            lemma_truncated_is_shorter(msg@, kept + 1);
        }
    }
    (out, kept)
}

/// Decodes a received datagram.
pub fn decode_swim(buf: &[u8]) -> (r: Result<Swim, DecodeError>)
    ensures
        match r {
            Ok(msg) => parse_datagram(buf@) == Ok::<SwimView, DecodeError>(msg@),
            Err(e) => parse_datagram(buf@) == Err::<SwimView, DecodeError>(e),
        },
{
    if buf.len() == 0 {
        return Err(DecodeError::Malformed);
    }
    if buf[0] != WIRE_VERSION {
        return Err(DecodeError::UnknownVersion(buf[0]));
    }
    if buf.len() > MAX_DATAGRAM {
        return Err(DecodeError::Malformed);
    }
    let (len, p0) = match get_varint(buf, 1) {
        Some(found) => found,
        None => {
            return Err(DecodeError::Malformed);
        },
    };
    if len != (buf.len() - p0) as u64 {
        return Err(DecodeError::Malformed);
    }
    let (kind, p1) = match get_num_field(buf, p0, 0x08, 2) {
        Some(found) => found,
        None => {
            return Err(DecodeError::Malformed);
        },
    };
    let (sender, p2) = match get_id_field(buf, p1, 0x12) {
        Some(found) => found,
        None => {
            return Err(DecodeError::Malformed);
        },
    };
    let (subject, p3) = match get_id_field(buf, p2, 0x1a) {
        Some(found) => found,
        None => {
            return Err(DecodeError::Malformed);
        },
    };
    let end = buf.len();
    let mut membership: Vec<Member> = Vec::new();
    let mut pos = p3;
    while pos < end
        invariant
            end == buf@.len(),
            p3 <= pos <= end,
            parse_datagram(buf@) == assemble(
                kind,
                sender,
                subject,
                parse_entries(buf@, p3 as int, end as int),
            ),
            parse_entries(buf@, p3 as int, end as int) == match parse_entries(
                buf@,
                pos as int,
                end as int,
            ) {
                Some(rest) => Some(membership@ + rest),
                None => None,
            },
        decreases end - pos,
    {
        let (len, start) = match get_num_field(buf, pos, 0x22, 61) {
            Some(found) => found,
            None => {
                return Err(DecodeError::Malformed);
            },
        };
        let (m, next) = match get_member(buf, start) {
            Some(found) => found,
            None => {
                return Err(DecodeError::Malformed);
            },
        };
        if (next - start) as u64 != len {
            return Err(DecodeError::Malformed);
        }
        proof {
            let rest = parse_entries(buf@, next as int, end as int);
            if rest is Some {
                assert(membership@.push(m) + rest->Some_0 =~= membership@ + (seq![m]
                    + rest->Some_0));
            }
        }
        membership.push(m);
        pos = next;
    }
    proof {
        assert(membership@ + Seq::<Member>::empty() =~= membership@);
    }
    let kind = if kind == 0 {
        SwimKind::Ping
    } else if kind == 1 {
        SwimKind::Ack
    } else {
        SwimKind::PingReq
    };
    Ok(Swim { kind, sender: MemberId(sender), subject: MemberId(subject), membership })
}

} // verus!
