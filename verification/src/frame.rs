//! The gossip frames: one rumor each, with its kind, on a stream.

use crate::member::{Member, MemberId};
use crate::message::{
    get_member, lemma_member_bytes_len, lemma_member_round_trip, member_bytes, parse_member,
    put_member, DecodeError, WIRE_VERSION,
};
use crate::rumor::{DataKind, Datum, DatumView, Rumor, RumorView};
use crate::wire::{
    bytes_field, get_bytes_field, get_id_field, get_num_field, get_varint, holds_at, id_field,
    lemma_bytes_field_round_trip, lemma_holds_at_concat, lemma_id_field_round_trip,
    lemma_num_field_round_trip, lemma_varint_len, lemma_varint_round_trip, num_field,
    parse_bytes_field, parse_id_field, parse_num_field, parse_varint, put_bytes_field,
    put_id_field, put_num_field, put_varint, varint,
};
use vstd::prelude::*;

verus! {

impl DataKind {
    /// The kind that a number from 1 to 5 stands for on the wire.
    pub open spec fn of_code(code: u64) -> DataKind {
        if code == 1 {
            DataKind::Service
        } else if code == 2 {
            DataKind::ServiceConfig
        } else if code == 3 {
            DataKind::ServiceFile
        } else if code == 4 {
            DataKind::Election
        } else {
            DataKind::ElectionUpdate
        }
    }
}

/// The secondary identity as a field, or nothing where there is none.
pub open spec fn secondary_field(secondary: Option<Seq<u8>>) -> Seq<u8> {
    match secondary {
        Some(bytes) => bytes_field(0x22, bytes),
        None => Seq::empty(),
    }
}

/// The record of a rumor with a payload, after its kind: primary identity,
/// secondary identity where there is one, version and payload.
pub open spec fn datum_bytes(d: DatumView) -> Seq<u8> {
    id_field(0x1a, d.primary.0) + secondary_field(d.secondary) + num_field(0x28, d.version as nat)
        + bytes_field(0x32, d.payload)
}

/// The record of a rumor: its kind, then the member's record with its length
/// or the fields of the rumor with a payload.
pub open spec fn rumor_record(r: RumorView) -> Seq<u8> {
    match r {
        RumorView::Member(m) => num_field(0x08, 0) + num_field(0x12, member_bytes(m).len())
            + member_bytes(m),
        RumorView::Data(d) => num_field(0x08, d.kind.as_kind().rank()) + datum_bytes(d),
    }
}

/// A gossip frame on the wire: the version byte, the length of the record,
/// then the record.
pub open spec fn frame_bytes(r: RumorView) -> Seq<u8> {
    seq![WIRE_VERSION] + varint(rumor_record(r).len()) + rumor_record(r)
}

/// The secondary identity that starts at a position, if one does, and the
/// position after it. The outer `None` says that a secondary identity starts
/// there and cannot be read.
pub open spec fn parse_secondary(s: Seq<u8>, pos: int) -> Option<(Option<Seq<u8>>, int)> {
    if 0 <= pos < s.len() && s[pos] == 0x22 {
        match parse_bytes_field(s, pos, 0x22) {
            Some((bytes, next)) => Some((Some(bytes), next)),
            None => None,
        }
    } else {
        Some((None, pos))
    }
}

/// The rumor with a payload whose fields fill the bytes from a position to
/// their end.
pub open spec fn parse_datum(s: Seq<u8>, pos: int, kind: u64) -> Result<RumorView, DecodeError> {
    match parse_id_field(s, pos, 0x1a) {
        Some((primary, p2)) => match parse_secondary(s, p2) {
            Some((secondary, p3)) => match parse_num_field(s, p3, 0x28, u64::MAX) {
                Some((version, p4)) => match parse_bytes_field(s, p4, 0x32) {
                    Some((payload, p5)) => if p5 == s.len() {
                        Ok(
                            RumorView::Data(
                                DatumView {
                                    kind: DataKind::of_code(kind),
                                    primary: MemberId(primary),
                                    secondary,
                                    version,
                                    payload,
                                },
                            ),
                        )
                    } else {
                        Err(DecodeError::Malformed)
                    },
                    None => Err(DecodeError::Malformed),
                },
                None => Err(DecodeError::Malformed),
            },
            None => Err(DecodeError::Malformed),
        },
        None => Err(DecodeError::Malformed),
    }
}

/// The member rumor whose record, with its length before it, fills the bytes
/// from a position to their end.
pub open spec fn parse_member_rumor(s: Seq<u8>, pos: int) -> Result<RumorView, DecodeError> {
    match parse_num_field(s, pos, 0x12, 61) {
        Some((len, start)) => match parse_member(s, start) {
            Some((m, next)) => if next == start + len && next == s.len() {
                Ok(RumorView::Member(m))
            } else {
                Err(DecodeError::Malformed)
            },
            None => Err(DecodeError::Malformed),
        },
        None => Err(DecodeError::Malformed),
    }
}

/// The rumor whose record fills the bytes from a position to their end.
pub open spec fn parse_record(s: Seq<u8>, pos: int) -> Result<RumorView, DecodeError> {
    match parse_num_field(s, pos, 0x08, 5) {
        Some((kind, p1)) => if kind == 0 {
            parse_member_rumor(s, p1)
        } else {
            parse_datum(s, p1, kind)
        },
        None => Err(DecodeError::Malformed),
    }
}

/// What a received frame reads as. Bytes that start with another version byte
/// are of an unknown version. Anything else that is not one whole record with
/// its fields in order is malformed.
pub open spec fn parse_frame(s: Seq<u8>) -> Result<RumorView, DecodeError> {
    if s.len() == 0 {
        Err(DecodeError::Malformed)
    } else if s[0] != WIRE_VERSION {
        Err(DecodeError::UnknownVersion(s[0]))
    } else {
        match parse_varint(s, 1, 10) {
            Some((len, p0)) => if p0 + len != s.len() {
                Err(DecodeError::Malformed)
            } else {
                parse_record(s, p0)
            },
            None => Err(DecodeError::Malformed),
        }
    }
}

/// Written fields of a rumor with a payload read back as the rumor.
pub proof fn lemma_datum_round_trip(s: Seq<u8>, pos: int, d: DatumView)
    requires
        holds_at(s, pos, datum_bytes(d)),
        pos + datum_bytes(d).len() == s.len(),
        s.len() <= u64::MAX,
    ensures
        parse_datum(s, pos, d.kind.as_kind().rank() as u64) == Ok::<RumorView, DecodeError>(
            RumorView::Data(d),
        ),
{
    let f1 = id_field(0x1a, d.primary.0);
    let f2 = secondary_field(d.secondary);
    let f3 = num_field(0x28, d.version as nat);
    let f4 = bytes_field(0x32, d.payload);
    lemma_holds_at_concat(s, pos, f1 + f2 + f3, f4);
    lemma_holds_at_concat(s, pos, f1 + f2, f3);
    lemma_holds_at_concat(s, pos, f1, f2);
    lemma_id_field_round_trip(s, pos, 0x1a, d.primary.0);
    let p2 = pos + 18;
    match d.secondary {
        Some(bytes) => {
            lemma_bytes_field_round_trip(s, p2, 0x22, bytes);
            assert(s[p2 + 0] == f2[0]);
        },
        None => {
            assert(s[p2 + 0] == f3[0]);
        },
    }
    let p3: int = p2 + f2.len();
    lemma_num_field_round_trip(s, p3, 0x28, d.version, u64::MAX);
    let p4: int = p3 + f3.len();
    lemma_bytes_field_round_trip(s, p4, 0x32, d.payload);
    assert(DataKind::of_code(d.kind.as_kind().rank() as u64) == d.kind);
}

/// A written record reads back as the rumor it was written from.
pub proof fn lemma_record_round_trip(s: Seq<u8>, pos: int, r: RumorView)
    requires
        holds_at(s, pos, rumor_record(r)),
        pos + rumor_record(r).len() == s.len(),
        s.len() <= u64::MAX,
    ensures
        parse_record(s, pos) == Ok::<RumorView, DecodeError>(r),
{
    match r {
        RumorView::Member(m) => {
            let f1 = num_field(0x08, 0);
            let f2 = num_field(0x12, member_bytes(m).len());
            lemma_member_bytes_len(m);
            lemma_holds_at_concat(s, pos, f1 + f2, member_bytes(m));
            lemma_holds_at_concat(s, pos, f1, f2);
            lemma_num_field_round_trip(s, pos, 0x08, 0, 5);
            lemma_num_field_round_trip(s, pos + 2, 0x12, member_bytes(m).len() as u64, 61);
            lemma_member_round_trip(s, pos + 4, m);
        },
        RumorView::Data(d) => {
            let f1 = num_field(0x08, d.kind.as_kind().rank());
            lemma_holds_at_concat(s, pos, f1, datum_bytes(d));
            lemma_num_field_round_trip(s, pos, 0x08, d.kind.as_kind().rank() as u64, 5);
            lemma_datum_round_trip(s, pos + 2, d);
        },
    }
}

/// Encoding then decoding a frame gives the rumor back.
pub proof fn lemma_frame_round_trip(r: RumorView)
    requires
        frame_bytes(r).len() <= u64::MAX,
    ensures
        parse_frame(frame_bytes(r)) == Ok::<RumorView, DecodeError>(r),
{
    let record = rumor_record(r);
    let s = frame_bytes(r);
    let prefix = seq![WIRE_VERSION] + varint(record.len());
    lemma_varint_len(record.len() as u64);
    assert(s[0] == WIRE_VERSION);
    assert(holds_at(s, 0, s));
    lemma_holds_at_concat(s, 0, prefix, record);
    lemma_holds_at_concat(s, 0, seq![WIRE_VERSION], varint(record.len()));
    lemma_varint_round_trip(s, 1, record.len() as u64, 10);
    lemma_record_round_trip(s, prefix.len() as int, r);
}

/// Encodes a rumor as a gossip frame.
pub fn encode_rumor(rumor: &Rumor) -> (bytes: Vec<u8>)
    ensures
        bytes@ == frame_bytes(rumor@),
{
    let mut record: Vec<u8> = Vec::new();
    match rumor {
        Rumor::Member(m) => {
            let mut inner: Vec<u8> = Vec::new();
            put_member(&mut inner, m);
            put_num_field(&mut record, 0x08, 0);
            put_num_field(&mut record, 0x12, inner.len() as u64);
            record.append(&mut inner);
            assert(record@ =~= rumor_record(rumor@));
        },
        Rumor::Data(d) => {
            put_num_field(&mut record, 0x08, d.kind.kind().code());
            put_id_field(&mut record, 0x1a, d.primary.0);
            match &d.secondary {
                Some(bytes) => {
                    put_bytes_field(&mut record, 0x22, bytes.as_slice());
                },
                None => {},
            }
            assert(record@ =~= num_field(0x08, d.kind.as_kind().rank()) + id_field(
                0x1a,
                d.primary.0,
            ) + secondary_field(d@.secondary));
            put_num_field(&mut record, 0x28, d.version);
            put_bytes_field(&mut record, 0x32, d.payload.as_slice());
            assert(record@ =~= rumor_record(rumor@));
        },
    }
    let mut out: Vec<u8> = Vec::new();
    out.push(WIRE_VERSION);
    put_varint(&mut out, record.len() as u64);
    out.append(&mut record);
    assert(out@ =~= frame_bytes(rumor@));
    out
}

/// The kind that a number from 1 to 5 stands for.
fn data_kind(code: u64) -> (kind: DataKind)
    ensures
        kind == DataKind::of_code(code),
{
    if code == 1 {
        DataKind::Service
    } else if code == 2 {
        DataKind::ServiceConfig
    } else if code == 3 {
        DataKind::ServiceFile
    } else if code == 4 {
        DataKind::Election
    } else {
        DataKind::ElectionUpdate
    }
}

/// Reads the fields of a rumor with a payload, which must fill the bytes from
/// the position to their end.
fn get_datum(buf: &[u8], pos: usize, kind: u64) -> (r: Option<Rumor>)
    ensures
        match r {
            Some(rumor) => parse_datum(buf@, pos as int, kind) == Ok::<RumorView, DecodeError>(
                rumor@,
            ),
            None => parse_datum(buf@, pos as int, kind) is Err,
        },
{
    let (primary, p2) = get_id_field(buf, pos, 0x1a)?;
    let (secondary, p3) = if p2 < buf.len() && buf[p2] == 0x22 {
        let (bytes, next) = get_bytes_field(buf, p2, 0x22)?;
        (Some(bytes), next)
    } else {
        (None, p2)
    };
    let (version, p4) = get_num_field(buf, p3, 0x28, u64::MAX)?;
    let (payload, p5) = get_bytes_field(buf, p4, 0x32)?;
    if p5 != buf.len() {
        return None;
    }
    Some(
        Rumor::Data(
            Datum { kind: data_kind(kind), primary: MemberId(primary), secondary, version, payload },
        ),
    )
}

/// Reads a member rumor, which must fill the bytes from the position to their
/// end.
fn get_member_rumor(buf: &[u8], pos: usize) -> (r: Option<Rumor>)
    ensures
        match r {
            Some(rumor) => parse_member_rumor(buf@, pos as int) == Ok::<RumorView, DecodeError>(
                rumor@,
            ),
            None => parse_member_rumor(buf@, pos as int) is Err,
        },
{
    let (len, start) = get_num_field(buf, pos, 0x12, 61)?;
    let (m, next) = get_member(buf, start)?;
    if (next - start) as u64 != len || next != buf.len() {
        return None;
    }
    Some(Rumor::Member(m))
}

/// Decodes a received frame.
pub fn decode_rumor(buf: &[u8]) -> (r: Result<Rumor, DecodeError>)
    ensures
        match r {
            Ok(rumor) => parse_frame(buf@) == Ok::<RumorView, DecodeError>(rumor@),
            Err(e) => parse_frame(buf@) == Err::<RumorView, DecodeError>(e),
        },
{
    if buf.len() == 0 {
        return Err(DecodeError::Malformed);
    }
    if buf[0] != WIRE_VERSION {
        return Err(DecodeError::UnknownVersion(buf[0]));
    }
    let (len, p0) = match get_varint(buf, 1) {
        Some(found) => found,
        None => {
            return Err(DecodeError::Malformed);
        },
    };
    if len != (buf.len() - p0) as u64 {
        return Err(DecodeError::Malformed);
    }
    let (kind, p1) = match get_num_field(buf, p0, 0x08, 5) {
        Some(found) => found,
        None => {
            return Err(DecodeError::Malformed);
        },
    };
    let parsed = if kind == 0 {
        get_member_rumor(buf, p1)
    } else {
        get_datum(buf, p1, kind)
    };
    match parsed {
        Some(rumor) => Ok(rumor),
        None => Err(DecodeError::Malformed),
    }
}

/// How far the first frame of a stream reaches.
#[derive(Clone, Copy, Debug, PartialEq, Eq, Structural)]
pub enum Extent {
    /// More bytes are needed before anything can be said.
    Incomplete,
    /// The first frame is whole and is this many bytes long.
    Whole(usize),
    /// The bytes do not start a frame, whatever follows them.
    Broken(DecodeError),
}

/// The bytes after the version byte are the beginning of a length that has
/// not ended yet: there are fewer than ten of them and each has its top bit
/// set.
pub open spec fn length_cut_short(s: Seq<u8>) -> bool {
    s.len() <= 10 && forall|i: int| 1 <= i < s.len() ==> s[i] >= 128
}

/// How far the first frame reaches in the bytes received so far.
///
/// Nothing can be said of no bytes, of a length that has not ended, or of a
/// record that has not ended. A first byte that is not the version, a length
/// that cannot be read though enough bytes are there, or a frame whose end
/// lies beyond what can be counted, is broken.
pub open spec fn extent_of(s: Seq<u8>) -> Extent {
    if s.len() == 0 {
        Extent::Incomplete
    } else if s[0] != WIRE_VERSION {
        Extent::Broken(DecodeError::UnknownVersion(s[0]))
    } else {
        match parse_varint(s, 1, 10) {
            Some((len, p0)) => if p0 + len > usize::MAX {
                Extent::Broken(DecodeError::Malformed)
            } else if p0 + len <= s.len() {
                Extent::Whole((p0 + len) as usize)
            } else {
                Extent::Incomplete
            },
            None => if length_cut_short(s) {
                Extent::Incomplete
            } else {
                Extent::Broken(DecodeError::Malformed)
            },
        }
    }
}

/// A frame at the head of a stream is found whole, with its length, whatever
/// follows it.
pub proof fn lemma_extent_of_frame(r: RumorView, rest: Seq<u8>)
    requires
        frame_bytes(r).len() <= usize::MAX,
    ensures
        extent_of(frame_bytes(r) + rest) == Extent::Whole(frame_bytes(r).len() as usize),
{
    let record = rumor_record(r);
    let frame = frame_bytes(r);
    let s = frame + rest;
    lemma_varint_len(record.len() as u64);
    assert(s[0] == frame[0]);
    assert(holds_at(s, 0, frame)) by {
        assert forall|i: int| 0 <= i < frame.len() implies s[0 + i] == #[trigger] frame[i] by {}
    }
    lemma_holds_at_concat(s, 0, seq![WIRE_VERSION] + varint(record.len()), record);
    lemma_holds_at_concat(s, 0, seq![WIRE_VERSION], varint(record.len()));
    lemma_varint_round_trip(s, 1, record.len() as u64, 10);
}

/// Whether the bytes after the first are the beginning of a length that has
/// not ended yet.
fn cut_short(buf: &[u8]) -> (yes: bool)
    ensures
        yes == length_cut_short(buf@),
{
    if buf.len() > 10 {
        return false;
    }
    let mut i: usize = 1;
    while i < buf.len()
        invariant
            1 <= i,
            buf@.len() <= 10,
            forall|j: int| 1 <= j < i && j < buf@.len() ==> buf@[j] >= 128,
        decreases buf@.len() - i,
    {
        if buf[i] < 128 {
            return false;
        }
        i = i + 1;
    }
    true
}

/// Says how far the first frame reaches in the bytes received so far.
pub fn frame_extent(buf: &[u8]) -> (extent: Extent)
    ensures
        extent == extent_of(buf@),
{
    if buf.len() == 0 {
        return Extent::Incomplete;
    }
    if buf[0] != WIRE_VERSION {
        return Extent::Broken(DecodeError::UnknownVersion(buf[0]));
    }
    match get_varint(buf, 1) {
        Some((len, p0)) => {
            if len > (usize::MAX - p0) as u64 {
                Extent::Broken(DecodeError::Malformed)
            } else if len as usize <= buf.len() - p0 {
                Extent::Whole(p0 + len as usize)
            } else {
                Extent::Incomplete
            }
        },
        None => if cut_short(buf) {
            Extent::Incomplete
        } else {
            Extent::Broken(DecodeError::Malformed)
        },
    }
}

} // verus!
