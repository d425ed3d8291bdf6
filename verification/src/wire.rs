//! The building blocks of the wire format: numbers of variable length,
//! identities of sixteen bytes, and byte strings that carry their length.
//!
//! A record is a run of fields. Each field starts with a key byte, the field's
//! number shifted left by three and joined with its wire type: 0 for a number
//! of variable length, 2 for bytes that carry their length.

use vstd::prelude::*;

verus! {

/// The most bytes that a 64-bit number of variable length takes.
pub const MAX_VARINT_LEN: u8 = 10;

/// A number in base 128, least significant digit first; every byte but the
/// last has its top bit set.
pub open spec fn varint(value: nat) -> Seq<u8>
    decreases value,
{
    if value < 128 {
        seq![value as u8]
    } else {
        seq![(128 + value % 128) as u8] + varint(value / 128)
    }
}

/// The number of variable length that starts at a position, read within a
/// budget of bytes, and the position after it. There is none where the bytes
/// end early, where the budget runs out, or where the number does not fit 64
/// bits.
pub open spec fn parse_varint(s: Seq<u8>, pos: int, budget: nat) -> Option<(u64, int)>
    decreases budget,
{
    if budget == 0 || pos < 0 || pos >= s.len() {
        None
    } else if s[pos] < 128 {
        Some((s[pos] as u64, pos + 1))
    } else {
        match parse_varint(s, pos + 1, (budget - 1) as nat) {
            Some((high, next)) => if (s[pos] - 128) + 128 * high <= u64::MAX {
                Some((((s[pos] - 128) + 128 * high) as u64, next))
            } else {
                None
            },
            None => None,
        }
    }
}

/// A number as the given count of bytes, the most significant first.
pub open spec fn be_bytes(value: nat, count: nat) -> Seq<u8>
    decreases count,
{
    if count == 0 {
        Seq::empty()
    } else {
        be_bytes(value / 256, (count - 1) as nat).push((value % 256) as u8)
    }
}

/// The number that bytes spell, the most significant first.
pub open spec fn be_value(bytes: Seq<u8>) -> nat
    decreases bytes.len(),
{
    if bytes.len() == 0 {
        0
    } else {
        be_value(bytes.drop_last()) * 256 + bytes.last() as nat
    }
}

/// 256 to a power.
pub open spec fn pow256(n: nat) -> nat
    decreases n,
{
    if n == 0 {
        1
    } else {
        256 * pow256((n - 1) as nat)
    }
}

/// The bytes stand in the sequence from the position on.
pub open spec fn holds_at(s: Seq<u8>, pos: int, bytes: Seq<u8>) -> bool {
    &&& 0 <= pos
    &&& pos + bytes.len() <= s.len()
    &&& forall|i: int| 0 <= i < bytes.len() ==> s[pos + i] == #[trigger] bytes[i]
}

/// Two runs of bytes stand one after the other exactly when their
/// concatenation stands there.
pub proof fn lemma_holds_at_concat(s: Seq<u8>, pos: int, a: Seq<u8>, b: Seq<u8>)
    ensures
        holds_at(s, pos, a + b) <==> holds_at(s, pos, a) && holds_at(s, pos + a.len(), b),
{
    if holds_at(s, pos, a + b) {
        assert forall|i: int| 0 <= i < a.len() implies s[pos + i] == #[trigger] a[i] by {
            assert((a + b)[i] == a[i]);
        }
        assert forall|i: int| 0 <= i < b.len() implies s[pos + a.len() + i] == #[trigger] b[i] by {
            assert((a + b)[a.len() + i] == b[i]);
        }
    }
    if holds_at(s, pos, a) && holds_at(s, pos + a.len(), b) {
        assert forall|i: int| 0 <= i < (a + b).len() implies s[pos + i] == #[trigger] (a + b)[i] by {
            if i < a.len() {
                assert((a + b)[i] == a[i]);
            } else {
                assert((a + b)[i] == b[i - a.len()]);
                assert(s[pos + a.len() + (i - a.len())] == b[i - a.len()]);
            }
        }
    }
}

/// A number below 128 to the power of `digits` takes at most that many bytes.
proof fn lemma_varint_len_within(value: nat, digits: nat, bound: nat)
    requires
        digits >= 1,
        value < bound,
        bound == vstd::arithmetic::power::pow(128, digits),
    ensures
        varint(value).len() <= digits,
    decreases digits,
{
    vstd::arithmetic::power::lemma_pow1(128);
    vstd::arithmetic::power::lemma_pow_adds(128, 1, (digits - 1) as nat);
    if digits == 1 {
    } else if value >= 128 {
        let lower = vstd::arithmetic::power::pow(128, (digits - 1) as nat);
        assert(bound == 128 * lower);
        assert(value / 128 < lower);
        lemma_varint_len_within(value / 128, (digits - 1) as nat, lower as nat);
    }
}

/// A 64-bit number takes at most ten bytes.
pub proof fn lemma_varint_len(value: u64)
    ensures
        1 <= varint(value as nat).len() <= 10,
{
    assert(vstd::arithmetic::power::pow(128, 10) == 0x400000000000000000) by {
        reveal_with_fuel(vstd::arithmetic::power::pow, 11);
    }
    lemma_varint_len_within(value as nat, 10, 0x400000000000000000);
}

/// A larger number takes at least as many bytes.
pub proof fn lemma_varint_len_grows(low: nat, high: nat)
    requires
        low <= high,
    ensures
        varint(low).len() <= varint(high).len(),
    decreases high,
{
    if low >= 128 {
        lemma_varint_len_grows(low / 128, high / 128);
    }
}

/// A written number reads back as itself: where the bytes of a 64-bit number
/// stand, and the budget covers them, the number is read and the position
/// moves past them.
pub proof fn lemma_varint_round_trip(s: Seq<u8>, pos: int, value: u64, budget: nat)
    requires
        holds_at(s, pos, varint(value as nat)),
        budget >= varint(value as nat).len(),
    ensures
        parse_varint(s, pos, budget) == Some((value, pos + varint(value as nat).len())),
    decreases value,
{
    let bytes = varint(value as nat);
    assert(s[pos + 0] == bytes[0]);
    if value >= 128 {
        let rest = varint(value as nat / 128);
        assert(bytes == seq![(128 + value % 128) as u8] + rest);
        lemma_holds_at_concat(s, pos, seq![(128 + value % 128) as u8], rest);
        lemma_varint_round_trip(s, pos + 1, (value / 128) as u64, (budget - 1) as nat);
    }
}

/// The number that bytes spell is below 256 to the power of their count.
pub proof fn lemma_be_value_bound(bytes: Seq<u8>)
    ensures
        be_value(bytes) < pow256(bytes.len()),
    decreases bytes.len(),
{
    if bytes.len() > 0 {
        lemma_be_value_bound(bytes.drop_last());
    }
}

/// Bytes read back as the number they were written from, and a number's bytes
/// are as many as were asked for.
pub proof fn lemma_be_round_trip(value: nat, count: nat)
    requires
        value < pow256(count),
    ensures
        be_bytes(value, count).len() == count,
        be_value(be_bytes(value, count)) == value,
    decreases count,
{
    if count > 0 {
        lemma_be_round_trip(value / 256, (count - 1) as nat);
        let bytes = be_bytes(value, count);
        assert(bytes.drop_last() =~= be_bytes(value / 256, (count - 1) as nat));
    }
}

/// The bytes of a number are as many as were asked for.
pub proof fn lemma_be_bytes_len(value: nat, count: nat)
    ensures
        be_bytes(value, count).len() == count,
    decreases count,
{
    if count > 0 {
        lemma_be_bytes_len(value / 256, (count - 1) as nat);
    }
}

/// Every 128-bit number is below 256 to the power of sixteen.
pub proof fn lemma_pow256_sixteen()
    ensures
        pow256(16) == 0x1_0000_0000_0000_0000_0000_0000_0000_0000,
        pow256(15) == 0x1_0000_0000_0000_0000_0000_0000_0000_00,
        forall|i: nat| i <= 15 ==> #[trigger] pow256(i) <= pow256(15),
{
    reveal_with_fuel(pow256, 17);
    assert forall|i: nat| i <= 15 implies #[trigger] pow256(i) <= pow256(15) by {
        lemma_pow256_grows(i, 15);
    }
}

/// 256 to a power does not shrink as the power grows.
proof fn lemma_pow256_grows(low: nat, high: nat)
    requires
        low <= high,
    ensures
        pow256(low) <= pow256(high),
        pow256(low) >= 1,
    decreases high,
{
    if low < high {
        lemma_pow256_grows(low, (high - 1) as nat);
    } else if low > 0 {
        lemma_pow256_grows((low - 1) as nat, (low - 1) as nat);
    }
}

/// Appends a number of variable length.
pub fn put_varint(out: &mut Vec<u8>, value: u64)
    ensures
        final(out)@ == old(out)@ + varint(value as nat),
{
    let mut rest = value;
    while rest >= 128
        invariant
            old(out)@ + varint(value as nat) == out@ + varint(rest as nat),
        decreases rest,
    {
        let ghost before = out@;
        out.push((128 + rest % 128) as u8);
        proof {
            assert(before + varint(rest as nat) =~= out@ + varint(rest as nat / 128));
        }
        rest = rest / 128;
    }
    let ghost before = out@;
    out.push(rest as u8);
    proof {
        assert(before + varint(rest as nat) =~= out@);
    }
}

/// Reads a number of variable length within a budget of bytes.
fn get_varint_within(buf: &[u8], pos: usize, budget: u8) -> (r: Option<(u64, usize)>)
    ensures
        match r {
            Some((value, next)) => parse_varint(buf@, pos as int, budget as nat) == Some(
                (value, next as int),
            ) && pos < next <= buf@.len(),
            None => parse_varint(buf@, pos as int, budget as nat) is None,
        },
    decreases budget,
{
    if budget == 0 || pos >= buf.len() {
        return None;
    }
    let byte = buf[pos];
    if byte < 128 {
        return Some((byte as u64, pos + 1));
    }
    match get_varint_within(buf, pos + 1, budget - 1) {
        Some((high, next)) => {
            let low = (byte - 128) as u64;
            if high <= (u64::MAX - low) / 128 {
                Some((low + 128 * high, next))
            } else {
                None
            }
        },
        None => None,
    }
}

/// Reads the number of variable length that starts at a position, and gives
/// the position after it.
pub fn get_varint(buf: &[u8], pos: usize) -> (r: Option<(u64, usize)>)
    ensures
        match r {
            Some((value, next)) => parse_varint(buf@, pos as int, 10) == Some((value, next as int))
                && pos < next <= buf@.len(),
            None => parse_varint(buf@, pos as int, 10) is None,
        },
{
    get_varint_within(buf, pos, MAX_VARINT_LEN)
}

/// The sixteen bytes that start at a position, as a number, and the position
/// after them; none where fewer than sixteen bytes are left.
pub open spec fn parse_u128(s: Seq<u8>, pos: int) -> Option<(u128, int)> {
    if 0 <= pos && pos + 16 <= s.len() {
        Some((be_value(s.subrange(pos, pos + 16)) as u128, pos + 16))
    } else {
        None
    }
}

/// Appends a 128-bit number as sixteen bytes, the most significant first.
pub fn put_u128(out: &mut Vec<u8>, value: u128)
    ensures
        final(out)@ == old(out)@ + be_bytes(value as nat, 16),
{
    let mut bytes = [0u8;16];
    let mut rest = value;
    let mut i: usize = 16;
    while i > 0
        invariant
            i <= 16,
            be_bytes(value as nat, 16) =~= be_bytes(rest as nat, i as nat) + bytes@.skip(i as int),
        decreases i,
    {
        i = i - 1;
        bytes[i] = (rest % 256) as u8;
        rest = rest / 256;
    }
    assert(bytes@ =~= be_bytes(value as nat, 16));
    let mut k: usize = 0;
    while k < 16
        invariant
            k <= 16,
            out@ =~= old(out)@ + bytes@.take(k as int),
        decreases 16 - k,
    {
        out.push(bytes[k]);
        k = k + 1;
    }
    assert(bytes@.take(16) =~= bytes@);
}

/// Reads the sixteen bytes that start at a position as a 128-bit number, and
/// gives the position after them.
pub fn get_u128(buf: &[u8], pos: usize) -> (r: Option<(u128, usize)>)
    ensures
        match r {
            Some((value, next)) => parse_u128(buf@, pos as int) == Some((value, next as int)),
            None => parse_u128(buf@, pos as int) is None,
        },
{
    if pos > buf.len() || buf.len() - pos < 16 {
        return None;
    }
    let mut value: u128 = 0;
    let mut i: usize = 0;
    let ghost field = buf@.subrange(pos as int, pos + 16);
    while i < 16
        invariant
            i <= 16,
            pos + 16 <= buf@.len(),
            pos + 16 <= usize::MAX,
            field == buf@.subrange(pos as int, pos + 16),
            value as nat == be_value(field.take(i as int)),
        decreases 16 - i,
    {
        proof {
            lemma_be_value_bound(field.take(i as int));
            lemma_pow256_sixteen();
            assert(field.take(i + 1).drop_last() =~= field.take(i as int));
            assert(field.take(i + 1).last() == buf@[pos + i]);
        }
        value = value * 256 + buf[pos + i] as u128;
        i = i + 1;
    }
    assert(field.take(16) =~= field);
    Some((value, pos + 16))
}

/// A field that holds a number: the key byte, then the number in its
/// variable-length form.
pub open spec fn num_field(key: u8, value: nat) -> Seq<u8> {
    seq![key] + varint(value)
}

/// A field that holds an identity: the key byte, the length sixteen, then the
/// sixteen bytes.
pub open spec fn id_field(key: u8, value: u128) -> Seq<u8> {
    seq![key, 16u8] + be_bytes(value as nat, 16)
}

/// The number field of the given key that starts at a position, if its number
/// is within the limit, and the position after it.
pub open spec fn parse_num_field(s: Seq<u8>, pos: int, key: u8, limit: u64) -> Option<(u64, int)> {
    if 0 <= pos < s.len() && s[pos] == key {
        match parse_varint(s, pos + 1, 10) {
            Some((value, next)) => if value <= limit {
                Some((value, next))
            } else {
                None
            },
            None => None,
        }
    } else {
        None
    }
}

/// The identity field of the given key that starts at a position, and the
/// position after it.
pub open spec fn parse_id_field(s: Seq<u8>, pos: int, key: u8) -> Option<(u128, int)> {
    if 0 <= pos && pos + 1 < s.len() && s[pos] == key && s[pos + 1] == 16 {
        parse_u128(s, pos + 2)
    } else {
        None
    }
}

/// A written number field reads back as its number.
pub proof fn lemma_num_field_round_trip(s: Seq<u8>, pos: int, key: u8, value: u64, limit: u64)
    requires
        holds_at(s, pos, num_field(key, value as nat)),
        value <= limit,
    ensures
        parse_num_field(s, pos, key, limit) == Some(
            (value, pos + num_field(key, value as nat).len()),
        ),
        num_field(key, value as nat).len() == 1 + varint(value as nat).len(),
{
    lemma_holds_at_concat(s, pos, seq![key], varint(value as nat));
    assert(s[pos + 0] == seq![key][0]);
    lemma_varint_len(value);
    lemma_varint_round_trip(s, pos + 1, value, 10);
}

/// A written identity field reads back as its identity.
pub proof fn lemma_id_field_round_trip(s: Seq<u8>, pos: int, key: u8, value: u128)
    requires
        holds_at(s, pos, id_field(key, value)),
    ensures
        parse_id_field(s, pos, key) == Some((value, pos + 18)),
        id_field(key, value).len() == 18,
{
    let bytes = be_bytes(value as nat, 16);
    lemma_pow256_sixteen();
    lemma_be_round_trip(value as nat, 16);
    lemma_holds_at_concat(s, pos, seq![key, 16u8], bytes);
    assert(s[pos + 0] == seq![key, 16u8][0]);
    assert(s[pos + 1] == seq![key, 16u8][1]);
    assert(s.subrange(pos + 2, pos + 18) =~= bytes) by {
        assert forall|i: int| 0 <= i < 16 implies s[pos + 2 + i] == bytes[i] by {
            assert(s[pos + 2 + i] == #[trigger] bytes[i]);
        }
    }
}

/// Appends a number field.
pub fn put_num_field(out: &mut Vec<u8>, key: u8, value: u64)
    ensures
        final(out)@ == old(out)@ + num_field(key, value as nat),
{
    out.push(key);
    put_varint(out, value);
    assert(out@ =~= old(out)@ + num_field(key, value as nat));
}

/// Appends an identity field.
pub fn put_id_field(out: &mut Vec<u8>, key: u8, value: u128)
    ensures
        final(out)@ == old(out)@ + id_field(key, value),
{
    out.push(key);
    out.push(16);
    put_u128(out, value);
    assert(out@ =~= old(out)@ + id_field(key, value));
}

/// Reads the number field of the given key at a position, turning away a
/// number over the limit.
pub fn get_num_field(buf: &[u8], pos: usize, key: u8, limit: u64) -> (r: Option<(u64, usize)>)
    ensures
        match r {
            Some((value, next)) => parse_num_field(buf@, pos as int, key, limit) == Some(
                (value, next as int),
            ) && pos < next <= buf@.len(),
            None => parse_num_field(buf@, pos as int, key, limit) is None,
        },
{
    if pos >= buf.len() || buf[pos] != key {
        return None;
    }
    match get_varint(buf, pos + 1) {
        Some((value, next)) => if value <= limit {
            Some((value, next))
        } else {
            None
        },
        None => None,
    }
}

/// Reads the identity field of the given key at a position.
pub fn get_id_field(buf: &[u8], pos: usize, key: u8) -> (r: Option<(u128, usize)>)
    ensures
        match r {
            Some((value, next)) => parse_id_field(buf@, pos as int, key) == Some(
                (value, next as int),
            ) && next == pos + 18 && next <= buf@.len(),
            None => parse_id_field(buf@, pos as int, key) is None,
        },
{
    if pos >= buf.len() || buf.len() - pos < 2 || buf[pos] != key || buf[pos + 1] != 16 {
        return None;
    }
    get_u128(buf, pos + 2)
}

/// A field that holds bytes: the key byte, the count of the bytes in its
/// variable-length form, then the bytes.
pub open spec fn bytes_field(key: u8, bytes: Seq<u8>) -> Seq<u8> {
    seq![key] + varint(bytes.len()) + bytes
}

/// The bytes field of the given key that starts at a position, and the
/// position after it; none where fewer bytes are left than it announces.
pub open spec fn parse_bytes_field(s: Seq<u8>, pos: int, key: u8) -> Option<(Seq<u8>, int)> {
    if 0 <= pos < s.len() && s[pos] == key {
        match parse_varint(s, pos + 1, 10) {
            Some((len, start)) => if 0 <= start && start + len <= s.len() {
                Some((s.subrange(start, start + len), start + len))
            } else {
                None
            },
            None => None,
        }
    } else {
        None
    }
}

/// A written bytes field reads back as its bytes.
pub proof fn lemma_bytes_field_round_trip(s: Seq<u8>, pos: int, key: u8, bytes: Seq<u8>)
    requires
        holds_at(s, pos, bytes_field(key, bytes)),
        bytes.len() <= u64::MAX,
    ensures
        parse_bytes_field(s, pos, key) == Some((bytes, pos + bytes_field(key, bytes).len())),
        bytes_field(key, bytes).len() == 1 + varint(bytes.len()).len() + bytes.len(),
{
    let count = varint(bytes.len());
    lemma_holds_at_concat(s, pos, seq![key] + count, bytes);
    lemma_holds_at_concat(s, pos, seq![key], count);
    assert(s[pos + 0] == seq![key][0]);
    lemma_varint_len(bytes.len() as u64);
    lemma_varint_round_trip(s, pos + 1, bytes.len() as u64, 10);
    let start = pos + 1 + count.len();
    assert(s.subrange(start, start + bytes.len()) =~= bytes) by {
        assert forall|i: int| 0 <= i < bytes.len() implies s[start + i] == bytes[i] by {
            assert(s[start + i] == #[trigger] bytes[i]);
        }
    }
}

/// Appends a bytes field.
pub fn put_bytes_field(out: &mut Vec<u8>, key: u8, bytes: &[u8])
    ensures
        final(out)@ == old(out)@ + bytes_field(key, bytes@),
{
    out.push(key);
    put_varint(out, bytes.len() as u64);
    let ghost head = out@;
    let mut i: usize = 0;
    while i < bytes.len()
        invariant
            i <= bytes@.len(),
            out@ == head + bytes@.take(i as int),
        decreases bytes@.len() - i,
    {
        out.push(bytes[i]);
        i = i + 1;
        assert(out@ =~= head + bytes@.take(i as int));
    }
    assert(bytes@.take(bytes@.len() as int) =~= bytes@);
    assert(out@ =~= old(out)@ + bytes_field(key, bytes@));
}

/// Reads the bytes field of the given key at a position.
pub fn get_bytes_field(buf: &[u8], pos: usize, key: u8) -> (r: Option<(Vec<u8>, usize)>)
    ensures
        match r {
            Some((bytes, next)) => parse_bytes_field(buf@, pos as int, key) == Some(
                (bytes@, next as int),
            ) && pos < next <= buf@.len(),
            None => parse_bytes_field(buf@, pos as int, key) is None,
        },
{
    if pos >= buf.len() || buf[pos] != key {
        return None;
    }
    let (len, start) = get_varint(buf, pos + 1)?;
    if len > (buf.len() - start) as u64 {
        return None;
    }
    let end = start + len as usize;
    let mut bytes: Vec<u8> = Vec::new();
    let mut i: usize = start;
    while i < end
        invariant
            start <= i <= end <= buf@.len(),
            bytes@ == buf@.subrange(start as int, i as int),
        decreases end - i,
    {
        bytes.push(buf[i]);
        i = i + 1;
        assert(bytes@ =~= buf@.subrange(start as int, i as int));
    }
    Some((bytes, end))
}

} // verus!
