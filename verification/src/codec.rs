//! The stored form of a frame: four bytes of arbitration ID, most significant
//! first, followed by the payload as it came from the bus.

use vstd::prelude::*;

verus! {

/// Width of the arbitration ID in a stored record.
pub const ID_WIDTH: usize = 4;

/// The only way a record can fail to decode: it is shorter than the ID.
#[derive(Debug, Clone, Copy, PartialEq, Eq, Structural)]
pub struct DecodeError {
    /// Length of the record that was refused.
    pub len: usize,
}

/// The four bytes of a 32-bit value, most significant first.
pub open spec fn be4(v: u32) -> Seq<u8> {
    seq![(v >> 24) as u8, ((v >> 16) & 0xff) as u8, ((v >> 8) & 0xff) as u8, (v & 0xff) as u8]
}

/// The value that four bytes spell, most significant first.
pub open spec fn be4_value(b: Seq<u8>) -> u32
    recommends
        b.len() >= 4,
{
    ((b[0] as u32) << 24) | ((b[1] as u32) << 16) | ((b[2] as u32) << 8) | (b[3] as u32)
}

/// The stored form of a frame.
pub open spec fn encoded(id: u32, payload: Seq<u8>) -> Seq<u8> {
    be4(id) + payload
}

/// Reading four bytes back gives the value that was written.
pub proof fn lemma_be4_round_trip(v: u32)
    ensures
        be4(v).len() == 4,
        be4_value(be4(v)) == v,
{
    let b0 = (v >> 24) as u8;
    let b1 = ((v >> 16) & 0xff) as u8;
    let b2 = ((v >> 8) & 0xff) as u8;
    let b3 = (v & 0xff) as u8;
    assert(((((v >> 24) as u8) as u32) << 24) | (((((v >> 16) & 0xff) as u8) as u32) << 16) | (((((v
        >> 8) & 0xff) as u8) as u32) << 8) | (((v & 0xff) as u8) as u32) == v) by (bit_vector);
    assert(be4(v)[0] == b0 && be4(v)[1] == b1 && be4(v)[2] == b2 && be4(v)[3] == b3);
}

/// Writing the value of four bytes gives those four bytes.
pub proof fn lemma_be4_of_value(b: Seq<u8>)
    requires
        b.len() == 4,
    ensures
        be4(be4_value(b)) == b,
{
    let (b0, b1, b2, b3) = (b[0], b[1], b[2], b[3]);
    let v = be4_value(b);
    assert(v == ((b0 as u32) << 24) | ((b1 as u32) << 16) | ((b2 as u32) << 8) | (b3 as u32));
    assert(({
        let w = ((b0 as u32) << 24) | ((b1 as u32) << 16) | ((b2 as u32) << 8) | (b3 as u32);
        (w >> 24) as u8 == b0 && ((w >> 16) & 0xff) as u8 == b1 && ((w >> 8) & 0xff) as u8 == b2
            && (w & 0xff) as u8 == b3
    })) by (bit_vector);
    assert(be4(v) =~= b);
}

/// The four bytes of a 32-bit value, most significant first.
pub fn be_bytes(v: u32) -> (out: Vec<u8>)
    ensures
        out@ == be4(v),
        out@.len() == 4,
{
    let mut out: Vec<u8> = Vec::new();
    out.push((v >> 24) as u8);
    out.push(((v >> 16) & 0xff) as u8);
    out.push(((v >> 8) & 0xff) as u8);
    out.push((v & 0xff) as u8);
    assert(out@ =~= be4(v));
    out
}

/// Encodes a frame for storage: the ID's four bytes, then the payload,
/// whatever its length.
pub fn encode(id: u32, payload: &[u8]) -> (record: Vec<u8>)
    ensures
        record@ == encoded(id, payload@),
        record@.len() == payload@.len() + 4,
{
    let mut record = be_bytes(id);
    let mut i: usize = 0;
    while i < payload.len()
        invariant
            i <= payload@.len(),
            record@ == be4(id) + payload@.subrange(0, i as int),
        decreases payload@.len() - i,
    {
        record.push(payload[i]);
        assert(record@ =~= be4(id) + payload@.subrange(0, i + 1));
        i += 1;
    }
    assert(payload@.subrange(0, i as int) =~= payload@);
    record
}

/// The arbitration ID of a stored record. A record of fewer than four bytes
/// is refused.
pub fn id_of(record: &[u8]) -> (r: Result<u32, DecodeError>)
    ensures
        record@.len() < 4 ==> r is Err && r->Err_0.len == record@.len(),
        record@.len() >= 4 ==> r is Ok && r->Ok_0 == be4_value(record@),
{
    if record.len() < ID_WIDTH {
        return Err(DecodeError { len: record.len() });
    }
    Ok(
        ((record[0] as u32) << 24) | ((record[1] as u32) << 16) | ((record[2] as u32) << 8) | (
        record[3] as u32),
    )
}

/// Decodes a stored record into the arbitration ID and the payload. A record
/// of fewer than four bytes is refused.
pub fn decode(record: &[u8]) -> (r: Result<(u32, Vec<u8>), DecodeError>)
    ensures
        record@.len() < 4 ==> r is Err && r->Err_0.len == record@.len(),
        record@.len() >= 4 ==> r is Ok && r->Ok_0.0 == be4_value(record@) && r->Ok_0.1@
            == record@.subrange(4, record@.len() as int),
{
    let id: u32 = match id_of(record) {
        Ok(id) => id,
        Err(e) => {
            return Err(e);
        },
    };
    let mut payload: Vec<u8> = Vec::new();
    let mut i: usize = ID_WIDTH;
    while i < record.len()
        invariant
            4 <= i <= record@.len(),
            payload@ == record@.subrange(4, i as int),
        decreases record@.len() - i,
    {
        payload.push(record[i]);
        assert(payload@ =~= record@.subrange(4, i + 1));
        i += 1;
    }
    Ok((id, payload))
}

/// Decoding an encoded frame gives the frame back: for every ID and every
/// payload, of any length.
pub proof fn lemma_decode_encode(id: u32, payload: Seq<u8>)
    ensures
        encoded(id, payload).len() == payload.len() + 4,
        be4_value(encoded(id, payload)) == id,
        encoded(id, payload).subrange(4, encoded(id, payload).len() as int) == payload,
{
    lemma_be4_round_trip(id);
    let e = encoded(id, payload);
    assert(e[0] == be4(id)[0] && e[1] == be4(id)[1] && e[2] == be4(id)[2] && e[3] == be4(id)[3]);
    assert(e.subrange(4, e.len() as int) =~= payload);
}

/// Encoding what a record decodes to gives the record back.
pub proof fn lemma_encode_decode(record: Seq<u8>)
    requires
        record.len() >= 4,
    ensures
        encoded(be4_value(record), record.subrange(4, record.len() as int)) == record,
{
    let head = record.subrange(0, 4);
    lemma_be4_of_value(head);
    assert(be4_value(head) == be4_value(record));
    assert(encoded(be4_value(record), record.subrange(4, record.len() as int)) =~= record);
}

/// Width of a capture key in the store.
pub const KEY_WIDTH: usize = 16;

/// The sixteen bytes of a capture key, most significant first.
pub open spec fn be16(k: u128) -> Seq<u8> {
    seq![
        ((k >> 120) & 0xff) as u8,
        ((k >> 112) & 0xff) as u8,
        ((k >> 104) & 0xff) as u8,
        ((k >> 96) & 0xff) as u8,
        ((k >> 88) & 0xff) as u8,
        ((k >> 80) & 0xff) as u8,
        ((k >> 72) & 0xff) as u8,
        ((k >> 64) & 0xff) as u8,
        ((k >> 56) & 0xff) as u8,
        ((k >> 48) & 0xff) as u8,
        ((k >> 40) & 0xff) as u8,
        ((k >> 32) & 0xff) as u8,
        ((k >> 24) & 0xff) as u8,
        ((k >> 16) & 0xff) as u8,
        ((k >> 8) & 0xff) as u8,
        (k & 0xff) as u8,
    ]
}

/// The capture key that sixteen bytes spell, most significant first.
pub open spec fn be16_value(b: Seq<u8>) -> u128
    recommends
        b.len() >= 16,
{
    ((b[0] as u128) << 120)
        | ((b[1] as u128) << 112)
        | ((b[2] as u128) << 104)
        | ((b[3] as u128) << 96)
        | ((b[4] as u128) << 88)
        | ((b[5] as u128) << 80)
        | ((b[6] as u128) << 72)
        | ((b[7] as u128) << 64)
        | ((b[8] as u128) << 56)
        | ((b[9] as u128) << 48)
        | ((b[10] as u128) << 40)
        | ((b[11] as u128) << 32)
        | ((b[12] as u128) << 24)
        | ((b[13] as u128) << 16)
        | ((b[14] as u128) << 8)
        | (b[15] as u128)
}

/// Reading sixteen bytes back gives the key that was written.
pub proof fn lemma_be16_round_trip(k: u128)
    ensures
        be16(k).len() == 16,
        be16_value(be16(k)) == k,
{
    assert((((((k >> 120) & 0xff) as u8) as u128) << 120)
        | (((((k >> 112) & 0xff) as u8) as u128) << 112)
        | (((((k >> 104) & 0xff) as u8) as u128) << 104)
        | (((((k >> 96) & 0xff) as u8) as u128) << 96)
        | (((((k >> 88) & 0xff) as u8) as u128) << 88)
        | (((((k >> 80) & 0xff) as u8) as u128) << 80)
        | (((((k >> 72) & 0xff) as u8) as u128) << 72)
        | (((((k >> 64) & 0xff) as u8) as u128) << 64)
        | (((((k >> 56) & 0xff) as u8) as u128) << 56)
        | (((((k >> 48) & 0xff) as u8) as u128) << 48)
        | (((((k >> 40) & 0xff) as u8) as u128) << 40)
        | (((((k >> 32) & 0xff) as u8) as u128) << 32)
        | (((((k >> 24) & 0xff) as u8) as u128) << 24)
        | (((((k >> 16) & 0xff) as u8) as u128) << 16)
        | (((((k >> 8) & 0xff) as u8) as u128) << 8)
        | (((k & 0xff) as u8) as u128) == k) by (bit_vector);
}

proof fn lemma_be16_bytes(
    b0: u8, b1: u8, b2: u8, b3: u8,
    b4: u8, b5: u8, b6: u8, b7: u8,
    b8: u8, b9: u8, b10: u8, b11: u8,
    b12: u8, b13: u8, b14: u8, b15: u8,
)
    ensures
        ({
            let w = ((b0 as u128) << 120)
                | ((b1 as u128) << 112)
                | ((b2 as u128) << 104)
                | ((b3 as u128) << 96)
                | ((b4 as u128) << 88)
                | ((b5 as u128) << 80)
                | ((b6 as u128) << 72)
                | ((b7 as u128) << 64)
                | ((b8 as u128) << 56)
                | ((b9 as u128) << 48)
                | ((b10 as u128) << 40)
                | ((b11 as u128) << 32)
                | ((b12 as u128) << 24)
                | ((b13 as u128) << 16)
                | ((b14 as u128) << 8)
                | (b15 as u128);
            ((w >> 120) & 0xff) as u8 == b0
                && ((w >> 112) & 0xff) as u8 == b1
                && ((w >> 104) & 0xff) as u8 == b2
                && ((w >> 96) & 0xff) as u8 == b3
                && ((w >> 88) & 0xff) as u8 == b4
                && ((w >> 80) & 0xff) as u8 == b5
                && ((w >> 72) & 0xff) as u8 == b6
                && ((w >> 64) & 0xff) as u8 == b7
                && ((w >> 56) & 0xff) as u8 == b8
                && ((w >> 48) & 0xff) as u8 == b9
                && ((w >> 40) & 0xff) as u8 == b10
                && ((w >> 32) & 0xff) as u8 == b11
                && ((w >> 24) & 0xff) as u8 == b12
                && ((w >> 16) & 0xff) as u8 == b13
                && ((w >> 8) & 0xff) as u8 == b14
                && (w & 0xff) as u8 == b15
        }),
{
    assert(({
        let w = ((b0 as u128) << 120)
            | ((b1 as u128) << 112)
            | ((b2 as u128) << 104)
            | ((b3 as u128) << 96)
            | ((b4 as u128) << 88)
            | ((b5 as u128) << 80)
            | ((b6 as u128) << 72)
            | ((b7 as u128) << 64)
            | ((b8 as u128) << 56)
            | ((b9 as u128) << 48)
            | ((b10 as u128) << 40)
            | ((b11 as u128) << 32)
            | ((b12 as u128) << 24)
            | ((b13 as u128) << 16)
            | ((b14 as u128) << 8)
            | (b15 as u128);
        ((w >> 120) & 0xff) as u8 == b0
            && ((w >> 112) & 0xff) as u8 == b1
            && ((w >> 104) & 0xff) as u8 == b2
            && ((w >> 96) & 0xff) as u8 == b3
            && ((w >> 88) & 0xff) as u8 == b4
            && ((w >> 80) & 0xff) as u8 == b5
            && ((w >> 72) & 0xff) as u8 == b6
            && ((w >> 64) & 0xff) as u8 == b7
            && ((w >> 56) & 0xff) as u8 == b8
            && ((w >> 48) & 0xff) as u8 == b9
            && ((w >> 40) & 0xff) as u8 == b10
            && ((w >> 32) & 0xff) as u8 == b11
            && ((w >> 24) & 0xff) as u8 == b12
            && ((w >> 16) & 0xff) as u8 == b13
            && ((w >> 8) & 0xff) as u8 == b14
            && (w & 0xff) as u8 == b15
    })) by (bit_vector);
}

/// Writing the key that sixteen bytes spell gives those bytes.
pub proof fn lemma_be16_of_value(b: Seq<u8>)
    requires
        b.len() == 16,
    ensures
        be16(be16_value(b)) == b,
{
    lemma_be16_bytes(
        b[0], b[1], b[2], b[3], b[4], b[5], b[6], b[7],
        b[8], b[9], b[10], b[11], b[12], b[13], b[14], b[15],
    );
    assert(be16(be16_value(b)) =~= b);
}

/// The name of a capture key in the store: its sixteen bytes, most
/// significant first, so that the order of the names is the order of the
/// keys.
pub fn capture_key_bytes(key: u128) -> (out: Vec<u8>)
    ensures
        out@ == be16(key),
        out@.len() == 16,
{
    let mut out: Vec<u8> = Vec::new();
    out.push(((key >> 120) & 0xff) as u8);
    out.push(((key >> 112) & 0xff) as u8);
    out.push(((key >> 104) & 0xff) as u8);
    out.push(((key >> 96) & 0xff) as u8);
    out.push(((key >> 88) & 0xff) as u8);
    out.push(((key >> 80) & 0xff) as u8);
    out.push(((key >> 72) & 0xff) as u8);
    out.push(((key >> 64) & 0xff) as u8);
    out.push(((key >> 56) & 0xff) as u8);
    out.push(((key >> 48) & 0xff) as u8);
    out.push(((key >> 40) & 0xff) as u8);
    out.push(((key >> 32) & 0xff) as u8);
    out.push(((key >> 24) & 0xff) as u8);
    out.push(((key >> 16) & 0xff) as u8);
    out.push(((key >> 8) & 0xff) as u8);
    out.push((key & 0xff) as u8);
    assert(out@ =~= be16(key));
    out
}

/// Reads a capture key from its name in the store. A name that is not
/// sixteen bytes long is no capture key.
pub fn capture_key_from_bytes(name: &[u8]) -> (key: Option<u128>)
    ensures
        name@.len() == 16 ==> key == Some(be16_value(name@)),
        name@.len() != 16 ==> key is None,
{
    if name.len() != KEY_WIDTH {
        return None;
    }
    Some(((name[0] as u128) << 120)
        | ((name[1] as u128) << 112)
        | ((name[2] as u128) << 104)
        | ((name[3] as u128) << 96)
        | ((name[4] as u128) << 88)
        | ((name[5] as u128) << 80)
        | ((name[6] as u128) << 72)
        | ((name[7] as u128) << 64)
        | ((name[8] as u128) << 56)
        | ((name[9] as u128) << 48)
        | ((name[10] as u128) << 40)
        | ((name[11] as u128) << 32)
        | ((name[12] as u128) << 24)
        | ((name[13] as u128) << 16)
        | ((name[14] as u128) << 8)
        | (name[15] as u128))
}

/// The name of the index of a PGN: its four bytes, most significant first.
pub fn pgn_name(pgn: u32) -> (out: Vec<u8>)
    ensures
        out@ == be4(pgn),
        out@.len() == 4,
{
    be_bytes(pgn)
}

/// Reads a PGN from the name of a tree of the store. Only a name of exactly
/// four bytes names a PGN's index.
pub fn pgn_from_name(name: &[u8]) -> (pgn: Option<u32>)
    ensures
        name@.len() == 4 ==> pgn == Some(be4_value(name@)),
        name@.len() != 4 ==> pgn is None,
{
    if name.len() != ID_WIDTH {
        return None;
    }
    Some(
        ((name[0] as u32) << 24) | ((name[1] as u32) << 16) | ((name[2] as u32) << 8) | (
        name[3] as u32),
    )
}

/// The first `i` bytes of `a` and `b` agree, and there `a` ends while `b`
/// goes on, or `a` has the lower byte.
pub open spec fn agree_until(a: Seq<u8>, b: Seq<u8>, i: int) -> bool {
    &&& 0 <= i <= a.len()
    &&& i < b.len()
    &&& forall|j: int| 0 <= j < i ==> a[j] == b[j]
    &&& i < a.len() ==> a[i] < b[i]
}

/// The order of byte strings in an ordered store: by the first byte that
/// differs, a proper prefix first.
pub open spec fn lex_less(a: Seq<u8>, b: Seq<u8>) -> bool {
    exists|i: int| agree_until(a, b, i)
}

proof fn lemma_be16_order_bytes(a: u128, b: u128)
    ensures
        ({
            let a0 = ((a >> 120) & 0xff) as u8;
            let b0 = ((b >> 120) & 0xff) as u8;
            let a1 = ((a >> 112) & 0xff) as u8;
            let b1 = ((b >> 112) & 0xff) as u8;
            let a2 = ((a >> 104) & 0xff) as u8;
            let b2 = ((b >> 104) & 0xff) as u8;
            let a3 = ((a >> 96) & 0xff) as u8;
            let b3 = ((b >> 96) & 0xff) as u8;
            let a4 = ((a >> 88) & 0xff) as u8;
            let b4 = ((b >> 88) & 0xff) as u8;
            let a5 = ((a >> 80) & 0xff) as u8;
            let b5 = ((b >> 80) & 0xff) as u8;
            let a6 = ((a >> 72) & 0xff) as u8;
            let b6 = ((b >> 72) & 0xff) as u8;
            let a7 = ((a >> 64) & 0xff) as u8;
            let b7 = ((b >> 64) & 0xff) as u8;
            let a8 = ((a >> 56) & 0xff) as u8;
            let b8 = ((b >> 56) & 0xff) as u8;
            let a9 = ((a >> 48) & 0xff) as u8;
            let b9 = ((b >> 48) & 0xff) as u8;
            let a10 = ((a >> 40) & 0xff) as u8;
            let b10 = ((b >> 40) & 0xff) as u8;
            let a11 = ((a >> 32) & 0xff) as u8;
            let b11 = ((b >> 32) & 0xff) as u8;
            let a12 = ((a >> 24) & 0xff) as u8;
            let b12 = ((b >> 24) & 0xff) as u8;
            let a13 = ((a >> 16) & 0xff) as u8;
            let b13 = ((b >> 16) & 0xff) as u8;
            let a14 = ((a >> 8) & 0xff) as u8;
            let b14 = ((b >> 8) & 0xff) as u8;
            let a15 = (a & 0xff) as u8;
            let b15 = (b & 0xff) as u8;
            a < b <==> a0 < b0 || (a0 == b0 && (
            a1 < b1 || (a1 == b1 && (
            a2 < b2 || (a2 == b2 && (
            a3 < b3 || (a3 == b3 && (
            a4 < b4 || (a4 == b4 && (
            a5 < b5 || (a5 == b5 && (
            a6 < b6 || (a6 == b6 && (
            a7 < b7 || (a7 == b7 && (
            a8 < b8 || (a8 == b8 && (
            a9 < b9 || (a9 == b9 && (
            a10 < b10 || (a10 == b10 && (
            a11 < b11 || (a11 == b11 && (
            a12 < b12 || (a12 == b12 && (
            a13 < b13 || (a13 == b13 && (
            a14 < b14 || (a14 == b14 && (
            a15 < b15
            ))))))))))))))))))))))))))))))
        }),
{
    assert(({
        let a0 = ((a >> 120) & 0xff) as u8;
        let b0 = ((b >> 120) & 0xff) as u8;
        let a1 = ((a >> 112) & 0xff) as u8;
        let b1 = ((b >> 112) & 0xff) as u8;
        let a2 = ((a >> 104) & 0xff) as u8;
        let b2 = ((b >> 104) & 0xff) as u8;
        let a3 = ((a >> 96) & 0xff) as u8;
        let b3 = ((b >> 96) & 0xff) as u8;
        let a4 = ((a >> 88) & 0xff) as u8;
        let b4 = ((b >> 88) & 0xff) as u8;
        let a5 = ((a >> 80) & 0xff) as u8;
        let b5 = ((b >> 80) & 0xff) as u8;
        let a6 = ((a >> 72) & 0xff) as u8;
        let b6 = ((b >> 72) & 0xff) as u8;
        let a7 = ((a >> 64) & 0xff) as u8;
        let b7 = ((b >> 64) & 0xff) as u8;
        let a8 = ((a >> 56) & 0xff) as u8;
        let b8 = ((b >> 56) & 0xff) as u8;
        let a9 = ((a >> 48) & 0xff) as u8;
        let b9 = ((b >> 48) & 0xff) as u8;
        let a10 = ((a >> 40) & 0xff) as u8;
        let b10 = ((b >> 40) & 0xff) as u8;
        let a11 = ((a >> 32) & 0xff) as u8;
        let b11 = ((b >> 32) & 0xff) as u8;
        let a12 = ((a >> 24) & 0xff) as u8;
        let b12 = ((b >> 24) & 0xff) as u8;
        let a13 = ((a >> 16) & 0xff) as u8;
        let b13 = ((b >> 16) & 0xff) as u8;
        let a14 = ((a >> 8) & 0xff) as u8;
        let b14 = ((b >> 8) & 0xff) as u8;
        let a15 = (a & 0xff) as u8;
        let b15 = (b & 0xff) as u8;
        a < b <==> a0 < b0 || (a0 == b0 && (
        a1 < b1 || (a1 == b1 && (
        a2 < b2 || (a2 == b2 && (
        a3 < b3 || (a3 == b3 && (
        a4 < b4 || (a4 == b4 && (
        a5 < b5 || (a5 == b5 && (
        a6 < b6 || (a6 == b6 && (
        a7 < b7 || (a7 == b7 && (
        a8 < b8 || (a8 == b8 && (
        a9 < b9 || (a9 == b9 && (
        a10 < b10 || (a10 == b10 && (
        a11 < b11 || (a11 == b11 && (
        a12 < b12 || (a12 == b12 && (
        a13 < b13 || (a13 == b13 && (
        a14 < b14 || (a14 == b14 && (
        a15 < b15
        ))))))))))))))))))))))))))))))
    })) by (bit_vector);
}

/// The names of two capture keys are ordered as the keys are, so walking
/// the store by name is walking it by time.
pub proof fn lemma_capture_key_order(a: u128, b: u128)
    ensures
        lex_less(be16(a), be16(b)) <==> a < b,
{
    let x = be16(a);
    let y = be16(b);
    lemma_be16_order_bytes(a, b);
    assert(x[0] == ((a >> 120) & 0xff) as u8 && y[0] == ((b >> 120) & 0xff) as u8);
    assert(x[1] == ((a >> 112) & 0xff) as u8 && y[1] == ((b >> 112) & 0xff) as u8);
    assert(x[2] == ((a >> 104) & 0xff) as u8 && y[2] == ((b >> 104) & 0xff) as u8);
    assert(x[3] == ((a >> 96) & 0xff) as u8 && y[3] == ((b >> 96) & 0xff) as u8);
    assert(x[4] == ((a >> 88) & 0xff) as u8 && y[4] == ((b >> 88) & 0xff) as u8);
    assert(x[5] == ((a >> 80) & 0xff) as u8 && y[5] == ((b >> 80) & 0xff) as u8);
    assert(x[6] == ((a >> 72) & 0xff) as u8 && y[6] == ((b >> 72) & 0xff) as u8);
    assert(x[7] == ((a >> 64) & 0xff) as u8 && y[7] == ((b >> 64) & 0xff) as u8);
    assert(x[8] == ((a >> 56) & 0xff) as u8 && y[8] == ((b >> 56) & 0xff) as u8);
    assert(x[9] == ((a >> 48) & 0xff) as u8 && y[9] == ((b >> 48) & 0xff) as u8);
    assert(x[10] == ((a >> 40) & 0xff) as u8 && y[10] == ((b >> 40) & 0xff) as u8);
    assert(x[11] == ((a >> 32) & 0xff) as u8 && y[11] == ((b >> 32) & 0xff) as u8);
    assert(x[12] == ((a >> 24) & 0xff) as u8 && y[12] == ((b >> 24) & 0xff) as u8);
    assert(x[13] == ((a >> 16) & 0xff) as u8 && y[13] == ((b >> 16) & 0xff) as u8);
    assert(x[14] == ((a >> 8) & 0xff) as u8 && y[14] == ((b >> 8) & 0xff) as u8);
    assert(x[15] == (a & 0xff) as u8 && y[15] == (b & 0xff) as u8);
    if a < b {
        if x[0] != y[0] {
            assert(agree_until(x, y, 0));
        } else if x[1] != y[1] {
            assert(agree_until(x, y, 1));
        } else if x[2] != y[2] {
            assert(agree_until(x, y, 2));
        } else if x[3] != y[3] {
            assert(agree_until(x, y, 3));
        } else if x[4] != y[4] {
            assert(agree_until(x, y, 4));
        } else if x[5] != y[5] {
            assert(agree_until(x, y, 5));
        } else if x[6] != y[6] {
            assert(agree_until(x, y, 6));
        } else if x[7] != y[7] {
            assert(agree_until(x, y, 7));
        } else if x[8] != y[8] {
            assert(agree_until(x, y, 8));
        } else if x[9] != y[9] {
            assert(agree_until(x, y, 9));
        } else if x[10] != y[10] {
            assert(agree_until(x, y, 10));
        } else if x[11] != y[11] {
            assert(agree_until(x, y, 11));
        } else if x[12] != y[12] {
            assert(agree_until(x, y, 12));
        } else if x[13] != y[13] {
            assert(agree_until(x, y, 13));
        } else if x[14] != y[14] {
            assert(agree_until(x, y, 14));
        } else if x[15] != y[15] {
            assert(agree_until(x, y, 15));
        }
        assert(lex_less(x, y));
    }
    if lex_less(x, y) {
        let i = choose|i: int| agree_until(x, y, i);
        assert(i < 16);
        assert(forall|j: int| 0 <= j < i ==> x[j] == y[j]);
        assert(x[i] < y[i]);
    }
}

} // verus!
