//! The byte-level building blocks of the snapshot format: fixed-width
//! little-endian integers and the position arithmetic shared by all readers.

use vstd::prelude::*;

verus! {

/// The eight bytes of `value`, least significant first.
pub open spec fn u64_bytes(value: u64) -> Seq<u8> {
    seq![
        (value & 0xff) as u8,
        ((value >> 8) & 0xff) as u8,
        ((value >> 16) & 0xff) as u8,
        ((value >> 24) & 0xff) as u8,
        ((value >> 32) & 0xff) as u8,
        ((value >> 40) & 0xff) as u8,
        ((value >> 48) & 0xff) as u8,
        ((value >> 56) & 0xff) as u8,
    ]
}

/// The integer whose little-endian bytes start at `at` in `bytes`.
pub open spec fn u64_at(bytes: Seq<u8>, at: int) -> u64 {
    (bytes[at] as u64) | (bytes[at + 1] as u64) << 8 | (bytes[at + 2] as u64) << 16 | (bytes[at
        + 3] as u64) << 24 | (bytes[at + 4] as u64) << 32 | (bytes[at + 5] as u64) << 40 | (bytes[at
        + 6] as u64) << 48 | (bytes[at + 7] as u64) << 56
}

/// `part` occurs in `bytes` starting at position `at`.
pub open spec fn holds_at(bytes: Seq<u8>, at: int, part: Seq<u8>) -> bool {
    &&& 0 <= at
    &&& at + part.len() <= bytes.len()
    &&& bytes.subrange(at, at + part.len()) == part
}

/// Reads one integer at `at`: the value and the position after it, or
/// `None` when fewer than eight bytes are left.
pub open spec fn read_u64(bytes: Seq<u8>, at: int) -> Option<(u64, int)> {
    if 0 <= at && at + 8 <= bytes.len() {
        Some((u64_at(bytes, at), at + 8))
    } else {
        None
    }
}

/// Reading the bytes of an integer gives the integer back.
pub proof fn lemma_u64_round_trip(value: u64)
    ensures
        u64_bytes(value).len() == 8,
        u64_at(u64_bytes(value), 0) == value,
{
    let b0 = (value & 0xff) as u8;
    let b1 = ((value >> 8) & 0xff) as u8;
    let b2 = ((value >> 16) & 0xff) as u8;
    let b3 = ((value >> 24) & 0xff) as u8;
    let b4 = ((value >> 32) & 0xff) as u8;
    let b5 = ((value >> 40) & 0xff) as u8;
    let b6 = ((value >> 48) & 0xff) as u8;
    let b7 = ((value >> 56) & 0xff) as u8;
    assert((b0 as u64) | (b1 as u64) << 8 | (b2 as u64) << 16 | (b3 as u64) << 24 | (b4 as u64)
        << 32 | (b5 as u64) << 40 | (b6 as u64) << 48 | (b7 as u64) << 56 == value) by (bit_vector)
        requires
            b0 == (value & 0xff) as u8,
            b1 == ((value >> 8) & 0xff) as u8,
            b2 == ((value >> 16) & 0xff) as u8,
            b3 == ((value >> 24) & 0xff) as u8,
            b4 == ((value >> 32) & 0xff) as u8,
            b5 == ((value >> 40) & 0xff) as u8,
            b6 == ((value >> 48) & 0xff) as u8,
            b7 == ((value >> 56) & 0xff) as u8,
    ;
}

/// A part that occurs at `at` occurs there piece by piece.
pub proof fn lemma_holds_at_split(bytes: Seq<u8>, at: int, first: Seq<u8>, second: Seq<u8>)
    requires
        holds_at(bytes, at, first + second),
    ensures
        holds_at(bytes, at, first),
        holds_at(bytes, at + first.len(), second),
{
    let whole = first + second;
    assert(bytes.subrange(at, at + first.len()) =~= whole.subrange(0, first.len() as int));
    assert(whole.subrange(0, first.len() as int) =~= first);
    assert(bytes.subrange(at + first.len(), at + first.len() + second.len()) =~= whole.subrange(
        first.len() as int,
        whole.len() as int,
    ));
    assert(whole.subrange(first.len() as int, whole.len() as int) =~= second);
}

/// Where the bytes of an integer occur, reading gives that integer.
pub proof fn lemma_read_u64(bytes: Seq<u8>, at: int, value: u64)
    requires
        holds_at(bytes, at, u64_bytes(value)),
    ensures
        read_u64(bytes, at) == Some((value, at + 8)),
{
    lemma_u64_round_trip(value);
    let part = bytes.subrange(at, at + 8);
    assert(part == u64_bytes(value));
    assert(forall|k: int| 0 <= k < 8 ==> bytes[at + k] == part[k]);
    assert(u64_at(bytes, at) == u64_at(part, 0));
}

/// Two parts that occur back to back occur as one.
pub proof fn lemma_holds_at_join(bytes: Seq<u8>, at: int, first: Seq<u8>, second: Seq<u8>)
    requires
        holds_at(bytes, at, first),
        holds_at(bytes, at + first.len(), second),
    ensures
        holds_at(bytes, at, first + second),
{
    let whole = first + second;
    let found = bytes.subrange(at, at + whole.len());
    assert forall|k: int| 0 <= k < whole.len() implies found[k] == whole[k] by {
        if k < first.len() {
            assert(bytes.subrange(at, at + first.len())[k] == first[k]);
        } else {
            assert(bytes.subrange(at + first.len(), at + first.len() + second.len())[k
                - first.len()] == second[k - first.len()]);
        }
    }
    assert(found =~= whole);
}

/// Any eight bytes are the bytes of the integer read from them.
pub proof fn lemma_u64_bytes_of_read(bytes: Seq<u8>, at: int)
    requires
        0 <= at,
        at + 8 <= bytes.len(),
    ensures
        holds_at(bytes, at, u64_bytes(u64_at(bytes, at))),
{
    let b0 = bytes[at];
    let b1 = bytes[at + 1];
    let b2 = bytes[at + 2];
    let b3 = bytes[at + 3];
    let b4 = bytes[at + 4];
    let b5 = bytes[at + 5];
    let b6 = bytes[at + 6];
    let b7 = bytes[at + 7];
    let value = u64_at(bytes, at);
    assert((value & 0xff) as u8 == b0 && ((value >> 8) & 0xff) as u8 == b1 && ((value >> 16)
        & 0xff) as u8 == b2 && ((value >> 24) & 0xff) as u8 == b3 && ((value >> 32) & 0xff) as u8
        == b4 && ((value >> 40) & 0xff) as u8 == b5 && ((value >> 48) & 0xff) as u8 == b6 && ((
    value >> 56) & 0xff) as u8 == b7) by (bit_vector)
        requires
            value == (b0 as u64) | (b1 as u64) << 8 | (b2 as u64) << 16 | (b3 as u64) << 24 | (
            b4 as u64) << 32 | (b5 as u64) << 40 | (b6 as u64) << 48 | (b7 as u64) << 56,
    ;
    assert(bytes.subrange(at, at + 8) =~= u64_bytes(value));
}

/// Appends the eight little-endian bytes of `value`.
pub fn put_u64(out: &mut Vec<u8>, value: u64)
    ensures
        final(out)@ == old(out)@ + u64_bytes(value),
{
    out.push((value & 0xff) as u8);
    out.push(((value >> 8) & 0xff) as u8);
    out.push(((value >> 16) & 0xff) as u8);
    out.push(((value >> 24) & 0xff) as u8);
    out.push(((value >> 32) & 0xff) as u8);
    out.push(((value >> 40) & 0xff) as u8);
    out.push(((value >> 48) & 0xff) as u8);
    out.push(((value >> 56) & 0xff) as u8);
    assert(out@ =~= old(out)@ + u64_bytes(value));
}

/// Reads the integer at `at` and returns it with the position after it;
/// `None` when fewer than eight bytes are left.
pub fn get_u64(bytes: &[u8], at: usize) -> (result: Option<(u64, usize)>)
    ensures
        match result {
            Some((value, next)) => read_u64(bytes@, at as int) == Some((value, next as int)),
            None => read_u64(bytes@, at as int).is_none(),
        },
{
    if at > bytes.len() || bytes.len() - at < 8 {
        return None;
    }
    let value: u64 = (bytes[at] as u64) | (bytes[at + 1] as u64) << 8 | (bytes[at + 2] as u64)
        << 16 | (bytes[at + 3] as u64) << 24 | (bytes[at + 4] as u64) << 32 | (bytes[at
        + 5] as u64) << 40 | (bytes[at + 6] as u64) << 48 | (bytes[at + 7] as u64) << 56;
    Some((value, at + 8))
}

} // verus!
