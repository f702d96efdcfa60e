//! Byte encodings of the values that components are made of.
//!
//! Integers are written in little-endian order, strings as their UTF-8
//! bytes. Every reader is the inverse of its writer.

use vstd::prelude::*;
use vstd::bytes::{
    lemma_auto_spec_u32_to_from_le_bytes, lemma_auto_spec_u64_to_from_le_bytes,
    spec_u32_from_le_bytes, spec_u32_to_le_bytes, spec_u64_from_le_bytes, spec_u64_to_le_bytes,
    u32_from_le_bytes, u32_to_le_bytes, u64_from_le_bytes, u64_to_le_bytes,
};
use vstd::slice::{slice_subrange, slice_to_vec};
use vstd::utf8::{decode_utf8, valid_utf8};
use crate::entity_id::EntityId;

verus! {

/// The unsigned number that stands for a signed one: the signed range is
/// moved up so that it starts at zero.
pub open spec fn biased(x: i32) -> u32 {
    (x + 0x8000_0000) as u32
}

/// The signed number that an unsigned one stands for.
pub open spec fn unbiased(x: u32) -> i32 {
    (x - 0x8000_0000) as i32
}

/// The four bytes of a signed number.
pub open spec fn i32_bytes(x: i32) -> Seq<u8> {
    spec_u32_to_le_bytes(biased(x))
}

/// The signed number that four bytes stand for.
pub open spec fn i32_of_bytes(bytes: Seq<u8>) -> i32 {
    unbiased(spec_u32_from_le_bytes(bytes))
}

/// The eight bytes of an unsigned number.
pub open spec fn u64_bytes(x: u64) -> Seq<u8> {
    spec_u64_to_le_bytes(x)
}

/// The unsigned number that eight bytes stand for.
pub open spec fn u64_of_bytes(bytes: Seq<u8>) -> u64 {
    spec_u64_from_le_bytes(bytes)
}

/// The bytes of a list of entities: eight for each, in the order of the list.
pub open spec fn entity_bytes(entities: Seq<EntityId>) -> Seq<u8>
    decreases entities.len(),
{
    if entities.len() == 0 {
        Seq::empty()
    } else {
        entity_bytes(entities.drop_last()) + u64_bytes(entities.last().0)
    }
}

/// The list of entities that a byte string stands for: one for every eight
/// bytes.
pub open spec fn entities_of_bytes(bytes: Seq<u8>) -> Seq<EntityId> {
    Seq::new(
        (bytes.len() / 8) as nat,
        |i: int| EntityId(u64_of_bytes(bytes.subrange(8 * i, 8 * i + 8))),
    )
}

/// Reading is the inverse of writing, for the numbers.
pub proof fn lemma_number_round_trip()
    ensures
        forall|x: i32| #[trigger] i32_bytes(x).len() == 4 && i32_of_bytes(i32_bytes(x)) == x,
        forall|bytes: Seq<u8>|
            bytes.len() == 4 ==> #[trigger] i32_bytes(i32_of_bytes(bytes)) == bytes,
        forall|x: u64| #[trigger] u64_bytes(x).len() == 8 && u64_of_bytes(u64_bytes(x)) == x,
        forall|bytes: Seq<u8>|
            bytes.len() == 8 ==> #[trigger] u64_bytes(u64_of_bytes(bytes)) == bytes,
{
    lemma_auto_spec_u32_to_from_le_bytes();
    lemma_auto_spec_u64_to_from_le_bytes();
    assert forall|x: i32| #[trigger] i32_bytes(x).len() == 4 && i32_of_bytes(i32_bytes(x)) == x by {
        let u = biased(x);
        assert(u == x + 0x8000_0000);
        assert(unbiased(u) == x);
        assert(spec_u32_to_le_bytes(u).len() == 4);
        assert(spec_u32_from_le_bytes(spec_u32_to_le_bytes(u)) == u);
    }
    assert forall|bytes: Seq<u8>| bytes.len() == 4 implies #[trigger] i32_bytes(
        i32_of_bytes(bytes),
    ) == bytes by {
        let u = spec_u32_from_le_bytes(bytes);
        assert(biased(unbiased(u)) == u);
    }
}

/// The bytes of a list of entities have eight bytes for each entity, and
/// every entity can be read back from its place.
pub proof fn lemma_entity_bytes(entities: Seq<EntityId>)
    ensures
        entity_bytes(entities).len() == 8 * entities.len(),
        entities_of_bytes(entity_bytes(entities)) == entities,
    decreases entities.len(),
{
    lemma_number_round_trip();
    if entities.len() > 0 {
        let front = entities.drop_last();
        lemma_entity_bytes(front);
        let bytes = entity_bytes(entities);
        assert(bytes.len() == 8 * entities.len());
        assert forall|i: int| 0 <= i < entities.len() implies entities_of_bytes(bytes)[i]
            == entities[i] by {
            if i < front.len() {
                assert(bytes.subrange(8 * i, 8 * i + 8) =~= entity_bytes(front).subrange(
                    8 * i,
                    8 * i + 8,
                ));
                assert(entities_of_bytes(entity_bytes(front))[i] == front[i]);
            } else {
                assert(bytes.subrange(8 * i, 8 * i + 8) =~= u64_bytes(entities.last().0));
            }
        }
        assert(entities_of_bytes(bytes) =~= entities);
    } else {
        assert(entities_of_bytes(entity_bytes(entities)) =~= entities);
    }
}

/// A byte string whose length is a multiple of eight is the bytes of the
/// entities it stands for.
pub proof fn lemma_bytes_of_entities(bytes: Seq<u8>)
    requires
        bytes.len() % 8 == 0,
    ensures
        entity_bytes(entities_of_bytes(bytes)) == bytes,
    decreases bytes.len(),
{
    lemma_number_round_trip();
    let entities = entities_of_bytes(bytes);
    if bytes.len() == 0 {
        assert(entity_bytes(entities) =~= bytes);
    } else {
        let count = bytes.len() / 8;
        let front = bytes.subrange(0, bytes.len() - 8);
        lemma_bytes_of_entities(front);
        assert(entities_of_bytes(front) =~= entities.drop_last()) by {
            assert forall|i: int| 0 <= i < count - 1 implies entities_of_bytes(front)[i]
                == entities[i] by {
                assert(front.subrange(8 * i, 8 * i + 8) =~= bytes.subrange(8 * i, 8 * i + 8));
            }
        }
        let tail = bytes.subrange(8 * (count - 1), 8 * (count - 1) + 8);
        assert(entities.last() == EntityId(u64_of_bytes(tail)));
        assert(entity_bytes(entities) =~= front + tail);
        assert(front + tail =~= bytes);
    }
}

/// Appends the four bytes of `x`.
pub fn write_i32(out: &mut Vec<u8>, x: i32)
    ensures
        final(out)@ == old(out)@ + i32_bytes(x),
{
    let shifted: u32 = ((x as i64) + 0x8000_0000i64) as u32;
    let mut bytes = u32_to_le_bytes(shifted);
    out.append(&mut bytes);
}

/// Reads the signed number at `at`.
pub fn read_i32(bytes: &Vec<u8>, at: usize) -> (x: i32)
    requires
        at + 4 <= bytes.len(),
    ensures
        x == i32_of_bytes(bytes@.subrange(at as int, at + 4)),
{
    let shifted = u32_from_le_bytes(slice_subrange(bytes.as_slice(), at, at + 4));
    ((shifted as i64) - 0x8000_0000i64) as i32
}

/// Appends the eight bytes of `x`.
pub fn write_u64(out: &mut Vec<u8>, x: u64)
    ensures
        final(out)@ == old(out)@ + u64_bytes(x),
{
    let mut bytes = u64_to_le_bytes(x);
    out.append(&mut bytes);
}

/// Reads the unsigned number at `at`.
pub fn read_u64(bytes: &Vec<u8>, at: usize) -> (x: u64)
    requires
        at + 8 <= bytes.len(),
    ensures
        x == u64_of_bytes(bytes@.subrange(at as int, at + 8)),
{
    u64_from_le_bytes(slice_subrange(bytes.as_slice(), at, at + 8))
}

/// The bytes from `at` to the end, as a vector of their own.
pub fn tail(bytes: &Vec<u8>, at: usize) -> (rest: Vec<u8>)
    requires
        at <= bytes.len(),
    ensures
        rest@ == bytes@.subrange(at as int, bytes.len() as int),
{
    slice_to_vec(slice_subrange(bytes.as_slice(), at, bytes.len()))
}

/// `String::from_utf8`: the string that the bytes encode, if they are valid
/// UTF-8, and nothing if they are not.
#[verifier::external_body]
pub(crate) fn text_from_utf8(bytes: Vec<u8>) -> (text: Option<String>)
    ensures
        text is Some <==> valid_utf8(bytes@),
        text matches Some(s) ==> s@ == decode_utf8(bytes@),
{
    String::from_utf8(bytes).ok()
}

} // verus!
