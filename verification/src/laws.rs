//! What holds of encoding and decoding over several calls: that the pieces
//! of an encoding add up to the same bytes however the room was cut, and
//! that what was encoded is read back.

use crate::error::{ProtocolViolation, TdsError};
use crate::transport::fragment_len;
use crate::types::{
    lemma_text_layout, placeholder_collation, ColumnData, FixedLenType, TypeInfo, VarLenType,
};
use crate::wire::{
    i32_le_bytes, lemma_i32_le_round_trip, lemma_utf16_le_injective, lemma_utf16_le_len,
    lemma_utf16_units_bmp, utf16_le, utf16_units,
};
use futures::Async;
use vstd::prelude::*;

verus! {

/// What a run of calls of `serialize` for one value has written, and what
/// the last of them returned. The run has one call for each entry of
/// `rooms`, the entry being the room that the call finds in the buffer; the
/// first call starts at offset 0, each later one at the offset that the call
/// before it returned, and after a call that returned `None` no further call
/// writes anything.
pub open spec fn run(value: ColumnData, rooms: Seq<nat>) -> (Seq<u8>, Option<usize>)
    decreases rooms.len(),
{
    if rooms.len() == 0 {
        (Seq::empty(), Some(0usize))
    } else {
        let (written, next) = run(value, rooms.drop_last());
        match next {
            Some(last_pos) => {
                let (piece, next) = value.fragment(rooms.last(), last_pos as nat);
                (written + piece, next)
            },
            None => (written, None),
        }
    }
}

/// The sum of the rooms.
pub open spec fn total_room(rooms: Seq<nat>) -> nat
    decreases rooms.len(),
{
    if rooms.len() == 0 {
        0
    } else {
        total_room(rooms.drop_last()) + rooms.last()
    }
}

/// The encoding of a value that can be encoded has seven bytes at least, and
/// fewer than any offset that a `usize` cannot hold.
pub proof fn lemma_wire_len(value: ColumnData)
    requires
        value.serialize_error() is None,
    ensures
        7 <= value.wire_bytes().len() < 0x1_0009,
{
    if value is String {
        lemma_text_layout(value->String_0@);
    }
}

/// However the room is cut into calls, what a run has written is the start
/// of the encoding, up to the offset that its last call returned: no byte is
/// left out, repeated or changed, and the offset is the sum of the rooms
/// until that reaches the length of the encoding. When the last call has
/// returned `None`, the whole encoding is written.
pub proof fn lemma_pieces_add_up(value: ColumnData, rooms: Seq<nat>)
    requires
        value.serialize_error() is None,
    ensures
        ({
            let (written, next) = run(value, rooms);
            let bytes = value.wire_bytes();
            match next {
                Some(offset) => {
                    &&& written == bytes.take(offset as int)
                    &&& offset == total_room(rooms)
                    &&& offset < bytes.len()
                },
                None => written == bytes && total_room(rooms) >= bytes.len(),
            }
        }),
    decreases rooms.len(),
{
    lemma_wire_len(value);
    let bytes = value.wire_bytes();
    if rooms.len() == 0 {
        assert(run(value, rooms).0 =~= bytes.take(0));
    } else {
        lemma_pieces_add_up(value, rooms.drop_last());
        let (written, next) = run(value, rooms.drop_last());
        match next {
            Some(last_pos) => {
                let (piece, after) = value.fragment(rooms.last(), last_pos as nat);
                let reached = last_pos + fragment_len(bytes.len(), rooms.last(), last_pos as nat);
                assert(written + piece =~= bytes.take(reached as int));
                assert(bytes.take(bytes.len() as int) =~= bytes);
            },
            None => {},
        }
    }
}

/// Two ways of cutting the room that both bring the encoding to its end
/// give the same bytes: the whole encoding.
pub proof fn lemma_fragmentation_invariance(value: ColumnData, rooms: Seq<nat>, other: Seq<nat>)
    requires
        value.serialize_error() is None,
        run(value, rooms).1 is None,
        run(value, other).1 is None,
    ensures
        run(value, rooms).0 == value.wire_bytes(),
        run(value, other).0 == run(value, rooms).0,
{
    lemma_pieces_add_up(value, rooms);
    lemma_pieces_add_up(value, other);
}

/// One call that finds room for the whole encoding comes to its end, and
/// writes what any run of calls that comes to the end writes.
pub proof fn lemma_one_call_or_many(value: ColumnData, room: nat, rooms: Seq<nat>)
    requires
        value.serialize_error() is None,
        value.wire_bytes().len() <= room,
        run(value, rooms).1 is None,
    ensures
        run(value, seq![room]).1 is None,
        run(value, seq![room]).0 == run(value, rooms).0,
{
    let one = seq![room];
    assert(one.drop_last() =~= Seq::<nat>::empty());
    assert(run(value, one.drop_last()) == (Seq::<u8>::empty(), Some(0usize)));
    assert(one.last() == room);
    lemma_fragmentation_invariance(value, one, rooms);
}

/// Calls that each find room for a byte at least come to the end of the
/// encoding after as many calls as it has bytes, at the latest.
pub proof fn lemma_progress(value: ColumnData, rooms: Seq<nat>)
    requires
        value.serialize_error() is None,
        forall|i: int| 0 <= i < rooms.len() ==> #[trigger] rooms[i] >= 1,
        rooms.len() >= value.wire_bytes().len(),
    ensures
        run(value, rooms).1 is None,
{
    lemma_pieces_add_up(value, rooms);
    lemma_total_room_at_least(rooms);
}

/// Rooms of a byte at least add up to their number at least.
proof fn lemma_total_room_at_least(rooms: Seq<nat>)
    requires
        forall|i: int| 0 <= i < rooms.len() ==> #[trigger] rooms[i] >= 1,
    ensures
        total_room(rooms) >= rooms.len(),
    decreases rooms.len(),
{
    if rooms.len() > 0 {
        let shorter = rooms.drop_last();
        assert forall|i: int| 0 <= i < shorter.len() implies #[trigger] shorter[i] >= 1 by {
            assert(shorter[i] == rooms[i]);
        }
        lemma_total_room_at_least(shorter);
    }
}

/// An integer that was encoded to the end, however the room was cut, is read
/// back: the first two bytes are the descriptor of a nullable integer of four
/// bytes, and the five bytes behind them decode, for a column of that type,
/// to the integer.
pub proof fn lemma_integer_round_trip(value: i32, rooms: Seq<nat>)
    requires
        run(ColumnData::I32(value), rooms).1 is None,
    ensures
        ({
            let wire = run(ColumnData::I32(value), rooms).0;
            let ty = TypeInfo::VarLenSized(VarLenType::Intn, 4);
            &&& wire.len() == 7
            &&& TypeInfo::decode(wire) == (Ok::<Async<TypeInfo>, TdsError>(Async::Ready(ty)), 2nat)
            &&& ColumnData::decode(ty, wire.skip(2)) == (
                Ok::<Async<ColumnData>, TdsError>(Async::Ready(ColumnData::I32(value))),
                5nat,
            )
        }),
{
    let bytes = ColumnData::I32(value).wire_bytes();
    lemma_pieces_add_up(ColumnData::I32(value), rooms);
    lemma_i32_le_round_trip(value);
    assert(bytes.skip(2).skip(1) =~= i32_le_bytes(value));
}

/// A text that was encoded to the end, however the room was cut, lies on the
/// wire as the byte of its type, the length of its body, the collation,
/// that length again and the body, which is its UTF-16 encoding. Both
/// lengths read back as twice the number of its code units, which for a text
/// of characters below U+10000 is twice the number of its characters.
pub proof fn lemma_text_encoding(value: ColumnData, rooms: Seq<nat>)
    requires
        value is String,
        value.serialize_error() is None,
        run(value, rooms).1 is None,
    ensures
        ({
            let wire = run(value, rooms).0;
            let text = value->String_0@;
            &&& wire.len() == 10 + 2 * utf16_units(text)
            &&& wire[0] == VarLenType::NVarchar.tag()
            &&& wire[1] + 0x100 * wire[2] == 2 * utf16_units(text)
            &&& wire.subrange(3, 8) == placeholder_collation()
            &&& wire[8] + 0x100 * wire[9] == 2 * utf16_units(text)
            &&& wire.subrange(10, wire.len() as int) == utf16_le(text)
            &&& (forall|i: int| 0 <= i < text.len() ==> (#[trigger] text[i] as u32) < 0x1_0000)
                ==> utf16_units(text) == text.len()
        }),
{
    let bytes = value.wire_bytes();
    let text = value->String_0@;
    lemma_pieces_add_up(value, rooms);
    lemma_text_layout(text);
    lemma_utf16_le_len(text);
    assert(bytes[1] == bytes.subrange(1, 3)[0] && bytes[2] == bytes.subrange(1, 3)[1]);
    assert(bytes[8] == bytes.subrange(8, 10)[0] && bytes[9] == bytes.subrange(8, 10)[1]);
    assert(bytes[0] == bytes.subrange(0, 1)[0]);
    if forall|i: int| 0 <= i < text.len() ==> (#[trigger] text[i] as u32) < 0x1_0000 {
        lemma_utf16_units_bmp(text);
    }
}

/// The bytes tell the text: two texts that were encoded to the end, each
/// however its room was cut, and gave the same bytes are the same text.
pub proof fn lemma_text_round_trip(
    value: ColumnData,
    rooms: Seq<nat>,
    other: ColumnData,
    other_rooms: Seq<nat>,
)
    requires
        value is String,
        other is String,
        value.serialize_error() is None,
        other.serialize_error() is None,
        run(value, rooms).1 is None,
        run(other, other_rooms).1 is None,
        run(value, rooms).0 == run(other, other_rooms).0,
    ensures
        value->String_0@ == other->String_0@,
{
    lemma_text_encoding(value, rooms);
    lemma_text_encoding(other, other_rooms);
    lemma_utf16_le_injective(value->String_0@, other->String_0@);
}

/// A byte that stands for no type is refused as a violation of the protocol
/// that names the byte, and nothing behind it is taken.
pub proof fn lemma_unknown_type_is_refused(input: Seq<u8>)
    requires
        input.len() >= 1,
        forall|ty: FixedLenType| ty.tag() != input[0],
        forall|ty: VarLenType| ty.tag() != input[0],
    ensures
        TypeInfo::decode(input) == (
            Err::<Async<TypeInfo>, TdsError>(
                TdsError::Protocol(ProtocolViolation::InvalidColumnType(input[0])),
            ),
            1nat,
        ),
{
    match FixedLenType::from_tag(input[0]) {
        Some(ty) => {
            assert(ty.tag() == input[0]);
        },
        None => {},
    }
    match VarLenType::from_tag(input[0]) {
        Some(ty) => {
            assert(ty.tag() == input[0]);
        },
        None => {},
    }
}

/// The value of a nullable integer that the column declares with four bytes
/// is refused as a violation of the protocol where its length byte is not 4.
pub proof fn lemma_length_prefix_mismatch(input: Seq<u8>)
    requires
        input.len() >= 1,
        input[0] != 4,
    ensures
        ColumnData::decode(TypeInfo::VarLenSized(VarLenType::Intn, 4), input) == (
            Err::<Async<ColumnData>, TdsError>(
                TdsError::Protocol(
                    ProtocolViolation::LengthMismatch { declared: 4, found: input[0] },
                ),
            ),
            1nat,
        ),
{
}

/// A value is decoded only for the two kinds of column that carry an integer
/// of four bytes, and what is decoded for them is an integer.
pub proof fn lemma_decoded_is_an_integer(ty: TypeInfo, input: Seq<u8>)
    ensures
        ColumnData::decode(ty, input).0 matches Ok(Async::Ready(value)) ==> value is I32 && (ty
            == TypeInfo::FixedLen(FixedLenType::Int4) || ty == TypeInfo::VarLenSized(
            VarLenType::Intn,
            4,
        )),
{
}

/// A decoder that is not ready has taken nothing.
pub proof fn lemma_not_ready_takes_nothing(ty: TypeInfo, input: Seq<u8>)
    ensures
        TypeInfo::decode(input).0 == Ok::<Async<TypeInfo>, TdsError>(Async::NotReady)
            ==> TypeInfo::decode(input).1 == 0,
        ColumnData::decode(ty, input).0 == Ok::<Async<ColumnData>, TdsError>(Async::NotReady)
            ==> ColumnData::decode(ty, input).1 == 0,
{
}

/// What has arrived later does not change what was decoded: a decoder that
/// was ready, or failed, on the bytes that were there gives the same on
/// those bytes with more behind them.
pub proof fn lemma_more_input_changes_nothing(ty: TypeInfo, input: Seq<u8>, more: Seq<u8>)
    ensures
        TypeInfo::decode(input).0 != Ok::<Async<TypeInfo>, TdsError>(Async::NotReady)
            ==> TypeInfo::decode(input + more) == TypeInfo::decode(input),
        ColumnData::decode(ty, input).0 != Ok::<Async<ColumnData>, TdsError>(Async::NotReady)
            ==> ColumnData::decode(ty, input + more) == ColumnData::decode(ty, input),
{
    if input.len() >= 1 {
        assert((input + more)[0] == input[0]);
    }
    if input.len() >= 2 {
        assert((input + more)[1] == input[1]);
    }
    if input.len() >= 4 {
        assert((input + more)[2] == input[2]);
        assert((input + more)[3] == input[3]);
    }
    if input.len() >= 5 {
        assert((input + more).skip(1) =~= input.skip(1) + more);
        assert((input.skip(1) + more)[0] == input.skip(1)[0]);
        assert((input.skip(1) + more)[1] == input.skip(1)[1]);
        assert((input.skip(1) + more)[2] == input.skip(1)[2]);
        assert((input.skip(1) + more)[3] == input.skip(1)[3]);
    }
}

} // verus!
