//! Column types and column values: the type descriptor that precedes a
//! column's data, the decoding of a value and its resumable encoding.

use crate::error::{ProtocolViolation, TdsError, TdsResult};
use crate::transport::{
    fragment_len, write_bytes_fragment, write_u16_fragment, write_varchar_fragment, SendBuffer,
    TdsBuf,
};
use crate::tokens::BaseMetaDataColumn;
use crate::transport::TdsTransport;
use crate::wire::{
    i32_from_le_bytes, i32_le_bytes, i32_to_le, u16_le_bytes, utf16_le, utf16_le_len,
};
use futures::{Async, Poll};
use std::borrow::Cow;
use vstd::prelude::*;

verus! {

/// The types whose width on the wire follows from the type alone.
#[derive(Copy, Clone, Debug, PartialEq, Eq, Structural)]
pub enum FixedLenType {
    Null,
    Int1,
    Bit,
    Int2,
    Int4,
    Datetime4,
    Float4,
    Money,
    Datetime,
    Float8,
    Money4,
    Int8,
}

impl FixedLenType {
    /// The byte that stands for the type on the wire.
    pub open spec fn tag(self) -> u8 {
        match self {
            FixedLenType::Null => 0x1F,
            FixedLenType::Int1 => 0x30,
            FixedLenType::Bit => 0x32,
            FixedLenType::Int2 => 0x34,
            FixedLenType::Int4 => 0x38,
            FixedLenType::Datetime4 => 0x3A,
            FixedLenType::Float4 => 0x3B,
            FixedLenType::Money => 0x3C,
            FixedLenType::Datetime => 0x3D,
            FixedLenType::Float8 => 0x3E,
            FixedLenType::Money4 => 0x7A,
            FixedLenType::Int8 => 0x7F,
        }
    }

    /// The byte that stands for the type on the wire.
    pub fn to_u8(self) -> (n: u8)
        ensures
            n == self.tag(),
    {
        match self {
            FixedLenType::Null => 0x1F,
            FixedLenType::Int1 => 0x30,
            FixedLenType::Bit => 0x32,
            FixedLenType::Int2 => 0x34,
            FixedLenType::Int4 => 0x38,
            FixedLenType::Datetime4 => 0x3A,
            FixedLenType::Float4 => 0x3B,
            FixedLenType::Money => 0x3C,
            FixedLenType::Datetime => 0x3D,
            FixedLenType::Float8 => 0x3E,
            FixedLenType::Money4 => 0x7A,
            FixedLenType::Int8 => 0x7F,
        }
    }

    /// The type that a byte stands for, if it stands for one of this family.
    pub open spec fn from_tag(n: u8) -> Option<Self> {
        match n {
            0x1F => Some(FixedLenType::Null),
            0x30 => Some(FixedLenType::Int1),
            0x32 => Some(FixedLenType::Bit),
            0x34 => Some(FixedLenType::Int2),
            0x38 => Some(FixedLenType::Int4),
            0x3A => Some(FixedLenType::Datetime4),
            0x3B => Some(FixedLenType::Float4),
            0x3C => Some(FixedLenType::Money),
            0x3D => Some(FixedLenType::Datetime),
            0x3E => Some(FixedLenType::Float8),
            0x7A => Some(FixedLenType::Money4),
            0x7F => Some(FixedLenType::Int8),
            _ => None,
        }
    }

    /// The type that a byte stands for, if it stands for one of this family.
    pub fn from_u8(n: u8) -> (r: Option<Self>)
        ensures
            r == Self::from_tag(n),
    {
        match n {
            0x1F => Some(FixedLenType::Null),
            0x30 => Some(FixedLenType::Int1),
            0x32 => Some(FixedLenType::Bit),
            0x34 => Some(FixedLenType::Int2),
            0x38 => Some(FixedLenType::Int4),
            0x3A => Some(FixedLenType::Datetime4),
            0x3B => Some(FixedLenType::Float4),
            0x3C => Some(FixedLenType::Money),
            0x3D => Some(FixedLenType::Datetime),
            0x3E => Some(FixedLenType::Float8),
            0x7A => Some(FixedLenType::Money4),
            0x7F => Some(FixedLenType::Int8),
            _ => None,
        }
    }
}

/// The types whose width on the wire is carried in a length field.
#[derive(Copy, Clone, Debug, PartialEq, Eq, Structural)]
pub enum VarLenType {
    Guid,
    Intn,
    Bitn,
    Decimaln,
    Numericn,
    Floatn,
    Money,
    Datetimen,
    /// Introduced in TDS 7.3.
    Daten,
    /// Introduced in TDS 7.3.
    Timen,
    /// Introduced in TDS 7.3.
    Datetime2,
    /// Introduced in TDS 7.3.
    DatetimeOffsetn,
    BigVarBin,
    BigVarChar,
    BigBinary,
    BigChar,
    NVarchar,
    NChar,
    Xml,
    Udt,
    Text,
    Image,
    NText,
    SSVariant,
}

impl VarLenType {
    /// The byte that stands for the type on the wire.
    pub open spec fn tag(self) -> u8 {
        match self {
            VarLenType::Guid => 0x24,
            VarLenType::Intn => 0x26,
            VarLenType::Bitn => 0x68,
            VarLenType::Decimaln => 0x6A,
            VarLenType::Numericn => 0x6C,
            VarLenType::Floatn => 0x6D,
            VarLenType::Money => 0x6E,
            VarLenType::Datetimen => 0x6F,
            VarLenType::Daten => 0x28,
            VarLenType::Timen => 0x29,
            VarLenType::Datetime2 => 0x2A,
            VarLenType::DatetimeOffsetn => 0x2B,
            VarLenType::BigVarBin => 0xA5,
            VarLenType::BigVarChar => 0xA7,
            VarLenType::BigBinary => 0xAD,
            VarLenType::BigChar => 0xAF,
            VarLenType::NVarchar => 0xE7,
            VarLenType::NChar => 0xEF,
            VarLenType::Xml => 0xF1,
            VarLenType::Udt => 0xF0,
            VarLenType::Text => 0x23,
            VarLenType::Image => 0x22,
            VarLenType::NText => 0x63,
            VarLenType::SSVariant => 0x62,
        }
    }

    /// The byte that stands for the type on the wire.
    pub fn to_u8(self) -> (n: u8)
        ensures
            n == self.tag(),
    {
        match self {
            VarLenType::Guid => 0x24,
            VarLenType::Intn => 0x26,
            VarLenType::Bitn => 0x68,
            VarLenType::Decimaln => 0x6A,
            VarLenType::Numericn => 0x6C,
            VarLenType::Floatn => 0x6D,
            VarLenType::Money => 0x6E,
            VarLenType::Datetimen => 0x6F,
            VarLenType::Daten => 0x28,
            VarLenType::Timen => 0x29,
            VarLenType::Datetime2 => 0x2A,
            VarLenType::DatetimeOffsetn => 0x2B,
            VarLenType::BigVarBin => 0xA5,
            VarLenType::BigVarChar => 0xA7,
            VarLenType::BigBinary => 0xAD,
            VarLenType::BigChar => 0xAF,
            VarLenType::NVarchar => 0xE7,
            VarLenType::NChar => 0xEF,
            VarLenType::Xml => 0xF1,
            VarLenType::Udt => 0xF0,
            VarLenType::Text => 0x23,
            VarLenType::Image => 0x22,
            VarLenType::NText => 0x63,
            VarLenType::SSVariant => 0x62,
        }
    }

    /// The type that a byte stands for, if it stands for one of this family.
    pub open spec fn from_tag(n: u8) -> Option<Self> {
        match n {
            0x24 => Some(VarLenType::Guid),
            0x26 => Some(VarLenType::Intn),
            0x68 => Some(VarLenType::Bitn),
            0x6A => Some(VarLenType::Decimaln),
            0x6C => Some(VarLenType::Numericn),
            0x6D => Some(VarLenType::Floatn),
            0x6E => Some(VarLenType::Money),
            0x6F => Some(VarLenType::Datetimen),
            0x28 => Some(VarLenType::Daten),
            0x29 => Some(VarLenType::Timen),
            0x2A => Some(VarLenType::Datetime2),
            0x2B => Some(VarLenType::DatetimeOffsetn),
            0xA5 => Some(VarLenType::BigVarBin),
            0xA7 => Some(VarLenType::BigVarChar),
            0xAD => Some(VarLenType::BigBinary),
            0xAF => Some(VarLenType::BigChar),
            0xE7 => Some(VarLenType::NVarchar),
            0xEF => Some(VarLenType::NChar),
            0xF1 => Some(VarLenType::Xml),
            0xF0 => Some(VarLenType::Udt),
            0x23 => Some(VarLenType::Text),
            0x22 => Some(VarLenType::Image),
            0x63 => Some(VarLenType::NText),
            0x62 => Some(VarLenType::SSVariant),
            _ => None,
        }
    }

    /// The type that a byte stands for, if it stands for one of this family.
    pub fn from_u8(n: u8) -> (r: Option<Self>)
        ensures
            r == Self::from_tag(n),
    {
        match n {
            0x24 => Some(VarLenType::Guid),
            0x26 => Some(VarLenType::Intn),
            0x68 => Some(VarLenType::Bitn),
            0x6A => Some(VarLenType::Decimaln),
            0x6C => Some(VarLenType::Numericn),
            0x6D => Some(VarLenType::Floatn),
            0x6E => Some(VarLenType::Money),
            0x6F => Some(VarLenType::Datetimen),
            0x28 => Some(VarLenType::Daten),
            0x29 => Some(VarLenType::Timen),
            0x2A => Some(VarLenType::Datetime2),
            0x2B => Some(VarLenType::DatetimeOffsetn),
            0xA5 => Some(VarLenType::BigVarBin),
            0xA7 => Some(VarLenType::BigVarChar),
            0xAD => Some(VarLenType::BigBinary),
            0xAF => Some(VarLenType::BigChar),
            0xE7 => Some(VarLenType::NVarchar),
            0xEF => Some(VarLenType::NChar),
            0xF1 => Some(VarLenType::Xml),
            0xF0 => Some(VarLenType::Udt),
            0x23 => Some(VarLenType::Text),
            0x22 => Some(VarLenType::Image),
            0x63 => Some(VarLenType::NText),
            0x62 => Some(VarLenType::SSVariant),
            _ => None,
        }
    }
}

/// A byte stands for a type exactly if it is that type's byte: each type is
/// found again from its byte, and a byte that stands for a type is the byte
/// of no other.
pub proof fn lemma_from_tag(n: u8, fixed: FixedLenType, var: VarLenType)
    ensures
        FixedLenType::from_tag(n) == Some(fixed) <==> fixed.tag() == n,
        VarLenType::from_tag(n) == Some(var) <==> var.tag() == n,
{
}

/// No byte stands for a type of both families.
pub proof fn lemma_families_disjoint(n: u8)
    ensures
        FixedLenType::from_tag(n) is None || VarLenType::from_tag(n) is None,
{
}

/// How the values of a column are laid out on the wire.
#[derive(Copy, Clone, Debug, PartialEq, Eq, Structural)]
pub enum TypeInfo {
    /// A type of fixed width.
    FixedLen(FixedLenType),
    /// A type of variable width, with the length in bytes that the column
    /// declares.
    VarLenSized(VarLenType, usize),
}

impl TypeInfo {
    /// What the type descriptor at the start of `input` decodes to, and the
    /// number of bytes that the decoding takes from the input.
    ///
    /// The descriptor is one byte for a type of fixed width. For a nullable
    /// integer it is two bytes, the second being the declared length, and it
    /// is taken whole or not at all. The other types of variable width are
    /// recognised and not handled: their byte is taken, as is a byte that
    /// stands for no type.
    pub open spec fn decode(input: Seq<u8>) -> (Poll<TypeInfo, TdsError>, nat) {
        if input.len() == 0 {
            (Ok(Async::NotReady), 0nat)
        } else {
            match (FixedLenType::from_tag(input[0]), VarLenType::from_tag(input[0])) {
                (Some(ty), _) => (Ok(Async::Ready(TypeInfo::FixedLen(ty))), 1nat),
                (None, Some(VarLenType::Intn)) => if input.len() < 2 {
                    (Ok(Async::NotReady), 0nat)
                } else {
                    (
                        Ok(Async::Ready(TypeInfo::VarLenSized(VarLenType::Intn, input[1] as usize))),
                        2nat,
                    )
                },
                (None, Some(_)) => (Err(TdsError::Unimplemented), 1nat),
                (None, None) => (
                    Err(TdsError::Protocol(ProtocolViolation::InvalidColumnType(input[0]))),
                    1nat,
                ),
            }
        }
    }

    /// Reads the type descriptor of a column. Where bytes are missing it says
    /// that it is not ready and takes none, so that the call can be made
    /// again when more have arrived.
    pub fn parse(trans: &mut TdsTransport) -> (r: Poll<TypeInfo, TdsError>)
        ensures
            r == TypeInfo::decode(old(trans)@).0,
            final(trans)@ == old(trans)@.skip(TypeInfo::decode(old(trans)@).1 as int),
    {
        let ty = match trans.peek_u8() {
            Async::Ready(ty) => ty,
            Async::NotReady => {
                assert(trans@.skip(0) =~= trans@);
                return Ok(Async::NotReady);
            },
        };
        if let Some(ty) = FixedLenType::from_u8(ty) {
            trans.consume(1);
            return Ok(Async::Ready(TypeInfo::FixedLen(ty)));
        }
        if let Some(ty) = VarLenType::from_u8(ty) {
            return match ty {
                VarLenType::Intn => {
                    if trans.available() < 2 {
                        assert(trans@.skip(0) =~= trans@);
                        return Ok(Async::NotReady);
                    }
                    trans.consume(1);
                    let len = match trans.read_u8() {
                        Async::Ready(len) => len,
                        Async::NotReady => {
                            return Ok(Async::NotReady);
                        },
                    };
                    assert(trans@ =~= old(trans)@.skip(2));
                    Ok(Async::Ready(TypeInfo::VarLenSized(ty, len as usize)))
                },
                _ => {
                    trans.consume(1);
                    Err(TdsError::Unimplemented)
                },
            };
        }
        trans.consume(1);
        Err(TdsError::Protocol(ProtocolViolation::InvalidColumnType(ty)))
    }
}

/// The value of one column.
#[derive(Debug, PartialEq, Eq)]
pub enum ColumnData<'a> {
    I32(i32),
    /// A text, owned or borrowed.
    String(Cow<'a, str>),
    /// A text that lies in the buffer of a received packet.
    BString(TdsBuf<'a>),
}

/// The collation that is sent with a text: five zero bytes, which stand in
/// for a collation that nobody has negotiated.
pub open spec fn placeholder_collation() -> Seq<u8> {
    seq![0u8, 0u8, 0u8, 0u8, 0u8]
}

/// Where the fields of a text lie in its encoding.
pub proof fn lemma_text_layout(text: Seq<char>)
    requires
        utf16_le(text).len() < 0xFFFF,
    ensures
        ({
            let body = utf16_le(text);
            let length = u16_le_bytes(body.len() as u16);
            let wire = seq![VarLenType::NVarchar.tag()] + length + placeholder_collation() + length
                + body;
            &&& wire.len() == 10 + body.len()
            &&& wire.subrange(0, 1) == seq![VarLenType::NVarchar.tag()]
            &&& wire.subrange(1, 3) == length
            &&& wire.subrange(3, 8) == placeholder_collation()
            &&& wire.subrange(8, 10) == length
            &&& wire.subrange(10, wire.len() as int) == body
        }),
{
    let body = utf16_le(text);
    let length = u16_le_bytes(body.len() as u16);
    let wire = seq![VarLenType::NVarchar.tag()] + length + placeholder_collation() + length + body;
    assert(wire.subrange(0, 1) =~= seq![VarLenType::NVarchar.tag()]);
    assert(wire.subrange(1, 3) =~= length);
    assert(wire.subrange(3, 8) =~= placeholder_collation());
    assert(wire.subrange(8, 10) =~= length);
    assert(wire.subrange(10, wire.len() as int) =~= body);
}

/// What one stage of a staged write has achieved. The field lies at `start`
/// in the encoding `wire`, the write began at offset `last_pos` of the
/// encoding into a buffer with `room` free bytes and has come to `state`;
/// the stage then put `written` bytes of the field into the `room_now` bytes
/// that were still free, and left `left_bytes` of the field unwritten.
proof fn lemma_stage(
    wire: Seq<u8>,
    field: Seq<u8>,
    start: int,
    state: int,
    written: int,
    left_bytes: int,
    sent: Seq<u8>,
    last_pos: int,
    room: nat,
    room_now: nat,
)
    requires
        0 <= last_pos <= state,
        0 <= start <= state <= start + field.len() <= wire.len(),
        field == wire.subrange(start, start + field.len()),
        room_now + (state - last_pos) == room,
        written == fragment_len(field.len(), room_now, (state - start) as nat),
        left_bytes == field.len() - (state - start) - written,
    ensures
        sent + wire.subrange(last_pos, state) + field.subrange(
            state - start,
            state - start + written,
        ) == sent + wire.subrange(last_pos, state + written),
        state + written == last_pos + fragment_len(wire.len(), room, last_pos as nat)
            || left_bytes == 0,
        left_bytes > 0 ==> state + written < wire.len(),
        left_bytes == 0 ==> state + written == start + field.len(),
        (room_now - written) + (state + written - last_pos) == room,
{
    assert(sent + wire.subrange(last_pos, state) + field.subrange(
        state - start,
        state - start + written,
    ) =~= sent + wire.subrange(last_pos, state + written));
}

/// The text that a `Cow` holds or points to.
fn cow_as_str<'b>(text: &'b Cow<'_, str>) -> (s: &'b str)
    ensures
        s@ == text@,
{
    match text {
        Cow::Borrowed(borrowed) => borrowed,
        Cow::Owned(owned) => owned.as_str(),
    }
}

impl<'a> ColumnData<'a> {
    /// What the bytes at the start of `input` decode to as a value of a
    /// column of type `ty`, and the number of bytes that the decoding takes
    /// from the input.
    ///
    /// An integer of fixed width is four bytes, low byte first. A nullable
    /// integer that the column declares with four bytes is a length byte,
    /// which has to be 4, and the four bytes of the value. A value is taken
    /// whole or not at all; of a value with a wrong length byte that byte is
    /// taken.
    pub open spec fn decode(ty: TypeInfo, input: Seq<u8>) -> (Poll<ColumnData<'a>, TdsError>, nat) {
        match ty {
            TypeInfo::FixedLen(FixedLenType::Int4) => if input.len() < 4 {
                (Ok(Async::NotReady), 0nat)
            } else {
                (Ok(Async::Ready(ColumnData::I32(i32_from_le_bytes(input)))), 4nat)
            },
            TypeInfo::VarLenSized(VarLenType::Intn, 4) => if input.len() < 1 {
                (Ok(Async::NotReady), 0nat)
            } else if input[0] != 4 {
                (
                    Err(
                        TdsError::Protocol(
                            ProtocolViolation::LengthMismatch { declared: 4, found: input[0] },
                        ),
                    ),
                    1nat,
                )
            } else if input.len() < 5 {
                (Ok(Async::NotReady), 0nat)
            } else {
                (Ok(Async::Ready(ColumnData::I32(i32_from_le_bytes(input.skip(1))))), 5nat)
            },
            _ => (Err(TdsError::Unimplemented), 0nat),
        }
    }

    /// Reads the value of a column whose metadata is `meta`. Where bytes are
    /// missing it says that it is not ready and takes none, so that the call
    /// can be made again when more have arrived.
    pub fn parse(
        trans: &mut TdsTransport,
        meta: &BaseMetaDataColumn,
    ) -> (r: Poll<ColumnData<'a>, TdsError>)
        ensures
            r == ColumnData::decode(meta.ty, old(trans)@).0,
            final(trans)@ == old(trans)@.skip(ColumnData::decode(meta.ty, old(trans)@).1 as int),
    {
        assert(trans@.skip(0) =~= trans@);
        match meta.ty {
            TypeInfo::FixedLen(fixed_ty) => {
                match fixed_ty {
                    FixedLenType::Int4 => match trans.read_i32_le() {
                        Async::Ready(value) => Ok(Async::Ready(ColumnData::I32(value))),
                        Async::NotReady => Ok(Async::NotReady),
                    },
                    _ => Err(TdsError::Unimplemented),
                }
            },
            TypeInfo::VarLenSized(ty, len) => {
                match (ty, len) {
                    (VarLenType::Intn, 4) => {
                        let found = match trans.peek_u8() {
                            Async::Ready(found) => found,
                            Async::NotReady => {
                                return Ok(Async::NotReady);
                            },
                        };
                        if found != 4 {
                            trans.consume(1);
                            return Err(
                                TdsError::Protocol(
                                    ProtocolViolation::LengthMismatch { declared: len, found },
                                ),
                            );
                        }
                        if trans.available() < 5 {
                            return Ok(Async::NotReady);
                        }
                        trans.consume(1);
                        match trans.read_i32_le() {
                            Async::Ready(value) => {
                                assert(trans@ =~= old(trans)@.skip(5));
                                Ok(Async::Ready(ColumnData::I32(value)))
                            },
                            Async::NotReady => Ok(Async::NotReady),
                        }
                    },
                    _ => Err(TdsError::Unimplemented),
                }
            },
        }
    }

    /// Why the value cannot be encoded, if it cannot: a text in a received
    /// buffer is not handled, and a text whose UTF-16 encoding has 0xFFFF
    /// bytes or more does not fit the length field.
    pub open spec fn serialize_error(&self) -> Option<TdsError> {
        match *self {
            ColumnData::I32(_) => None,
            ColumnData::String(text) => if utf16_le(text@).len() < 0xFFFF {
                None
            } else {
                Some(TdsError::Protocol(ProtocolViolation::StringTooLong))
            },
            ColumnData::BString(_) => Some(TdsError::Unimplemented),
        }
    }

    /// The complete encoding of the value on the wire.
    ///
    /// An integer is sent as a nullable integer of four bytes: the type's
    /// byte, the greatest length, the actual length, and the value, low byte
    /// first. A text is sent as the type's byte, the length of its UTF-16
    /// encoding in bytes as a 16-bit value, the collation, that length once
    /// more, and the encoding.
    pub open spec fn wire_bytes(&self) -> Seq<u8> {
        match *self {
            ColumnData::I32(value) => seq![VarLenType::Intn.tag(), 4u8, 4u8] + i32_le_bytes(value),
            ColumnData::String(text) => {
                let body = utf16_le(text@);
                seq![VarLenType::NVarchar.tag()] + u16_le_bytes(body.len() as u16)
                    + placeholder_collation() + u16_le_bytes(body.len() as u16) + body
            },
            ColumnData::BString(_) => Seq::empty(),
        }
    }

    /// What one call of `serialize` does with a value that can be encoded:
    /// the bytes that it writes when it starts at offset `last_pos` of the
    /// encoding and finds `room` free bytes in the buffer, and what it
    /// returns, which is the offset that it has reached, or `None` where
    /// that is the end of the encoding.
    pub open spec fn fragment(&self, room: nat, last_pos: nat) -> (Seq<u8>, Option<usize>) {
        let bytes = self.wire_bytes();
        let next = last_pos + fragment_len(bytes.len(), room, last_pos);
        (
            bytes.subrange(last_pos as int, next as int),
            if next == bytes.len() {
                None
            } else {
                Some(next as usize)
            },
        )
    }

    /// The length of the value's encoding, for a value that has one.
    pub fn wire_len(&self) -> (r: Option<usize>)
        ensures
            r == (if self.serialize_error() is None {
                Some(self.wire_bytes().len() as usize)
            } else {
                None
            }),
    {
        match self {
            ColumnData::I32(_) => Some(7),
            ColumnData::String(text) => match utf16_le_len(cow_as_str(text)) {
                Some(length) => Some(10 + length as usize),
                None => None,
            },
            ColumnData::BString(_) => None,
        }
    }

    /// Writes the encoding of the value from its offset `last_pos` on, as far
    /// as the buffer has room. `None` says that the encoding is now complete;
    /// `Some(n)` that its first `n` bytes are written and that the call has to
    /// be made again with `last_pos == n`, once the buffer has room.
    pub fn serialize(
        &self,
        target: &mut SendBuffer,
        last_pos: usize,
    ) -> (r: TdsResult<Option<usize>>)
        requires
            self.serialize_error() is None ==> last_pos <= self.wire_bytes().len(),
        ensures
            final(target).limit() == old(target).limit(),
            match self.serialize_error() {
                Some(error) => {
                    &&& r == Err::<Option<usize>, TdsError>(error)
                    &&& final(target)@ == old(target)@
                },
                None => {
                    let (piece, next) = self.fragment(old(target).room(), last_pos as nat);
                    &&& final(target)@ == old(target)@ + piece
                    &&& r == Ok::<Option<usize>, TdsError>(next)
                },
            },
            r matches Ok(Some(next)) ==> last_pos <= next < self.wire_bytes().len(),
    {
        let ghost wire = self.wire_bytes();
        let ghost sent = old(target)@;
        let ghost room = old(target).room();
        proof {
            use_type_invariant(&*target);
        }
        match self {
            ColumnData::I32(value) => {
                let le = i32_to_le(*value);
                let bytes: [u8; 7] = [VarLenType::Intn.to_u8(), 4, 4, le[0], le[1], le[2], le[3]];
                assert(bytes@ =~= wire);
                let (left_bytes, written_bytes) = write_bytes_fragment(
                    target,
                    bytes.as_slice(),
                    last_pos,
                );
                if left_bytes > 0 {
                    return Ok(Some(last_pos + written_bytes));
                }
            },
            ColumnData::String(text) => {
                let text = cow_as_str(text);
                let length = match utf16_le_len(text) {
                    Some(length) => length,
                    None => {
                        return Err(TdsError::Protocol(ProtocolViolation::StringTooLong));
                    },
                };
                proof {
                    lemma_text_layout(text@);
                }
                let mut state = last_pos;
                assert(target@ =~= sent + wire.subrange(last_pos as int, state as int));
                // the type, at offset 0
                if state < 1 {
                    let tag: [u8; 1] = [VarLenType::NVarchar.to_u8()];
                    assert(tag@ =~= seq![VarLenType::NVarchar.tag()]);
                    let ghost room_now = target.room();
                    let (left_bytes, written_bytes) = write_bytes_fragment(target, tag.as_slice(), state);
                    proof {
                        lemma_stage(
                            wire,
                            tag@,
                            0,
                            state as int,
                            written_bytes as int,
                            left_bytes as int,
                            sent,
                            last_pos as int,
                            room,
                            room_now,
                        );
                    }
                    if left_bytes > 0 {
                        return Ok(Some(state + written_bytes));
                    }
                    state = 1;
                }
                assert(target@ == sent + wire.subrange(last_pos as int, state as int));
                assert(target.room() + (state - last_pos) == room);
                // the length of the text, at offsets 1 and 2
                if state < 3 {
                    let ghost room_now = target.room();
                    let (left_bytes, written_bytes) = write_u16_fragment(target, length, state - 1);
                    proof {
                        lemma_stage(
                            wire,
                            u16_le_bytes(length),
                            1,
                            state as int,
                            written_bytes as int,
                            left_bytes as int,
                            sent,
                            last_pos as int,
                            room,
                            room_now,
                        );
                    }
                    if left_bytes > 0 {
                        return Ok(Some(state + written_bytes));
                    }
                    state = 3;
                }
                assert(target@ == sent + wire.subrange(last_pos as int, state as int));
                assert(target.room() + (state - last_pos) == room);
                // the collation, at offsets 3 to 7
                if state < 8 {
                    let collation: [u8; 5] = [0, 0, 0, 0, 0];
                    assert(collation@ =~= placeholder_collation());
                    let ghost room_now = target.room();
                    let (left_bytes, written_bytes) = write_bytes_fragment(target, collation.as_slice(), state - 3);
                    proof {
                        lemma_stage(
                            wire,
                            collation@,
                            3,
                            state as int,
                            written_bytes as int,
                            left_bytes as int,
                            sent,
                            last_pos as int,
                            room,
                            room_now,
                        );
                    }
                    if left_bytes > 0 {
                        return Ok(Some(state + written_bytes));
                    }
                    state = 8;
                }
                assert(target@ == sent + wire.subrange(last_pos as int, state as int));
                assert(target.room() + (state - last_pos) == room);
                // the length of the body, at offsets 8 and 9
                if state < 10 {
                    let ghost room_now = target.room();
                    let (left_bytes, written_bytes) = write_u16_fragment(target, length, state - 8);
                    proof {
                        lemma_stage(
                            wire,
                            u16_le_bytes(length),
                            8,
                            state as int,
                            written_bytes as int,
                            left_bytes as int,
                            sent,
                            last_pos as int,
                            room,
                            room_now,
                        );
                    }
                    if left_bytes > 0 {
                        return Ok(Some(state + written_bytes));
                    }
                    state = 10;
                }
                assert(target@ == sent + wire.subrange(last_pos as int, state as int));
                assert(target.room() + (state - last_pos) == room);
                // the encoded text, from offset 10 on
                let ghost room_now = target.room();
                let (left_bytes, written_bytes) = write_varchar_fragment(target, text, state - 10);
                proof {
                    lemma_stage(
                        wire,
                        utf16_le(text@),
                        10,
                        state as int,
                        written_bytes as int,
                        left_bytes as int,
                        sent,
                        last_pos as int,
                        room,
                        room_now,
                    );
                }
                if left_bytes > 0 {
                    return Ok(Some(state + written_bytes));
                }
            },
            ColumnData::BString(_) => {
                return Err(TdsError::Unimplemented);
            },
        }
        Ok(None)
    }
}

/// The native types that can be had from the value of a column.
pub trait FromColumnData: Sized {
    /// What the conversion of `data` gives: the native value, where the
    /// column value is of the kind that holds one, and else a conversion
    /// error.
    spec fn converted(data: &ColumnData) -> TdsResult<Self>;

    /// The native value that `data` holds.
    fn from_column_data(data: &ColumnData) -> (r: TdsResult<Self>)
        ensures
            r == Self::converted(data),
    ;
}

impl FromColumnData for i32 {
    open spec fn converted(data: &ColumnData) -> TdsResult<i32> {
        match *data {
            ColumnData::I32(value) => Ok(value),
            _ => Err(TdsError::Conversion),
        }
    }

    fn from_column_data(data: &ColumnData) -> (r: TdsResult<i32>) {
        match *data {
            ColumnData::I32(value) => Ok(value),
            _ => Err(TdsError::Conversion),
        }
    }
}

/// The native types that can be sent as the value of a column.
pub trait ToColumnData {
    /// The column value that stands for the native value.
    spec fn column_data(&self) -> ColumnData;

    /// The column value that stands for the native value.
    fn to_column_data(&self) -> (data: ColumnData)
        ensures
            data == self.column_data(),
    ;
}

impl ToColumnData for i32 {
    open spec fn column_data(&self) -> ColumnData {
        ColumnData::I32(*self)
    }

    fn to_column_data(&self) -> (data: ColumnData) {
        ColumnData::I32(*self)
    }
}

/// An integer that is made a column value is had back from it.
pub proof fn lemma_i32_conversion_round_trip(value: i32)
    ensures
        <i32 as FromColumnData>::converted(&value.column_data()) == Ok::<i32, TdsError>(value),
{
}

} // verus!
