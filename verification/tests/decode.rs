use futures::Async;
use tds_types::tokens::BaseMetaDataColumn;
use tds_types::transport::{SendBuffer, TdsTransport};
use tds_types::{
    ColumnData, FixedLenType, ProtocolViolation, TdsError, TypeInfo, VarLenType,
};

fn transport_with(bytes: &[u8]) -> TdsTransport {
    let mut trans = TdsTransport::new();
    trans.feed(bytes);
    trans
}

fn column(ty: TypeInfo) -> BaseMetaDataColumn {
    BaseMetaDataColumn { ty }
}

#[test]
fn fixed_int4_with_value_42() {
    let mut trans = transport_with(&[0x38, 0x2A, 0x00, 0x00, 0x00]);
    let ty = TypeInfo::parse(&mut trans);
    assert_eq!(ty, Ok(Async::Ready(TypeInfo::FixedLen(FixedLenType::Int4))));
    assert_eq!(trans.available(), 4);
    let meta = column(TypeInfo::FixedLen(FixedLenType::Int4));
    assert_eq!(ColumnData::parse(&mut trans, &meta), Ok(Async::Ready(ColumnData::I32(42))));
    assert_eq!(trans.available(), 0);
}

#[test]
fn type_descriptor_of_a_nullable_integer() {
    let mut trans = transport_with(&[0x26, 0x04, 0x99]);
    assert_eq!(
        TypeInfo::parse(&mut trans),
        Ok(Async::Ready(TypeInfo::VarLenSized(VarLenType::Intn, 4)))
    );
    assert_eq!(trans.available(), 1);
    let mut trans = transport_with(&[0x26, 0x08]);
    assert_eq!(
        TypeInfo::parse(&mut trans),
        Ok(Async::Ready(TypeInfo::VarLenSized(VarLenType::Intn, 8)))
    );
    assert_eq!(trans.available(), 0);
}

#[test]
fn type_descriptor_of_each_fixed_type_is_one_byte() {
    let all = [
        (0x1F, FixedLenType::Null),
        (0x30, FixedLenType::Int1),
        (0x32, FixedLenType::Bit),
        (0x34, FixedLenType::Int2),
        (0x38, FixedLenType::Int4),
        (0x3A, FixedLenType::Datetime4),
        (0x3B, FixedLenType::Float4),
        (0x3C, FixedLenType::Money),
        (0x3D, FixedLenType::Datetime),
        (0x3E, FixedLenType::Float8),
        (0x7A, FixedLenType::Money4),
        (0x7F, FixedLenType::Int8),
    ];
    for (byte, ty) in all {
        let mut trans = transport_with(&[byte, 0xAA]);
        assert_eq!(TypeInfo::parse(&mut trans), Ok(Async::Ready(TypeInfo::FixedLen(ty))));
        assert_eq!(trans.available(), 1);
        assert_eq!(trans.peek_u8(), Async::Ready(0xAA));
    }
}

#[test]
fn unknown_type_byte_is_a_protocol_error() {
    for byte in [0x00u8, 0x01, 0x25, 0x27, 0x2F, 0x37, 0x3F, 0xFF] {
        let mut trans = transport_with(&[byte, 0x04, 0x2A]);
        assert_eq!(
            TypeInfo::parse(&mut trans),
            Err(TdsError::Protocol(ProtocolViolation::InvalidColumnType(byte)))
        );
        // the byte itself is taken, and nothing after it
        assert_eq!(trans.available(), 2);
        assert_eq!(trans.peek_u8(), Async::Ready(0x04));
    }
}

#[test]
fn every_byte_is_a_type_or_an_error() {
    for byte in 0..=255u8 {
        let mut trans = transport_with(&[byte, 0x04]);
        let r = TypeInfo::parse(&mut trans);
        let fixed = FixedLenType::from_u8(byte);
        let var = VarLenType::from_u8(byte);
        match (fixed, var) {
            (Some(ty), None) => assert_eq!(r, Ok(Async::Ready(TypeInfo::FixedLen(ty)))),
            (None, Some(VarLenType::Intn)) => {
                assert_eq!(r, Ok(Async::Ready(TypeInfo::VarLenSized(VarLenType::Intn, 4))))
            }
            (None, Some(_)) => assert_eq!(r, Err(TdsError::Unimplemented)),
            (None, None) => assert_eq!(
                r,
                Err(TdsError::Protocol(ProtocolViolation::InvalidColumnType(byte)))
            ),
            (Some(_), Some(_)) => panic!("byte {:#x} stands for two types", byte),
        }
    }
}

#[test]
fn recognised_types_that_are_not_handled() {
    for byte in [0xE7u8, 0x24, 0x6A, 0xA7, 0xF1, 0x22] {
        let mut trans = transport_with(&[byte, 0x10, 0x00]);
        assert_eq!(TypeInfo::parse(&mut trans), Err(TdsError::Unimplemented));
        assert_eq!(trans.available(), 2);
    }
}

#[test]
fn type_descriptor_waits_for_its_bytes() {
    let mut trans = TdsTransport::new();
    assert_eq!(TypeInfo::parse(&mut trans), Ok(Async::NotReady));
    // the descriptor of a nullable integer split after its first byte
    trans.feed(&[0x26]);
    assert_eq!(TypeInfo::parse(&mut trans), Ok(Async::NotReady));
    assert_eq!(trans.available(), 1);
    assert_eq!(trans.peek_u8(), Async::Ready(0x26));
    trans.feed(&[0x04]);
    assert_eq!(
        TypeInfo::parse(&mut trans),
        Ok(Async::Ready(TypeInfo::VarLenSized(VarLenType::Intn, 4)))
    );
    assert_eq!(trans.available(), 0);
}

#[test]
fn fixed_int4_values() {
    let meta = column(TypeInfo::FixedLen(FixedLenType::Int4));
    let cases: [([u8; 4], i32); 6] = [
        ([0x04, 0x03, 0x02, 0x01], 0x0102_0304),
        ([0xFF, 0xFF, 0xFF, 0xFF], -1),
        ([0x00, 0x00, 0x00, 0x80], i32::MIN),
        ([0xFF, 0xFF, 0xFF, 0x7F], i32::MAX),
        ([0x00, 0x00, 0x00, 0x00], 0),
        ([0xFE, 0xFF, 0xFF, 0xFF], -2),
    ];
    for (bytes, value) in cases {
        let mut trans = transport_with(&bytes);
        assert_eq!(ColumnData::parse(&mut trans, &meta), Ok(Async::Ready(ColumnData::I32(value))));
        assert_eq!(trans.available(), 0);
    }
}

#[test]
fn fixed_int4_waits_for_four_bytes() {
    let meta = column(TypeInfo::FixedLen(FixedLenType::Int4));
    let mut trans = TdsTransport::new();
    for byte in [0x2Au8, 0x00, 0x00] {
        assert_eq!(ColumnData::parse(&mut trans, &meta), Ok(Async::NotReady));
        trans.feed(&[byte]);
    }
    assert_eq!(ColumnData::parse(&mut trans, &meta), Ok(Async::NotReady));
    assert_eq!(trans.available(), 3);
    trans.feed(&[0x00, 0x77]);
    assert_eq!(ColumnData::parse(&mut trans, &meta), Ok(Async::Ready(ColumnData::I32(42))));
    assert_eq!(trans.available(), 1);
    assert_eq!(trans.peek_u8(), Async::Ready(0x77));
}

#[test]
fn nullable_integer_of_four_bytes() {
    let meta = column(TypeInfo::VarLenSized(VarLenType::Intn, 4));
    let mut trans = transport_with(&[0x04, 0x2A, 0x00, 0x00, 0x00, 0x04, 0xD6, 0xFF, 0xFF, 0xFF]);
    assert_eq!(ColumnData::parse(&mut trans, &meta), Ok(Async::Ready(ColumnData::I32(42))));
    assert_eq!(trans.available(), 5);
    assert_eq!(ColumnData::parse(&mut trans, &meta), Ok(Async::Ready(ColumnData::I32(-42))));
    assert_eq!(trans.available(), 0);
    assert_eq!(ColumnData::parse(&mut trans, &meta), Ok(Async::NotReady));
}

#[test]
fn length_prefix_that_is_not_four_is_a_protocol_error() {
    let meta = column(TypeInfo::VarLenSized(VarLenType::Intn, 4));
    for found in [0x00u8, 0x01, 0x02, 0x03, 0x05, 0x08, 0xFF] {
        let mut trans = transport_with(&[found, 0x2A, 0x00, 0x00, 0x00]);
        assert_eq!(
            ColumnData::parse(&mut trans, &meta),
            Err(TdsError::Protocol(ProtocolViolation::LengthMismatch { declared: 4, found }))
        );
        assert_eq!(trans.available(), 4);
    }
    // the wrong prefix is reported as soon as it is there
    let mut trans = transport_with(&[0x08]);
    assert_eq!(
        ColumnData::parse(&mut trans, &meta),
        Err(TdsError::Protocol(ProtocolViolation::LengthMismatch { declared: 4, found: 8 }))
    );
}

#[test]
fn nullable_integer_waits_for_five_bytes() {
    let meta = column(TypeInfo::VarLenSized(VarLenType::Intn, 4));
    let mut trans = TdsTransport::new();
    assert_eq!(ColumnData::parse(&mut trans, &meta), Ok(Async::NotReady));
    trans.feed(&[0x04, 0x2A, 0x00, 0x00]);
    assert_eq!(ColumnData::parse(&mut trans, &meta), Ok(Async::NotReady));
    // nothing was taken, not even the length prefix
    assert_eq!(trans.available(), 4);
    assert_eq!(trans.peek_u8(), Async::Ready(0x04));
    trans.feed(&[0x00]);
    assert_eq!(ColumnData::parse(&mut trans, &meta), Ok(Async::Ready(ColumnData::I32(42))));
}

#[test]
fn other_types_are_not_decoded() {
    let bytes = [0x04, 0x2A, 0x00, 0x00, 0x00, 0x00, 0x00, 0x00, 0x00];
    let others = [
        TypeInfo::FixedLen(FixedLenType::Int8),
        TypeInfo::FixedLen(FixedLenType::Int2),
        TypeInfo::FixedLen(FixedLenType::Null),
        TypeInfo::FixedLen(FixedLenType::Float8),
        TypeInfo::VarLenSized(VarLenType::Intn, 8),
        TypeInfo::VarLenSized(VarLenType::Intn, 2),
        TypeInfo::VarLenSized(VarLenType::Intn, 0),
        TypeInfo::VarLenSized(VarLenType::NVarchar, 4),
        TypeInfo::VarLenSized(VarLenType::Bitn, 4),
    ];
    for ty in others {
        let mut trans = transport_with(&bytes);
        assert_eq!(ColumnData::parse(&mut trans, &column(ty)), Err(TdsError::Unimplemented));
        assert_eq!(trans.available(), bytes.len());
        let mut trans = TdsTransport::new();
        assert_eq!(ColumnData::parse(&mut trans, &column(ty)), Err(TdsError::Unimplemented));
    }
}

/// Encodes the integer through a buffer with room for `room` bytes, hands
/// every piece to a transport as it comes, and decodes what has arrived.
fn integer_there_and_back(value: i32, room: usize) {
    let data = ColumnData::I32(value);
    let mut target = SendBuffer::new(room);
    let mut trans = TdsTransport::new();
    let mut last_pos = 0;
    while let Some(n) = data.serialize(&mut target, last_pos).unwrap() {
        trans.feed(&target.take());
        last_pos = n;
    }
    trans.feed(&target.take());
    let ty = match TypeInfo::parse(&mut trans) {
        Ok(Async::Ready(ty)) => ty,
        other => panic!("no type: {:?}", other),
    };
    assert_eq!(ty, TypeInfo::VarLenSized(VarLenType::Intn, 4));
    assert_eq!(
        ColumnData::parse(&mut trans, &column(ty)),
        Ok(Async::Ready(ColumnData::I32(value)))
    );
    assert_eq!(trans.available(), 0);
}

#[test]
fn integers_there_and_back() {
    for value in [0, 1, -1, 42, -42, 255, 256, 65_535, 65_536, 0x0102_0304, i32::MAX, i32::MIN] {
        for room in [1, 2, 3, 4, 5, 6, 7, 8, usize::MAX] {
            integer_there_and_back(value, room);
        }
    }
}

#[test]
fn decoding_keeps_pace_with_arrival() {
    // the bytes of an encoded integer arrive one by one
    let bytes = [0x26, 0x04, 0x04, 0x2A, 0x00, 0x00, 0x00];
    let mut trans = TdsTransport::new();
    let mut ty = None;
    let mut value = None;
    for byte in bytes {
        trans.feed(&[byte]);
        if ty.is_none() {
            if let Async::Ready(found) = TypeInfo::parse(&mut trans).unwrap() {
                ty = Some(found);
            }
        } else if value.is_none() {
            let meta = column(ty.unwrap());
            if let Async::Ready(found) = ColumnData::parse(&mut trans, &meta).unwrap() {
                value = Some(found);
            }
        }
    }
    assert_eq!(ty, Some(TypeInfo::VarLenSized(VarLenType::Intn, 4)));
    assert_eq!(value, Some(ColumnData::I32(42)));
    assert_eq!(trans.available(), 0);
}
