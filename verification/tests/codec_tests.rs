use schema_migrations::integers;
use schema_migrations::integers::{CodecError, IsNull};

#[test]
fn i16_to_sql() {
    let mut bytes = vec![];
    integers::i16_to_sql(1i16, &mut bytes).unwrap();
    integers::i16_to_sql(0i16, &mut bytes).unwrap();
    integers::i16_to_sql(-1i16, &mut bytes).unwrap();
    assert_eq!(bytes, vec![0, 1, 0, 0, 255, 255]);
}

#[test]
fn i32_to_sql() {
    let mut bytes = vec![];
    integers::i32_to_sql(1i32, &mut bytes).unwrap();
    integers::i32_to_sql(0i32, &mut bytes).unwrap();
    integers::i32_to_sql(-1i32, &mut bytes).unwrap();
    assert_eq!(bytes, vec![0, 0, 0, 1, 0, 0, 0, 0, 255, 255, 255, 255]);
}

#[test]
fn i64_to_sql() {
    let mut bytes = vec![];
    integers::i64_to_sql(1i64, &mut bytes).unwrap();
    integers::i64_to_sql(0i64, &mut bytes).unwrap();
    integers::i64_to_sql(-1i64, &mut bytes).unwrap();
    assert_eq!(bytes, vec![
               0, 0, 0, 0, 0, 0, 0, 1,
               0, 0, 0, 0, 0, 0, 0, 0,
               255, 255, 255, 255, 255, 255, 255, 255]);
}

#[test]
fn u32_round_trips_through_wire_form() {
    let mut bytes = vec![];
    assert_eq!(integers::u32_to_sql(3_000_000_000u32, &mut bytes), Ok(IsNull::No));
    assert_eq!(bytes.len(), 4);
    assert_eq!(integers::u32_from_sql(Some(&bytes)), Ok(3_000_000_000u32));
}

#[test]
fn signed_values_round_trip_through_wire_form() {
    let mut bytes = vec![];
    integers::i16_to_sql(-12345i16, &mut bytes).unwrap();
    assert_eq!(integers::i16_from_sql(Some(&bytes)), Ok(-12345i16));

    let mut bytes = vec![];
    integers::i32_to_sql(-123456789i32, &mut bytes).unwrap();
    assert_eq!(integers::i32_from_sql(Some(&bytes)), Ok(-123456789i32));

    let mut bytes = vec![];
    integers::i64_to_sql(-1234567890123i64, &mut bytes).unwrap();
    assert_eq!(integers::i64_from_sql(Some(&bytes)), Ok(-1234567890123i64));
}

#[test]
fn from_sql_reads_exact_big_endian_values() {
    assert_eq!(integers::i16_from_sql(Some(&[1, 0])), Ok(256i16));
    assert_eq!(integers::i32_from_sql(Some(&[0, 0, 1, 0])), Ok(256i32));
    assert_eq!(integers::i64_from_sql(Some(&[0, 0, 0, 0, 0, 0, 1, 0])), Ok(256i64));
    assert_eq!(integers::u32_from_sql(Some(&[255, 255, 255, 255])), Ok(u32::MAX));
    // extra trailing bytes are ignored
    assert_eq!(integers::i16_from_sql(Some(&[0, 2, 99])), Ok(2i16));
}

#[test]
fn from_sql_rejects_null_payload() {
    assert_eq!(integers::i16_from_sql(None), Err(CodecError::UnexpectedNull));
    assert_eq!(integers::i32_from_sql(None), Err(CodecError::UnexpectedNull));
    assert_eq!(integers::i64_from_sql(None), Err(CodecError::UnexpectedNull));
    assert_eq!(integers::u32_from_sql(None), Err(CodecError::UnexpectedNull));
}

#[test]
fn from_sql_rejects_short_payload() {
    assert_eq!(integers::i16_from_sql(Some(&[1])), Err(CodecError::NotEnoughData));
    assert_eq!(integers::i32_from_sql(Some(&[1, 2, 3])), Err(CodecError::NotEnoughData));
    assert_eq!(
        integers::i64_from_sql(Some(&[1, 2, 3, 4, 5, 6, 7])),
        Err(CodecError::NotEnoughData)
    );
    assert_eq!(integers::u32_from_sql(Some(&[])), Err(CodecError::NotEnoughData));
}
