use argdata::intvalue::{cmp_same_sign_bigint, sign};
use argdata::{IntValue, TryFrom};
use std::cmp::Ordering;

fn assert_serialize(int: IntValue, serialized: &[u8]) {
    let mut v = Vec::new();
    int.serialize(&mut v);
    assert_eq!(v, serialized);
    assert_eq!(int.serialized_length(), serialized.len());
}

#[test]
fn test_serialize() {
    assert_serialize(IntValue::from(0), &[]);
    assert_serialize(IntValue::from(1), &[0x01]);
    assert_serialize(IntValue::from(127), &[0x7F]);
    assert_serialize(IntValue::from(-1i32), &[0xFF]);
    assert_serialize(IntValue::from(0xFF), &[0x00, 0xFF]);
    assert_serialize(IntValue::from(-0x100), &[0xFF, 0x00]);
    assert_serialize(IntValue::from(1000), &[0x03, 0xE8]);
    assert_serialize(IntValue::from(-1000), &[0xFC, 0x18]);
    assert_serialize(IntValue::from(u32::max_value()), &[0x00, 0xFF, 0xFF, 0xFF, 0xFF]);
    assert_serialize(
        IntValue::from(u64::max_value()),
        &[0x00, 0xFF, 0xFF, 0xFF, 0xFF, 0xFF, 0xFF, 0xFF, 0xFF],
    );
    assert_serialize(IntValue::from(i32::max_value()), &[0x7F, 0xFF, 0xFF, 0xFF]);
    assert_serialize(
        IntValue::from(i64::max_value()),
        &[0x7F, 0xFF, 0xFF, 0xFF, 0xFF, 0xFF, 0xFF, 0xFF],
    );
    assert_serialize(IntValue::from(i32::min_value()), &[0x80, 0x00, 0x00, 0x00]);
    assert_serialize(
        IntValue::from(i64::min_value()),
        &[0x80, 0x00, 0x00, 0x00, 0x00, 0x00, 0x00, 0x00],
    );
    assert_serialize(IntValue::from_bigint(&[0, 0]), &[]);
    assert_serialize(IntValue::from_bigint(&[0, 1]), &[1]);
    assert_serialize(IntValue::from_bigint(&[1, 1]), &[1, 1]);
    assert_serialize(IntValue::from_bigint(&[0xFF]), &[0xFF]);
    assert_serialize(IntValue::from_bigint(&[0xFF, 0xFF]), &[0xFF]);
    assert_serialize(IntValue::from_bigint(&[0x00, 0xFF]), &[0x00, 0xFF]);
}

#[test]
fn from_bigint_at_the_edges_of_64_bits() {
    // Eight bytes.
    assert_eq!(IntValue::from_bigint(&[0x7F, 0xFF, 0xFF, 0xFF, 0xFF, 0xFF, 0xFF, 0xFF]), IntValue::from(i64::MAX));
    assert_eq!(IntValue::from_bigint(&[0x80, 0, 0, 0, 0, 0, 0, 0]), IntValue::from(i64::MIN));
    assert_eq!(IntValue::from_bigint(&[0xFF; 8]), IntValue::from(-1));
    assert_eq!(IntValue::from_bigint(&[0; 8]), IntValue::from(0));
    // Nine bytes of which the first is a zero: an unsigned integer of 64 bits.
    assert_eq!(IntValue::from_bigint(&[0, 0xFF, 0xFF, 0xFF, 0xFF, 0xFF, 0xFF, 0xFF, 0xFF]), IntValue::from(u64::MAX));
    assert_eq!(IntValue::from_bigint(&[0, 0x80, 0, 0, 0, 0, 0, 0, 0]), IntValue::from(1u64 << 63));
    assert_eq!(IntValue::from_bigint(&[0, 0xFF, 0, 0, 0, 0, 0, 0, 0]), IntValue::from(0xFF00_0000_0000_0000u64));
    // Nine bytes that need all nine.
    let over = IntValue::from_bigint(&[1, 0, 0, 0, 0, 0, 0, 0, 0]);
    assert_eq!(<u64 as TryFrom<IntValue>>::try_from(over), Err(()));
    assert_eq!(<i64 as TryFrom<IntValue>>::try_from(over), Err(()));
    assert_serialize(over, &[1, 0, 0, 0, 0, 0, 0, 0, 0]);
    let under = IntValue::from_bigint(&[0xFF, 0x7F, 0xFF, 0xFF, 0xFF, 0xFF, 0xFF, 0xFF, 0xFF]);
    assert_eq!(<i64 as TryFrom<IntValue>>::try_from(under), Err(()));
    assert!(under.is_negative());
    assert_serialize(under, &[0xFF, 0x7F, 0xFF, 0xFF, 0xFF, 0xFF, 0xFF, 0xFF, 0xFF]);
    // Ten bytes, and more, with bytes in front that only repeat the sign.
    assert_eq!(IntValue::from_bigint(&[0, 0, 0xFF, 0xFF, 0xFF, 0xFF, 0xFF, 0xFF, 0xFF, 0xFF]), IntValue::from(u64::MAX));
    assert_eq!(IntValue::from_bigint(&[0xFF, 0xFF, 0x80, 0, 0, 0, 0, 0, 0, 0]), IntValue::from(i64::MIN));
    assert_eq!(IntValue::from_bigint(&[0xFF; 20]), IntValue::from(-1));
    assert_eq!(IntValue::from_bigint(&[0; 20]), IntValue::from(0));
    assert_eq!(IntValue::from_bigint(&[]), IntValue::from(0));
    assert_serialize(
        IntValue::from_bigint(&[0, 0, 0, 1, 2, 3, 4, 5, 6, 7, 8, 9, 10]),
        &[1, 2, 3, 4, 5, 6, 7, 8, 9, 10],
    );
    assert_serialize(
        IntValue::from_bigint(&[0xFF, 0xFF, 0xFF, 1, 2, 3, 4, 5, 6, 7, 8, 9, 10]),
        &[0xFF, 1, 2, 3, 4, 5, 6, 7, 8, 9, 10],
    );
    assert_eq!(
        IntValue::from_bigint(&[1, 2, 3, 4, 5, 6, 7, 8, 9, 10]),
        IntValue::from_bigint(&[0, 0, 1, 2, 3, 4, 5, 6, 7, 8, 9, 10])
    );
    assert_ne!(
        IntValue::from_bigint(&[1, 2, 3, 4, 5, 6, 7, 8, 9, 10]),
        IntValue::from_bigint(&[1, 2, 3, 4, 5, 6, 7, 8, 9, 11])
    );
    assert_ne!(IntValue::from(5), IntValue::from(6));
    assert_ne!(IntValue::from(-5), IntValue::from(5));
}

#[test]
fn is_negative_by_sign() {
    assert!(!IntValue::from(0).is_negative());
    assert!(!IntValue::from(u64::MAX).is_negative());
    assert!(IntValue::from(-1).is_negative());
    assert!(IntValue::from(i64::MIN).is_negative());
    assert!(!IntValue::from_bigint(&[1, 0, 0, 0, 0, 0, 0, 0, 0]).is_negative());
    assert!(IntValue::from_bigint(&[0x80, 0, 0, 0, 0, 0, 0, 0, 0]).is_negative());
}

#[test]
fn integers_round_trip() {
    for &n in &[0i64, 1, -1, 127, 128, 255, 256, -128, -129, -256, -257, 1 << 31, i64::MAX, i64::MIN, i64::MIN + 1] {
        let mut bytes = Vec::new();
        IntValue::from(n).serialize(&mut bytes);
        assert_eq!(bytes.len(), IntValue::from(n).serialized_length());
        let back = IntValue::from_bigint(&bytes);
        assert_eq!(back, IntValue::from(n));
        assert_eq!(<i64 as TryFrom<IntValue>>::try_from(back), Ok(n));
        // No shorter spelling keeps the number.
        if !bytes.is_empty() {
            let shorter = IntValue::from_bigint(&bytes[1..]);
            assert_ne!(shorter, IntValue::from(n));
        }
    }
}

#[test]
fn cmp_is_the_order_of_the_integers() {
    let big_neg_2 = [0x80u8, 0, 0, 0, 0, 0, 0, 0, 0, 0];
    let big_neg_1 = [0xFFu8, 0x7F, 0xFF, 0xFF, 0xFF, 0xFF, 0xFF, 0xFF, 0xFE];
    let big_neg_0 = [0xFFu8, 0x7F, 0xFF, 0xFF, 0xFF, 0xFF, 0xFF, 0xFF, 0xFF];
    let big_pos_0 = [1u8, 0, 0, 0, 0, 0, 0, 0, 0];
    let big_pos_1 = [1u8, 0, 0, 0, 0, 0, 0, 0, 1];
    let big_pos_2 = [2u8, 0, 0, 0, 0, 0, 0, 0, 0];
    let big_pos_3 = [0x01u8, 0, 0, 0, 0, 0, 0, 0, 0, 0];
    // In rising order.
    let values = [
        IntValue::from_bigint(&big_neg_2),
        IntValue::from_bigint(&big_neg_1),
        IntValue::from_bigint(&big_neg_0),
        IntValue::from(i64::MIN),
        IntValue::from(-1000),
        IntValue::from(-1),
        IntValue::from(0),
        IntValue::from(1),
        IntValue::from(i64::MAX),
        IntValue::from(1u64 << 63),
        IntValue::from(u64::MAX),
        IntValue::from_bigint(&big_pos_0),
        IntValue::from_bigint(&big_pos_1),
        IntValue::from_bigint(&big_pos_2),
        IntValue::from_bigint(&big_pos_3),
    ];
    for (i, a) in values.iter().enumerate() {
        for (j, b) in values.iter().enumerate() {
            assert_eq!(a.cmp(b), i.cmp(&j), "{:?} and {:?}", a, b);
            assert_eq!(a.partial_cmp(b), Some(i.cmp(&j)));
            assert_eq!(a == b, i == j);
            assert_eq!(a < b, i < j);
        }
    }
    assert_eq!(IntValue::from(3u8).cmp(&IntValue::from(3i64)), Ordering::Equal);
}

#[test]
fn narrowing_of_int_values() {
    assert_eq!(<u8 as TryFrom<IntValue>>::try_from(IntValue::from(255)), Ok(255));
    assert_eq!(<u8 as TryFrom<IntValue>>::try_from(IntValue::from(256)), Err(()));
    assert_eq!(<u8 as TryFrom<IntValue>>::try_from(IntValue::from(-1)), Err(()));
    assert_eq!(<i8 as TryFrom<IntValue>>::try_from(IntValue::from(-128)), Ok(-128));
    assert_eq!(<i8 as TryFrom<IntValue>>::try_from(IntValue::from(-129)), Err(()));
    assert_eq!(<i8 as TryFrom<IntValue>>::try_from(IntValue::from(128)), Err(()));
    assert_eq!(<u16 as TryFrom<IntValue>>::try_from(IntValue::from(0xFFFF)), Ok(0xFFFF));
    assert_eq!(<i16 as TryFrom<IntValue>>::try_from(IntValue::from(-0x8000)), Ok(-0x8000));
    assert_eq!(<u32 as TryFrom<IntValue>>::try_from(IntValue::from(u32::MAX)), Ok(u32::MAX));
    assert_eq!(<u32 as TryFrom<IntValue>>::try_from(IntValue::from(1u64 << 32)), Err(()));
    assert_eq!(<i32 as TryFrom<IntValue>>::try_from(IntValue::from(i32::MIN)), Ok(i32::MIN));
    assert_eq!(<i32 as TryFrom<IntValue>>::try_from(IntValue::from(1i64 << 31)), Err(()));
    assert_eq!(<u64 as TryFrom<IntValue>>::try_from(IntValue::from(u64::MAX)), Ok(u64::MAX));
    assert_eq!(<u64 as TryFrom<IntValue>>::try_from(IntValue::from(-1)), Err(()));
    assert_eq!(<i64 as TryFrom<IntValue>>::try_from(IntValue::from(u64::MAX)), Err(()));
    assert_eq!(<i64 as TryFrom<IntValue>>::try_from(IntValue::from(i64::MAX as u64)), Ok(i64::MAX));
}

#[test]
fn narrowing_of_machine_integers() {
    assert_eq!(<u8 as TryFrom<u64>>::try_from(255), Ok(255));
    assert_eq!(<u8 as TryFrom<u64>>::try_from(256), Err(()));
    assert_eq!(<u16 as TryFrom<u64>>::try_from(65536), Err(()));
    assert_eq!(<u32 as TryFrom<u64>>::try_from(1 << 32), Err(()));
    assert_eq!(<u64 as TryFrom<u64>>::try_from(u64::MAX), Ok(u64::MAX));
    assert_eq!(<i8 as TryFrom<u64>>::try_from(127), Ok(127));
    assert_eq!(<i8 as TryFrom<u64>>::try_from(128), Err(()));
    assert_eq!(<i16 as TryFrom<u64>>::try_from(32767), Ok(32767));
    assert_eq!(<i32 as TryFrom<u64>>::try_from(1 << 31), Err(()));
    assert_eq!(<i64 as TryFrom<u64>>::try_from(1 << 63), Err(()));
    assert_eq!(<i64 as TryFrom<u64>>::try_from((1 << 63) - 1), Ok(i64::MAX));
    assert_eq!(<i8 as TryFrom<i64>>::try_from(-128), Ok(-128));
    assert_eq!(<i8 as TryFrom<i64>>::try_from(-129), Err(()));
    assert_eq!(<i16 as TryFrom<i64>>::try_from(32768), Err(()));
    assert_eq!(<i32 as TryFrom<i64>>::try_from(i64::from(i32::MIN)), Ok(i32::MIN));
    assert_eq!(<i32 as TryFrom<i64>>::try_from(i64::from(i32::MIN) - 1), Err(()));
    assert_eq!(<i64 as TryFrom<i64>>::try_from(i64::MIN), Ok(i64::MIN));
}

#[test]
fn sign_of_bytes() {
    assert!(!sign(&[]));
    assert!(!sign(&[0x7F, 0xFF]));
    assert!(sign(&[0x80]));
    assert!(sign(&[0xFF, 0x00]));
}

#[test]
fn order_of_spellings_of_one_sign() {
    let small = [1u8, 0, 0, 0, 0, 0, 0, 0, 0];
    let large = [1u8, 0, 0, 0, 0, 0, 0, 0, 1];
    let longer = [1u8, 0, 0, 0, 0, 0, 0, 0, 0, 0];
    assert_eq!(cmp_same_sign_bigint(&small, &large), Ordering::Less);
    assert_eq!(cmp_same_sign_bigint(&large, &small), Ordering::Greater);
    assert_eq!(cmp_same_sign_bigint(&small, &small), Ordering::Equal);
    assert_eq!(cmp_same_sign_bigint(&large, &longer), Ordering::Less);
    let low = [0xFEu8, 0, 0, 0, 0, 0, 0, 0, 0];
    let high = [0xFEu8, 0, 0, 0, 0, 0, 0, 0, 1];
    let lowest = [0xFEu8, 0, 0, 0, 0, 0, 0, 0, 0, 0];
    assert_eq!(cmp_same_sign_bigint(&low, &high), Ordering::Less);
    assert_eq!(cmp_same_sign_bigint(&lowest, &low), Ordering::Less);
    assert_eq!(cmp_same_sign_bigint(&high, &lowest), Ordering::Greater);
}
