use argdata::fd::{ConvertFdFn, Fd, FdMapping, Identity, InvalidFd, NoConvert};
use argdata::values::timestamp::i128_serialized_length;
use argdata::values::{MapValue, SeqValue};
use argdata::{
    bigint, binary, bool, encoded, encoded_fd, encoded_with_fds, float, integer, invalid_fd,
    null, process_fd, str, timestamp, Argdata, ArgdataExt, NoFit, NotRead, ReadError, Timespec,
    Type, Value,
};
use std::rc::Rc;
use std::sync::Arc;

fn encode<'d, A: Argdata<'d>>(value: &A) -> Vec<u8> {
    let mut buf = Vec::new();
    value.serialize::<Vec<Fd>>(&mut buf, None);
    assert_eq!(buf.len(), value.serialized_length());
    buf
}

fn encode_with<'d, A: Argdata<'d>>(value: &A, fds: &mut Vec<Fd>) -> Vec<u8> {
    let mut buf = Vec::new();
    value.serialize(&mut buf, Some(fds));
    buf
}

#[test]
fn str_serialize_test() {
    let s = str("blah");
    assert_eq!(s.serialized_length(), 6);
    let mut buf = Vec::new();
    s.serialize::<Vec<Fd>>(&mut buf, None);
    assert_eq!(&buf, b"\x08blah\x00");
}

#[test]
fn timestamp_serialize_test() {
    for &(timespec, serialized) in &[
        (Timespec { sec: 0, nsec: 0 }, &b"\x09"[..]),
        (Timespec { sec: 0, nsec: 1 }, &b"\x09\x01"[..]),
        (Timespec { sec: -1, nsec: 999_999_999 }, &b"\x09\xFF"[..]),
        (Timespec { sec: 10, nsec: 0 }, &b"\x09\x02\x54\x0B\xE4\x00"[..]),
        (
            Timespec { sec: 80911113678783, nsec: 24503210 },
            &b"\x09\x11\x22\x33\x44\x55\x66\x77\x88\x99\xAA"[..],
        ),
    ] {
        let value = timestamp(timespec);
        let mut buf = Vec::new();
        value.serialize::<Vec<Fd>>(&mut buf, None);
        assert_eq!(&buf, &serialized);
        assert_eq!(value.serialized_length(), buf.len());
    }
}

#[test]
fn timestamp_roundtrip_at_the_edges() {
    for &timespec in &[
        Timespec { sec: i64::MAX, nsec: 999_999_999 },
        Timespec { sec: i64::MIN, nsec: 0 },
        Timespec { sec: i64::MIN, nsec: 999_999_999 },
        Timespec { sec: -1, nsec: 0 },
        Timespec { sec: 0, nsec: 999_999_999 },
        Timespec { sec: 18446744073, nsec: 709551616 },
        Timespec { sec: -18446744074, nsec: 290448384 },
    ] {
        let value = timestamp(timespec);
        assert_eq!(value.value(), timespec);
        assert_eq!(
            value.nanoseconds(),
            i128::from(timespec.sec) * 1_000_000_000 + i128::from(timespec.nsec)
        );
        let buf = encode(&value);
        assert!(buf.len() <= 13);
        assert_eq!(encoded(&buf).read_timestamp(), Ok(timespec));
        assert_eq!(value.read_timestamp(), Ok(timespec));
    }
    assert_eq!(
        encode(&timestamp(Timespec { sec: i64::MAX, nsec: 999_999_999 })),
        b"\x09\x1D\xCD\x64\xFF\xFF\xFF\xFF\xFF\xFF\xFF\xFF\xFF"
    );
    assert_eq!(
        encode(&timestamp(Timespec { sec: i64::MIN, nsec: 0 })),
        b"\x09\xE2\x32\x9B\x00\x00\x00\x00\x00\x00\x00\x00\x00"
    );
}

#[test]
fn i128_serialized_length_cases() {
    assert_eq!(i128_serialized_length(0), 0);
    assert_eq!(i128_serialized_length(1), 1);
    assert_eq!(i128_serialized_length(-1), 1);
    assert_eq!(i128_serialized_length(127), 1);
    assert_eq!(i128_serialized_length(128), 2);
    assert_eq!(i128_serialized_length(-128), 1);
    assert_eq!(i128_serialized_length(-129), 2);
    assert_eq!(i128_serialized_length(i128::MAX), 16);
    assert_eq!(i128_serialized_length(i128::MIN), 16);
    assert_eq!(i128_serialized_length(1 << 63), 9);
}

#[test]
fn null_value() {
    let value = null();
    assert_eq!(encode(&value), b"");
    assert_eq!(value.get_type(), Ok(Type::Null));
    assert_eq!(value.read_null(), Ok(()));
    assert_eq!(value.read_bool(), Err(NoFit::DifferentType.into()));
    assert!(matches!(value.read(), Ok(Value::Null)));
}

#[test]
fn binary_value() {
    let value = binary(b"\x00\x11\x22");
    assert_eq!(value.bytes(), b"\x00\x11\x22");
    assert_eq!(encode(&value), b"\x01\x00\x11\x22");
    assert_eq!(value.get_type(), Ok(Type::Binary));
    assert_eq!(value.read_binary(), Ok(&b"\x00\x11\x22"[..]));
    assert_eq!(value.read_null(), Err(NoFit::DifferentType.into()));
    assert_eq!(encoded(&encode(&value)).read_binary(), Ok(&b"\x00\x11\x22"[..]));
    assert_eq!(encode(&binary(b"")), b"\x01");
}

#[test]
fn bool_value() {
    assert_eq!(encode(&bool(false)), b"\x02");
    assert_eq!(encode(&bool(true)), b"\x02\x01");
    assert_eq!(bool(true).value(), true);
    assert_eq!(bool(true).read_bool(), Ok(true));
    assert_eq!(bool(false).read_bool(), Ok(false));
    assert_eq!(bool(false).get_type(), Ok(Type::Bool));
    assert_eq!(bool(false).read_int_value(), Err(NoFit::DifferentType.into()));
    assert_eq!(encoded(&encode(&bool(true))).read_bool(), Ok(true));
    assert_eq!(encoded(&encode(&bool(false))).read_bool(), Ok(false));
}

#[test]
fn float_value() {
    let value = float(1.5f64.to_bits());
    assert_eq!(f64::from_bits(value.value()), 1.5);
    assert_eq!(value.serialized_length(), 9);
    assert_eq!(encode(&value), b"\x04\x3F\xF8\x00\x00\x00\x00\x00\x00");
    assert_eq!(value.get_type(), Ok(Type::Float));
    assert_eq!(value.read_float(), Ok(1.5f64.to_bits()));
    assert_eq!(value.read_bool(), Err(NoFit::DifferentType.into()));
    // A float is kept bit by bit, also where it is no number.
    let nan = float(f64::NAN.to_bits() | 1);
    assert_eq!(encoded(&encode(&nan)).read_float(), Ok(f64::NAN.to_bits() | 1));
}

#[test]
fn integer_value() {
    assert_eq!(encode(&integer(0u8)), b"\x05");
    assert_eq!(encode(&integer(42i32)), b"\x05\x2A");
    assert_eq!(encode(&integer(-1i8)), b"\x05\xFF");
    assert_eq!(encode(&integer(255u8)), b"\x05\x00\xFF");
    assert_eq!(encode(&integer(-256i16)), b"\x05\xFF\x00");
    assert_eq!(encode(&integer(u64::MAX)), b"\x05\x00\xFF\xFF\xFF\xFF\xFF\xFF\xFF\xFF");
    assert_eq!(encode(&integer(i64::MIN)), b"\x05\x80\x00\x00\x00\x00\x00\x00\x00");
    assert_eq!(integer(42i32).value(), 42);
    assert_eq!(integer(42i32).get_type(), Ok(Type::Int));
    assert_eq!(integer(42i32).read_int::<u8>(), Ok(42));
    assert_eq!(integer(-42i32).read_int::<u8>(), Err(NoFit::OutOfRange.into()));
    assert_eq!(integer(-42i32).read_int::<i64>(), Ok(-42));
    assert_eq!(integer(42u16).read_str(), Err(NoFit::DifferentType.into()));
    for &n in &[0i64, 1, -1, 127, 128, -128, -129, 0x7FFF, 0x8000, i64::MAX, i64::MIN] {
        assert_eq!(encoded(&encode(&integer(n))).read_int::<i64>(), Ok(n));
    }
    for &n in &[0u64, 255, 256, 1 << 63, u64::MAX] {
        assert_eq!(encoded(&encode(&integer(n))).read_int::<u64>(), Ok(n));
    }
}

#[test]
fn bigint_value() {
    let value = bigint(&[0x00, 0x00, 0x2A]);
    assert_eq!(value.bytes(), &[0x00, 0x00, 0x2A]);
    // The bytes are written as they are.
    assert_eq!(encode(&value), b"\x05\x00\x00\x2A");
    assert_eq!(value.read_int::<u8>(), Ok(42));
    assert_eq!(value.int_value(), argdata::IntValue::from(42));
    assert_eq!(value.get_type(), Ok(Type::Int));
    let big = bigint(&[0x01, 0, 0, 0, 0, 0, 0, 0, 0]);
    assert_eq!(big.read_int::<u64>(), Err(NoFit::OutOfRange.into()));
    assert_eq!(big.read_int::<i64>(), Err(NoFit::OutOfRange.into()));
}

#[test]
fn str_value() {
    let value = str("Hello World!");
    assert_eq!(value.str(), "Hello World!");
    assert_eq!(encode(&value), b"\x08Hello World!\x00");
    assert_eq!(value.get_type(), Ok(Type::Str));
    assert_eq!(value.read_str(), Ok("Hello World!"));
    assert_eq!(value.read_str_value().unwrap().as_bytes(), b"Hello World!");
    assert_eq!(value.read_binary(), Err(NoFit::DifferentType.into()));
    assert_eq!(encode(&str("")), b"\x08\x00");
    assert_eq!(encoded(&encode(&str("αβξδ"))).read_str(), Ok("αβξδ"));
}

#[test]
fn fd_values_without_mapping() {
    assert_eq!(encode(&process_fd(7)), b"\x03\x00\x00\x00\x07");
    assert_eq!(encode(&process_fd(-1)), b"\x03\xFF\xFF\xFF\xFF");
    assert_eq!(encode(&encoded_fd(0x123, NoConvert)), b"\x03\x00\x00\x01\x23");
    assert_eq!(encode(&invalid_fd()), b"\x03\xFF\xFF\xFF\xFF");
    assert_eq!(process_fd(7).get_type(), Ok(Type::Fd));
    assert_eq!(process_fd(7).read_fd(), Ok(Fd(7)));
    assert_eq!(process_fd(7).read_encoded_fd().unwrap().raw_encoded_number(), 7);
    assert_eq!(encoded_fd(5, Identity).read_fd(), Ok(Fd(5)));
    assert_eq!(encoded_fd(5, Identity).read_encoded_fd().unwrap().fd(), Ok(Fd(5)));
    assert_eq!(encoded_fd(5, NoConvert).read_encoded_fd().unwrap().fd(), Err(InvalidFd));
    assert_eq!(encoded_fd(5, NoConvert).read_fd(), Err(ReadError::InvalidFdNumber(5).into()));
    assert_eq!(invalid_fd().read_fd(), Err(ReadError::InvalidFdNumber(!0).into()));
    assert_eq!(invalid_fd().read_encoded_fd().unwrap().raw_encoded_number(), !0);
    assert_eq!(process_fd(7).read_null(), Err(NoFit::DifferentType.into()));
    let plus_ten = ConvertFdFn::new(|raw| Ok(Fd(raw as i32 + 10)));
    assert_eq!(encoded_fd(5, &plus_ten).read_fd(), Ok(Fd(15)));
    let none = ConvertFdFn::new(|_| Err(InvalidFd));
    assert_eq!(encoded_fd(5, &none).read_fd(), Err(ReadError::InvalidFdNumber(5).into()));
}

#[test]
fn fd_values_with_mapping() {
    let mut fds = vec![Fd(3)];
    assert_eq!(encode_with(&process_fd(7), &mut fds), b"\x03\x00\x00\x00\x01");
    assert_eq!(fds, [Fd(3), Fd(7)]);
    assert_eq!(encode_with(&process_fd(3), &mut fds), b"\x03\x00\x00\x00\x00");
    assert_eq!(fds, [Fd(3), Fd(7)]);
    assert_eq!(encode_with(&encoded_fd(9, Identity), &mut fds), b"\x03\x00\x00\x00\x02");
    assert_eq!(fds, [Fd(3), Fd(7), Fd(9)]);
    assert_eq!(encode_with(&encoded_fd(9, NoConvert), &mut fds), b"\x03\xFF\xFF\xFF\xFF");
    assert_eq!(encode_with(&invalid_fd(), &mut fds), b"\x03\xFF\xFF\xFF\xFF");
    assert_eq!(fds, [Fd(3), Fd(7), Fd(9)]);
    // What holds no file descriptor is written as without a mapping.
    assert_eq!(encode_with(&str("Hi"), &mut fds), b"\x08Hi\x00");
    assert_eq!(encode_with(&integer(7u8), &mut fds), b"\x05\x07");
    assert_eq!(encode_with(&null(), &mut fds), b"");
    assert_eq!(fds, [Fd(3), Fd(7), Fd(9)]);
}

#[test]
fn fd_mapping_of_a_vector() {
    let mut fds: Vec<Fd> = Vec::new();
    assert_eq!(fds.map(Fd(7)), 0);
    assert_eq!(fds.map(Fd(6)), 1);
    assert_eq!(fds.map(Fd(7)), 0);
    assert_eq!(fds.map(Fd(5)), 2);
    assert_eq!(fds.map(Fd(6)), 1);
    assert_eq!(fds, [Fd(7), Fd(6), Fd(5)]);
}

#[test]
fn map_of_pairs() {
    let items = [(str("k"), integer(42i32))];
    let value = argdata::values::map::map(&items);
    assert_eq!(value.serialized_length(), 8);
    assert_eq!(encode(&value), b"\x06\x83\x08k\x00\x82\x05\x2A");
    assert_eq!(value.get_type(), Ok(Type::Mapping));
    assert_eq!(value.elements().len(), 1);
    let mut it = value.read_map().unwrap();
    let (k, v) = it.next().unwrap().unwrap();
    assert_eq!(k.read_str(), Ok("k"));
    assert_eq!(v.read_int::<i32>(), Ok(42));
    assert!(it.next().is_none());
    assert!(it.next().is_none());
    assert!(value.read_seq().is_err());
    // The encoding reads as the map does.
    let buf = encode(&value);
    let decoded = encoded(&buf);
    let mut it = decoded.read_map().unwrap();
    let (k, v) = it.next().unwrap().unwrap();
    assert_eq!(k.read_str(), Ok("k"));
    assert_eq!(v.read_int::<i32>(), Ok(42));
    assert!(it.next().is_none());
}

#[test]
fn map_of_a_pair_of_containers() {
    let keys = vec![str("a"), str("b"), str("c")];
    let values = [bool(false), bool(true)];
    let items = (keys, values);
    let value: MapValue<_> = argdata::values::map::map(&items);
    // The shorter of the two containers decides.
    assert_eq!(encode(&value), b"\x06\x83\x08a\x00\x81\x02\x83\x08b\x00\x82\x02\x01");
    let mut it = value.read_map().unwrap();
    let mut seen = Vec::new();
    while let Some(Ok((k, v))) = it.next() {
        seen.push((k.read_str().unwrap(), v.read_bool().unwrap()));
    }
    assert_eq!(seen, [("a", false), ("b", true)]);
    let empty: [(argdata::values::Null, argdata::values::Null); 0] = [];
    assert_eq!(encode(&argdata::values::map::map(&empty)), b"\x06");
}

#[test]
fn seq_of_items() {
    let items = vec![integer(0i32), integer(1), integer(2)];
    let value: SeqValue<_> = argdata::values::seq::seq(&items);
    assert_eq!(value.serialized_length(), 9);
    assert_eq!(encode(&value), b"\x07\x81\x05\x82\x05\x01\x82\x05\x02");
    assert_eq!(value.get_type(), Ok(Type::Sequence));
    assert_eq!(value.elements().len(), 3);
    let mut it = value.read_seq().unwrap();
    let mut seen = Vec::new();
    while let Some(Ok(item)) = it.next() {
        seen.push(item.read_int::<i32>().unwrap());
    }
    assert_eq!(seen, [0, 1, 2]);
    assert!(it.next().is_none());
    assert!(value.read_map().is_err());
    assert!(matches!(value.read(), Ok(Value::Sequence(_))));
    let empty: [argdata::values::Null; 0] = [];
    assert_eq!(encode(&argdata::values::seq::seq(&empty)), b"\x07");
}

#[test]
fn seq_of_long_items() {
    let long = "x".repeat(0x80);
    let items = [str(&long), str("")];
    let value = argdata::values::seq::seq(&items);
    let buf = encode(&value);
    assert_eq!(buf.len(), 1 + 2 + 0x82 + 1 + 2);
    assert_eq!(&buf[..4], b"\x07\x01\x82\x08");
    assert_eq!(&buf[buf.len() - 4..], b"\x00\x82\x08\x00");
    let decoded = encoded(&buf);
    let mut it = decoded.read_seq().unwrap();
    assert_eq!(it.next().unwrap().unwrap().read_str(), Ok(&long[..]));
    assert_eq!(it.next().unwrap().unwrap().read_str(), Ok(""));
    assert!(it.next().is_none());
}

#[test]
fn containers_of_every_kind() {
    let expected = b"\x07\x81\x02\x82\x02\x01";
    let vector = vec![bool(false), bool(true)];
    assert_eq!(encode(&argdata::values::seq::seq(&vector)), expected);
    let array = [bool(false), bool(true)];
    assert_eq!(encode(&argdata::values::seq::seq(&array)), expected);
    let boxed: Box<[argdata::values::Bool]> = Box::new([bool(false), bool(true)]);
    assert_eq!(encode(&argdata::values::seq::seq(&boxed)), expected);
    let counted: Rc<[argdata::values::Bool]> = Rc::new([bool(false), bool(true)]);
    assert_eq!(encode(&argdata::values::seq::seq(&counted)), expected);
    let shared: Arc<[argdata::values::Bool]> = Arc::new([bool(false), bool(true)]);
    assert_eq!(encode(&argdata::values::seq::seq(&shared)), expected);
}

#[test]
fn nested_values_with_mapping() {
    let inner = [process_fd(7), process_fd(6), process_fd(7)];
    let items = [argdata::values::seq::seq(&inner)];
    let outer = argdata::values::seq::seq(&items);
    assert_eq!(
        encode(&outer),
        b"\x07\x93\x07\x85\x03\x00\x00\x00\x07\x85\x03\x00\x00\x00\x06\x85\x03\x00\x00\x00\x07"
    );
    let mut fds = Vec::new();
    assert_eq!(
        encode_with(&outer, &mut fds),
        b"\x07\x93\x07\x85\x03\x00\x00\x00\x00\x85\x03\x00\x00\x00\x01\x85\x03\x00\x00\x00\x00"
    );
    assert_eq!(fds, [Fd(7), Fd(6)]);
    // Encoded values in a sequence are rewritten too.
    let plus_ten = ConvertFdFn::new(|raw| Ok(Fd(raw as i32 + 10)));
    let items = [
        encoded_with_fds(b"\x03\x00\x00\x00\x01", &plus_ten),
        encoded_with_fds(b"\x07\x85\x03\x00\x00\x00\x02", &plus_ten),
    ];
    let value = argdata::values::seq::seq(&items);
    let mut fds = vec![Fd(12)];
    assert_eq!(
        encode_with(&value, &mut fds),
        b"\x07\x85\x03\x00\x00\x00\x01\x87\x07\x85\x03\x00\x00\x00\x00"
    );
    assert_eq!(fds, [Fd(12), Fd(11)]);
    let pairs = [(process_fd(4), encoded_fd(4, Identity))];
    let mut fds = Vec::new();
    assert_eq!(
        encode_with(&argdata::values::map::map(&pairs), &mut fds),
        b"\x06\x85\x03\x00\x00\x00\x00\x85\x03\x00\x00\x00\x00"
    );
    assert_eq!(fds, [Fd(4)]);
}

#[test]
fn read_gives_the_value() {
    assert!(matches!(encoded(b"").read(), Ok(Value::Null)));
    assert!(matches!(encoded(b"\x01ab").read(), Ok(Value::Binary(b"ab"))));
    assert!(matches!(encoded(b"\x02\x01").read(), Ok(Value::Bool(true))));
    assert!(matches!(encoded(b"\x03\x00\x00\x00\x05").read(), Ok(Value::Fd(fd)) if fd.raw_encoded_number() == 5));
    assert!(matches!(
        encoded(b"\x04\x3F\xF8\x00\x00\x00\x00\x00\x00").read(),
        Ok(Value::Float(bits)) if f64::from_bits(bits) == 1.5
    ));
    assert!(matches!(encoded(b"\x05\x2A").read(), Ok(Value::Int(i)) if i == argdata::IntValue::from(42)));
    assert!(matches!(encoded(b"\x06").read(), Ok(Value::Mapping(_))));
    assert!(matches!(encoded(b"\x07").read(), Ok(Value::Sequence(_))));
    assert!(matches!(encoded(b"\x08Hi\x00").read(), Ok(Value::Str(s)) if s.as_bytes() == b"Hi"));
    assert!(matches!(
        encoded(b"\x09\x01").read(),
        Ok(Value::Timestamp(Timespec { sec: 0, nsec: 1 }))
    ));
    assert_eq!(encoded(b"\x02\x02").read().unwrap_err(), ReadError::InvalidBoolValue);
    assert_eq!(encoded(b"\x03\x00").read().unwrap_err(), ReadError::InvalidFdLength);
    assert_eq!(encoded(b"\x04\x00").read().unwrap_err(), ReadError::InvalidFloatLength);
    assert_eq!(encoded(b"\x08Hi").read().unwrap_err(), ReadError::MissingNullTerminator);
    assert_eq!(encoded(b"\x0B").read().unwrap_err(), ReadError::InvalidTag(11));
    assert_eq!(
        encoded(b"\x09\x7F\xFF\xFF\xFF\xFF\xFF\xFF\xFF\xFF\xFF\xFF\xFF").read().unwrap_err(),
        ReadError::TimestampOutOfRange
    );
    for value in &[encoded(b""), encoded(b"\x01ab"), encoded(b"\x07\x80")] {
        assert_eq!(value.read().unwrap().get_type(), value.get_type().unwrap());
    }
    assert_eq!(bool(true).read().unwrap().get_type(), Type::Bool);
    assert_eq!(NotRead::from(ReadError::InvalidUtf8), NotRead::Error(ReadError::InvalidUtf8));
    assert_eq!(NotRead::from(NoFit::OutOfRange), NotRead::NoFit(NoFit::OutOfRange));
}

#[test]
fn containers_of_encoded_values() {
    // A sequence that is built of encoded values is written, and read.
    let items = [encoded(b"\x05\x2A"), encoded(b"\x08Hi\x00"), encoded(b"")];
    let value = argdata::values::seq::seq(&items);
    assert_eq!(encode(&value), b"\x07\x82\x05\x2A\x84\x08Hi\x00\x80");
    let mut it = value.read_seq().unwrap();
    assert_eq!(it.next().unwrap().unwrap().read_int::<u8>(), Ok(42));
    assert_eq!(it.next().unwrap().unwrap().read_str(), Ok("Hi"));
    assert_eq!(it.next().unwrap().unwrap().read_null(), Ok(()));
    assert!(it.next().is_none());

    let pairs = [(encoded(b"\x08k\x00"), encoded_with_fds(b"\x03\x00\x00\x00\x07", NoConvert))];
    let value = argdata::values::map::map(&pairs);
    assert_eq!(encode(&value), b"\x06\x83\x08k\x00\x85\x03\x00\x00\x00\x07");
    let mut it = value.read_map().unwrap();
    let (k, v) = it.next().unwrap().unwrap();
    assert_eq!(k.read_str(), Ok("k"));
    assert_eq!(v.read_encoded_fd().unwrap().raw_encoded_number(), 7);
    assert!(it.next().is_none());

    // With a mapping, a malformed file descriptor in an item stays as it is,
    // and the prefix of the item stays true.
    let items = [
        encoded_with_fds(b"\x03\x00\x00\x00\x07", Identity),
        encoded_with_fds(b"\x03\x00", Identity),
    ];
    let value = argdata::values::seq::seq(&items);
    let mut fds = Vec::new();
    let out = encode_with(&value, &mut fds);
    assert_eq!(out, b"\x07\x85\x03\x00\x00\x00\x00\x82\x03\x00");
    assert_eq!(out.len(), value.serialized_length());
    assert_eq!(fds, [Fd(7)]);
}

#[test]
fn references_to_values_are_values() {
    let items = vec![integer(1u8), integer(2u8)];
    let value = argdata::values::seq::seq(&items);
    let reference = &value;
    assert_eq!(encode(&reference), encode(&value));
    assert_eq!(reference.get_type(), Ok(Type::Sequence));
    let mut it = match reference.read() {
        Ok(Value::Sequence(it)) => it,
        _ => panic!("a sequence reads as a sequence"),
    };
    assert_eq!(it.next().unwrap().unwrap().read_int::<u8>(), Ok(1));
    assert_eq!(it.next().unwrap().unwrap().read_int::<u8>(), Ok(2));
    assert!(it.next().is_none());
    let copy = it;
    let mut again = copy.clone();
    assert!(again.next().is_none());
    assert_eq!((&bool(true)).read_bool(), Ok(true));
}

#[test]
fn as_many_bytes_with_a_mapping_as_without() {
    let inner = [process_fd(7), process_fd(6)];
    let seq = argdata::values::seq::seq(&inner);
    let pairs = [(str("a"), encoded_fd(3, Identity)), (str("b"), encoded_fd(4, Identity))];
    let map = argdata::values::map::map(&pairs);
    let lost = [(str("c"), encoded_fd(5, NoConvert))];
    let lost = argdata::values::map::map(&lost);
    let mut fds = Vec::new();
    assert_eq!(encode_with(&seq, &mut fds).len(), seq.serialized_length());
    assert_eq!(encode_with(&map, &mut fds).len(), map.serialized_length());
    assert_eq!(encode_with(&lost, &mut fds).len(), lost.serialized_length());
    assert_eq!(encode_with(&invalid_fd(), &mut fds).len(), invalid_fd().serialized_length());
    assert_eq!(encode_with(&timestamp(Timespec { sec: 5, nsec: 6 }), &mut fds).len(), 6);
    assert_eq!(fds, [Fd(7), Fd(6), Fd(3), Fd(4)]);
}
