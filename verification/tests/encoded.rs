use argdata::fd::{ConvertFdFn, Fd, Identity};
use argdata::{
    encoded, encoded_with_fds, Argdata, ArgdataExt, MapIterator, NoFit, NotRead, ReadError,
    SeqIterator, Timespec, Type,
};

#[test]
fn get_type_test() {
    assert_eq!(encoded(b"").get_type(), Ok(Type::Null));
    assert_eq!(encoded(b"\x01").get_type(), Ok(Type::Binary));
    assert_eq!(encoded(b"\x02").get_type(), Ok(Type::Bool));
    assert_eq!(encoded(b"\x03").get_type(), Ok(Type::Fd));
    assert_eq!(encoded(b"\x04").get_type(), Ok(Type::Float));
    assert_eq!(encoded(b"\x05").get_type(), Ok(Type::Int));
    assert_eq!(encoded(b"\x06").get_type(), Ok(Type::Mapping));
    assert_eq!(encoded(b"\x07").get_type(), Ok(Type::Sequence));
    assert_eq!(encoded(b"\x08").get_type(), Ok(Type::Str));
    assert_eq!(encoded(b"\x09").get_type(), Ok(Type::Timestamp));
    assert_eq!(encoded(b"\x0A").get_type(), Err(ReadError::InvalidTag(10)));
}

#[test]
fn read_null_test() {
    assert_eq!(encoded(b"").read_null(), Ok(()));
    assert_eq!(encoded(b"\x01").read_null(), Err(NoFit::DifferentType.into()));
}

#[test]
fn read_binary_test() {
    assert_eq!(encoded(b"\x01").read_binary(), Ok(&b""[..]));
    assert_eq!(encoded(b"\x01\x00\x11\x22").read_binary(), Ok(&b"\x00\x11\x22"[..]));
    assert_eq!(encoded(b"").read_binary(), Err(NoFit::DifferentType.into()));
    assert_eq!(encoded(b"\x02").read_binary(), Err(NoFit::DifferentType.into()));
}

#[test]
fn read_bool_test() {
    assert_eq!(encoded(b"\x02").read_bool(), Ok(false));
    assert_eq!(encoded(b"\x02\x01").read_bool(), Ok(true));
    assert_eq!(encoded(b"\x02\x01\x01").read_bool(), Err(ReadError::InvalidBoolValue.into()));
    assert_eq!(encoded(b"\x02\x00").read_bool(), Err(ReadError::InvalidBoolValue.into()));
    assert_eq!(encoded(b"\x02\xFF").read_bool(), Err(ReadError::InvalidBoolValue.into()));
    assert_eq!(encoded(b"").read_bool(), Err(NoFit::DifferentType.into()));
    assert_eq!(encoded(b"\x01").read_bool(), Err(NoFit::DifferentType.into()));
}

#[test]
fn read_encoded_fd_test() {
    assert_eq!(
        encoded(b"\x03\x00\x00\x00\x00").read_encoded_fd().unwrap().raw_encoded_number(),
        0
    );
    assert_eq!(
        encoded(b"\x03\x00\x00\x01\x23").read_encoded_fd().unwrap().raw_encoded_number(),
        0x123
    );
    assert_eq!(
        encoded(b"\x03\xFF\xFF\xFF\xFF").read_encoded_fd().unwrap().raw_encoded_number(),
        !0
    );
    assert_eq!(
        encoded(b"\x03\x01").read_encoded_fd().unwrap_err(),
        ReadError::InvalidFdLength.into()
    );
    assert_eq!(encoded(b"\x03").read_encoded_fd().unwrap_err(), ReadError::InvalidFdLength.into());
    assert_eq!(
        encoded(b"\x0312345").read_encoded_fd().unwrap_err(),
        ReadError::InvalidFdLength.into()
    );
    assert_eq!(encoded(b"").read_encoded_fd().unwrap_err(), NoFit::DifferentType.into());
    assert_eq!(encoded(b"\x01").read_encoded_fd().unwrap_err(), NoFit::DifferentType.into());
}

#[test]
fn read_float_test() {
    assert_eq!(
        encoded(b"\x04\x00\x00\x00\x00\x00\x00\x00\x00").read_float().map(f64::from_bits),
        Ok(0.0)
    );
    assert_eq!(
        encoded(b"\x04\x3F\xF8\x00\x00\x00\x00\x00\x00").read_float().map(f64::from_bits),
        Ok(1.5)
    );
    assert_eq!(
        encoded(b"\x04\x7F\xF0\x00\x00\x00\x00\x00\x00").read_float().map(f64::from_bits),
        Ok(std::f64::INFINITY)
    );
    assert!(f64::from_bits(
        encoded(b"\x04\xFF\xFF\xFF\xFF\xFF\x00\x00\x00").read_float().unwrap()
    )
    .is_nan());
    assert_eq!(encoded(b"\x04123").read_float(), Err(ReadError::InvalidFloatLength.into()));
    assert_eq!(encoded(b"\x04").read_float(), Err(ReadError::InvalidFloatLength.into()));
    assert_eq!(encoded(b"\x04123456789").read_float(), Err(ReadError::InvalidFloatLength.into()));
    assert_eq!(encoded(b"").read_float(), Err(NoFit::DifferentType.into()));
    assert_eq!(encoded(b"\x01").read_float(), Err(NoFit::DifferentType.into()));
}

#[test]
fn read_int_test() {
    assert_eq!(encoded(b"\x05").read_int(), Ok(0));
    assert_eq!(encoded(b"\x05\x01").read_int(), Ok(1));
    assert_eq!(encoded(b"\x05\xFF").read_int(), Ok(-1));
    assert_eq!(encoded(b"\x05\x3F\xF8").read_int::<u16>(), Ok(0x3FF8));
    assert_eq!(encoded(b"\x05\x3F\xF8").read_int::<u8>(), Err(NoFit::OutOfRange.into()));
    assert_eq!(encoded(b"\x05\xFF").read_int::<u8>(), Err(NoFit::OutOfRange.into()));
    assert_eq!(encoded(b"").read_int_value(), Err(NoFit::DifferentType.into()));
    assert_eq!(encoded(b"\x04").read_int_value(), Err(NoFit::DifferentType.into()));
}

fn map_entries<'a, 'd, F: argdata::fd::ConvertFd + Copy>(
    mut it: MapIterator<'a, 'd, argdata::values::EncodedArgdata<'d, F>>,
) -> Vec<Result<(i32, i32), NotRead>> {
    let mut entries = Vec::new();
    while let Some(e) = it.next() {
        entries.push(match e {
            Ok((k, v)) => Ok((k.read_int().unwrap(), v.read_int().unwrap())),
            Err(e) => Err(e.into()),
        });
    }
    entries
}

fn seq_entries<'a, 'd, F: argdata::fd::ConvertFd + Copy>(
    mut it: SeqIterator<'a, 'd, argdata::values::EncodedArgdata<'d, F>>,
) -> Vec<Result<i32, NotRead>> {
    let mut entries = Vec::new();
    while let Some(e) = it.next() {
        entries.push(match e {
            Ok(v) => Ok(v.read_int().unwrap()),
            Err(e) => Err(e.into()),
        });
    }
    entries
}

#[test]
fn read_map_test() {
    assert_eq!(map_entries(encoded(b"\x06").read_map().unwrap()).len(), 0);
    assert_eq!(encoded(b"\x07").read_map().unwrap_err(), NoFit::DifferentType.into());
    assert_eq!(encoded(b"\x04").read_map().unwrap_err(), NoFit::DifferentType.into());
    assert_eq!(
        map_entries(
            encoded(b"\x06\x81\x05\x82\x05\x01\x82\x05\x02\x82\x05\x03").read_map().unwrap()
        ),
        [Ok((0, 1)), Ok((2, 3))]
    );
    assert_eq!(
        map_entries(encoded(b"\x06\x81\x05\x82\x05\x01\x82\x05\x02").read_map().unwrap()),
        [Ok((0, 1)), Err(ReadError::InvalidKeyValuePair.into())]
    );
}

#[test]
fn read_seq_test() {
    assert_eq!(seq_entries(encoded(b"\x07").read_seq().unwrap()).len(), 0);
    assert_eq!(encoded(b"\x06").read_seq().unwrap_err(), NoFit::DifferentType.into());
    assert_eq!(encoded(b"\x04").read_seq().unwrap_err(), NoFit::DifferentType.into());
    assert_eq!(
        seq_entries(encoded(b"\x07\x81\x05\x82\x05\x01\x82\x05\x02").read_seq().unwrap()),
        [Ok(0), Ok(1), Ok(2)]
    );
    assert_eq!(
        seq_entries(encoded(b"\x07\x81\x05\x82\x05\x01\x83\x05\x02").read_seq().unwrap()),
        [Ok(0), Ok(1), Err(ReadError::InvalidSubfield.into())]
    );
    assert_eq!(
        seq_entries(encoded(b"\x07\x81\x05\x82\x05\x01\x01\x01\x01").read_seq().unwrap()),
        [Ok(0), Ok(1), Err(ReadError::InvalidSubfield.into())]
    );
}

#[test]
fn read_str_test() {
    assert_eq!(encoded(b"\x08\x00").read_str(), Ok(""));
    assert_eq!(encoded(b"\x08Hello World!\x00").read_str(), Ok("Hello World!"));
    assert_eq!(encoded(b"\x08\xCE\xB1\xCE\xB2\xCE\xBE\xCE\xB4\x00").read_str(), Ok("αβξδ"));
    assert_eq!(encoded(b"\x08\x80abc\x00").read_str(), Err(ReadError::InvalidUtf8.into()));
    assert_eq!(encoded(b"\x08").read_str(), Err(ReadError::MissingNullTerminator.into()));
    assert_eq!(
        encoded(b"\x08Hello World!").read_str(),
        Err(ReadError::MissingNullTerminator.into())
    );
    assert_eq!(encoded(b"").read_str(), Err(NoFit::DifferentType.into()));
    assert_eq!(encoded(b"\x01").read_str(), Err(NoFit::DifferentType.into()));
}

#[test]
fn read_timestamp_test() {
    assert_eq!(encoded(b"\x09").read_timestamp(), Ok(Timespec { sec: 0, nsec: 0 }));
    assert_eq!(encoded(b"\x09\x01").read_timestamp(), Ok(Timespec { sec: 0, nsec: 1 }));
    assert_eq!(
        encoded(b"\x09\xFF").read_timestamp(),
        Ok(Timespec { sec: -1, nsec: 999_999_999 })
    );
    assert_eq!(
        encoded(b"\x09\x02\x54\x0B\xE4\x00").read_timestamp(),
        Ok(Timespec { sec: 10, nsec: 0 })
    );
    assert_eq!(
        encoded(b"\x09\x11\x22\x33\x44\x55\x66\x77\x88\x99\xAA").read_timestamp(),
        Ok(Timespec { sec: 80911113678783, nsec: 24503210 })
    );
    assert_eq!(
        encoded(b"\x09\x80\x00\x00\x00\x00\x00\x00\x00\x00\x01").read_timestamp(),
        Ok(Timespec { sec: -604462909807315, nsec: 412646913 })
    );
    assert_eq!(encoded(b"\x08").read_timestamp(), Err(NoFit::DifferentType.into()),);
}

#[test]
fn serialize_garbage_test() {
    // Garbage should be let through unmodified when not rewriting file
    // descriptors.
    let mut v = Vec::new();
    encoded(b"Foo Bar Baz").serialize::<Vec<Fd>>(&mut v, None);
    assert_eq!(&v, b"Foo Bar Baz");
}

#[test]
fn serialize_garbage_fd_test() {
    // Garbage should be let through unmodified even when rewriting file
    // descriptors.
    let mut v = Vec::new();
    let mut fds: Vec<Fd> = Vec::new();
    encoded(b"Foo Bar Baz").serialize(&mut v, Some(&mut fds));
    assert_eq!(&v, b"Foo Bar Baz");
    assert_eq!(&fds, &[]);
}

#[test]
fn serialize_invalid_fd_test() {
    let mut v = Vec::new();
    let mut fds: Vec<Fd> = Vec::new();
    encoded(b"\x03\x00\x00\x00\x01").serialize(&mut v, Some(&mut fds));
    assert_eq!(&v, b"\x03\xFF\xFF\xFF\xFF");
    assert_eq!(&fds, &[]);
}

#[test]
fn serialize_fd_test() {
    let mut v = Vec::new();
    let mut fds: Vec<Fd> = Vec::new();
    encoded_with_fds(b"\x03\x00\x00\x00\x07", Identity).serialize(&mut v, Some(&mut fds));
    assert_eq!(&v, b"\x03\x00\x00\x00\x00");
    assert_eq!(&fds, &[Fd(7)]);
}

#[test]
fn serialize_seq_fd_test() {
    let mut v = Vec::new();
    let mut fds: Vec<Fd> = Vec::new();
    let convert = ConvertFdFn::new(|fd| Ok(Fd(fd as i32 + 10)));
    encoded_with_fds(b"\x07\x85\x03\x00\x00\x00\x07\x85\x03\x00\x00\x00\x06\x84\x08Hi\x00\x85\x03\x00\x00\x00\x07", convert).serialize(&mut v, Some(&mut fds));
    assert_eq!(&v, b"\x07\x85\x03\x00\x00\x00\x00\x85\x03\x00\x00\x00\x01\x84\x08Hi\x00\x85\x03\x00\x00\x00\x00");
    assert_eq!(&fds, &[Fd(17), Fd(16)]);
}

#[test]
fn serialize_map_seq_fd_garbage_test() {
    // Even though the map ends in garbage, the fds in the part before it
    // should still be rewritten.
    let mut v = Vec::new();
    let mut fds: Vec<Fd> = Vec::new();
    encoded_with_fds(b"\x06\x98\x07\x85\x03\x00\x00\x00\x07\x85\x03\x00\x00\x00\x06\x84\x08Hi\x00\x85\x03\x00\x00\x00\x07\xFF\xFF", Identity).serialize(&mut v, Some(&mut fds));
    assert_eq!(&v, b"\x06\x98\x07\x85\x03\x00\x00\x00\x00\x85\x03\x00\x00\x00\x01\x84\x08Hi\x00\x85\x03\x00\x00\x00\x00\xFF\xFF");
    assert_eq!(&fds, &[Fd(7), Fd(6)]);
}
