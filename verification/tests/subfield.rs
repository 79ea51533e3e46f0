use argdata::subfield::{
    read_subfield, subfield_length, subfield_length_length, write_subfield_length,
};
use argdata::ReadError;

#[test]
fn test_subfield_length() {
    assert_eq!(subfield_length(0), 1 + 0);
    assert_eq!(subfield_length(1), 1 + 1);
    assert_eq!(subfield_length(0x7F), 1 + 0x7F);
    assert_eq!(subfield_length(0x80), 2 + 0x80);
    assert_eq!(subfield_length(0x3FFF), 2 + 0x3FFF);
    assert_eq!(subfield_length(0x4000), 3 + 0x4000);
}

#[test]
fn test_write_subfield_length() {
    let mut v = Vec::new();
    write_subfield_length(0, &mut v);
    assert_eq!(v, &[0x80]);

    let mut v = Vec::new();
    write_subfield_length(1, &mut v);
    assert_eq!(v, &[0x81]);

    let mut v = Vec::new();
    write_subfield_length(0x80, &mut v);
    assert_eq!(v, &[0x01, 0x80]);

    let mut v = Vec::new();
    write_subfield_length(0x3FFF, &mut v);
    assert_eq!(v, &[0x7F, 0xFF]);

    let mut v = Vec::new();
    write_subfield_length(0x4000, &mut v);
    assert_eq!(v, &[0x01, 0x00, 0x80]);
}

#[test]
fn subfield_length_length_by_bits() {
    // One byte for every seven bits of the length, and one for zero.
    for &(length, expected) in &[
        (0usize, 1usize),
        (1, 1),
        (0x7F, 1),
        (0x80, 2),
        (0x3FFF, 2),
        (0x4000, 3),
        (0x1F_FFFF, 3),
        (0x20_0000, 4),
        (0xFFFF_FFFF, 5),
    ] {
        assert_eq!(subfield_length_length(length), expected);
        let bits = (usize::BITS - (length | 1).leading_zeros()) as usize;
        assert_eq!(subfield_length_length(length), (bits + 6) / 7);
    }
    assert_eq!(subfield_length_length(usize::MAX), (usize::BITS as usize + 6) / 7);
}

#[test]
fn read_subfield_cases() {
    // Nothing is left.
    assert_eq!(read_subfield(b""), (None, 0));
    // An empty subfield.
    assert_eq!(read_subfield(b"\x80"), (Some(Ok(&b""[..])), 1));
    // A subfield and what follows it.
    assert_eq!(read_subfield(b"\x82\x05\x01rest"), (Some(Ok(&b"\x05\x01"[..])), 3));
    // A length of two bytes.
    let mut data = vec![0x01, 0x80];
    data.extend(std::iter::repeat(7u8).take(0x80));
    data.push(0xAA);
    let (field, used) = read_subfield(&data);
    assert_eq!(field, Some(Ok(&data[2..0x82])));
    assert_eq!(used, 0x82);
    // The length is cut off.
    assert_eq!(read_subfield(b"\x01\x01\x01"), (Some(Err(ReadError::InvalidSubfield)), 3));
    // The length asks for more than there is.
    assert_eq!(read_subfield(b"\x83\x05\x02"), (Some(Err(ReadError::InvalidSubfield)), 3));
    // The length does not fit in a machine word.
    let huge = [0x7Fu8; 11];
    assert_eq!(read_subfield(&huge), (Some(Err(ReadError::InvalidSubfield)), 11));
    let huge = b"\x7F\x7F\x7F\x7F\x7F\x7F\x7F\x7F\x7F\x7F\xFF";
    assert_eq!(read_subfield(huge), (Some(Err(ReadError::InvalidSubfield)), 11));
}

#[test]
fn subfield_length_roundtrip() {
    for &length in &[0usize, 1, 2, 0x7F, 0x80, 0x81, 0x3FFF, 0x4000, 0x12345] {
        let mut data = Vec::new();
        write_subfield_length(length, &mut data);
        assert_eq!(data.len(), subfield_length_length(length));
        data.extend(std::iter::repeat(0x55u8).take(length));
        assert_eq!(data.len(), subfield_length(length));
        data.extend_from_slice(b"\x00\x01");
        let (field, used) = read_subfield(&data);
        assert_eq!(field.unwrap().unwrap().len(), length);
        assert_eq!(used, subfield_length(length));
    }
}
