//! Encoded argdata, decoded on demand.

use crate::argdata::{registered_in, Argdata};
use crate::endian::{append, read_int128, read_u32, read_u64, u32_bytes};
use crate::errors::{NoFit, NotRead, ReadError};
use crate::fd::{
    register_all, ConvertFd, EncodedFd, Fd, FdMapping, InvalidFd, NoConvert, INVALID_FD_NUMBER,
};
use crate::intvalue::IntValue;
use crate::mapiterator::{MapIterable, MapIterator};
use crate::seqiterator::{SeqIterable, SeqIterator};
use crate::strvalue::StrValue;
use crate::subfield::{lemma_parse_subfield_bounds, parse_subfield, read_subfield};
use crate::timespec::Timespec;
use crate::value::Type;
use crate::wire::{
    body, fd_wire, lemma_fd_roundtrip, lemma_register_all_append, lemma_register_all_grows,
    lemma_rewritten_len, local_fds_in,
    local_fds_in_fields, numbers_agree, rewritten, rewritten_fields, tagged,
};
use std::marker::PhantomData;
use vstd::prelude::*;

verus! {

/// An encoded argdata value, which is decoded on demand.
#[derive(Clone, Copy, Debug)]
pub struct EncodedArgdata<'d, F> {
    pub encoded: &'d [u8],
    pub convert_fd: F,
}

impl<'d, F: ConvertFd> EncodedArgdata<'d, F> {
    /// The encoded bytes.
    pub fn bytes(&self) -> (bytes: &'d [u8])
        ensures
            bytes == self.encoded,
    {
        self.encoded
    }
}

/// An argdata value of encoded bytes, in which no file descriptor number
/// stands for a file descriptor of this process.
///
/// The bytes are decoded on demand.
pub fn encoded<'d>(bytes: &'d [u8]) -> (r: EncodedArgdata<'d, NoConvert>)
    ensures
        r.encoded == bytes,
{
    EncodedArgdata { encoded: bytes, convert_fd: NoConvert }
}

/// An argdata value of encoded bytes, in which `convert_fd` converts the file
/// descriptor numbers to file descriptors of this process.
///
/// The bytes are decoded on demand.
pub fn encoded_with_fds<'d, F: ConvertFd>(bytes: &'d [u8], convert_fd: F) -> (r: EncodedArgdata<
    'd,
    F,
>)
    ensures
        r.encoded == bytes,
        r.convert_fd == convert_fd,
{
    EncodedArgdata { encoded: bytes, convert_fd }
}

/// Appends to `out` the encoding of a file descriptor with the number `raw`.
pub(crate) fn write_fd(raw: u32, out: &mut Vec<u8>)
    ensures
        final(out)@ == old(out)@ + fd_wire(raw),
{
    let number = u32_bytes(raw);
    out.push(3);
    append(out, number.as_slice());
    assert(out@ =~= old(out)@ + fd_wire(raw));
}

/// Appends to `out` the encoding of the file descriptor `source`, rewritten:
/// under the number that `fd_map` gives to what `convert_fd` finds for the
/// encoded number, or under the invalid number where it finds nothing.
///
/// A file descriptor whose body is not of four bytes is copied as it is.
fn rewrite_fd<C: ConvertFd, M: FdMapping>(
    source: &[u8],
    convert_fd: &C,
    out: &mut Vec<u8>,
    fd_map: &mut M,
)
    requires
        tagged(source@, 3),
    ensures
        final(out)@.len() == old(out)@.len() + source@.len(),
        registered_in(old(fd_map), final(fd_map), local_fds_in(source@, *convert_fd)),
        forall|numbers: spec_fn(Fd) -> u32| #[trigger]
            numbers_agree(numbers, final(fd_map)) ==> final(out)@ == old(out)@ + rewritten(
                source@,
                *convert_fd,
                numbers,
            ),
{
    if source.len() == 5 {
        let raw = read_u32(&source[1..5]);
        assert(source@.subrange(1, 5).subrange(0, 4) =~= body(source@));
        match convert_fd.convert_fd(raw) {
            Ok(fd) => {
                let number = fd_map.map(fd);
                write_fd(number, out);
                proof {
                    lemma_fd_roundtrip(number);
                    reveal_with_fuel(register_all, 2);
                    assert(seq![fd].drop_first() =~= Seq::<Fd>::empty());
                    assert(fd_map.registered().contains(fd)) by {
                        if old(fd_map).registered().contains(fd) {
                        } else {
                            assert(fd_map.registered()[old(fd_map).registered().len() as int]
                                == fd);
                        }
                    }
                }
            },
            Err(_) => {
                write_fd(INVALID_FD_NUMBER, out);
                proof {
                    lemma_fd_roundtrip(INVALID_FD_NUMBER);
                }
            },
        }
    } else {
        append(out, source);
        proof {
            reveal_with_fuel(register_all, 1);
        }
    }
}

/// Appends to `out` the encoding `source`, rewritten for the table of
/// `fd_map`.
///
/// Each file descriptor in `source`, at any depth of maps and sequences, is
/// converted by `convert_fd`, registered in `fd_map`, and written under the
/// number that `fd_map` gives it. All else is copied, malformed data too: as
/// many bytes are written as `source` has.
pub fn rewrite_serialized<C: ConvertFd, M: FdMapping>(
    source: &[u8],
    convert_fd: &C,
    out: &mut Vec<u8>,
    fd_map: &mut M,
)
    ensures
        final(out)@.len() == old(out)@.len() + source@.len(),
        registered_in(old(fd_map), final(fd_map), local_fds_in(source@, *convert_fd)),
        forall|numbers: spec_fn(Fd) -> u32| #[trigger]
            numbers_agree(numbers, final(fd_map)) ==> final(out)@ == old(out)@ + rewritten(
                source@,
                *convert_fd,
                numbers,
            ),
    decreases source@.len(),
{
    let len = source.len();
    if len > 0 && (source[0] == 6 || source[0] == 7) {
        append(out, &source[0..1]);
        let mut offset: usize = 1;
        proof {
            assert(source@.subrange(0, 1) =~= seq![source@[0]]);
            assert forall|numbers: spec_fn(Fd) -> u32| #[trigger]
                numbers_agree(numbers, fd_map) implies out@ + rewritten_fields(
                source@.skip(1),
                *convert_fd,
                numbers,
            ) == old(out)@ + rewritten(source@, *convert_fd, numbers) by {
                assert(out@ + rewritten_fields(source@.skip(1), *convert_fd, numbers) =~= old(
                    out,
                )@ + (seq![source@[0]] + rewritten_fields(source@.skip(1), *convert_fd, numbers)));
            }
        }
        loop
            invariant_except_break
                register_all(
                    fd_map.registered(),
                    local_fds_in_fields(source@.skip(offset as int), *convert_fd),
                ) == register_all(old(fd_map).registered(), local_fds_in(source@, *convert_fd)),
                forall|numbers: spec_fn(Fd) -> u32| #[trigger]
                    numbers_agree(numbers, fd_map) ==> out@ + rewritten_fields(
                        source@.skip(offset as int),
                        *convert_fd,
                        numbers,
                    ) == old(out)@ + rewritten(source@, *convert_fd, numbers),
            invariant
                1 <= offset <= len == source@.len(),
                tagged(source@, 6) || tagged(source@, 7),
                forall|fd: Fd| #[trigger]
                    old(fd_map).registered().contains(fd) ==> fd_map.registered().contains(fd)
                        && fd_map.number(fd) == old(fd_map).number(fd),
            ensures
                registered_in(old(fd_map), fd_map, local_fds_in(source@, *convert_fd)),
                forall|numbers: spec_fn(Fd) -> u32| #[trigger]
                    numbers_agree(numbers, fd_map) ==> out@ == old(out)@ + rewritten(
                        source@,
                        *convert_fd,
                        numbers,
                    ),
            decreases len - offset,
        {
            let ghost data = source@.skip(offset as int);
            let ghost before_out = out@;
            let ghost before = *fd_map;
            let rest = &source[offset..len];
            assert(rest@ =~= data);
            proof {
                lemma_parse_subfield_bounds(data);
            }
            let (field, used) = read_subfield(rest);
            match field {
                Some(Ok(subfield)) => {
                    let prefix_end = offset + used - subfield.len();
                    append(out, &source[offset..prefix_end]);
                    rewrite_serialized(subfield, convert_fd, out, fd_map);
                    proof {
                        let first = local_fds_in(subfield@, *convert_fd);
                        let after = source@.skip(offset + used);
                        assert(data.skip(used as int) =~= after);
                        assert(source@.subrange(offset as int, prefix_end as int) =~= data.subrange(
                            0,
                            used - subfield@.len(),
                        ));
                        lemma_register_all_append(
                            before.registered(),
                            first,
                            local_fds_in_fields(after, *convert_fd),
                        );
                        lemma_register_all_grows(before.registered(), first);
                        assert forall|numbers: spec_fn(Fd) -> u32| #[trigger]
                            numbers_agree(numbers, fd_map) implies out@ + rewritten_fields(
                            after,
                            *convert_fd,
                            numbers,
                        ) == old(out)@ + rewritten(source@, *convert_fd, numbers) by {
                            assert(numbers_agree(numbers, &before));
                            let prefix = data.subrange(0, used - subfield@.len());
                            let inner = rewritten(subfield@, *convert_fd, numbers);
                            let tail = rewritten_fields(after, *convert_fd, numbers);
                            assert(rewritten_fields(data, *convert_fd, numbers) == prefix + inner
                                + tail);
                            assert(out@ + tail =~= before_out + (prefix + inner + tail));
                        }
                    }
                    offset = offset + used;
                },
                _ => {
                    append(out, rest);
                    proof {
                        reveal_with_fuel(register_all, 1);
                        assert forall|numbers: spec_fn(Fd) -> u32| #[trigger]
                            numbers_agree(numbers, fd_map) implies out@ == old(out)@ + rewritten(
                            source@,
                            *convert_fd,
                            numbers,
                        ) by {
                            assert(rewritten_fields(data, *convert_fd, numbers) == data);
                        }
                    }
                    break ;
                },
            }
        }
        proof {
            let numbers = |fd: Fd| fd_map.number(fd);
            assert(numbers_agree(numbers, fd_map));
            lemma_rewritten_len(source@, *convert_fd, numbers);
        }
    } else if len > 0 && source[0] == 3 {
        rewrite_fd(source, convert_fd, out, fd_map);
    } else {
        append(out, source);
        proof {
            reveal_with_fuel(register_all, 1);
        }
    }
}

impl<'d, F: ConvertFd> Argdata<'d> for EncodedArgdata<'d, F> {
    type Convert = F;

    open spec fn wire(&self) -> Seq<u8> {
        self.encoded@
    }

    open spec fn local_fds(&self) -> Seq<Fd> {
        local_fds_in(self.encoded@, self.convert_fd)
    }

    open spec fn remapped(&self, numbers: spec_fn(Fd) -> u32) -> Seq<u8> {
        rewritten(self.encoded@, self.convert_fd, numbers)
    }

    open spec fn fd_of(&self, raw: u32) -> Result<Fd, InvalidFd> {
        self.convert_fd.fd_of(raw)
    }

    /// A cookie is an offset in the encoded bytes, behind the tag.
    open spec fn offset_of(&self, cookie: usize) -> Option<int> {
        if 1 <= cookie <= self.encoded@.len() {
            Some(cookie as int)
        } else {
            None
        }
    }

    fn get_type(&self) -> (r: Result<Type, ReadError>) {
        if self.encoded.len() == 0 {
            return Ok(Type::Null);
        }
        let tag = self.encoded[0];
        if tag == 1 {
            Ok(Type::Binary)
        } else if tag == 2 {
            Ok(Type::Bool)
        } else if tag == 3 {
            Ok(Type::Fd)
        } else if tag == 4 {
            Ok(Type::Float)
        } else if tag == 5 {
            Ok(Type::Int)
        } else if tag == 6 {
            Ok(Type::Mapping)
        } else if tag == 7 {
            Ok(Type::Sequence)
        } else if tag == 8 {
            Ok(Type::Str)
        } else if tag == 9 {
            Ok(Type::Timestamp)
        } else {
            Err(ReadError::InvalidTag(tag))
        }
    }

    fn read_null(&self) -> (r: Result<(), NotRead>) {
        if self.encoded.len() == 0 {
            Ok(())
        } else {
            Err(NotRead::NoFit(NoFit::DifferentType))
        }
    }

    fn read_binary(&self) -> (r: Result<&'d [u8], NotRead>) {
        let len = self.encoded.len();
        if len > 0 && self.encoded[0] == 1 {
            let data = &self.encoded[1..len];
            assert(data@ =~= body(self.encoded@));
            Ok(data)
        } else {
            Err(NotRead::NoFit(NoFit::DifferentType))
        }
    }

    fn read_bool(&self) -> (r: Result<bool, NotRead>) {
        let len = self.encoded.len();
        if len == 0 || self.encoded[0] != 2 {
            Err(NotRead::NoFit(NoFit::DifferentType))
        } else if len == 1 {
            Ok(false)
        } else if len == 2 && self.encoded[1] == 1 {
            Ok(true)
        } else {
            Err(NotRead::Error(ReadError::InvalidBoolValue))
        }
    }

    fn read_encoded_fd<'a>(&'a self) -> (r: Result<EncodedFd<&'a F>, NotRead>) where
        'd: 'a,
     {
        let len = self.encoded.len();
        if len == 0 || self.encoded[0] != 3 {
            Err(NotRead::NoFit(NoFit::DifferentType))
        } else if len == 5 {
            let raw = read_u32(&self.encoded[1..5]);
            assert(self.encoded@.subrange(1, 5).subrange(0, 4) =~= body(self.encoded@));
            Ok(EncodedFd { raw, convert_fd: &self.convert_fd })
        } else {
            Err(NotRead::Error(ReadError::InvalidFdLength))
        }
    }

    fn read_float(&self) -> (r: Result<u64, NotRead>) {
        let len = self.encoded.len();
        if len == 0 || self.encoded[0] != 4 {
            Err(NotRead::NoFit(NoFit::DifferentType))
        } else if len == 9 {
            let bits = read_u64(&self.encoded[1..9]);
            assert(self.encoded@.subrange(1, 9).subrange(0, 8) =~= body(self.encoded@));
            Ok(bits)
        } else {
            Err(NotRead::Error(ReadError::InvalidFloatLength))
        }
    }

    fn read_int_value(&self) -> (r: Result<IntValue<'d>, NotRead>) {
        let len = self.encoded.len();
        if len > 0 && self.encoded[0] == 5 {
            let data = &self.encoded[1..len];
            assert(data@ =~= body(self.encoded@));
            Ok(IntValue::from_bigint(data))
        } else {
            Err(NotRead::NoFit(NoFit::DifferentType))
        }
    }

    fn read_map<'a>(&'a self) -> (r: Result<MapIterator<'a, 'd, Self>, NotRead>) where 'd: 'a {
        if self.encoded.len() > 0 && self.encoded[0] == 6 {
            Ok(MapIterator { map: self, cookie: 1, data: PhantomData })
        } else {
            Err(NotRead::NoFit(NoFit::DifferentType))
        }
    }

    fn read_seq<'a>(&'a self) -> (r: Result<SeqIterator<'a, 'd, Self>, NotRead>) where 'd: 'a {
        if self.encoded.len() > 0 && self.encoded[0] == 7 {
            Ok(SeqIterator { seq: self, cookie: 1, data: PhantomData })
        } else {
            Err(NotRead::NoFit(NoFit::DifferentType))
        }
    }

    fn read_str_value(&self) -> (r: Result<StrValue<'d>, NotRead>) {
        let len = self.encoded.len();
        if len == 0 || self.encoded[0] != 8 {
            Err(NotRead::NoFit(NoFit::DifferentType))
        } else if len >= 2 && self.encoded[len - 1] == 0 {
            let data = &self.encoded[1..len];
            assert(data@ =~= body(self.encoded@));
            Ok(StrValue::from_bytes_with_nul(data))
        } else {
            Err(NotRead::Error(ReadError::MissingNullTerminator))
        }
    }

    fn read_timestamp(&self) -> (r: Result<Timespec, NotRead>) {
        let len = self.encoded.len();
        if len == 0 || self.encoded[0] != 9 {
            return Err(NotRead::NoFit(NoFit::DifferentType));
        }
        let data = &self.encoded[1..len];
        assert(data@ =~= body(self.encoded@));
        // Twelve bytes are enough for the nanoseconds of any number of
        // seconds that fits in 64 bits.
        if data.len() > 12 {
            return Err(NotRead::Error(ReadError::TimestampOutOfRange));
        }
        let nanos: i128 = if data.len() == 0 {
            0
        } else {
            assert(data@.subrange(0, data@.len() as int) =~= data@);
            read_int128(data, data.len())
        };
        let mut sec = nanos / 1_000_000_000;
        let mut nsec = nanos % 1_000_000_000;
        if nsec < 0 {
            nsec += 1_000_000_000;
            sec -= 1;
        }
        if sec < i64::MIN as i128 || sec > i64::MAX as i128 {
            return Err(NotRead::Error(ReadError::TimestampOutOfRange));
        }
        Ok(Timespec { sec: sec as i64, nsec: nsec as u32 })
    }

    fn serialized_length(&self) -> (n: usize) {
        self.encoded.len()
    }

    fn serialize<M: FdMapping>(&self, out: &mut Vec<u8>, fd_map: Option<&mut M>) {
        match fd_map {
            Some(mapping) => rewrite_serialized(self.encoded, &self.convert_fd, out, mapping),
            None => append(out, self.encoded),
        }
    }
}

impl<'d, F: ConvertFd + Copy> EncodedArgdata<'d, F> {
    /// Reads the subfield at `offset`, if there is any, and moves `offset`
    /// behind it.
    fn iter_subfield_next(&self, offset: &mut usize) -> (r: Option<
        Result<EncodedArgdata<'d, F>, ReadError>,
    >)
        requires
            1 <= *old(offset) <= self.encoded@.len(),
        ensures
            *old(offset) <= *final(offset) <= self.encoded@.len(),
            *final(offset) == *old(offset) + parse_subfield(
                self.encoded@.skip(*old(offset) as int),
            ).1,
            match r {
                None => parse_subfield(self.encoded@.skip(*old(offset) as int)).0 is None,
                Some(Err(e)) => parse_subfield(self.encoded@.skip(*old(offset) as int)).0 == Some(
                    Err::<Seq<u8>, ReadError>(e),
                ),
                Some(Ok(item)) => parse_subfield(self.encoded@.skip(*old(offset) as int)).0
                    == Some(Ok::<Seq<u8>, ReadError>(item.encoded@)) && item.convert_fd
                    == self.convert_fd,
            },
    {
        let rest = &self.encoded[*offset..self.encoded.len()];
        assert(rest@ =~= self.encoded@.skip(*offset as int));
        proof {
            lemma_parse_subfield_bounds(rest@);
        }
        let (result, used) = read_subfield(rest);
        *offset = *offset + used;
        match result {
            None => None,
            Some(Err(e)) => Some(Err(e)),
            Some(Ok(field)) => Some(
                Ok(EncodedArgdata { encoded: field, convert_fd: self.convert_fd }),
            ),
        }
    }
}

impl<'d, F: ConvertFd + Copy> SeqIterable for EncodedArgdata<'d, F> {
    type Item = EncodedArgdata<'d, F>;

    open spec fn seq_encoding(&self) -> Seq<u8> {
        self.encoded@
    }

    /// A cookie is an offset in the encoded bytes, behind the tag.
    open spec fn seq_offset_of(&self, cookie: usize) -> Option<int> {
        if 1 <= cookie <= self.encoded@.len() {
            Some(cookie as int)
        } else {
            None
        }
    }

    open spec fn item_encoding(item: &Self::Item) -> Seq<u8> {
        item.encoded@
    }

    fn iter_seq_next(&self, cookie: &mut usize) -> (r: Option<Result<Self::Item, ReadError>>)
        ensures
            r matches Some(Ok(item)) ==> item.convert_fd == self.convert_fd,
    {
        if self.encoded.len() == 0 || self.encoded[0] != 7 {
            return None;
        }
        self.iter_subfield_next(cookie)
    }
}

impl<'d, F: ConvertFd + Copy> MapIterable for EncodedArgdata<'d, F> {
    type Key = EncodedArgdata<'d, F>;

    type Value = EncodedArgdata<'d, F>;

    open spec fn map_encoding(&self) -> Seq<u8> {
        self.encoded@
    }

    /// A cookie is an offset in the encoded bytes, behind the tag.
    open spec fn map_offset_of(&self, cookie: usize) -> Option<int> {
        if 1 <= cookie <= self.encoded@.len() {
            Some(cookie as int)
        } else {
            None
        }
    }

    open spec fn key_encoding(key: &Self::Key) -> Seq<u8> {
        key.encoded@
    }

    open spec fn value_encoding(value: &Self::Value) -> Seq<u8> {
        value.encoded@
    }

    fn iter_map_next(&self, cookie: &mut usize) -> (r: Option<
        Result<(Self::Key, Self::Value), ReadError>,
    >)
        ensures
            r matches Some(Ok((key, value))) ==> key.convert_fd == self.convert_fd
                && value.convert_fd == self.convert_fd,
    {
        if self.encoded.len() == 0 || self.encoded[0] != 6 {
            return None;
        }
        let key = match self.iter_subfield_next(cookie) {
            None => return None,
            Some(Ok(v)) => v,
            Some(Err(e)) => return Some(Err(e)),
        };
        match self.iter_subfield_next(cookie) {
            None => Some(Err(ReadError::InvalidKeyValuePair)),
            Some(Ok(value)) => Some(Ok((key, value))),
            Some(Err(e)) => Some(Err(e)),
        }
    }
}

} // verus!
