//! Iteration over the keys and values of a map.

use crate::errors::ReadError;
use crate::subfield::parse_subfield;
use crate::wire::tagged;
use std::marker::PhantomData;
use vstd::prelude::*;

verus! {

/// What a map with the encoding `wire` holds at `offset`: nothing more, a
/// malformed subfield or a key without a value, or the encodings of a key and
/// its value; and the offset behind it.
///
/// Something that is no map holds nothing.
pub open spec fn map_step(wire: Seq<u8>, offset: int) -> (
    Option<Result<(Seq<u8>, Seq<u8>), ReadError>>,
    int,
) {
    let (key, key_used) = parse_subfield(wire.skip(offset));
    let (value, value_used) = parse_subfield(wire.skip(offset + key_used));
    if !tagged(wire, 6) {
        (None, offset)
    } else {
        match key {
            None => (None, offset + key_used),
            Some(Err(e)) => (Some(Err(e)), offset + key_used),
            Some(Ok(k)) => match value {
                None => (Some(Err(ReadError::InvalidKeyValuePair)), offset + key_used + value_used),
                Some(Err(e)) => (Some(Err(e)), offset + key_used + value_used),
                Some(Ok(v)) => (Some(Ok((k, v))), offset + key_used + value_used),
            },
        }
    }
}

/// Something that can be iterated over with a [`MapIterator`].
///
/// Whatever holds the map, it is iterated over as its encoding is: each step
/// gives what [`map_step`] finds in the encoding.
pub trait MapIterable {
    /// The keys of the map.
    type Key;

    /// The values of the map.
    type Value;

    /// The encoding of the map: that of [`crate::Argdata::wire`], for an
    /// argdata value.
    spec fn map_encoding(&self) -> Seq<u8>;

    /// The offset in the encoding at which `cookie` stands, if it stands
    /// anywhere: that of [`crate::Argdata::offset_of`], for an argdata value.
    spec fn map_offset_of(&self, cookie: usize) -> Option<int>;

    /// The encoding of a key of the map.
    spec fn key_encoding(key: &Self::Key) -> Seq<u8>;

    /// The encoding of a value of the map.
    spec fn value_encoding(value: &Self::Value) -> Seq<u8>;

    /// Reads the key and the value at `cookie`, if there are any, and moves
    /// `cookie` behind them.
    ///
    /// What a cookie is depends on the map; a [`MapIterator`] made by
    /// [`crate::Argdata::read_map`] starts with a valid one.
    fn iter_map_next(&self, cookie: &mut usize) -> (r: Option<
        Result<(Self::Key, Self::Value), ReadError>,
    >)
        requires
            self.map_offset_of(*old(cookie)) is Some,
        ensures
            self.map_offset_of(*final(cookie)) == Some(
                map_step(self.map_encoding(), self.map_offset_of(*old(cookie))->0).1,
            ),
            match r {
                None => map_step(self.map_encoding(), self.map_offset_of(*old(cookie))->0).0
                    is None,
                Some(Err(e)) => map_step(
                    self.map_encoding(),
                    self.map_offset_of(*old(cookie))->0,
                ).0 == Some(Err::<(Seq<u8>, Seq<u8>), ReadError>(e)),
                Some(Ok((key, value))) => map_step(
                    self.map_encoding(),
                    self.map_offset_of(*old(cookie))->0,
                ).0 == Some(
                    Ok::<(Seq<u8>, Seq<u8>), ReadError>(
                        (Self::key_encoding(&key), Self::value_encoding(&value)),
                    ),
                ),
            },
    ;
}

/// A reference to a map is iterated over as the map is.
impl<'r, A: MapIterable> MapIterable for &'r A {
    type Key = A::Key;

    type Value = A::Value;

    open spec fn map_encoding(&self) -> Seq<u8> {
        (**self).map_encoding()
    }

    open spec fn map_offset_of(&self, cookie: usize) -> Option<int> {
        (**self).map_offset_of(cookie)
    }

    open spec fn key_encoding(key: &Self::Key) -> Seq<u8> {
        A::key_encoding(key)
    }

    open spec fn value_encoding(value: &Self::Value) -> Seq<u8> {
        A::value_encoding(value)
    }

    fn iter_map_next(&self, cookie: &mut usize) -> (r: Option<
        Result<(Self::Key, Self::Value), ReadError>,
    >) {
        (**self).iter_map_next(cookie)
    }
}

/// An iterator over the keys and values of an argdata map.
#[derive(Debug)]
pub struct MapIterator<'a, 'd, R> {
    pub map: &'a R,
    pub cookie: usize,
    /// The data of what is iterated over lives as long as `'d`.
    pub data: PhantomData<&'d [u8]>,
}

impl<'a, 'd, R> Clone for MapIterator<'a, 'd, R> {
    /// An iterator over the same, at the same place.
    fn clone(&self) -> (r: Self)
        ensures
            r == *self,
    {
        MapIterator { map: self.map, cookie: self.cookie, data: PhantomData }
    }
}

impl<'a, 'd, R> Copy for MapIterator<'a, 'd, R> {

}

impl<'a, 'd, R: MapIterable> MapIterator<'a, 'd, R> {
    /// Whether the iterator stands at a place in its map.
    pub open spec fn wf(&self) -> bool {
        self.map.map_offset_of(self.cookie) is Some
    }

    /// The offset in the encoding of the map at which the iterator stands.
    pub open spec fn offset(&self) -> int {
        self.map.map_offset_of(self.cookie)->0
    }

    /// An iterator over `map` that starts at `cookie`.
    pub fn new(map: &'a R, cookie: usize) -> (it: Self)
        ensures
            it.map == map,
            it.cookie == cookie,
    {
        MapIterator { map, cookie, data: PhantomData }
    }

    /// Reads the next key of the map and its value, if there are any.
    pub fn next(&mut self) -> (r: Option<Result<(R::Key, R::Value), ReadError>>)
        requires
            old(self).wf(),
        ensures
            final(self).wf(),
            final(self).map == old(self).map,
            final(self).offset() == map_step(old(self).map.map_encoding(), old(self).offset()).1,
            match r {
                None => map_step(old(self).map.map_encoding(), old(self).offset()).0 is None,
                Some(Err(e)) => map_step(old(self).map.map_encoding(), old(self).offset()).0
                    == Some(Err::<(Seq<u8>, Seq<u8>), ReadError>(e)),
                Some(Ok((key, value))) => map_step(
                    old(self).map.map_encoding(),
                    old(self).offset(),
                ).0 == Some(
                    Ok::<(Seq<u8>, Seq<u8>), ReadError>(
                        (R::key_encoding(&key), R::value_encoding(&value)),
                    ),
                ),
            },
    {
        self.map.iter_map_next(&mut self.cookie)
    }
}

} // verus!
