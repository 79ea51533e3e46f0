//! Iteration over the values of a sequence.

use crate::errors::ReadError;
use crate::subfield::parse_subfield;
use crate::wire::tagged;
use std::marker::PhantomData;
use vstd::prelude::*;

verus! {

/// What a sequence with the encoding `wire` holds at `offset`: nothing more,
/// a malformed subfield, or the encoding of a value; and the offset behind it.
///
/// Something that is no sequence holds nothing.
pub open spec fn seq_step(wire: Seq<u8>, offset: int) -> (Option<Result<Seq<u8>, ReadError>>, int) {
    if !tagged(wire, 7) {
        (None, offset)
    } else {
        let (field, used) = parse_subfield(wire.skip(offset));
        (field, offset + used)
    }
}

/// Something that can be iterated over with a [`SeqIterator`].
///
/// Whatever holds the sequence, it is iterated over as its encoding is: each
/// step gives what [`seq_step`] finds in the encoding.
pub trait SeqIterable {
    /// What the sequence holds.
    type Item;

    /// The encoding of the sequence: that of [`crate::Argdata::wire`], for an
    /// argdata value.
    spec fn seq_encoding(&self) -> Seq<u8>;

    /// The offset in the encoding at which `cookie` stands, if it stands
    /// anywhere: that of [`crate::Argdata::offset_of`], for an argdata value.
    spec fn seq_offset_of(&self, cookie: usize) -> Option<int>;

    /// The encoding of an item of the sequence.
    spec fn item_encoding(item: &Self::Item) -> Seq<u8>;

    /// Reads the value at `cookie`, if there is any, and moves `cookie` behind
    /// it.
    ///
    /// What a cookie is depends on the sequence; a [`SeqIterator`] made by
    /// [`crate::Argdata::read_seq`] starts with a valid one.
    fn iter_seq_next(&self, cookie: &mut usize) -> (r: Option<Result<Self::Item, ReadError>>)
        requires
            self.seq_offset_of(*old(cookie)) is Some,
        ensures
            self.seq_offset_of(*final(cookie)) == Some(
                seq_step(self.seq_encoding(), self.seq_offset_of(*old(cookie))->0).1,
            ),
            match r {
                None => seq_step(self.seq_encoding(), self.seq_offset_of(*old(cookie))->0).0
                    is None,
                Some(Err(e)) => seq_step(
                    self.seq_encoding(),
                    self.seq_offset_of(*old(cookie))->0,
                ).0 == Some(Err::<Seq<u8>, ReadError>(e)),
                Some(Ok(item)) => seq_step(
                    self.seq_encoding(),
                    self.seq_offset_of(*old(cookie))->0,
                ).0 == Some(Ok::<Seq<u8>, ReadError>(Self::item_encoding(&item))),
            },
    ;
}

/// A reference to a sequence is iterated over as the sequence is.
impl<'r, A: SeqIterable> SeqIterable for &'r A {
    type Item = A::Item;

    open spec fn seq_encoding(&self) -> Seq<u8> {
        (**self).seq_encoding()
    }

    open spec fn seq_offset_of(&self, cookie: usize) -> Option<int> {
        (**self).seq_offset_of(cookie)
    }

    open spec fn item_encoding(item: &Self::Item) -> Seq<u8> {
        A::item_encoding(item)
    }

    fn iter_seq_next(&self, cookie: &mut usize) -> (r: Option<Result<Self::Item, ReadError>>) {
        (**self).iter_seq_next(cookie)
    }
}

/// An iterator over the values of an argdata sequence.
#[derive(Debug)]
pub struct SeqIterator<'a, 'd, R> {
    pub seq: &'a R,
    pub cookie: usize,
    /// The data of what is iterated over lives as long as `'d`.
    pub data: PhantomData<&'d [u8]>,
}

impl<'a, 'd, R> Clone for SeqIterator<'a, 'd, R> {
    /// An iterator over the same, at the same place.
    fn clone(&self) -> (r: Self)
        ensures
            r == *self,
    {
        SeqIterator { seq: self.seq, cookie: self.cookie, data: PhantomData }
    }
}

impl<'a, 'd, R> Copy for SeqIterator<'a, 'd, R> {

}

impl<'a, 'd, R: SeqIterable> SeqIterator<'a, 'd, R> {
    /// Whether the iterator stands at a place in its sequence.
    pub open spec fn wf(&self) -> bool {
        self.seq.seq_offset_of(self.cookie) is Some
    }

    /// The offset in the encoding of the sequence at which the iterator
    /// stands.
    pub open spec fn offset(&self) -> int {
        self.seq.seq_offset_of(self.cookie)->0
    }

    /// An iterator over `seq` that starts at `cookie`.
    pub fn new(seq: &'a R, cookie: usize) -> (it: Self)
        ensures
            it.seq == seq,
            it.cookie == cookie,
    {
        SeqIterator { seq, cookie, data: PhantomData }
    }

    /// Reads the next value of the sequence, if there is any.
    pub fn next(&mut self) -> (r: Option<Result<R::Item, ReadError>>)
        requires
            old(self).wf(),
        ensures
            final(self).wf(),
            final(self).seq == old(self).seq,
            final(self).offset() == seq_step(old(self).seq.seq_encoding(), old(self).offset()).1,
            match r {
                None => seq_step(old(self).seq.seq_encoding(), old(self).offset()).0 is None,
                Some(Err(e)) => seq_step(old(self).seq.seq_encoding(), old(self).offset()).0
                    == Some(Err::<Seq<u8>, ReadError>(e)),
                Some(Ok(item)) => seq_step(old(self).seq.seq_encoding(), old(self).offset()).0
                    == Some(Ok::<Seq<u8>, ReadError>(R::item_encoding(&item))),
            },
    {
        self.seq.iter_seq_next(&mut self.cookie)
    }
}

} // verus!
