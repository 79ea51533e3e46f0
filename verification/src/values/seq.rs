//! Sequences of values.

use crate::argdata::{registered_in, Argdata, Built};
use crate::container_traits::Container;
use crate::errors::ReadError;
use crate::fd::{register_all, Fd, FdMapping, InvalidFd, NoConvert};
use crate::seqiterator::{SeqIterable, SeqIterator};
use crate::subfield::{
    framed, lemma_parse_framed, length_prefix, subfield_length, write_subfield_length,
};
use crate::value::Value;
use crate::wire::{
    framed_all, lemma_framed_all_at, lemma_register_all_append, lemma_register_all_grows,
    numbers_agree, seq_wire,
};
use std::marker::PhantomData;
use vstd::prelude::*;

verus! {

/// The encodings of `items`, in their order.
pub open spec fn wires<'d, A: Argdata<'d>>(items: Seq<A>) -> Seq<Seq<u8>> {
    Seq::new(items.len(), |i: int| items[i].wire())
}

/// The file descriptors of this process in `items`, in their order.
pub open spec fn fds_of<'d, A: Argdata<'d>>(items: Seq<A>) -> Seq<Fd>
    decreases items.len(),
{
    if items.len() == 0 {
        seq![]
    } else {
        fds_of(items.drop_last()) + items.last().local_fds()
    }
}

/// The subfields of `items` with the file descriptors in them under the
/// numbers that `numbers` gives.
///
/// Each subfield gives the length of its item, which the numbers do not
/// change.
pub open spec fn remapped_fields<'d, A: Argdata<'d>>(
    items: Seq<A>,
    numbers: spec_fn(Fd) -> u32,
) -> Seq<u8>
    decreases items.len(),
{
    if items.len() == 0 {
        seq![]
    } else {
        remapped_fields(items.drop_last(), numbers) + length_prefix(items.last().wire().len())
            + items.last().remapped(numbers)
    }
}

/// An argdata value that is a sequence of the items of a container.
#[derive(Debug)]
pub struct SeqValue<'d, T: Container> where T::Item: Argdata<'d> {
    items: &'d T,
    length: usize,
}

impl<'d, T: Container> View for SeqValue<'d, T> where T::Item: Argdata<'d> {
    type V = Seq<T::Item>;

    /// The items of the sequence.
    closed spec fn view(&self) -> Seq<T::Item> {
        self.items.items()
    }
}

/// An argdata value that is the sequence of the items of `items`.
///
/// The length of the encoding is computed here, once.
pub fn seq<'d, T: Container>(items: &'d T) -> (r: SeqValue<'d, T>) where T::Item: Argdata<'d>
    requires
        seq_wire(wires(items.items())).len() <= usize::MAX,
    ensures
        r@ == items.items(),
{
    let ghost all = wires(items.items());
    let n = items.len();
    let mut length: usize = 1;
    let mut i: usize = 0;
    assert(framed_all(all.take(0)) =~= Seq::<u8>::empty());
    while i < n
        invariant
            i <= n == items.items().len(),
            all == wires(items.items()),
            length == 1 + framed_all(all.take(i as int)).len(),
            1 + framed_all(all).len() <= usize::MAX,
        decreases n - i,
    {
        proof {
            lemma_framed_all_at(all, i as int);
            lemma_framed_all_at(all, i + 1);
        }
        match items.get(i) {
            Some(item) => {
                length += subfield_length(item.serialized_length());
            },
            None => {},
        }
        i += 1;
    }
    assert(all.take(n as int) =~= all);
    SeqValue { items, length }
}

impl<'d, T: Container> SeqValue<'d, T> where T::Item: Argdata<'d> {
    #[verifier::type_invariant]
    spec fn wf(self) -> bool {
        self.length == seq_wire(wires(self.items.items())).len()
    }

    /// The container of the items.
    pub fn elements(&self) -> (items: &'d T)
        ensures
            items.items() == self@,
    {
        self.items
    }

    /// Appends the encoding of the sequence to `out`.
    fn encode_plain(&self, out: &mut Vec<u8>)
        ensures
            final(out)@ == old(out)@ + seq_wire(wires(self@)),
    {
        let ghost all = wires(self@);
        out.push(7);
        let n = self.items.len();
        let mut i: usize = 0;
        assert(framed_all(all.take(0)) =~= Seq::<u8>::empty());
        assert(out@ =~= old(out)@ + seq![7u8] + framed_all(all.take(0)));
        while i < n
            invariant
                i <= n == self@.len(),
                self@ == self.items.items(),
                all == wires(self@),
                out@ == old(out)@ + seq![7u8] + framed_all(all.take(i as int)),
            decreases n - i,
        {
            proof {
                lemma_framed_all_at(all, i as int);
            }
            let ghost before = out@;
            match self.items.get(i) {
                Some(item) => {
                    write_subfield_length(item.serialized_length(), out);
                    item.serialize::<Vec<Fd>>(out, None);
                    assert(out@ =~= before + framed(all[i as int]));
                },
                None => {},
            }
            i += 1;
            assert(out@ =~= old(out)@ + seq![7u8] + framed_all(all.take(i as int)));
        }
        assert(all.take(n as int) =~= all);
        assert(out@ =~= old(out)@ + seq_wire(all));
    }

    /// Appends the encoding of the sequence to `out`, with the file
    /// descriptors in it under the numbers that `fd_map` gives them.
    fn encode_mapped<M: FdMapping>(&self, out: &mut Vec<u8>, fd_map: &mut M)
        ensures
            final(out)@.len() == old(out)@.len() + seq_wire(wires(self@)).len(),
            registered_in(old(fd_map), final(fd_map), fds_of(self@)),
            forall|numbers: spec_fn(Fd) -> u32| #[trigger]
                numbers_agree(numbers, final(fd_map)) ==> final(out)@ == old(out)@ + seq![7u8]
                    + remapped_fields(self@, numbers),
    {
        let ghost items = self@;
        out.push(7);
        let n = self.items.len();
        let mut i: usize = 0;
        proof {
            reveal_with_fuel(register_all, 1);
            assert(items.take(0) =~= Seq::<T::Item>::empty());
            assert(framed_all(wires(items).take(0)) =~= Seq::<u8>::empty());
            assert forall|numbers: spec_fn(Fd) -> u32| #[trigger]
                numbers_agree(numbers, fd_map) implies out@ == old(out)@ + seq![7u8]
                + remapped_fields(items.take(0), numbers) by {
                assert(out@ =~= old(out)@ + seq![7u8] + remapped_fields(items.take(0), numbers));
            }
        }
        while i < n
            invariant
                i <= n == items.len(),
                items == self.items.items(),
                out@.len() == old(out)@.len() + 1 + framed_all(wires(items).take(i as int)).len(),
                fd_map.registered() == register_all(
                    old(fd_map).registered(),
                    fds_of(items.take(i as int)),
                ),
                forall|fd: Fd| #[trigger]
                    old(fd_map).registered().contains(fd) ==> fd_map.registered().contains(fd)
                        && fd_map.number(fd) == old(fd_map).number(fd),
                forall|numbers: spec_fn(Fd) -> u32| #[trigger]
                    numbers_agree(numbers, fd_map) ==> out@ == old(out)@ + seq![7u8]
                        + remapped_fields(items.take(i as int), numbers),
            decreases n - i,
        {
            let ghost before_out = out@;
            let ghost before = *fd_map;
            match self.items.get(i) {
                Some(item) => {
                    write_subfield_length(item.serialized_length(), out);
                    item.serialize(out, Some(&mut *fd_map));
                    proof {
                        lemma_framed_all_at(wires(items), i as int);
                        let done = items.take(i as int);
                        let next = items.take(i + 1);
                        assert(next.drop_last() =~= done);
                        assert(next.last() == items[i as int]);
                        lemma_register_all_append(
                            old(fd_map).registered(),
                            fds_of(done),
                            item.local_fds(),
                        );
                        lemma_register_all_grows(before.registered(), item.local_fds());
                        assert forall|numbers: spec_fn(Fd) -> u32| #[trigger]
                            numbers_agree(numbers, fd_map) implies out@ == old(out)@ + seq![7u8]
                            + remapped_fields(next, numbers) by {
                            assert(numbers_agree(numbers, &before));
                            assert(out@ =~= before_out + length_prefix(item.wire().len())
                                + item.remapped(numbers));
                            assert(out@ =~= old(out)@ + seq![7u8] + remapped_fields(
                                next,
                                numbers,
                            ));
                        }
                    }
                },
                None => {},
            }
            i += 1;
        }
        assert(items.take(n as int) =~= items);
        assert(wires(items).take(n as int) =~= wires(items));
    }
}

impl<'d, T: Container> Built<'d> for SeqValue<'d, T> where T::Item: Argdata<'d> {
    type Convert = NoConvert;

    open spec fn encoding(&self) -> Seq<u8> {
        seq_wire(wires(self@))
    }

    open spec fn fds(&self) -> Seq<Fd> {
        fds_of(self@)
    }

    open spec fn encoding_with(&self, numbers: spec_fn(Fd) -> u32) -> Seq<u8> {
        seq![7u8] + remapped_fields(self@, numbers)
    }

    open spec fn converts(&self, raw: u32) -> Result<Fd, InvalidFd> {
        Err(InvalidFd)
    }

    /// A cookie is the index of an item.
    open spec fn place_of(&self, cookie: usize) -> Option<int> {
        if cookie <= self@.len() {
            Some(1int + framed_all(wires(self@).take(cookie as int)).len())
        } else {
            None
        }
    }

    fn read_value<'a>(&'a self) -> (v: Value<'a, 'd, Self, NoConvert>) where 'd: 'a {
        assert(framed_all(wires(self@).take(0)) =~= Seq::<u8>::empty());
        Value::Sequence(SeqIterator { seq: self, cookie: 0, data: PhantomData })
    }

    fn encoded_length(&self) -> (n: usize) {
        proof {
            use_type_invariant(self);
        }
        self.length
    }

    fn encode<M: FdMapping>(&self, out: &mut Vec<u8>, fd_map: Option<&mut M>) {
        match fd_map {
            Some(mapping) => self.encode_mapped(out, mapping),
            None => self.encode_plain(out),
        }
    }
}

impl<'d, T: Container> SeqIterable for SeqValue<'d, T> where T::Item: Argdata<'d> {
    type Item = &'d T::Item;

    open spec fn seq_encoding(&self) -> Seq<u8> {
        seq_wire(wires(self@))
    }

    /// A cookie is the index of an item.
    open spec fn seq_offset_of(&self, cookie: usize) -> Option<int> {
        if cookie <= self@.len() {
            Some(1int + framed_all(wires(self@).take(cookie as int)).len())
        } else {
            None
        }
    }

    open spec fn item_encoding(item: &Self::Item) -> Seq<u8> {
        (**item).wire()
    }

    fn iter_seq_next(&self, cookie: &mut usize) -> (r: Option<Result<&'d T::Item, ReadError>>)
        ensures
            match r {
                None => *old(cookie) == self@.len(),
                Some(Err(_)) => false,
                Some(Ok(item)) => *old(cookie) < self@.len() && *item == self@[*old(
                    cookie,
                ) as int],
            },
    {
        let ghost all = wires(self@);
        let ghost wire = seq_wire(all);
        let ghost at = *cookie as int;
        proof {
            lemma_framed_all_at(all, at);
            assert(wire.skip(1int + framed_all(all.take(at)).len()) =~= framed_all(all.skip(at)));
        }
        let n = self.items.len();
        match self.items.get(*cookie) {
            Some(item) => {
                proof {
                    assert(*cookie < n);
                    lemma_framed_all_at(all, at + 1);
                    lemma_parse_framed(all[at], framed_all(all.skip(at + 1)));
                }
                *cookie = *cookie + 1;
                Some(Ok(item))
            },
            None => {
                assert(all.skip(at) =~= Seq::<Seq<u8>>::empty());
                None
            },
        }
    }
}

} // verus!
