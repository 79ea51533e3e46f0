//! Maps of keys to values.

use crate::argdata::{registered_in, Argdata, Built};
use crate::container_traits::MapContainer;
use crate::errors::ReadError;
use crate::fd::{register_all, Fd, FdMapping, InvalidFd, NoConvert};
use crate::mapiterator::{MapIterable, MapIterator};
use crate::subfield::{
    framed, lemma_parse_framed, length_prefix, subfield_length, write_subfield_length,
};
use crate::value::Value;
use crate::wire::{
    framed_all, lemma_framed_all_push, lemma_register_all_append, lemma_register_all_grows,
    map_wire, numbers_agree,
};
use std::marker::PhantomData;
use vstd::prelude::*;

verus! {

/// The encodings of the keys and values of `entries`, in their order, each
/// key before its value.
pub open spec fn pair_wires<'d, K: Argdata<'d>, V: Argdata<'d>>(entries: Seq<(K, V)>) -> Seq<
    Seq<u8>,
>
    decreases entries.len(),
{
    if entries.len() == 0 {
        seq![]
    } else {
        pair_wires(entries.drop_last()).push(entries.last().0.wire()).push(
            entries.last().1.wire(),
        )
    }
}

/// The file descriptors of this process in `entries`, in their order.
pub open spec fn fds_of_pairs<'d, K: Argdata<'d>, V: Argdata<'d>>(entries: Seq<(K, V)>) -> Seq<
    Fd,
>
    decreases entries.len(),
{
    if entries.len() == 0 {
        seq![]
    } else {
        fds_of_pairs(entries.drop_last()) + entries.last().0.local_fds()
            + entries.last().1.local_fds()
    }
}

/// The subfields of `entries` with the file descriptors in them under the
/// numbers that `numbers` gives.
///
/// Each subfield gives the length of its key or value, which the numbers do
/// not change.
pub open spec fn remapped_pairs<'d, K: Argdata<'d>, V: Argdata<'d>>(
    entries: Seq<(K, V)>,
    numbers: spec_fn(Fd) -> u32,
) -> Seq<u8>
    decreases entries.len(),
{
    if entries.len() == 0 {
        seq![]
    } else {
        remapped_pairs(entries.drop_last(), numbers) + length_prefix(
            entries.last().0.wire().len(),
        ) + entries.last().0.remapped(numbers) + length_prefix(entries.last().1.wire().len())
            + entries.last().1.remapped(numbers)
    }
}

/// The subfields of entries and of one more are those of the entries, then
/// that of the key of the one more, then that of its value.
pub proof fn lemma_pair_wires_take<'d, K: Argdata<'d>, V: Argdata<'d>>(
    entries: Seq<(K, V)>,
    i: int,
)
    requires
        0 <= i < entries.len(),
    ensures
        framed_all(pair_wires(entries.take(i + 1))) == framed_all(pair_wires(entries.take(i)))
            + framed(entries[i].0.wire()) + framed(entries[i].1.wire()),
{
    let done = pair_wires(entries.take(i));
    assert(entries.take(i + 1).drop_last() =~= entries.take(i));
    assert(entries.take(i + 1).last() == entries[i]);
    lemma_framed_all_push(done, entries[i].0.wire());
    lemma_framed_all_push(done.push(entries[i].0.wire()), entries[i].1.wire());
}

/// The subfields of entries start with those of the first `i` of them, and
/// go on with that of the key at `i` and that of its value.
pub proof fn lemma_pair_wires_at<'d, K: Argdata<'d>, V: Argdata<'d>>(
    entries: Seq<(K, V)>,
    i: int,
)
    requires
        0 <= i <= entries.len(),
    ensures
        framed_all(pair_wires(entries.take(i))).len() <= framed_all(pair_wires(entries)).len(),
        i == entries.len() ==> framed_all(pair_wires(entries)) == framed_all(
            pair_wires(entries.take(i)),
        ),
        i < entries.len() ==> exists|rest: Seq<u8>|
            framed_all(pair_wires(entries)) == framed_all(pair_wires(entries.take(i)))
                + #[trigger] (framed(entries[i].0.wire()) + (framed(entries[i].1.wire()) + rest)),
    decreases entries.len() - i,
{
    if i == entries.len() {
        assert(entries.take(i) =~= entries);
    } else {
        lemma_pair_wires_take(entries, i);
        lemma_pair_wires_at(entries, i + 1);
        let head = framed_all(pair_wires(entries.take(i)));
        let key = framed(entries[i].0.wire());
        let value = framed(entries[i].1.wire());
        let all = framed_all(pair_wires(entries));
        if i + 1 == entries.len() {
            let rest = Seq::<u8>::empty();
            assert(all =~= head + (key + (value + rest)));
        } else {
            let after = choose|after: Seq<u8>|
                all == framed_all(pair_wires(entries.take(i + 1))) + #[trigger] (framed(
                    entries[i + 1].0.wire(),
                ) + (framed(entries[i + 1].1.wire()) + after));
            let rest = framed(entries[i + 1].0.wire()) + (framed(entries[i + 1].1.wire()) + after);
            assert(all =~= head + (key + (value + rest)));
        }
    }
}

/// An argdata value that is a map of the keys and values of a container.
#[derive(Debug)]
pub struct MapValue<'d, T: MapContainer> where T::Key: Argdata<'d>, T::Value: Argdata<'d> {
    items: &'d T,
    length: usize,
}

impl<'d, T: MapContainer> View for MapValue<'d, T> where
    T::Key: Argdata<'d>,
    T::Value: Argdata<'d>,
 {
    type V = Seq<(T::Key, T::Value)>;

    /// The keys and values of the map.
    closed spec fn view(&self) -> Seq<(T::Key, T::Value)> {
        self.items.entries()
    }
}

/// An argdata value that is the map of the keys and values of `items`.
///
/// Both a pair of containers and a container of pairs will do. The length of
/// the encoding is computed here, once.
pub fn map<'d, T: MapContainer>(items: &'d T) -> (r: MapValue<'d, T>) where
    T::Key: Argdata<'d>,
    T::Value: Argdata<'d>,

    requires
        map_wire(pair_wires(items.entries())).len() <= usize::MAX,
    ensures
        r@ == items.entries(),
{
    let ghost entries = items.entries();
    let n = items.len();
    let mut length: usize = 1;
    let mut i: usize = 0;
    assert(entries.take(0) =~= Seq::<(T::Key, T::Value)>::empty());
    assert(framed_all(pair_wires(entries.take(0))) =~= Seq::<u8>::empty());
    while i < n
        invariant
            i <= n == entries.len(),
            entries == items.entries(),
            length == 1 + framed_all(pair_wires(entries.take(i as int))).len(),
            1 + framed_all(pair_wires(entries)).len() <= usize::MAX,
        decreases n - i,
    {
        proof {
            lemma_pair_wires_take(entries, i as int);
            lemma_pair_wires_at(entries, i + 1);
        }
        match items.get(i) {
            Some((key, value)) => {
                length += subfield_length(key.serialized_length());
                length += subfield_length(value.serialized_length());
            },
            None => {},
        }
        i += 1;
    }
    assert(entries.take(n as int) =~= entries);
    MapValue { items, length }
}

impl<'d, T: MapContainer> MapValue<'d, T> where T::Key: Argdata<'d>, T::Value: Argdata<'d> {
    #[verifier::type_invariant]
    spec fn wf(self) -> bool {
        self.length == map_wire(pair_wires(self.items.entries())).len()
    }

    /// The container of the keys and values.
    pub fn elements(&self) -> (items: &'d T)
        ensures
            items.entries() == self@,
    {
        self.items
    }

    /// Appends the encoding of the map to `out`.
    fn encode_plain(&self, out: &mut Vec<u8>)
        ensures
            final(out)@ == old(out)@ + map_wire(pair_wires(self@)),
    {
        let ghost entries = self@;
        out.push(6);
        let n = self.items.len();
        let mut i: usize = 0;
        assert(entries.take(0) =~= Seq::<(T::Key, T::Value)>::empty());
        assert(out@ =~= old(out)@ + seq![6u8] + framed_all(pair_wires(entries.take(0))));
        while i < n
            invariant
                i <= n == entries.len(),
                entries == self.items.entries(),
                out@ == old(out)@ + seq![6u8] + framed_all(pair_wires(entries.take(i as int))),
            decreases n - i,
        {
            proof {
                lemma_pair_wires_take(entries, i as int);
            }
            let ghost before = out@;
            match self.items.get(i) {
                Some((key, value)) => {
                    write_subfield_length(key.serialized_length(), out);
                    key.serialize::<Vec<Fd>>(out, None);
                    write_subfield_length(value.serialized_length(), out);
                    value.serialize::<Vec<Fd>>(out, None);
                    assert(out@ =~= before + framed(key.wire()) + framed(value.wire()));
                },
                None => {},
            }
            i += 1;
            assert(out@ =~= old(out)@ + seq![6u8] + framed_all(
                pair_wires(entries.take(i as int)),
            ));
        }
        assert(entries.take(n as int) =~= entries);
        assert(out@ =~= old(out)@ + map_wire(pair_wires(entries)));
    }

    /// Appends the encoding of the map to `out`, with the file descriptors in
    /// it under the numbers that `fd_map` gives them.
    fn encode_mapped<M: FdMapping>(&self, out: &mut Vec<u8>, fd_map: &mut M)
        ensures
            final(out)@.len() == old(out)@.len() + map_wire(pair_wires(self@)).len(),
            registered_in(old(fd_map), final(fd_map), fds_of_pairs(self@)),
            forall|numbers: spec_fn(Fd) -> u32| #[trigger]
                numbers_agree(numbers, final(fd_map)) ==> final(out)@ == old(out)@ + seq![6u8]
                    + remapped_pairs(self@, numbers),
    {
        let ghost entries = self@;
        out.push(6);
        let n = self.items.len();
        let mut i: usize = 0;
        proof {
            reveal_with_fuel(register_all, 1);
            assert(entries.take(0) =~= Seq::<(T::Key, T::Value)>::empty());
            assert(framed_all(pair_wires(entries.take(0))) =~= Seq::<u8>::empty());
            assert forall|numbers: spec_fn(Fd) -> u32| #[trigger]
                numbers_agree(numbers, fd_map) implies out@ == old(out)@ + seq![6u8]
                + remapped_pairs(entries.take(0), numbers) by {
                assert(out@ =~= old(out)@ + seq![6u8] + remapped_pairs(entries.take(0), numbers));
            }
        }
        while i < n
            invariant
                i <= n == entries.len(),
                entries == self.items.entries(),
                out@.len() == old(out)@.len() + 1 + framed_all(
                    pair_wires(entries.take(i as int)),
                ).len(),
                fd_map.registered() == register_all(
                    old(fd_map).registered(),
                    fds_of_pairs(entries.take(i as int)),
                ),
                forall|fd: Fd| #[trigger]
                    old(fd_map).registered().contains(fd) ==> fd_map.registered().contains(fd)
                        && fd_map.number(fd) == old(fd_map).number(fd),
                forall|numbers: spec_fn(Fd) -> u32| #[trigger]
                    numbers_agree(numbers, fd_map) ==> out@ == old(out)@ + seq![6u8]
                        + remapped_pairs(entries.take(i as int), numbers),
            decreases n - i,
        {
            let ghost before_out = out@;
            let ghost before = *fd_map;
            match self.items.get(i) {
                Some((key, value)) => {
                    write_subfield_length(key.serialized_length(), out);
                    key.serialize(out, Some(&mut *fd_map));
                    let ghost middle_out = out@;
                    let ghost middle = *fd_map;
                    write_subfield_length(value.serialized_length(), out);
                    value.serialize(out, Some(&mut *fd_map));
                    proof {
                        lemma_pair_wires_take(entries, i as int);
                        let done = entries.take(i as int);
                        let next = entries.take(i + 1);
                        assert(next.drop_last() =~= done);
                        assert(next.last() == entries[i as int]);
                        lemma_register_all_append(
                            old(fd_map).registered(),
                            fds_of_pairs(done),
                            key.local_fds(),
                        );
                        lemma_register_all_append(
                            old(fd_map).registered(),
                            fds_of_pairs(done) + key.local_fds(),
                            value.local_fds(),
                        );
                        lemma_register_all_grows(before.registered(), key.local_fds());
                        lemma_register_all_grows(middle.registered(), value.local_fds());
                        assert forall|numbers: spec_fn(Fd) -> u32| #[trigger]
                            numbers_agree(numbers, fd_map) implies out@ == old(out)@ + seq![6u8]
                            + remapped_pairs(next, numbers) by {
                            assert(numbers_agree(numbers, &middle));
                            assert(numbers_agree(numbers, &before));
                            assert(middle_out =~= before_out + length_prefix(key.wire().len())
                                + key.remapped(numbers));
                            assert(out@ =~= middle_out + length_prefix(value.wire().len())
                                + value.remapped(numbers));
                            assert(out@ =~= old(out)@ + seq![6u8] + remapped_pairs(
                                next,
                                numbers,
                            ));
                        }
                    }
                },
                None => {},
            }
            i += 1;
        }
        assert(entries.take(n as int) =~= entries);
    }
}

impl<'d, T: MapContainer> Built<'d> for MapValue<'d, T> where
    T::Key: Argdata<'d>,
    T::Value: Argdata<'d>,
 {
    type Convert = NoConvert;

    open spec fn encoding(&self) -> Seq<u8> {
        map_wire(pair_wires(self@))
    }

    open spec fn fds(&self) -> Seq<Fd> {
        fds_of_pairs(self@)
    }

    open spec fn encoding_with(&self, numbers: spec_fn(Fd) -> u32) -> Seq<u8> {
        seq![6u8] + remapped_pairs(self@, numbers)
    }

    open spec fn converts(&self, raw: u32) -> Result<Fd, InvalidFd> {
        Err(InvalidFd)
    }

    /// A cookie is the index of a key and its value.
    open spec fn place_of(&self, cookie: usize) -> Option<int> {
        if cookie <= self@.len() {
            Some(1int + framed_all(pair_wires(self@.take(cookie as int))).len())
        } else {
            None
        }
    }

    fn read_value<'a>(&'a self) -> (v: Value<'a, 'd, Self, NoConvert>) where 'd: 'a {
        assert(self@.take(0) =~= Seq::<(T::Key, T::Value)>::empty());
        assert(framed_all(pair_wires(self@.take(0))) =~= Seq::<u8>::empty());
        Value::Mapping(MapIterator { map: self, cookie: 0, data: PhantomData })
    }

    fn encoded_length(&self) -> (n: usize) {
        proof {
            use_type_invariant(self);
        }
        self.length
    }

    fn encode<M: FdMapping>(&self, out: &mut Vec<u8>, fd_map: Option<&mut M>) {
        match fd_map {
            Some(mapping) => self.encode_mapped(out, mapping),
            None => self.encode_plain(out),
        }
    }
}

impl<'d, T: MapContainer> MapIterable for MapValue<'d, T> where
    T::Key: Argdata<'d>,
    T::Value: Argdata<'d>,
 {
    type Key = &'d T::Key;

    type Value = &'d T::Value;

    open spec fn map_encoding(&self) -> Seq<u8> {
        map_wire(pair_wires(self@))
    }

    /// A cookie is the index of a key and its value.
    open spec fn map_offset_of(&self, cookie: usize) -> Option<int> {
        if cookie <= self@.len() {
            Some(1int + framed_all(pair_wires(self@.take(cookie as int))).len())
        } else {
            None
        }
    }

    open spec fn key_encoding(key: &Self::Key) -> Seq<u8> {
        (**key).wire()
    }

    open spec fn value_encoding(value: &Self::Value) -> Seq<u8> {
        (**value).wire()
    }

    fn iter_map_next(&self, cookie: &mut usize) -> (r: Option<
        Result<(&'d T::Key, &'d T::Value), ReadError>,
    >)
        ensures
            match r {
                None => *old(cookie) == self@.len(),
                Some(Err(_)) => false,
                Some(Ok((key, value))) => *old(cookie) < self@.len() && (*key, *value)
                    == self@[*old(cookie) as int],
            },
    {
        let ghost entries = self@;
        let ghost wire = map_wire(pair_wires(entries));
        let ghost at = *cookie as int;
        let ghost offset = 1int + framed_all(pair_wires(entries.take(at))).len();
        proof {
            lemma_pair_wires_at(entries, at);
        }
        let n = self.items.len();
        match self.items.get(*cookie) {
            Some((key, value)) => {
                proof {
                    assert(*cookie < n);
                    lemma_pair_wires_take(entries, at);
                    let rest = choose|rest: Seq<u8>|
                        framed_all(pair_wires(entries)) == framed_all(
                            pair_wires(entries.take(at)),
                        ) + #[trigger] (framed(entries[at].0.wire()) + (framed(
                            entries[at].1.wire(),
                        ) + rest));
                    let key_field = framed(key.wire());
                    let value_field = framed(value.wire());
                    assert(wire.skip(offset) =~= key_field + (value_field + rest));
                    lemma_parse_framed(key.wire(), value_field + rest);
                    assert(wire.skip(offset + key_field.len()) =~= value_field + rest);
                    lemma_parse_framed(value.wire(), rest);
                }
                *cookie = *cookie + 1;
                Some(Ok((key, value)))
            },
            None => {
                assert(wire.skip(offset) =~= Seq::<u8>::empty());
                None
            },
        }
    }
}

} // verus!
