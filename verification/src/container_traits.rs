//! The containers that hold what a map or a sequence is built of.

use std::rc::Rc;
use std::sync::Arc;
use vstd::prelude::*;

verus! {

/// A container with access by index.
pub trait Container {
    /// What the container holds.
    type Item;

    /// The items of the container, in their order.
    spec fn items(&self) -> Seq<Self::Item>;

    /// The item at `index`, if there is one.
    fn get(&self, index: usize) -> (r: Option<&Self::Item>)
        ensures
            match r {
                Some(item) => index < self.items().len() && *item == self.items()[index as int],
                None => index >= self.items().len(),
            },
    ;

    /// The number of items.
    fn len(&self) -> (n: usize)
        ensures
            n == self.items().len(),
    ;
}

/// A container of pairs of keys and values, with access by index.
///
/// Both a pair of containers and a container of pairs are such containers.
pub trait MapContainer {
    /// The keys that the container holds.
    type Key;

    /// The values that the container holds.
    type Value;

    /// The pairs of the container, in their order.
    spec fn entries(&self) -> Seq<(Self::Key, Self::Value)>;

    /// The key and the value at `index`, if there are any.
    fn get(&self, index: usize) -> (r: Option<(&Self::Key, &Self::Value)>)
        ensures
            match r {
                Some((key, value)) => index < self.entries().len() && (*key, *value)
                    == self.entries()[index as int],
                None => index >= self.entries().len(),
            },
    ;

    /// The number of pairs.
    fn len(&self) -> (n: usize)
        ensures
            n == self.entries().len(),
    ;
}

/// A pair of containers holds as many pairs as the shorter of the two holds
/// items: the keys are the items of the first, the values those of the second.
impl<K: Container, V: Container> MapContainer for (K, V) {
    type Key = <K as Container>::Item;

    type Value = <V as Container>::Item;

    open spec fn entries(&self) -> Seq<(Self::Key, Self::Value)> {
        Seq::new(
            if self.0.items().len() <= self.1.items().len() {
                self.0.items().len()
            } else {
                self.1.items().len()
            },
            |i: int| (self.0.items()[i], self.1.items()[i]),
        )
    }

    fn get(&self, index: usize) -> (r: Option<(&Self::Key, &Self::Value)>) {
        match self.0.get(index) {
            Some(key) => match self.1.get(index) {
                Some(value) => Some((key, value)),
                None => None,
            },
            None => None,
        }
    }

    fn len(&self) -> (n: usize) {
        let keys = self.0.len();
        let values = self.1.len();
        if keys <= values {
            keys
        } else {
            values
        }
    }
}

/// A container of pairs holds its items.
impl<T, K, V> MapContainer for T where T: Container<Item = (K, V)> {
    type Key = K;

    type Value = V;

    open spec fn entries(&self) -> Seq<(K, V)> {
        self.items()
    }

    fn get(&self, index: usize) -> (r: Option<(&K, &V)>) {
        match Container::get(self, index) {
            Some(pair) => Some((&pair.0, &pair.1)),
            None => None,
        }
    }

    fn len(&self) -> (n: usize) {
        Container::len(self)
    }
}

impl<T> Container for Vec<T> {
    type Item = T;

    open spec fn items(&self) -> Seq<T> {
        self@
    }

    fn get(&self, index: usize) -> (r: Option<&T>) {
        if index < self.len() {
            Some(&self[index])
        } else {
            None
        }
    }

    fn len(&self) -> (n: usize) {
        Vec::len(self)
    }
}

impl<T> Container for [T] {
    type Item = T;

    open spec fn items(&self) -> Seq<T> {
        self@
    }

    fn get(&self, index: usize) -> (r: Option<&T>) {
        if index < self.len() {
            Some(&self[index])
        } else {
            None
        }
    }

    fn len(&self) -> (n: usize) {
        <[T]>::len(self)
    }
}

impl<T, const N: usize> Container for [T; N] {
    type Item = T;

    open spec fn items(&self) -> Seq<T> {
        self@
    }

    fn get(&self, index: usize) -> (r: Option<&T>) {
        if index < N {
            Some(&self[index])
        } else {
            None
        }
    }

    fn len(&self) -> (n: usize) {
        N
    }
}

impl<T> Container for Box<[T]> {
    type Item = T;

    open spec fn items(&self) -> Seq<T> {
        (**self)@
    }

    fn get(&self, index: usize) -> (r: Option<&T>) {
        let slice: &[T] = &**self;
        if index < slice.len() {
            Some(&slice[index])
        } else {
            None
        }
    }

    fn len(&self) -> (n: usize) {
        let slice: &[T] = &**self;
        slice.len()
    }
}

impl<T> Container for Rc<[T]> {
    type Item = T;

    open spec fn items(&self) -> Seq<T> {
        (**self)@
    }

    fn get(&self, index: usize) -> (r: Option<&T>) {
        let slice: &[T] = &**self;
        if index < slice.len() {
            Some(&slice[index])
        } else {
            None
        }
    }

    fn len(&self) -> (n: usize) {
        let slice: &[T] = &**self;
        slice.len()
    }
}

impl<T> Container for Arc<[T]> {
    type Item = T;

    open spec fn items(&self) -> Seq<T> {
        (**self)@
    }

    fn get(&self, index: usize) -> (r: Option<&T>) {
        let slice: &[T] = &**self;
        if index < slice.len() {
            Some(&slice[index])
        } else {
            None
        }
    }

    fn len(&self) -> (n: usize) {
        let slice: &[T] = &**self;
        slice.len()
    }
}

} // verus!
