//! File descriptors.

use crate::argdata::Built;
use crate::fd::{
    register_all, ConvertFd, EncodedFd, Fd, FdMapping, Identity, InvalidFd, NoConvert,
    INVALID_FD_NUMBER,
};
use crate::value::Value;
use crate::values::encoded::write_fd;
use crate::wire::{fd_wire, lemma_fd_roundtrip};
use vstd::prelude::*;

verus! {

/// An argdata value that is the file descriptor `fd` of this process.
pub fn process_fd(fd: i32) -> (r: Fd)
    ensures
        r == Fd(fd),
{
    Fd(fd)
}

/// An argdata value that is a file descriptor attached to the data: the
/// number `raw`, which `convert_fd` converts.
pub fn encoded_fd<T: ConvertFd>(raw: u32, convert_fd: T) -> (r: EncodedFd<T>)
    ensures
        r.raw == raw,
        r.convert_fd == convert_fd,
{
    EncodedFd::new(raw, convert_fd)
}

/// An argdata value that is a file descriptor that stands for nothing.
pub fn invalid_fd() -> InvalidFd {
    InvalidFd
}

/// The file descriptor of this process that `convert` finds for `raw`, if it
/// finds one.
pub open spec fn found_fds<T: ConvertFd>(convert: T, raw: u32) -> Seq<Fd> {
    match convert.fd_of(raw) {
        Ok(fd) => seq![fd],
        Err(_) => seq![],
    }
}

/// The number under which the file descriptor with the number `raw` is
/// written when `numbers` numbers the file descriptors of this process.
pub open spec fn remapped_number<T: ConvertFd>(
    convert: T,
    raw: u32,
    numbers: spec_fn(Fd) -> u32,
) -> u32 {
    match convert.fd_of(raw) {
        Ok(fd) => numbers(fd),
        Err(_) => INVALID_FD_NUMBER,
    }
}

impl<'d, T: ConvertFd> Built<'d> for EncodedFd<T> {
    type Convert = T;

    open spec fn encoding(&self) -> Seq<u8> {
        fd_wire(self.raw)
    }

    open spec fn fds(&self) -> Seq<Fd> {
        found_fds(self.convert_fd, self.raw)
    }

    open spec fn encoding_with(&self, numbers: spec_fn(Fd) -> u32) -> Seq<u8> {
        fd_wire(remapped_number(self.convert_fd, self.raw, numbers))
    }

    open spec fn converts(&self, raw: u32) -> Result<Fd, InvalidFd> {
        self.convert_fd.fd_of(raw)
    }

    open spec fn place_of(&self, cookie: usize) -> Option<int> {
        None
    }

    fn read_value<'a>(&'a self) -> (v: Value<'a, 'd, Self, T>) where 'd: 'a {
        proof {
            lemma_fd_roundtrip(self.raw);
        }
        Value::Fd(EncodedFd { raw: self.raw, convert_fd: &self.convert_fd })
    }

    fn encoded_length(&self) -> (n: usize) {
        proof {
            lemma_fd_roundtrip(self.raw);
        }
        5
    }

    fn encode<M: FdMapping>(&self, out: &mut Vec<u8>, fd_map: Option<&mut M>) {
        match fd_map {
            Some(mapping) => {
                match self.convert_fd.convert_fd(self.raw) {
                    Ok(fd) => {
                        let ghost before = *mapping;
                        let number = mapping.map(fd);
                        write_fd(number, out);
                        proof {
                            lemma_fd_roundtrip(number);
                            lemma_fd_roundtrip(self.raw);
                            reveal_with_fuel(register_all, 2);
                            assert(seq![fd].drop_first() =~= Seq::<Fd>::empty());
                            assert(mapping.registered().contains(fd)) by {
                                if !before.registered().contains(fd) {
                                    assert(mapping.registered()[before.registered().len() as int]
                                        == fd);
                                }
                            }
                        }
                    },
                    Err(_) => {
                        write_fd(INVALID_FD_NUMBER, out);
                        proof {
                            lemma_fd_roundtrip(INVALID_FD_NUMBER);
                            lemma_fd_roundtrip(self.raw);
                            reveal_with_fuel(register_all, 1);
                        }
                    },
                }
            },
            None => {
                write_fd(self.raw, out);
            },
        }
    }
}

impl<'d> Built<'d> for Fd {
    type Convert = Identity;

    /// A file descriptor of this process is encoded under its own number.
    open spec fn encoding(&self) -> Seq<u8> {
        fd_wire(self.0 as u32)
    }

    open spec fn fds(&self) -> Seq<Fd> {
        found_fds(Identity, self.0 as u32)
    }

    open spec fn encoding_with(&self, numbers: spec_fn(Fd) -> u32) -> Seq<u8> {
        fd_wire(remapped_number(Identity, self.0 as u32, numbers))
    }

    open spec fn converts(&self, raw: u32) -> Result<Fd, InvalidFd> {
        Identity.fd_of(raw)
    }

    open spec fn place_of(&self, cookie: usize) -> Option<int> {
        None
    }

    fn read_value<'a>(&'a self) -> (v: Value<'a, 'd, Self, Identity>) where 'd: 'a {
        proof {
            lemma_fd_roundtrip(self.0 as u32);
        }
        Value::Fd(EncodedFd { raw: self.0 as u32, convert_fd: &Identity })
    }

    fn encoded_length(&self) -> (n: usize) {
        proof {
            lemma_fd_roundtrip(self.0 as u32);
        }
        5
    }

    fn encode<M: FdMapping>(&self, out: &mut Vec<u8>, fd_map: Option<&mut M>) {
        EncodedFd::new(self.0 as u32, Identity).encode(out, fd_map)
    }
}

impl<'d> Built<'d> for InvalidFd {
    type Convert = NoConvert;

    /// A file descriptor that stands for nothing is encoded under the invalid
    /// number.
    open spec fn encoding(&self) -> Seq<u8> {
        fd_wire(INVALID_FD_NUMBER)
    }

    open spec fn fds(&self) -> Seq<Fd> {
        seq![]
    }

    open spec fn encoding_with(&self, numbers: spec_fn(Fd) -> u32) -> Seq<u8> {
        self.encoding()
    }

    open spec fn converts(&self, raw: u32) -> Result<Fd, InvalidFd> {
        Err(InvalidFd)
    }

    open spec fn place_of(&self, cookie: usize) -> Option<int> {
        None
    }

    fn read_value<'a>(&'a self) -> (v: Value<'a, 'd, Self, NoConvert>) where 'd: 'a {
        proof {
            lemma_fd_roundtrip(INVALID_FD_NUMBER);
        }
        Value::Fd(EncodedFd { raw: INVALID_FD_NUMBER, convert_fd: &NoConvert })
    }

    fn encoded_length(&self) -> (n: usize) {
        proof {
            lemma_fd_roundtrip(INVALID_FD_NUMBER);
        }
        5
    }

    fn encode<M: FdMapping>(&self, out: &mut Vec<u8>, fd_map: Option<&mut M>) {
        write_fd(INVALID_FD_NUMBER, out);
        proof {
            reveal_with_fuel(register_all, 1);
        }
    }
}

} // verus!
