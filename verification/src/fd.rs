//! File descriptors: the numbers in encoded data, the descriptors of this
//! process, and the passage between the two.

use vstd::prelude::*;

verus! {

/// A file descriptor of the current process.
#[derive(Debug, Clone, Copy, PartialEq, Eq, Structural, Hash)]
pub struct Fd(pub i32);

/// The failure to convert: the encoded number refers to no file descriptor.
#[derive(Debug, Clone, Copy, PartialEq, Eq, Structural)]
pub struct InvalidFd;

/// The encoded number that stands for no file descriptor.
pub const INVALID_FD_NUMBER: u32 = 0xFFFF_FFFF;

/// Something that converts encoded file descriptor numbers to file descriptors
/// of this process.
pub trait ConvertFd {
    /// The file descriptor that `raw` stands for, if any.
    spec fn fd_of(&self, raw: u32) -> Result<Fd, InvalidFd>;

    /// Converts an encoded number to a file descriptor of this process.
    fn convert_fd(&self, raw: u32) -> (r: Result<Fd, InvalidFd>)
        ensures
            r == self.fd_of(raw),
    ;
}

/// The identity conversion: every number is the file descriptor of the same
/// number.
#[derive(Debug, Clone, Copy)]
pub struct Identity;

/// No access to file descriptors: every conversion fails.
///
/// For encoded numbers that correspond to no file descriptors of this process.
#[derive(Debug, Clone, Copy)]
pub struct NoConvert;

/// The conversion that a function computes.
pub struct ConvertFdFn<F: Fn(u32) -> Result<Fd, InvalidFd>> {
    convert: F,
}

impl ConvertFd for Identity {
    open spec fn fd_of(&self, raw: u32) -> Result<Fd, InvalidFd> {
        Ok(Fd(raw as i32))
    }

    fn convert_fd(&self, raw: u32) -> (r: Result<Fd, InvalidFd>) {
        Ok(Fd(raw as i32))
    }
}

impl ConvertFd for NoConvert {
    open spec fn fd_of(&self, raw: u32) -> Result<Fd, InvalidFd> {
        Err(InvalidFd)
    }

    fn convert_fd(&self, raw: u32) -> (r: Result<Fd, InvalidFd>) {
        Err(InvalidFd)
    }
}

impl<F: Fn(u32) -> Result<Fd, InvalidFd>> ConvertFdFn<F> {
    /// Whether `convert` can be called on every number and gives one result
    /// for each.
    pub open spec fn is_function(convert: F) -> bool {
        &&& forall|raw: u32| call_requires(convert, (raw,))
        &&& forall|raw: u32, r1: Result<Fd, InvalidFd>, r2: Result<Fd, InvalidFd>|
            call_ensures(convert, (raw,), r1) && call_ensures(convert, (raw,), r2) ==> r1 == r2
    }

    #[verifier::type_invariant]
    spec fn wf(self) -> bool {
        Self::is_function(self.convert)
    }

    /// The function that computes the conversion.
    pub closed spec fn function(&self) -> F {
        self.convert
    }

    /// The conversion that `convert` computes.
    pub fn new(convert: F) -> (c: Self)
        requires
            Self::is_function(convert),
        ensures
            c.function() == convert,
    {
        ConvertFdFn { convert }
    }

    /// A number stands for what the function can return for it.
    pub proof fn lemma_fd_of(&self, raw: u32, r: Result<Fd, InvalidFd>)
        requires
            Self::is_function(self.function()),
            call_ensures(self.function(), (raw,), r),
        ensures
            self.fd_of(raw) == r,
    {
    }
}

impl<F: Fn(u32) -> Result<Fd, InvalidFd>> ConvertFd for ConvertFdFn<F> {
    closed spec fn fd_of(&self, raw: u32) -> Result<Fd, InvalidFd> {
        choose|r: Result<Fd, InvalidFd>| call_ensures(self.convert, (raw,), r)
    }

    fn convert_fd(&self, raw: u32) -> (r: Result<Fd, InvalidFd>)
        ensures
            call_ensures(self.function(), (raw,), r),
    {
        proof {
            use_type_invariant(self);
        }
        let r = (self.convert)(raw);
        proof {
            self.lemma_fd_of(raw, r);
        }
        r
    }
}

impl<'a, T: ConvertFd + ?Sized> ConvertFd for &'a T {
    open spec fn fd_of(&self, raw: u32) -> Result<Fd, InvalidFd> {
        (**self).fd_of(raw)
    }

    fn convert_fd(&self, raw: u32) -> (r: Result<Fd, InvalidFd>) {
        (**self).convert_fd(raw)
    }
}

/// A file descriptor in some argdata: the number as it is encoded, and what
/// converts it.
#[derive(Clone, Copy, Debug)]
pub struct EncodedFd<T> {
    pub raw: u32,
    pub convert_fd: T,
}

impl<T: ConvertFd> EncodedFd<T> {
    /// The encoded number `raw`, to be converted by `convert_fd`.
    pub fn new(raw: u32, convert_fd: T) -> (e: EncodedFd<T>)
        ensures
            e.raw == raw,
            e.convert_fd == convert_fd,
    {
        EncodedFd { raw, convert_fd }
    }

    /// The number exactly as it is encoded.
    pub fn raw_encoded_number(&self) -> (raw: u32)
        ensures
            raw == self.raw,
    {
        self.raw
    }

    /// The file descriptor of this process that the number stands for, if
    /// any.
    pub fn fd(&self) -> (r: Result<Fd, InvalidFd>)
        ensures
            r == self.convert_fd.fd_of(self.raw),
    {
        self.convert_fd.convert_fd(self.raw)
    }
}

/// The table `table` once `fd` is registered in it: `fd` is added at the end
/// unless the table holds it.
pub open spec fn register(table: Seq<Fd>, fd: Fd) -> Seq<Fd> {
    if table.contains(fd) {
        table
    } else {
        table.push(fd)
    }
}

/// The table `table` once each of `fds` is registered in it, in turn.
pub open spec fn register_all(table: Seq<Fd>, fds: Seq<Fd>) -> Seq<Fd>
    decreases fds.len(),
{
    if fds.len() == 0 {
        table
    } else {
        register_all(register(table, fds[0]), fds.drop_first())
    }
}

/// Registering a file descriptor again changes nothing.
pub proof fn lemma_register_again(table: Seq<Fd>, fd: Fd)
    ensures
        register(table, fd).contains(fd),
        register(register(table, fd), fd) == register(table, fd),
{
    if !table.contains(fd) {
        assert(table.push(fd)[table.len() as int] == fd);
    }
}

/// Something that gives file descriptors of this process the numbers under
/// which they are encoded.
///
/// A mapping numbers each file descriptor once: registering one again gives
/// the number that it has.
pub trait FdMapping {
    /// The file descriptors registered so far, each once, in the order in
    /// which they came.
    spec fn registered(&self) -> Seq<Fd>;

    /// The number under which a registered file descriptor is encoded.
    spec fn number(&self, fd: Fd) -> u32;

    /// Registers `fd`, and returns the number under which it is encoded.
    fn map(&mut self, fd: Fd) -> (n: u32)
        ensures
            final(self).registered() == register(old(self).registered(), fd),
            n == final(self).number(fd),
            forall|g: Fd|
                old(self).registered().contains(g) ==> final(self).number(g) == old(self).number(
                    g,
                ),
    ;
}

/// The index of the first occurrence of `fd` in `table` at or after `from`, or
/// the length of `table` if there is none.
pub open spec fn first_index_from(table: Seq<Fd>, fd: Fd, from: int) -> int
    decreases table.len() - from,
{
    if from < 0 || from >= table.len() || table[from] == fd {
        from
    } else {
        first_index_from(table, fd, from + 1)
    }
}

/// The index of the first occurrence of `fd` in `table`.
pub open spec fn first_index(table: Seq<Fd>, fd: Fd) -> int {
    first_index_from(table, fd, 0)
}

/// The first occurrence of a file descriptor lies within the table exactly
/// when the table holds the file descriptor.
pub proof fn lemma_first_index_from(table: Seq<Fd>, fd: Fd, from: int)
    requires
        0 <= from <= table.len(),
    ensures
        from <= first_index_from(table, fd, from) <= table.len(),
        first_index_from(table, fd, from) < table.len() ==> table[first_index_from(
            table,
            fd,
            from,
        )] == fd,
        forall|j: int| from <= j < first_index_from(table, fd, from) ==> table[j] != fd,
    decreases table.len() - from,
{
    if from < table.len() && table[from] != fd {
        lemma_first_index_from(table, fd, from + 1);
    }
}

/// A table holds a file descriptor exactly when its first occurrence lies
/// within the table.
pub proof fn lemma_first_index_contains(table: Seq<Fd>, fd: Fd)
    ensures
        table.contains(fd) <==> first_index(table, fd) < table.len(),
        0 <= first_index(table, fd) <= table.len(),
{
    lemma_first_index_from(table, fd, 0);
    if table.contains(fd) {
        let i = choose|i: int| 0 <= i < table.len() && table[i] == fd;
        assert(table[i] == fd);
    }
}

/// A file descriptor added at the end leaves the first occurrences within the
/// table where they were.
pub proof fn lemma_first_index_push(table: Seq<Fd>, added: Fd, fd: Fd, from: int)
    requires
        0 <= from <= table.len(),
    ensures
        first_index_from(table, fd, from) < table.len() ==> first_index_from(
            table.push(added),
            fd,
            from,
        ) == first_index_from(table, fd, from),
        first_index_from(table, fd, from) == table.len() && fd == added ==> first_index_from(
            table.push(added),
            fd,
            from,
        ) == table.len(),
    decreases table.len() - from,
{
    if from < table.len() && table[from] != fd {
        lemma_first_index_push(table, added, fd, from + 1);
    }
}

/// Numbers the file descriptors in the order in which they come: the vector
/// holds each file descriptor at the index that is its number.
impl FdMapping for Vec<Fd> {
    open spec fn registered(&self) -> Seq<Fd> {
        self@
    }

    open spec fn number(&self, fd: Fd) -> u32 {
        first_index(self@, fd) as u32
    }

    fn map(&mut self, fd: Fd) -> (n: u32) {
        let mut i: usize = 0;
        while i < self.len()
            invariant
                i <= self.len(),
                self@ == old(self)@,
                first_index_from(self@, fd, i as int) == first_index(self@, fd),
            decreases self.len() - i,
        {
            if self[i].0 == fd.0 {
                proof {
                    lemma_first_index_contains(self@, fd);
                }
                return i as u32;
            }
            i += 1;
        }
        let n = self.len() as u32;
        proof {
            lemma_first_index_contains(self@, fd);
            lemma_first_index_push(self@, fd, fd, 0);
            assert forall|g: Fd| self@.contains(g) implies first_index(self@.push(fd), g)
                == first_index(self@, g) by {
                lemma_first_index_contains(self@, g);
                lemma_first_index_push(self@, fd, g, 0);
            }
        }
        self.push(fd);
        n
    }
}

} // verus!
