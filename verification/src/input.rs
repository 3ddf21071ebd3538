//! An in-memory byte stream: the bytes that a connection delivers, and how far
//! they have been read.

use vstd::prelude::*;

verus! {

/// A byte stream held in memory, read from front to back.
pub struct Input {
    data: Vec<u8>,
    pos: usize,
}

/// The index of the first `delim` in `bytes`, or the length of `bytes` where
/// there is none.
pub open spec fn find_byte(bytes: Seq<u8>, delim: u8) -> nat
    decreases bytes.len(),
{
    if bytes.len() == 0 || bytes[0] == delim {
        0
    } else {
        1 + find_byte(bytes.skip(1), delim)
    }
}

/// The first line of `bytes`: all up to and including the first `delim`, or
/// all of `bytes` where there is none.
pub open spec fn line_of(bytes: Seq<u8>, delim: u8) -> Seq<u8> {
    let at = find_byte(bytes, delim);
    if at < bytes.len() {
        bytes.take(at as int + 1)
    } else {
        bytes
    }
}

/// `find_byte` stays within the sequence, and nothing before it is `delim`.
pub proof fn lemma_find_byte(bytes: Seq<u8>, delim: u8)
    ensures
        find_byte(bytes, delim) <= bytes.len(),
        find_byte(bytes, delim) < bytes.len() ==> bytes[find_byte(bytes, delim) as int] == delim,
        forall|i: int| 0 <= i < find_byte(bytes, delim) ==> bytes[i] != delim,
    decreases bytes.len(),
{
    if bytes.len() == 0 || bytes[0] == delim {
    } else {
        lemma_find_byte(bytes.skip(1), delim);
        let rest = find_byte(bytes.skip(1), delim);
        assert forall|i: int| 0 <= i < 1 + rest implies bytes[i] != delim by {
            if i > 0 {
                assert(bytes.skip(1)[i - 1] == bytes[i]);
            }
        }
    }
}

/// Where no byte before `at` is `delim`, and `at` is the end or holds
/// `delim`, `at` is what `find_byte` gives.
pub proof fn lemma_find_byte_is(bytes: Seq<u8>, delim: u8, at: nat)
    requires
        at <= bytes.len(),
        forall|i: int| 0 <= i < at ==> bytes[i] != delim,
        at < bytes.len() ==> bytes[at as int] == delim,
    ensures
        find_byte(bytes, delim) == at,
    decreases bytes.len(),
{
    if bytes.len() == 0 || bytes[0] == delim {
    } else {
        assert forall|i: int| 0 <= i < at - 1 implies bytes.skip(1)[i] != delim by {
            assert(bytes.skip(1)[i] == bytes[i + 1]);
        }
        lemma_find_byte_is(bytes.skip(1), delim, (at - 1) as nat);
    }
}

impl Input {
    #[verifier::type_invariant]
    spec fn in_range(self) -> bool {
        self.pos <= self.data.len()
    }

    /// The bytes not yet read.
    pub closed spec fn remaining(self) -> Seq<u8> {
        self.data@.skip(self.pos as int)
    }

    /// A stream that delivers `data`.
    pub fn new(data: Vec<u8>) -> (input: Input)
        ensures
            input.remaining() == data@,
    {
        Input { data, pos: 0 }
    }

    /// How many bytes are left to read.
    pub fn available(&self) -> (count: usize)
        ensures
            count == self.remaining().len(),
    {
        proof {
            use_type_invariant(self);
        }
        self.data.len() - self.pos
    }

    /// Whether every byte has been read.
    pub fn is_exhausted(&self) -> (done: bool)
        ensures
            done == (self.remaining().len() == 0),
    {
        self.available() == 0
    }

    /// Reads up to `max` bytes: as many as are left, where fewer than `max`
    /// are.
    pub fn read(&mut self, max: usize) -> (bytes: Vec<u8>)
        ensures
            bytes@ == old(self).remaining().take(
                if max <= old(self).remaining().len() {
                    max as int
                } else {
                    old(self).remaining().len() as int
                },
            ),
            final(self).remaining() == old(self).remaining().skip(bytes@.len() as int),
    {
        proof {
            use_type_invariant(&*self);
        }
        let left: usize = self.data.len() - self.pos;
        let count: usize = if max <= left {
            max
        } else {
            left
        };
        let end: usize = self.pos + count;
        let mut bytes: Vec<u8> = Vec::new();
        let mut i: usize = self.pos;
        while i < end
            invariant
                self.pos <= i <= end <= self.data.len(),
                bytes@ == self.data@.subrange(self.pos as int, i as int),
            decreases end - i,
        {
            bytes.push(self.data[i]);
            i += 1;
            assert(self.data@.subrange(self.pos as int, i as int) == self.data@.subrange(
                self.pos as int,
                i - 1,
            ).push(self.data@[i - 1]));
        }
        assert(bytes@ == self.remaining().take(count as int));
        let ghost before = self.remaining();
        self.pos = end;
        assert(self.remaining() == before.skip(count as int));
        bytes
    }

    /// A copy of up to `max` of the bytes to come, which stay to be read.
    pub fn peek(&self, max: usize) -> (bytes: Vec<u8>)
        ensures
            bytes@ == self.remaining().take(
                if max <= self.remaining().len() {
                    max as int
                } else {
                    self.remaining().len() as int
                },
            ),
    {
        proof {
            use_type_invariant(self);
        }
        let left: usize = self.data.len() - self.pos;
        let count: usize = if max <= left {
            max
        } else {
            left
        };
        let end: usize = self.pos + count;
        let mut bytes: Vec<u8> = Vec::new();
        let mut i: usize = self.pos;
        while i < end
            invariant
                self.pos <= i <= end <= self.data.len(),
                bytes@ == self.data@.subrange(self.pos as int, i as int),
            decreases end - i,
        {
            bytes.push(self.data[i]);
            i += 1;
            assert(self.data@.subrange(self.pos as int, i as int) == self.data@.subrange(
                self.pos as int,
                i - 1,
            ).push(self.data@[i - 1]));
        }
        assert(bytes@ == self.remaining().take(count as int));
        bytes
    }

    /// Reads exactly `count` bytes. Where fewer are left, reads them all and
    /// fails.
    pub fn read_exact(&mut self, count: usize) -> (bytes: Option<Vec<u8>>)
        ensures
            count <= old(self).remaining().len() ==> {
                &&& bytes.is_some()
                &&& bytes.unwrap()@ == old(self).remaining().take(count as int)
                &&& final(self).remaining() == old(self).remaining().skip(count as int)
            },
            count > old(self).remaining().len() ==> {
                &&& bytes.is_none()
                &&& final(self).remaining().len() == 0
            },
    {
        let got = self.read(count);
        if got.len() == count {
            Some(got)
        } else {
            None
        }
    }

    /// Reads one line into `buf`: all bytes up to and including the first
    /// `delim`, or all that is left where none follows. Returns how many
    /// bytes that were: zero only at the end of the stream.
    pub fn read_until(&mut self, delim: u8, buf: &mut Vec<u8>) -> (count: usize)
        ensures
            final(buf)@ == old(buf)@ + line_of(old(self).remaining(), delim),
            count == line_of(old(self).remaining(), delim).len(),
            final(self).remaining() == old(self).remaining().skip(count as int),
            count == 0 <==> old(self).remaining().len() == 0,
    {
        proof {
            use_type_invariant(&*self);
            lemma_find_byte(self.remaining(), delim);
        }
        let ghost rest = self.remaining();
        let start: usize = self.pos;
        let mut i: usize = self.pos;
        while i < self.data.len() && self.data[i] != delim
            invariant
                start <= i <= self.data.len(),
                self.pos == start,
                rest == self.data@.skip(start as int),
                buf@ == old(buf)@ + rest.take(i - start),
                forall|j: int| 0 <= j < i - start ==> rest[j] != delim,
            decreases self.data.len() - i,
        {
            buf.push(self.data[i]);
            i += 1;
            assert(rest.take(i - start) == rest.take(i - start - 1).push(rest[i - start - 1]));
        }
        if i < self.data.len() {
            buf.push(self.data[i]);
            i += 1;
            assert(rest.take(i - start) == rest.take(i - start - 1).push(rest[i - start - 1]));
            proof {
                lemma_find_byte_is(rest, delim, (i - start - 1) as nat);
            }
        } else {
            proof {
                lemma_find_byte_is(rest, delim, (i - start) as nat);
            }
            assert(rest.take(i - start) == rest);
        }
        self.pos = i;
        assert(self.remaining() == rest.skip(i - start));
        i - start
    }
}

} // verus!
