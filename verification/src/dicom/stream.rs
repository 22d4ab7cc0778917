//! A forward-only byte stream and the two primitives that read a field of
//! known size from it.

use vstd::prelude::*;

verus! {

/// Why a read did not deliver what was asked for.
#[derive(Debug, Clone, Copy, PartialEq, Eq, Structural)]
pub enum ReadError {
    /// The stream ended inside a field whose size was fixed or declared.
    UnexpectedEof,
    /// The source behind the stream failed; the code is the one it reported.
    Source(i32),
}

/// What a stream is to its readers: the bytes still to come, the most bytes a
/// single read hands out, and how the stream ends once they are used up
/// (cleanly, or with the failure of its source).
pub struct StreamView {
    pub rest: Seq<u8>,
    pub chunk: nat,
    pub fault: Option<i32>,
}

impl StreamView {
    /// The stream after `n` more bytes were taken from it.
    pub open spec fn advance(self, n: int) -> StreamView {
        StreamView { rest: self.rest.skip(n), chunk: self.chunk, fault: self.fault }
    }

    /// The error that a reader reports when the stream gives out inside a
    /// field: the failure of the source if it has one, a truncation otherwise.
    pub open spec fn short_error(self) -> ReadError {
        match self.fault {
            Some(code) => ReadError::Source(code),
            None => ReadError::UnexpectedEof,
        }
    }

    /// How many of `want` bytes the stream can still deliver.
    pub open spec fn available(self, want: nat) -> nat {
        if self.rest.len() < want {
            self.rest.len()
        } else {
            want
        }
    }

    /// The number of bytes that one read with room for `room` bytes delivers.
    pub open spec fn read_size(self, room: nat) -> nat {
        let n = self.available(room);
        if self.chunk < n {
            self.chunk
        } else {
            n
        }
    }

    /// What one read with room for `room` bytes returns.
    pub open spec fn read_result(self, room: nat) -> Result<usize, ReadError> {
        if room > 0 && self.rest.len() == 0 && self.fault is Some {
            Err(ReadError::Source(self.fault->Some_0))
        } else {
            Ok(self.read_size(room) as usize)
        }
    }

    /// What `fill` returns for a field of `want` bytes.
    pub open spec fn fill_result(self, want: nat) -> Result<bool, ReadError> {
        if self.rest.len() >= want {
            Ok(true)
        } else if self.rest.len() == 0 && self.fault is None {
            Ok(false)
        } else {
            Err(self.short_error())
        }
    }

    /// What `read_exact` returns for a field of `want` bytes.
    pub open spec fn read_exact_result(self, want: nat) -> Result<(), ReadError> {
        if self.rest.len() >= want {
            Ok(())
        } else {
            Err(self.short_error())
        }
    }
}

/// A buffer after the first `got` bytes of `rest` were written to it from
/// index `from` on.
pub open spec fn filled(buf: Seq<u8>, from: int, rest: Seq<u8>, got: int) -> Seq<u8> {
    Seq::new(
        buf.len(),
        |k: int|
            if from <= k < from + got {
                rest[k - from]
            } else {
                buf[k]
            },
    )
}

/// A sequence of bytes that is read front to back and never rewound.
///
/// A read hands out at most `chunk` bytes at a time, as a pipe or a socket
/// may, so a field is complete only after as many reads as it takes. When the
/// bytes are used up the stream either ends cleanly or, if it was built from a
/// source that broke off, reports that failure on every further read.
pub struct ByteStream {
    data: Vec<u8>,
    pos: usize,
    chunk: usize,
    fault: Option<i32>,
}

impl View for ByteStream {
    type V = StreamView;

    closed spec fn view(&self) -> StreamView {
        StreamView {
            rest: self.data@.skip(self.pos as int),
            chunk: self.chunk as nat,
            fault: self.fault,
        }
    }
}

impl ByteStream {
    #[verifier::type_invariant]
    spec fn inv(&self) -> bool {
        self.pos <= self.data@.len() && self.chunk >= 1
    }

    /// A stream over `data` that ends cleanly and hands out as many bytes per
    /// read as are asked for.
    pub fn new(data: Vec<u8>) -> (s: ByteStream)
        ensures
            s@ == (StreamView { rest: data@, chunk: usize::MAX as nat, fault: None }),
    {
        assert(data@.skip(0) =~= data@);
        ByteStream { data, pos: 0, chunk: usize::MAX, fault: None }
    }

    /// The same stream, handing out at most `chunk` bytes per read (one byte
    /// where `chunk` is 0).
    pub fn with_chunk(self, chunk: usize) -> (s: ByteStream)
        ensures
            s@ == (StreamView {
                rest: self@.rest,
                chunk: if chunk == 0 { 1 } else { chunk as nat },
                fault: self@.fault,
            }),
    {
        proof {
            use_type_invariant(&self);
        }
        ByteStream {
            data: self.data,
            pos: self.pos,
            chunk: if chunk == 0 { 1 } else { chunk },
            fault: self.fault,
        }
    }

    /// The same stream, ending in a failure of its source with code `code`
    /// in place of a clean end.
    pub fn failing(self, code: i32) -> (s: ByteStream)
        ensures
            s@ == (StreamView { rest: self@.rest, chunk: self@.chunk, fault: Some(code) }),
    {
        proof {
            use_type_invariant(&self);
        }
        ByteStream { data: self.data, pos: self.pos, chunk: self.chunk, fault: Some(code) }
    }

    /// The number of bytes still to come.
    pub fn remaining(&self) -> (n: usize)
        ensures
            n == self@.rest.len(),
    {
        proof {
            use_type_invariant(self);
        }
        self.data.len() - self.pos
    }

    /// One read into `buf` from index `from` on: as many bytes as there is
    /// room for, as are left, and as the stream hands out at once. Zero bytes
    /// mean that `buf` has no room or that the stream has ended cleanly.
    pub fn read_into(&mut self, buf: &mut [u8], from: usize) -> (r: Result<usize, ReadError>)
        requires
            from <= old(buf)@.len(),
        ensures
            old(self)@.chunk >= 1,
            r == old(self)@.read_result((old(buf)@.len() - from) as nat),
            r is Err ==> final(self)@ == old(self)@ && final(buf)@ == old(buf)@,
            r matches Ok(n) ==> final(self)@ == old(self)@.advance(n as int) && final(buf)@
                == filled(old(buf)@, from as int, old(self)@.rest, n as int),
    {
        proof {
            use_type_invariant(&*self);
        }
        let cap = buf.len();
        let total = self.data.len();
        let room = cap - from;
        let left = total - self.pos;
        if room > 0 && left == 0 {
            if let Some(code) = self.fault {
                return Err(ReadError::Source(code));
            }
        }
        let mut n: usize = if left < room { left } else { room };
        if self.chunk < n {
            n = self.chunk;
        }
        let mut i: usize = 0;
        while i < n
            invariant
                i <= n,
                from + n <= cap == buf@.len(),
                self.pos + n <= total == self.data@.len(),
                *self == *old(self),
                buf@ == filled(old(buf)@, from as int, old(self)@.rest, i as int),
            decreases n - i,
        {
            buf[from + i] = self.data[self.pos + i];
            i += 1;
            assert(buf@ =~= filled(old(buf)@, from as int, old(self)@.rest, i as int));
        }
        self.pos = self.pos + n;
        assert(self@.rest =~= old(self)@.rest.skip(n as int));
        Ok(n)
    }
}

/// Reads into `buf` until it is full or the stream gives out, and tells the
/// three endings apart: `Ok(true)` when `buf` is full, `Ok(false)` when the
/// stream had ended cleanly before the first byte, and an error when it gave
/// out after some bytes or its source failed.
pub fn fill(reader: &mut ByteStream, buf: &mut [u8]) -> (r: Result<bool, ReadError>)
    ensures
        r == old(reader)@.fill_result(old(buf)@.len()),
        final(reader)@ == old(reader)@.advance(
            old(reader)@.available(old(buf)@.len()) as int,
        ),
        final(buf)@ == filled(
            old(buf)@,
            0,
            old(reader)@.rest,
            old(reader)@.available(old(buf)@.len()) as int,
        ),
{
    let want = buf.len();
    let mut read: usize = 0;
    assert(reader@.rest.skip(0) =~= reader@.rest);
    while read < want
        invariant
            read <= want == buf@.len() == old(buf)@.len(),
            read <= old(reader)@.rest.len(),
            reader@ == old(reader)@.advance(read as int),
            buf@ == filled(old(buf)@, 0, old(reader)@.rest, read as int),
        decreases want - read,
    {
        let ghost before = buf@;
        match reader.read_into(buf, read) {
            Err(e) => {
                return Err(e);
            },
            Ok(n) => {
                proof {
                    let rest = old(reader)@.rest;
                    assert(rest.skip(read as int).skip(n as int) =~= rest.skip(read + n));
                    assert(filled(before, read as int, rest.skip(read as int), n as int)
                        =~= filled(old(buf)@, 0, rest, read + n));
                }
                if n == 0 {
                    if read == 0 {
                        return Ok(false);
                    }
                    return Err(ReadError::UnexpectedEof);
                }
                read += n;
            },
        }
    }
    Ok(true)
}

/// Reads into `buf` until it is full. A stream that gives out first, even
/// before the first byte, is an error.
pub fn read_exact(reader: &mut ByteStream, buf: &mut [u8]) -> (r: Result<(), ReadError>)
    ensures
        r == old(reader)@.read_exact_result(old(buf)@.len()),
        final(reader)@ == old(reader)@.advance(
            old(reader)@.available(old(buf)@.len()) as int,
        ),
        final(buf)@ == filled(
            old(buf)@,
            0,
            old(reader)@.rest,
            old(reader)@.available(old(buf)@.len()) as int,
        ),
{
    let want = buf.len();
    let mut offset: usize = 0;
    assert(reader@.rest.skip(0) =~= reader@.rest);
    while offset < want
        invariant
            offset <= want == buf@.len() == old(buf)@.len(),
            offset <= old(reader)@.rest.len(),
            reader@ == old(reader)@.advance(offset as int),
            buf@ == filled(old(buf)@, 0, old(reader)@.rest, offset as int),
        decreases want - offset,
    {
        let ghost before = buf@;
        match reader.read_into(buf, offset) {
            Err(e) => {
                return Err(e);
            },
            Ok(n) => {
                proof {
                    let rest = old(reader)@.rest;
                    assert(rest.skip(offset as int).skip(n as int) =~= rest.skip(offset + n));
                    assert(filled(before, offset as int, rest.skip(offset as int), n as int)
                        =~= filled(old(buf)@, 0, rest, offset + n));
                }
                if n == 0 {
                    return Err(ReadError::UnexpectedEof);
                }
                offset += n;
            },
        }
    }
    Ok(())
}

} // verus!
