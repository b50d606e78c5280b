//! Reading and writing bytes.
//!
//! A [`Reader`] yields some bytes and then ends, either cleanly or in a
//! failure; a [`Writer`] accepts bytes until it refuses some. Everything this
//! crate does with a stream is stated in these terms.

use vstd::prelude::*;

use crate::error::{ErrorKind, IoError};

verus! {

/// A source of bytes.
///
/// What a reader still holds, how it ends and how often it is interrupted are
/// said of it by three functions that exist for proofs alone. A type of this
/// crate defines them. One outside of it, such as one that wraps a file or a
/// socket, has only [`read`](Self::read) to write, and is outside of what is
/// proved: what is stated of a reader holds of it as far as it behaves like one
/// for which the three could be given. The bodies here say nothing of it.
pub trait Reader: Sized {
    /// The bytes this reader has still to yield.
    open spec fn pending(&self) -> Seq<u8> {
        arbitrary()
    }

    /// How it ends once those are gone: in a failure, or cleanly.
    open spec fn failure(&self) -> Option<IoError> {
        arbitrary()
    }

    /// How many more times it will be interrupted.
    open spec fn interruptions(&self) -> nat {
        arbitrary()
    }

    /// Read up to `limit` bytes. No bytes at all means the end, unless none
    /// were asked for. An interruption changes nothing, and reading can be
    /// tried again after it.
    fn read(&mut self, limit: usize) -> (r: core::result::Result<Vec<u8>, IoError>)
        ensures
            (*final(self)).failure() == (*old(self)).failure(),
            match r {
                Ok(chunk) => {
                    &&& chunk@.len() <= limit
                    &&& (*old(self)).pending() == chunk@ + (*final(self)).pending()
                    &&& (*final(self)).interruptions() <= (*old(self)).interruptions()
                    &&& chunk@.len() == 0 && limit > 0 ==> (*old(self)).pending().len() == 0
                        && (*old(self)).failure() is None
                },
                Err(e) => {
                    &&& (*final(self)).pending() == (*old(self)).pending()
                    &&& if e.kind == ErrorKind::Interrupted {
                        (*final(self)).interruptions() < (*old(self)).interruptions()
                    } else {
                        (*old(self)).pending().len() == 0 && (*old(self)).failure() == Some(e)
                    }
                },
            },
    ;
}

/// A sink for bytes.
///
/// As with a [`Reader`], what a writer took, and what it will take, are said
/// of it for proofs alone, and a type outside of this crate, such as one that
/// wraps a file or a socket, is outside of what is proved.
pub trait Writer: Sized {
    /// The bytes accepted so far.
    open spec fn written(&self) -> Seq<u8> {
        arbitrary()
    }

    /// The bytes that have left this writer for good.
    open spec fn flushed(&self) -> Seq<u8> {
        arbitrary()
    }

    /// How many more bytes it will accept before it fails, and the failure
    /// that it then reports. Nothing, if it never fails.
    open spec fn budget(&self) -> Option<(nat, IoError)> {
        arbitrary()
    }

    /// What the next flush fails with, if it does.
    open spec fn flush_failure(&self) -> Option<IoError> {
        arbitrary()
    }

    /// Write all of `bytes`, or as many as are accepted before a failure.
    fn write_all(&mut self, bytes: &[u8]) -> (r: core::result::Result<(), IoError>)
        ensures
            if accepts((*old(self)).budget(), bytes@.len()) {
                &&& r is Ok
                &&& (*final(self)).written() == (*old(self)).written() + bytes@
                &&& (*final(self)).budget() == spend((*old(self)).budget(), bytes@.len())
            } else {
                let (room, failure) = (*old(self)).budget()->0;
                &&& r == Err::<(), IoError>(failure)
                &&& (*final(self)).written() == (*old(self)).written() + bytes@.take(room as int)
            },
    ;

    /// Push out whatever is held back.
    fn flush(&mut self) -> (r: core::result::Result<(), IoError>)
        ensures
            (*final(self)).written() == (*old(self)).written(),
            match (*old(self)).flush_failure() {
                Some(failure) => r == Err::<(), IoError>(failure),
                None => {
                    &&& r is Ok
                    &&& (*final(self)).flushed() == (*final(self)).written()
                    &&& (*final(self)).budget() == (*old(self)).budget()
                },
            },
    ;
}

/// Whether a writer with this budget accepts `len` bytes.
pub open spec fn accepts(budget: Option<(nat, IoError)>, len: nat) -> bool {
    budget matches Some((room, _)) ==> len <= room
}

/// What is left of a budget after `len` bytes.
pub open spec fn spend(budget: Option<(nat, IoError)>, len: nat) -> Option<(nat, IoError)> {
    match budget {
        Some((room, failure)) => Some(((room - len) as nat, failure)),
        None => None,
    }
}

impl<R: Reader> Reader for &mut R {
    open spec fn pending(&self) -> Seq<u8> {
        (**self).pending()
    }

    open spec fn failure(&self) -> Option<IoError> {
        (**self).failure()
    }

    open spec fn interruptions(&self) -> nat {
        (**self).interruptions()
    }

    fn read(&mut self, limit: usize) -> (r: core::result::Result<Vec<u8>, IoError>) {
        (**self).read(limit)
    }
}

impl<W: Writer> Writer for &mut W {
    open spec fn written(&self) -> Seq<u8> {
        (**self).written()
    }

    open spec fn flushed(&self) -> Seq<u8> {
        (**self).flushed()
    }

    open spec fn budget(&self) -> Option<(nat, IoError)> {
        (**self).budget()
    }

    open spec fn flush_failure(&self) -> Option<IoError> {
        (**self).flush_failure()
    }

    fn write_all(&mut self, bytes: &[u8]) -> (r: core::result::Result<(), IoError>) {
        (**self).write_all(bytes)
    }

    fn flush(&mut self) -> (r: core::result::Result<(), IoError>) {
        (**self).flush()
    }
}

/// A reader over bytes in memory. It ends cleanly after the last of them.
#[derive(Debug)]
pub struct ByteReader<'a> {
    bytes: &'a [u8],
}

impl<'a> ByteReader<'a> {
    /// Read `bytes`.
    pub fn new(bytes: &'a [u8]) -> (reader: ByteReader<'a>)
        ensures
            reader.pending() == bytes@,
            reader.failure() is None,
    {
        ByteReader { bytes }
    }

    /// What has not been read yet.
    pub fn rest(&self) -> (rest: &'a [u8])
        ensures
            rest@ == self.pending(),
    {
        self.bytes
    }
}

impl<'a> Reader for ByteReader<'a> {
    closed spec fn pending(&self) -> Seq<u8> {
        self.bytes@
    }

    closed spec fn failure(&self) -> Option<IoError> {
        None
    }

    closed spec fn interruptions(&self) -> nat {
        0
    }

    fn read(&mut self, limit: usize) -> (r: core::result::Result<Vec<u8>, IoError>) {
        let n: usize = if limit < self.bytes.len() {
            limit
        } else {
            self.bytes.len()
        };
        let chunk = vstd::slice::slice_to_vec(vstd::slice::slice_subrange(self.bytes, 0, n));
        self.bytes = vstd::slice::slice_subrange(self.bytes, n, self.bytes.len());
        assert(old(self).bytes@ =~= chunk@ + self.bytes@);
        Ok(chunk)
    }
}

/// A reader over bytes that it owns. It ends cleanly after the last of them.
#[derive(Debug)]
pub struct Cursor {
    bytes: Vec<u8>,
    position: usize,
}

impl Cursor {
    #[verifier::type_invariant]
    spec fn inside(&self) -> bool {
        self.position <= self.bytes@.len()
    }

    /// Read `bytes` from the start.
    pub fn new(bytes: Vec<u8>) -> (reader: Cursor)
        ensures
            reader.whole() == bytes@,
            reader.pending() == bytes@,
            reader.failure() is None,
    {
        let reader = Cursor { bytes, position: 0 };
        assert(reader.pending() =~= bytes@);
        reader
    }

    /// All the bytes, read or not.
    pub closed spec fn whole(&self) -> Seq<u8> {
        self.bytes@
    }

    /// All the bytes, read or not.
    pub fn get_ref(&self) -> (bytes: &Vec<u8>)
        ensures
            bytes@ == self.whole(),
    {
        &self.bytes
    }
}

impl Reader for Cursor {
    closed spec fn pending(&self) -> Seq<u8> {
        self.bytes@.skip(self.position as int)
    }

    closed spec fn failure(&self) -> Option<IoError> {
        None
    }

    closed spec fn interruptions(&self) -> nat {
        0
    }

    fn read(&mut self, limit: usize) -> (r: core::result::Result<Vec<u8>, IoError>) {
        proof {
            use_type_invariant(&*self);
        }
        let left: usize = self.bytes.len() - self.position;
        let n: usize = if limit < left {
            limit
        } else {
            left
        };
        let end: usize = self.position + n;
        let chunk = vstd::slice::slice_to_vec(
            vstd::slice::slice_subrange(self.bytes.as_slice(), self.position, end),
        );
        self.position = end;
        assert((*old(self)).pending() =~= chunk@ + (*self).pending());
        Ok(chunk)
    }
}

/// The first bytes of another reader, up to a limit.
#[derive(Debug)]
pub struct Take<R> {
    /// The reader the bytes come from.
    pub inner: R,
    /// How many of them are left.
    pub limit: u64,
}

/// As many of the first bytes of `bytes` as `limit` allows.
pub open spec fn take_up_to(bytes: Seq<u8>, limit: u64) -> Seq<u8> {
    if bytes.len() <= limit {
        bytes
    } else {
        bytes.take(limit as int)
    }
}

/// What follows them.
pub open spec fn skip_up_to(bytes: Seq<u8>, limit: u64) -> Seq<u8> {
    if bytes.len() <= limit {
        Seq::empty()
    } else {
        bytes.skip(limit as int)
    }
}

impl<R> Take<R> {
    /// The first `limit` bytes of `inner`.
    pub fn new(inner: R, limit: u64) -> (taken: Take<R>)
        ensures
            taken.inner == inner,
            taken.limit == limit,
    {
        Take { inner, limit }
    }

    /// Give the reader back, wherever it stands.
    pub fn into_inner(self) -> (inner: R)
        ensures
            inner == self.inner,
    {
        self.inner
    }
}

impl<R: Reader> Reader for Take<R> {
    open spec fn pending(&self) -> Seq<u8> {
        take_up_to(self.inner.pending(), self.limit)
    }

    open spec fn failure(&self) -> Option<IoError> {
        if self.inner.pending().len() >= self.limit {
            None
        } else {
            self.inner.failure()
        }
    }

    open spec fn interruptions(&self) -> nat {
        self.inner.interruptions()
    }

    fn read(&mut self, limit: usize) -> (r: core::result::Result<Vec<u8>, IoError>)
        ensures
            r matches Ok(chunk) ==> {
                &&& (*old(self)).inner.pending() == chunk@ + (*final(self)).inner.pending()
                &&& (*final(self)).limit == (*old(self)).limit - chunk@.len()
            },
    {
        if self.limit == 0 {
            let chunk: Vec<u8> = Vec::new();
            assert(self.inner.pending() =~= chunk@ + self.inner.pending());
            assert((*self).pending() =~= chunk@ + (*self).pending());
            return Ok(chunk);
        }
        let n: usize = if (limit as u64) < self.limit {
            limit
        } else {
            self.limit as usize
        };
        match self.inner.read(n) {
            Ok(chunk) => {
                self.limit = self.limit - chunk.len() as u64;
                assert((*old(self)).pending() =~= chunk@ + (*self).pending());
                Ok(chunk)
            },
            Err(e) => Err(e),
        }
    }
}

impl Writer for Vec<u8> {
    open spec fn written(&self) -> Seq<u8> {
        self@
    }

    open spec fn flushed(&self) -> Seq<u8> {
        self@
    }

    open spec fn budget(&self) -> Option<(nat, IoError)> {
        None
    }

    open spec fn flush_failure(&self) -> Option<IoError> {
        None
    }

    fn write_all(&mut self, bytes: &[u8]) -> (r: core::result::Result<(), IoError>) {
        self.extend_from_slice(bytes);
        assert(self@ =~= (*old(self))@ + bytes@);
        Ok(())
    }

    fn flush(&mut self) -> (r: core::result::Result<(), IoError>) {
        Ok(())
    }
}

/// How many bytes are asked of a reader at a time.
pub const CHUNK: usize = 65536;

/// Read up to `limit` bytes, trying again after each interruption.
pub fn read_some<R: Reader>(reader: &mut R, limit: usize) -> (r: core::result::Result<Vec<u8>, IoError>)
    ensures
        (*final(reader)).failure() == (*old(reader)).failure(),
        match r {
            Ok(chunk) => {
                &&& chunk@.len() <= limit
                &&& (*old(reader)).pending() == chunk@ + (*final(reader)).pending()
                &&& chunk@.len() == 0 && limit > 0 ==> (*old(reader)).pending().len() == 0
                    && (*old(reader)).failure() is None
            },
            Err(e) => {
                &&& (*final(reader)).pending() == (*old(reader)).pending()
                &&& (*old(reader)).pending().len() == 0
                &&& (*old(reader)).failure() == Some(e)
                &&& e.kind != ErrorKind::Interrupted
            },
        },
{
    loop
        invariant
            (*reader).pending() == (*old(reader)).pending(),
            (*reader).failure() == (*old(reader)).failure(),
        decreases (*reader).interruptions(),
    {
        match reader.read(limit) {
            Ok(chunk) => {
                return Ok(chunk);
            },
            Err(e) => {
                if e.kind != ErrorKind::Interrupted {
                    return Err(e);
                }
            },
        }
    }
}

/// The smaller of a chunk and what is still wanted.
fn chunk_size(wanted: u64) -> (n: usize)
    ensures
        n <= wanted,
        n <= CHUNK,
        wanted > 0 ==> n > 0,
{
    if wanted < CHUNK as u64 {
        wanted as usize
    } else {
        CHUNK
    }
}

/// Read `n` bytes, or as many as there are before a clean end.
pub fn read_up_to<R: Reader>(reader: &mut R, n: u64) -> (r: core::result::Result<Vec<u8>, IoError>)
    ensures
        (*final(reader)).failure() == (*old(reader)).failure(),
        (*final(reader)).pending() == skip_up_to((*old(reader)).pending(), n),
        match r {
            Ok(bytes) => {
                &&& bytes@ == take_up_to((*old(reader)).pending(), n)
                &&& bytes@.len() < n ==> (*old(reader)).failure() is None
            },
            Err(e) => (*old(reader)).pending().len() < n && (*old(reader)).failure() == Some(e),
        },
{
    let ghost pending = (*reader).pending();
    let ghost failure = (*reader).failure();
    let mut bytes: Vec<u8> = Vec::new();
    let mut left: u64 = n;
    assert(pending =~= bytes@ + (*reader).pending());
    while left > 0
        invariant
            pending == bytes@ + (*reader).pending(),
            (*reader).failure() == failure,
            bytes@.len() + left == n,
            failure == (*old(reader)).failure(),
            pending == (*old(reader)).pending(),
        decreases left,
    {
        match read_some(reader, chunk_size(left)) {
            Ok(chunk) => {
                if chunk.len() == 0 {
                    assert(bytes@ =~= pending);
                    return Ok(bytes);
                }
                left = left - chunk.len() as u64;
                crate::format::write_bytes(&mut bytes, chunk.as_slice());
                assert(pending =~= bytes@ + (*reader).pending());
            },
            Err(e) => {
                assert((*reader).pending() =~= Seq::empty());
                return Err(e);
            },
        }
    }
    assert(bytes@ =~= take_up_to(pending, n));
    assert((*reader).pending() =~= skip_up_to(pending, n));
    Ok(bytes)
}

/// Read everything up to the end.
pub fn read_all<R: Reader>(reader: &mut R) -> (r: core::result::Result<Vec<u8>, IoError>)
    ensures
        match (*old(reader)).failure() {
            Some(failure) => r == Err::<Vec<u8>, IoError>(failure),
            None => r matches Ok(bytes) && bytes@ == (*old(reader)).pending(),
        },
        (*final(reader)).pending() == Seq::<u8>::empty(),
        (*final(reader)).failure() == (*old(reader)).failure(),
{
    let ghost pending = (*reader).pending();
    let ghost failure = (*reader).failure();
    let mut bytes: Vec<u8> = Vec::new();
    assert(pending =~= bytes@ + (*reader).pending());
    loop
        invariant
            pending == bytes@ + (*reader).pending(),
            (*reader).failure() == failure,
            failure == (*old(reader)).failure(),
            pending == (*old(reader)).pending(),
        decreases (*reader).pending().len(),
    {
        match read_some(reader, CHUNK) {
            Ok(chunk) => {
                if chunk.len() == 0 {
                    assert(bytes@ =~= pending);
                    return Ok(bytes);
                }
                crate::format::write_bytes(&mut bytes, chunk.as_slice());
                assert(pending =~= bytes@ + (*reader).pending());
            },
            Err(e) => {
                return Err(e);
            },
        }
    }
}

/// Read past `n` bytes, or as many as there are before a clean end, and say
/// how many those were.
pub fn skip<R: Reader>(reader: &mut R, n: u64) -> (r: core::result::Result<u64, IoError>)
    ensures
        (*final(reader)).failure() == (*old(reader)).failure(),
        (*final(reader)).pending() == skip_up_to((*old(reader)).pending(), n),
        match r {
            Ok(skipped) => {
                &&& skipped == take_up_to((*old(reader)).pending(), n).len()
                &&& skipped < n ==> (*old(reader)).failure() is None
            },
            Err(e) => (*old(reader)).pending().len() < n && (*old(reader)).failure() == Some(e),
        },
{
    let ghost pending = (*reader).pending();
    let ghost failure = (*reader).failure();
    let mut left: u64 = n;
    assert(pending.skip(0) =~= pending);
    while left > 0
        invariant
            left <= n,
            n - left <= pending.len(),
            (*reader).pending() == pending.skip(n - left),
            (*reader).failure() == failure,
            failure == (*old(reader)).failure(),
            pending == (*old(reader)).pending(),
        decreases left,
    {
        let ghost before = (*reader).pending();
        match read_some(reader, chunk_size(left)) {
            Ok(chunk) => {
                if chunk.len() == 0 {
                    assert((*reader).pending() =~= Seq::empty());
                    return Ok(n - left);
                }
                left = left - chunk.len() as u64;
                assert((*reader).pending() =~= before.skip(chunk@.len() as int));
                assert((*reader).pending() =~= pending.skip(n - left));
            },
            Err(e) => {
                assert((*reader).pending() =~= Seq::empty());
                return Err(e);
            },
        }
    }
    assert((*reader).pending() =~= skip_up_to(pending, n));
    Ok(n)
}

/// What copying up to `n` bytes out of `pending` comes to, for a reader that
/// ends in `failure` and a writer with this budget: the bytes it adds to what
/// the writer has accepted, and how many were copied or what stopped it. The
/// writer's refusal comes first, since it is met before the reader's end.
pub open spec fn copy_outcome(
    pending: Seq<u8>,
    failure: Option<IoError>,
    n: u64,
    budget: Option<(nat, IoError)>,
) -> (Seq<u8>, core::result::Result<u64, IoError>) {
    let bytes = take_up_to(pending, n);
    if !accepts(budget, bytes.len()) {
        let (room, refusal) = budget->0;
        (bytes.take(room as int), Err(refusal))
    } else if bytes.len() < n && failure is Some {
        (bytes, Err(failure->0))
    } else {
        (bytes, Ok(bytes.len() as u64))
    }
}

/// Copy `n` bytes, or as many as there are before a clean end, and say how
/// many those were.
pub fn copy<R: Reader, W: Writer>(reader: &mut R, n: u64, writer: &mut W) -> (r: core::result::Result<u64, IoError>)
    ensures
        ({
            let (bytes, outcome) = copy_outcome(
                (*old(reader)).pending(),
                (*old(reader)).failure(),
                n,
                (*old(writer)).budget(),
            );
            &&& r == outcome
            &&& (*final(writer)).written() == (*old(writer)).written() + bytes
        }),
        (*final(reader)).failure() == (*old(reader)).failure(),
        if accepts((*old(writer)).budget(), take_up_to((*old(reader)).pending(), n).len()) {
            (*final(reader)).pending() == skip_up_to((*old(reader)).pending(), n)
        } else {
            (*final(reader)).pending().is_suffix_of((*old(reader)).pending())
        },
        r is Ok ==> (*final(writer)).budget() == spend(
            (*old(writer)).budget(),
            take_up_to((*old(reader)).pending(), n).len(),
        ),
{
    let ghost pending = (*reader).pending();
    let ghost failure = (*reader).failure();
    let ghost written = (*writer).written();
    let ghost budget = (*writer).budget();
    let ghost all = take_up_to(pending, n);
    let mut left: u64 = n;
    assert(pending.skip(0) =~= pending);
    assert(written =~= written + pending.take(0));
    while left > 0
        invariant
            left <= n,
            n - left <= pending.len(),
            (*reader).pending() == pending.skip(n - left),
            (*reader).failure() == failure,
            failure == (*old(reader)).failure(),
            pending == (*old(reader)).pending(),
            written == (*old(writer)).written(),
            budget == (*old(writer)).budget(),
            accepts(budget, (n - left) as nat),
            (*writer).written() == written + pending.take(n - left),
            (*writer).budget() == spend(budget, (n - left) as nat),
            all == take_up_to(pending, n),
        decreases left,
    {
        let ghost before = (*reader).pending();
        match read_some(reader, chunk_size(left)) {
            Ok(chunk) => {
                if chunk.len() == 0 {
                    assert((*reader).pending() =~= Seq::empty());
                    assert(pending.take(n - left) =~= all);
                    return Ok(n - left);
                }
                let ghost done = n - left;
                let ghost upto = done + chunk@.len();
                assert(pending.take(upto) =~= pending.take(done) + chunk@) by {
                    assert(before =~= chunk@ + (*reader).pending());
                    assert(pending =~= pending.take(done) + before);
                }
                match writer.write_all(chunk.as_slice()) {
                    Ok(_) => {},
                    Err(e) => {
                        proof {
                            let (room, _) = budget->0;
                            assert(room < upto <= all.len());
                            assert((*reader).pending() =~= before.skip(chunk@.len() as int));
                            assert((*reader).pending() =~= pending.skip(upto));
                            assert((*writer).written() =~= written + all.take(room as int));
                        }
                        return Err(e);
                    },
                }
                left = left - chunk.len() as u64;
                assert((*reader).pending() =~= before.skip(chunk@.len() as int));
                assert((*reader).pending() =~= pending.skip(n - left));
                assert((*writer).written() =~= written + pending.take(n - left));
            },
            Err(e) => {
                assert(pending.take(n - left) =~= all);
                assert((*reader).pending() =~= skip_up_to(pending, n));
                return Err(e);
            },
        }
    }
    assert((*reader).pending() =~= skip_up_to(pending, n));
    assert(pending.take(n as int) =~= all);
    Ok(n)
}

} // verus!
