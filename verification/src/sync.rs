//! Parsing and serialization over blocking readers and writers.

use vstd::prelude::*;

use crate::attributes::Attributes;
use crate::decode::HeaderDecoder;
use crate::decode::{decode_header, lands, reports, Outcome};
use crate::error::{from_io, into_io};
use crate::error::{poisoned, truncated, Error, IoError, Result};
use crate::flow_file::FlowFile;
use crate::flow_file::Model;
use crate::format::{encodable, header_wire};
use crate::io::{accepts, copy_outcome, skip_up_to, spend, take_up_to};
use crate::io::{copy, read_some, read_up_to, skip, Reader, Take, Writer, CHUNK};
use crate::limits::no_limits;
use crate::limits::Limits;

verus! {

/// A byte already taken from a reader, if there is one.
pub open spec fn taken(first: Option<u8>) -> Seq<u8> {
    match first {
        Some(byte) => seq![byte],
        None => Seq::empty(),
    }
}

/// What reading a header comes to, for a reader that had `bytes` and ends in
/// `failure`, and what it leaves. A header that the bytes cut short is the
/// reader's failure, if it ends in one.
pub open spec fn header_read(
    bytes: Seq<u8>,
    failure: Option<IoError>,
    limits: Limits,
    r: Result<(Attributes, u64)>,
    after: Seq<u8>,
) -> bool {
    match decode_header(bytes, limits) {
        Outcome::Accepted { attributes, size, rest } => {
            &&& r matches Ok((a, n))
            &&& a@ == attributes
            &&& n == size
            &&& after == rest
        },
        Outcome::Refused { why, rest } => {
            &&& after == rest
            &&& r matches Err(e)
            &&& if why is Truncated && failure is Some {
                e == from_io(failure->0)
            } else {
                reports(e, why)
            }
        },
    }
}

/// Read the header, returning the attributes and the declared content size.
/// `first_byte` is a byte already consumed from the reader, if any.
pub fn parse_header<R: Reader>(reader: &mut R, first_byte: Option<u8>, limits: Limits) -> (r: Result<(Attributes, u64)>)
    ensures
        header_read(
            taken(first_byte) + (*old(reader)).pending(),
            (*old(reader)).failure(),
            limits,
            r,
            (*final(reader)).pending(),
        ),
        (*final(reader)).failure() == (*old(reader)).failure(),
{
    let ghost failure = (*reader).failure();
    let ghost all = taken(first_byte) + (*reader).pending();
    let mut decoder = HeaderDecoder::new(limits);
    match first_byte {
        Some(byte) => {
            let head: [u8; 1] = [byte];
            assert(head@ =~= taken(first_byte));
            let ghost rest = (*reader).pending();
            let fed = decoder.feed(&head);
            assert(lands(fed, rest, decode_header(head@ + rest, limits))) by {
                assert(lands(fed, rest, decoder.outcome(head@ + rest)));
            }
            decoder = match fed {
                Ok(next) => next,
                Err(e) => return Err(e),
            };
        },
        None => {
            assert(all =~= (*reader).pending());
        },
    }
    loop
        invariant
            decoder.outcome((*reader).pending()) == decode_header(all, limits),
            all == taken(first_byte) + (*old(reader)).pending(),
            failure == (*old(reader)).failure(),
            (*reader).failure() == failure,
        decreases (*reader).pending().len(),
    {
        let wanted: usize = decoder.wanted();
        if wanted == 0 {
            return Ok(decoder.finish());
        }
        let n: usize = if wanted < CHUNK {
            wanted
        } else {
            CHUNK
        };
        let ghost before = (*reader).pending();
        match read_some(reader, n) {
            Ok(chunk) => {
                if chunk.len() == 0 {
                    assert((*reader).pending() =~= Seq::empty());
                    assert(before =~= Seq::empty());
                    return Err(decoder.end_of_input());
                }
                let ghost rest = (*reader).pending();
                let ghost outcome = decoder.outcome(chunk@ + rest);
                let fed = decoder.feed(chunk.as_slice());
                assert(lands(fed, rest, outcome));
                decoder = match fed {
                    Ok(next) => next,
                    Err(e) => return Err(e),
                };
            },
            Err(e) => {
                proof {
                    assert((*reader).pending() =~= Seq::empty());
                    assert(decoder.outcome(Seq::empty()) == decode_header(all, limits));
                }
                let cut = decoder.end_of_input();
                return Err(Error::from(e));
            },
        }
    }
}

impl<R: Reader> FlowFile<Take<R>> {
    /// Parse a flow file from a reader, consuming only the header.
    ///
    /// The returned flow file's content is the reader, limited to the
    /// declared content size. Reading fewer bytes than
    /// [`size`](FlowFile::size) before the reader ends means the input was
    /// truncated; [`FlowFile::into_memory`] checks this for you.
    ///
    /// # Errors
    ///
    /// [`Error::InvalidMagic`] if the input does not begin with `NiFiFF3`,
    /// [`Error::InvalidAttribute`] for an attribute that is not UTF-8, or
    /// [`Error::Io`] if the header ends early. Nothing here depends on the
    /// content, which has not been read yet.
    pub fn parse(reader: R) -> (r: Result<FlowFile<Take<R>>>)
        ensures
            lazily_parsed(reader.pending(), reader.failure(), no_limits(), r),
    {
        Self::parse_with_limits(reader, Limits::unlimited())
    }

    /// Like [`parse`](Self::parse), but enforcing [`Limits`] on the header.
    ///
    /// Use this for untrusted input.
    ///
    /// # Errors
    ///
    /// As [`parse`](Self::parse), plus [`Error::TooManyAttributes`],
    /// [`Error::AttributeTooLong`], [`Error::HeaderTooLarge`] or
    /// [`Error::ContentTooLarge`] when the header exceeds `limits`.
    pub fn parse_with_limits(reader: R, limits: Limits) -> (r: Result<FlowFile<Take<R>>>)
        ensures
            lazily_parsed(reader.pending(), reader.failure(), limits, r),
    {
        let mut reader = reader;
        assert(taken(None) + reader.pending() =~= reader.pending());
        match parse_header(&mut reader, None, limits) {
            Ok((attributes, size)) => Ok(FlowFile { size, attributes, content: Take::new(reader, size) }),
            Err(e) => Err(e),
        }
    }
}

/// What parsing only the header comes to: the content is what follows it, up
/// to the declared size.
pub open spec fn lazily_parsed<R: Reader>(
    bytes: Seq<u8>,
    failure: Option<IoError>,
    limits: Limits,
    r: Result<FlowFile<Take<R>>>,
) -> bool {
    match decode_header(bytes, limits) {
        Outcome::Accepted { attributes, size, rest } => {
            &&& r matches Ok(f)
            &&& f.size == size
            &&& f.attributes@ == attributes
            &&& f.content.limit == size
            &&& f.content.inner.pending() == rest
            &&& f.content.inner.failure() == failure
        },
        Outcome::Refused { why, .. } => {
            &&& r matches Err(e)
            &&& if why is Truncated && failure is Some {
                e == from_io(failure->0)
            } else {
                reports(e, why)
            }
        },
    }
}

impl<'r, R: Reader> FlowFile<Take<&'r mut R>> {
    /// Parse the next flow file from a stream of concatenated flow files.
    ///
    /// Returns `Ok(None)` on a clean end of input.
    ///
    /// # Every flow file's content must be consumed
    ///
    /// The returned flow file's content *is* the reader, positioned at the
    /// first content byte. The next flow file begins where that content ends,
    /// so each one has to be consumed before the next is parsed: with
    /// [`into_memory`](FlowFile::into_memory),
    /// [`write_to`](FlowFile::write_to) or
    /// [`skip_content`](FlowFile::skip_content), or with
    /// [`read_borrowed`](FlowFile::read_borrowed),
    /// [`write_borrowed_to`](FlowFile::write_borrowed_to) or
    /// [`skip_borrowed`](FlowFile::skip_borrowed), whose contracts say where
    /// they leave the reader. A flow file dropped with its
    /// content unread leaves the reader where the content starts, and the next
    /// call parses the content as though it were a flow file.
    ///
    /// [`FlowFiles`] and [`FlowFilesReader`] remove the question entirely.
    ///
    /// # Errors
    ///
    /// As [`FlowFile::parse`]. Note that a stream ending part-way through a
    /// header is [`Error::Io`], not `Ok(None)`: only a clean boundary ends
    /// the iteration.
    pub fn parse_next(reader: &'r mut R) -> (r: Result<Option<FlowFile<Take<&'r mut R>>>>)
        ensures
            match r {
                Ok(Some(f)) => {
                    &&& decode_header((*old(reader)).pending(), no_limits()) == (Outcome::Accepted {
                        attributes: f.attributes@,
                        size: f.size,
                        rest: (*f.content.inner).pending(),
                    })
                    &&& f.content.limit == f.size
                    &&& (*f.content.inner).failure() == (*old(reader)).failure()
                    &&& *final(f.content.inner) == *final(reader)
                },
                Ok(None) => {
                    &&& at_end((*old(reader)).pending(), (*old(reader)).failure())
                    &&& (*final(reader)).pending() == (*old(reader)).pending()
                },
                Err(e) => next_refused((*old(reader)).pending(), (*old(reader)).failure(), no_limits(), e),
            },
    {
        Self::parse_next_with_limits(reader, Limits::unlimited())
    }

    /// Like [`parse_next`](Self::parse_next), but enforcing [`Limits`] on
    /// the header. Use this for untrusted input.
    ///
    /// # Errors
    ///
    /// As [`parse_next`](Self::parse_next), plus [`Error::TooManyAttributes`],
    /// [`Error::AttributeTooLong`], [`Error::HeaderTooLarge`] or
    /// [`Error::ContentTooLarge`] when a header exceeds `limits`.
    pub fn parse_next_with_limits(reader: &'r mut R, limits: Limits) -> (r: Result<Option<FlowFile<Take<&'r mut R>>>>)
        ensures
            match r {
                Ok(Some(f)) => {
                    &&& decode_header((*old(reader)).pending(), limits) == (Outcome::Accepted {
                        attributes: f.attributes@,
                        size: f.size,
                        rest: (*f.content.inner).pending(),
                    })
                    &&& f.content.limit == f.size
                    &&& (*f.content.inner).failure() == (*old(reader)).failure()
                    &&& *final(f.content.inner) == *final(reader)
                },
                Ok(None) => {
                    &&& at_end((*old(reader)).pending(), (*old(reader)).failure())
                    &&& (*final(reader)).pending() == (*old(reader)).pending()
                },
                Err(e) => next_refused((*old(reader)).pending(), (*old(reader)).failure(), limits, e),
            },
    {
        match next_header(reader, limits) {
            Ok(Some((attributes, size))) => Ok(
                Some(FlowFile { size, attributes, content: Take { inner: reader, limit: size } }),
            ),
            Ok(None) => Ok(None),
            Err(e) => Err(e),
        }
    }
}

/// The stream has ended, on a boundary between flow files.
pub open spec fn at_end(pending: Seq<u8>, failure: Option<IoError>) -> bool {
    pending.len() == 0 && failure is None
}

/// There is no next flow file, for the reason that `e` gives.
pub open spec fn next_refused(pending: Seq<u8>, failure: Option<IoError>, limits: Limits, e: Error) -> bool {
    &&& !at_end(pending, failure)
    &&& decode_header(pending, limits) matches Outcome::Refused { why, rest }
    &&& if why is Truncated && failure is Some {
        e == from_io(failure->0)
    } else {
        reports(e, why)
    }
}

/// Read the header of the next flow file of a stream, if there is one.
pub(crate) fn next_header<R: Reader>(reader: &mut R, limits: Limits) -> (r: Result<Option<(Attributes, u64)>>)
    ensures
        (*final(reader)).failure() == (*old(reader)).failure(),
        match r {
            Ok(Some((attributes, size))) => decode_header((*old(reader)).pending(), limits) == (Outcome::Accepted {
                attributes: attributes@,
                size,
                rest: (*final(reader)).pending(),
            }),
            Ok(None) => {
                &&& at_end((*old(reader)).pending(), (*old(reader)).failure())
                &&& (*final(reader)).pending() == (*old(reader)).pending()
            },
            Err(e) => next_refused((*old(reader)).pending(), (*old(reader)).failure(), limits, e),
        },
{
    let ghost pending = (*reader).pending();
    match read_some(reader, 1) {
        Ok(first) => {
            if first.len() == 0 {
                assert((*reader).pending() =~= pending);
                return Ok(None);
            }
            let byte: u8 = first[0];
            assert(first@ =~= taken(Some(byte)));
            assert(pending == taken(Some(byte)) + (*reader).pending());
            match parse_header(reader, Some(byte), limits) {
                Ok(header) => Ok(Some(header)),
                Err(e) => Err(e),
            }
        },
        Err(e) => {
            // Nothing at all is a header that ends early, too.
            Err(Error::from(e))
        },
    }
}

/// What writing a flow file comes to: the bytes it adds to what the writer
/// has accepted, and how many of content were copied or what stopped it. The
/// header goes out before a byte of content is read.
pub open spec fn write_outcome(
    header: Seq<u8>,
    size: u64,
    pending: Seq<u8>,
    failure: Option<IoError>,
    budget: Option<(nat, IoError)>,
) -> (Seq<u8>, core::result::Result<u64, IoError>) {
    if !accepts(budget, header.len()) {
        let (room, refusal) = budget->0;
        (header.take(room as int), Err(refusal))
    } else {
        let (bytes, copied) = copy_outcome(pending, failure, size, spend(budget, header.len()));
        match copied {
            Err(e) => (header + bytes, Err(e)),
            Ok(n) => if n == size {
                (header + bytes, Ok(n))
            } else {
                (header + bytes, Err(into_io(Error::SizeMismatch { expected: size, actual: n })))
            },
        }
    }
}

impl<R: Reader> FlowFile<R> {
    /// Serialize the flow file to a writer, reading exactly
    /// [`size`](FlowFile::size) bytes from the content reader.
    ///
    /// Returns the number of content bytes copied. This consumes the flow
    /// file, because it is a one-shot: the content reader is left exhausted,
    /// so a second call would write a second header and then fail, after
    /// committing those bytes to the stream.
    ///
    /// # Errors
    ///
    /// Only I/O: nothing here inspects the flow file's structure. A content
    /// reader that ends before `size` bytes is an unexpected end carrying an
    /// [`Error::SizeMismatch`]; anything else comes from the reader or the
    /// writer. Either way the header, and whatever content was copied before
    /// the failure, has already been written.
    pub fn write_to<W: Writer>(self, writer: &mut W) -> (r: core::result::Result<u64, IoError>)
        requires
            encodable(self.attributes@),
        ensures
            ({
                let (bytes, outcome) = write_outcome(
                    header_wire(self.attributes@, self.size),
                    self.size,
                    self.content.pending(),
                    self.content.failure(),
                    (*old(writer)).budget(),
                );
                &&& r == outcome
                &&& (*final(writer)).written() == (*old(writer)).written() + bytes
                &&& r is Ok ==> (*final(writer)).budget() == spend((*old(writer)).budget(), bytes.len())
            }),
    {
        let header = self.header_bytes();
        match writer.write_all(header.as_slice()) {
            Ok(_) => {},
            Err(e) => return Err(e),
        }
        let size: u64 = self.size;
        let mut content = self.content;
        let ghost written = (*old(writer)).written();
        match copy(&mut content, size, writer) {
            Ok(copied) => {
                proof {
                    let bytes = take_up_to(self.content.pending(), size);
                    assert((*writer).written() =~= written + (header@ + bytes));
                }
                if copied != size {
                    return Err(truncated(size, copied));
                }
                Ok(copied)
            },
            Err(e) => {
                proof {
                    let (bytes, _) = copy_outcome(
                        self.content.pending(),
                        self.content.failure(),
                        size,
                        spend((*old(writer)).budget(), header@.len()),
                    );
                    assert((*writer).written() =~= written + (header@ + bytes));
                }
                Err(e)
            },
        }
    }

    /// Discard the content, consuming exactly [`size`](FlowFile::size) bytes
    /// from the reader.
    ///
    /// What to call when only the attributes were wanted. For a flow file
    /// parsed out of a stream by [`parse_next`](FlowFile::parse_next), leaving
    /// the content unread is not free: the reader stays where the content
    /// begins, and the next parse starts from there.
    ///
    /// # Errors
    ///
    /// Only I/O. Content that ends before the size is an unexpected end
    /// carrying an [`Error::SizeMismatch`], as
    /// [`into_memory`](Self::into_memory).
    pub fn skip_content(self) -> (r: core::result::Result<u64, IoError>)
        ensures
            r == (match read_outcome(self.content.pending(), self.content.failure(), self.size) {
                Ok(_) => Ok::<u64, IoError>(self.size),
                Err(e) => Err(e),
            }),
    {
        let size: u64 = self.size;
        let mut content = self.content;
        match skip(&mut content, size) {
            Ok(skipped) => if skipped != size {
                Err(truncated(size, skipped))
            } else {
                Ok(skipped)
            },
            Err(e) => Err(e),
        }
    }

    /// Read the content to completion, producing an in-memory flow file.
    ///
    /// The inverse of [`into_reader`](FlowFile::into_reader), and not to be
    /// confused with [`to_bytes`](FlowFile::to_bytes): this moves the *content*
    /// into memory and serializes nothing.
    ///
    /// Validates that exactly [`size`](FlowFile::size) bytes of content were
    /// available.
    ///
    /// # Errors
    ///
    /// Only I/O; the header was already validated by whatever produced this
    /// flow file. Content that ends early is an unexpected end carrying an
    /// [`Error::SizeMismatch`].
    pub fn into_memory(self) -> (r: core::result::Result<FlowFile<Vec<u8>>, IoError>)
        ensures
            match read_outcome(self.content.pending(), self.content.failure(), self.size) {
                Ok(bytes) => r matches Ok(f) && f@ == (Model {
                    size: self.size,
                    attributes: self.attributes@,
                    content: bytes,
                }),
                Err(e) => r == Err::<FlowFile<Vec<u8>>, IoError>(e),
            },
    {
        let FlowFile { size, attributes, content } = self;
        let mut content = content;
        match read_content(&mut content, size) {
            Ok(bytes) => Ok(FlowFile { size, attributes, content: bytes }),
            Err(e) => Err(e),
        }
    }
}

/// The smaller of two numbers.
pub open spec fn lesser(a: u64, b: u64) -> u64 {
    if a < b {
        a
    } else {
        b
    }
}

/// A flow file whose content is borrowed from a stream, as
/// [`parse_next`](FlowFile::parse_next) hands it out.
///
/// Each of these does what its namesake does, and leaves the stream behind the
/// content, where the next flow file starts.
impl<'r, R: Reader> FlowFile<Take<&'r mut R>> {
    /// [`skip_content`](FlowFile::skip_content), for a content that is borrowed
    /// from a stream.
    ///
    /// # Errors
    ///
    /// As [`skip_content`](FlowFile::skip_content).
    pub fn skip_borrowed(self) -> (r: core::result::Result<u64, IoError>)
        ensures
            r == (match read_outcome(self.content.pending(), self.content.failure(), self.size) {
                Ok(_) => Ok::<u64, IoError>(self.size),
                Err(e) => Err(e),
            }),
            (*final(self.content.inner)).pending() == skip_up_to(
                (*old(self.content.inner)).pending(),
                lesser(self.size, self.content.limit),
            ),
            (*final(self.content.inner)).failure() == (*old(self.content.inner)).failure(),
    {
        let FlowFile { size, attributes, content } = self;
        let Take { inner, limit } = content;
        let n: u64 = if size < limit {
            size
        } else {
            limit
        };
        match skip(inner, n) {
            Ok(skipped) => if skipped != size {
                Err(truncated(size, skipped))
            } else {
                Ok(skipped)
            },
            Err(e) => Err(e),
        }
    }

    /// [`into_memory`](FlowFile::into_memory), for a content that is borrowed
    /// from a stream.
    ///
    /// # Errors
    ///
    /// As [`into_memory`](FlowFile::into_memory).
    pub fn read_borrowed(self) -> (r: core::result::Result<FlowFile<Vec<u8>>, IoError>)
        ensures
            match read_outcome(self.content.pending(), self.content.failure(), self.size) {
                Ok(bytes) => r matches Ok(f) && f@ == (Model {
                    size: self.size,
                    attributes: self.attributes@,
                    content: bytes,
                }),
                Err(e) => r == Err::<FlowFile<Vec<u8>>, IoError>(e),
            },
            (*final(self.content.inner)).pending() == skip_up_to(
                (*old(self.content.inner)).pending(),
                lesser(self.size, self.content.limit),
            ),
            (*final(self.content.inner)).failure() == (*old(self.content.inner)).failure(),
    {
        let ghost pending = self.content.pending();
        let FlowFile { size, attributes, content } = self;
        let Take { inner, limit } = content;
        let n: u64 = if size < limit {
            size
        } else {
            limit
        };
        match read_up_to(inner, n) {
            Ok(bytes) => {
                let read: u64 = bytes.len() as u64;
                if read != size {
                    return Err(truncated(size, read));
                }
                assert(bytes@ =~= pending.take(size as int));
                Ok(FlowFile { size, attributes, content: bytes })
            },
            Err(e) => Err(e),
        }
    }

    /// [`write_to`](FlowFile::write_to), for a content that is borrowed from a
    /// stream.
    ///
    /// # Errors
    ///
    /// As [`write_to`](FlowFile::write_to).
    pub fn write_borrowed_to<W: Writer>(self, writer: &mut W) -> (r: core::result::Result<u64, IoError>)
        requires
            encodable(self.attributes@),
        ensures
            ({
                let (bytes, outcome) = write_outcome(
                    header_wire(self.attributes@, self.size),
                    self.size,
                    self.content.pending(),
                    self.content.failure(),
                    (*old(writer)).budget(),
                );
                &&& r == outcome
                &&& (*final(writer)).written() == (*old(writer)).written() + bytes
                &&& r is Ok ==> (*final(writer)).budget() == spend((*old(writer)).budget(), bytes.len())
            }),
            if accepts(
                (*old(writer)).budget(),
                header_wire(self.attributes@, self.size).len() + take_up_to(self.content.pending(), self.size).len(),
            ) {
                (*final(self.content.inner)).pending() == skip_up_to(
                    (*old(self.content.inner)).pending(),
                    lesser(self.size, self.content.limit),
                )
            } else {
                (*final(self.content.inner)).pending().is_suffix_of((*old(self.content.inner)).pending())
            },
            (*final(self.content.inner)).failure() == (*old(self.content.inner)).failure(),
    {
        let header = self.header_bytes();
        let ghost pending = self.content.pending();
        let ghost failure = self.content.failure();
        let ghost written = (*writer).written();
        let ghost budget = (*writer).budget();
        let FlowFile { size, attributes, content } = self;
        let Take { inner, limit } = content;
        let n: u64 = if size < limit {
            size
        } else {
            limit
        };
        let ghost held = (*inner).pending();
        match writer.write_all(header.as_slice()) {
            Ok(_) => {},
            Err(e) => {
                assert(held =~= held.skip(0));
                return Err(e);
            },
        }
        let ghost (bytes, outcome) = copy_outcome(pending, failure, size, spend(budget, header@.len()));
        proof {
            assert(take_up_to(held, n) =~= take_up_to(pending, size));
            if n < held.len() {
                assert(skip_up_to(held, n).is_suffix_of(held));
            } else {
                assert(skip_up_to(held, n) =~= held.skip(held.len() as int));
            }
        }
        match copy(inner, n, writer) {
            Ok(copied) => {
                assert((*writer).written() =~= written + (header@ + bytes));
                if copied != size {
                    return Err(truncated(size, copied));
                }
                Ok(copied)
            },
            Err(e) => {
                assert((*writer).written() =~= written + (header@ + bytes));
                Err(e)
            },
        }
    }
}

/// What reading a content of `size` bytes comes to: those bytes, the failure
/// the reader ends in before them, or the mismatch where it ends cleanly.
pub open spec fn read_outcome(pending: Seq<u8>, failure: Option<IoError>, size: u64) -> core::result::Result<
    Seq<u8>,
    IoError,
> {
    if pending.len() >= size {
        Ok(pending.take(size as int))
    } else if failure is Some {
        Err(failure->0)
    } else {
        Err(into_io(Error::SizeMismatch { expected: size, actual: pending.len() as u64 }))
    }
}

/// Read a content of `size` bytes.
fn read_content<R: Reader>(reader: &mut R, size: u64) -> (r: core::result::Result<Vec<u8>, IoError>)
    ensures
        (*final(reader)).failure() == (*old(reader)).failure(),
        (*final(reader)).pending() == skip_up_to((*old(reader)).pending(), size),
        match read_outcome((*old(reader)).pending(), (*old(reader)).failure(), size) {
            Ok(bytes) => r matches Ok(b) && b@ == bytes,
            Err(e) => r == Err::<Vec<u8>, IoError>(e),
        },
{
    match read_up_to(reader, size) {
        Ok(bytes) => {
            let read: u64 = bytes.len() as u64;
            if read != size {
                return Err(truncated(size, read));
            }
            assert(bytes@ =~= (*old(reader)).pending().take(size as int));
            Ok(bytes)
        },
        Err(e) => Err(e),
    }
}

/// What reading one whole flow file comes to, for a reader that had `bytes`
/// and ends in `failure`. After a flow file `after` is what follows it.
pub open spec fn wholly_read(
    bytes: Seq<u8>,
    failure: Option<IoError>,
    limits: Limits,
    r: Result<FlowFile<Vec<u8>>>,
    after: Seq<u8>,
) -> bool {
    match decode_header(bytes, limits) {
        Outcome::Refused { why, .. } => {
            &&& r matches Err(e)
            &&& if why is Truncated && failure is Some {
                e == from_io(failure->0)
            } else {
                reports(e, why)
            }
        },
        Outcome::Accepted { attributes, size, rest } => match read_outcome(rest, failure, size) {
            Ok(content) => {
                &&& r matches Ok(f)
                &&& f@ == (Model { size, attributes, content })
                &&& after == rest.skip(size as int)
            },
            Err(e) => r == Err::<FlowFile<Vec<u8>>, Error>(from_io(e)),
        },
    }
}

impl FlowFile<Vec<u8>> {
    /// Read one whole flow file from a reader, content and all.
    ///
    /// Reads exactly one, and leaves the reader on the byte after it, so what
    /// follows is no error the way it is for
    /// [`from_bytes`](FlowFile::from_bytes).
    ///
    /// # Errors
    ///
    /// As [`parse`](FlowFile::parse). Content that ends early is
    /// [`Error::SizeMismatch`], not wrapped in [`Error::Io`].
    pub fn from_reader<R: Reader>(reader: &mut R) -> (r: Result<FlowFile<Vec<u8>>>)
        ensures
            wholly_read(
                (*old(reader)).pending(),
                (*old(reader)).failure(),
                no_limits(),
                r,
                (*final(reader)).pending(),
            ),
            (*final(reader)).failure() == (*old(reader)).failure(),
    {
        FlowFile::from_reader_with_limits(reader, Limits::unlimited())
    }

    /// Like [`from_reader`](Self::from_reader), but enforcing [`Limits`] on
    /// the header.
    ///
    /// # Errors
    ///
    /// As [`from_reader`](Self::from_reader), plus those of a header that
    /// exceeds `limits`.
    pub fn from_reader_with_limits<R: Reader>(reader: &mut R, limits: Limits) -> (r: Result<FlowFile<Vec<u8>>>)
        ensures
            wholly_read(
                (*old(reader)).pending(),
                (*old(reader)).failure(),
                limits,
                r,
                (*final(reader)).pending(),
            ),
            (*final(reader)).failure() == (*old(reader)).failure(),
    {
        assert(taken(None) + (*reader).pending() =~= (*reader).pending());
        let (attributes, size) = match parse_header(reader, None, limits) {
            Ok(header) => header,
            Err(e) => return Err(e),
        };
        let ghost rest = (*reader).pending();
        match read_content(reader, size) {
            Ok(content) => {
                assert((*reader).pending() =~= rest.skip(size as int));
                Ok(FlowFile { size, attributes, content })
            },
            Err(e) => Err(Error::from(e)),
        }
    }

    /// Serialize the flow file to a writer.
    ///
    /// The in-memory counterpart to [`write_to`](FlowFile::write_to). Takes
    /// `&self` rather than consuming, since nothing is exhausted by writing
    /// in-memory content. Returns the number of content bytes written.
    ///
    /// # Errors
    ///
    /// Whatever the writer returns.
    pub fn write_bytes_to<W: Writer>(&self, writer: &mut W) -> (r: core::result::Result<u64, IoError>)
        requires
            self@.serializable(),
        ensures
            if accepts((*old(writer)).budget(), self@.wire().len()) {
                &&& r == Ok::<u64, IoError>(self.size)
                &&& (*final(writer)).written() == (*old(writer)).written() + self@.wire()
                &&& (*final(writer)).budget() == spend((*old(writer)).budget(), self@.wire().len())
            } else {
                let (room, refusal) = (*old(writer)).budget()->0;
                &&& r == Err::<u64, IoError>(refusal)
                &&& (*final(writer)).written() == (*old(writer)).written() + self@.wire().take(room as int)
            },
    {
        let bytes = self.to_bytes();
        match writer.write_all(bytes.as_slice()) {
            Ok(_) => Ok(self.size),
            Err(e) => Err(e),
        }
    }
}

/// What the next step of reading buffered flow files comes to: the end, a flow
/// file, or an error. After a flow file `after` is what follows it.
pub open spec fn next_buffered(
    pending: Seq<u8>,
    failure: Option<IoError>,
    limits: Limits,
    r: Option<Result<FlowFile<Vec<u8>>>>,
    after: Seq<u8>,
) -> bool {
    if at_end(pending, failure) {
        r is None
    } else {
        match decode_header(pending, limits) {
            Outcome::Refused { .. } => r matches Some(Err(e)) && next_refused(pending, failure, limits, e),
            Outcome::Accepted { attributes, size, rest } => match read_outcome(rest, failure, size) {
                Ok(content) => {
                    &&& r matches Some(Ok(f))
                    &&& f@ == (Model { size, attributes, content })
                    &&& after == rest.skip(size as int)
                },
                Err(e) => r == Some(Err::<FlowFile<Vec<u8>>, Error>(from_io(e))),
            },
        }
    }
}

/// Reader of a stream of concatenated flow files.
///
/// Yields each flow file with its content buffered in memory, and ends on a
/// clean end of input. After an error it is fused (keeps returning `None`),
/// since the stream position is no longer trustworthy.
///
/// Because this buffers, it reports a content that ends before its declared
/// size as [`Error::SizeMismatch`] directly, the way
/// [`FlowFile::from_bytes`] does, not wrapped in [`Error::Io`].
#[derive(Debug)]
pub struct FlowFiles<R> {
    reader: R,
    limits: Limits,
    done: bool,
}

impl<R> FlowFiles<R> {
    /// The underlying reader.
    pub closed spec fn source(&self) -> R {
        self.reader
    }

    /// The limits on each header.
    pub closed spec fn caps(&self) -> Limits {
        self.limits
    }

    /// Whether there is nothing more to come.
    pub closed spec fn fused(&self) -> bool {
        self.done
    }

    /// Read the flow files in `reader`, without header limits.
    pub fn new(reader: R) -> (flow_files: FlowFiles<R>)
        ensures
            flow_files.source() == reader,
            flow_files.caps() == no_limits(),
            !flow_files.fused(),
    {
        Self::with_limits(reader, Limits::unlimited())
    }

    /// Like [`new`](Self::new), but enforcing [`Limits`] on each header.
    /// Use this for untrusted input.
    pub fn with_limits(reader: R, limits: Limits) -> (flow_files: FlowFiles<R>)
        ensures
            flow_files.source() == reader,
            flow_files.caps() == limits,
            !flow_files.fused(),
    {
        FlowFiles { reader, limits, done: false }
    }

    /// A reference to the underlying reader.
    pub fn get_ref(&self) -> (reader: &R)
        ensures
            reader == &self.source(),
    {
        &self.reader
    }

    /// A mutable reference to the underlying reader.
    pub fn get_mut(&mut self) -> (reader: &mut R)
        ensures
            *reader == old(self).source(),
            final(self).source() == *final(reader),
            final(self).caps() == old(self).caps(),
            final(self).fused() == old(self).fused(),
    {
        &mut self.reader
    }

    /// Consume the iterator, returning the underlying reader.
    ///
    /// The reader is left wherever iteration stopped: after a flow file, that
    /// is the start of whatever follows it.
    pub fn into_inner(self) -> (reader: R)
        ensures
            reader == self.source(),
    {
        self.reader
    }
}

impl<R: Reader> FlowFiles<R> {
    /// The next flow file, or `None` at the end of the stream and after an
    /// error.
    pub fn next(&mut self) -> (r: Option<Result<FlowFile<Vec<u8>>>>)
        ensures
            final(self).caps() == old(self).caps(),
            old(self).fused() ==> r is None && *final(self) == *old(self),
            !old(self).fused() ==> {
                &&& next_buffered(
                    old(self).source().pending(),
                    old(self).source().failure(),
                    old(self).caps(),
                    r,
                    final(self).source().pending(),
                )
                &&& final(self).source().failure() == old(self).source().failure()
                &&& final(self).fused() == !(r matches Some(Ok(_)))
            },
    {
        if self.done {
            return None;
        }
        let result = match next_header(&mut self.reader, self.limits) {
            Ok(None) => None,
            Ok(Some((attributes, size))) => {
                let ghost rest = self.reader.pending();
                assert(rest.len() == size ==> rest.skip(size as int) =~= Seq::empty());
                // The conversion recovers a truncation as `SizeMismatch`, so
                // buffering here reports it the way `from_bytes` does.
                match read_content(&mut self.reader, size) {
                    Ok(content) => Some(Ok(FlowFile { size, attributes, content })),
                    Err(e) => Some(Err(Error::from(e))),
                }
            },
            Err(e) => Some(Err(e)),
        };
        match &result {
            Some(Ok(_)) => {},
            _ => {
                self.done = true;
            },
        }
        result
    }
}

/// The content of a flow file from a [`FlowFilesReader`]: the stream itself,
/// limited to this flow file's content.
///
/// Reading it is optional. Whatever is left goes when the next flow file is
/// asked for.
#[derive(Debug)]
pub struct StreamedContent<'a, R> {
    /// The stream.
    pub inner: &'a mut R,
    /// How much of the content has not been read. Kept up to date as it is
    /// read, so that a content which is leaked rather than dropped leaves the
    /// count correct.
    pub unread: &'a mut u64,
}

impl<'a, R: Reader> Reader for StreamedContent<'a, R> {
    open spec fn pending(&self) -> Seq<u8> {
        take_up_to((*self.inner).pending(), *self.unread)
    }

    open spec fn failure(&self) -> Option<IoError> {
        if (*self.inner).pending().len() >= *self.unread {
            None
        } else {
            (*self.inner).failure()
        }
    }

    open spec fn interruptions(&self) -> nat {
        (*self.inner).interruptions()
    }

    /// Read up to `limit` bytes of the content. Where the next flow file of
    /// the stream starts does not depend on how many are read.
    fn read(&mut self, limit: usize) -> (r: core::result::Result<Vec<u8>, IoError>)
        ensures
            *final((*final(self)).inner) == *final((*old(self)).inner),
            *final((*final(self)).unread) == *final((*old(self)).unread),
            (*(*final(self)).inner).failure() == (*(*old(self)).inner).failure(),
            skip_up_to((*(*final(self)).inner).pending(), *(*final(self)).unread) == skip_up_to(
                (*(*old(self)).inner).pending(),
                *(*old(self)).unread,
            ),
            match r {
                Ok(chunk) => *(*final(self)).unread == *(*old(self)).unread - chunk@.len(),
                Err(_) => *(*final(self)).unread == *(*old(self)).unread,
            },
    {
        if *self.unread == 0 {
            let chunk: Vec<u8> = Vec::new();
            assert((*self).pending() =~= chunk@ + (*self).pending());
            return Ok(chunk);
        }
        let n: usize = if (limit as u64) < *self.unread {
            limit
        } else {
            *self.unread as usize
        };
        let ghost before = (*self.inner).pending();
        let ghost left = *self.unread;
        match self.inner.read(n) {
            Ok(chunk) => {
                *self.unread = *self.unread - chunk.len() as u64;
                assert((*old(self)).pending() =~= chunk@ + (*self).pending());
                assert(skip_up_to((*self.inner).pending(), *self.unread) =~= skip_up_to(before, left));
                Ok(chunk)
            },
            Err(e) => Err(e),
        }
    }
}

/// How much of a content of `size` bytes has arrived, when `unread` of it were
/// to be skipped and `skipped` could be.
pub open spec fn arrived(size: u64, unread: u64, skipped: nat) -> u64 {
    if unread <= size {
        (size - unread + skipped) as u64
    } else {
        skipped as u64
    }
}

/// Reads a stream of concatenated flow files *without* buffering their
/// content, keeping the stream positioned for you.
///
/// The streaming counterpart to [`FlowFiles`], and the one to reach for when a
/// flow file's content is too big to hold in memory.
///
/// That laziness is what makes [`FlowFile::parse_next`] sharp to use directly:
/// there, a flow file dropped with its content unread leaves the stream inside
/// that content, and the next parse reads it as though it were a flow file.
/// Here it does not matter. Each call picks up whatever the last flow file left
/// behind and skips it, so reading none of the content, some of it, or all of
/// it are equally correct.
///
/// After an error, `next` keeps returning `None`, as [`FlowFiles`] does: the
/// position in the stream is no longer trustworthy.
#[derive(Debug)]
pub struct FlowFilesReader<R> {
    reader: R,
    limits: Limits,
    size: u64,
    unread: u64,
    done: bool,
}

impl<R> FlowFilesReader<R> {
    /// The underlying reader.
    pub closed spec fn source(&self) -> R {
        self.reader
    }

    /// The limits on each header.
    pub closed spec fn caps(&self) -> Limits {
        self.limits
    }

    /// The declared content size of the flow file last handed out.
    pub closed spec fn declared(&self) -> u64 {
        self.size
    }

    /// How much of that content has not been read.
    pub closed spec fn left(&self) -> u64 {
        self.unread
    }

    /// Whether there is nothing more to come.
    pub closed spec fn fused(&self) -> bool {
        self.done
    }

    /// Read flow files from `reader`, without header limits.
    pub fn new(reader: R) -> (flow_files: FlowFilesReader<R>)
        ensures
            flow_files.source() == reader,
            flow_files.caps() == no_limits(),
            flow_files.left() == 0,
            !flow_files.fused(),
    {
        Self::with_limits(reader, Limits::unlimited())
    }

    /// Like [`new`](Self::new), but enforcing [`Limits`] on each header.
    /// Use this for untrusted input.
    pub fn with_limits(reader: R, limits: Limits) -> (flow_files: FlowFilesReader<R>)
        ensures
            flow_files.source() == reader,
            flow_files.caps() == limits,
            flow_files.left() == 0,
            !flow_files.fused(),
    {
        FlowFilesReader { reader, limits, size: 0, unread: 0, done: false }
    }

    /// A reference to the underlying reader.
    pub fn get_ref(&self) -> (reader: &R)
        ensures
            reader == &self.source(),
    {
        &self.reader
    }

    /// A mutable reference to the underlying reader.
    ///
    /// Note that the stream may be positioned part-way through a flow file's
    /// content, whatever the last one handed out did not read.
    /// [`next`](Self::next) accounts for that; anything reading around it does
    /// not.
    pub fn get_mut(&mut self) -> (reader: &mut R)
        ensures
            *reader == old(self).source(),
            final(self).source() == *final(reader),
            final(self).caps() == old(self).caps(),
            final(self).declared() == old(self).declared(),
            final(self).left() == old(self).left(),
            final(self).fused() == old(self).fused(),
    {
        &mut self.reader
    }

    /// Consume the reader, returning the underlying one. See
    /// [`get_mut`](Self::get_mut) for where it is positioned.
    pub fn into_inner(self) -> (reader: R)
        ensures
            reader == self.source(),
    {
        self.reader
    }
}

impl<R: Reader> FlowFilesReader<R> {
    /// The bytes that the next flow file starts with: what is left of the
    /// stream after the content last handed out.
    pub open spec fn upcoming(&self) -> Seq<u8> {
        skip_up_to(self.source().pending(), self.left())
    }

    /// The stream holds all of the content last handed out.
    pub open spec fn whole(&self) -> bool {
        self.source().pending().len() >= self.left()
    }

    /// The next flow file, or `None` at the end of the stream.
    ///
    /// Anything left unread of the previous flow file's content is skipped
    /// first, so the caller is never responsible for the stream's position.
    ///
    /// # Errors
    ///
    /// As [`FlowFile::parse_next`], plus [`Error::SizeMismatch`] if the stream
    /// ends part-way through content this call had to skip.
    pub fn next(&mut self) -> (r: Result<Option<FlowFile<StreamedContent<'_, R>>>>)
        ensures
            final(self).caps() == old(self).caps(),
            old(self).fused() ==> r == Ok::<Option<FlowFile<StreamedContent<'_, R>>>, Error>(None) && *final(self)
                == *old(self),
            !old(self).fused() ==> match r {
                Ok(Some(f)) => {
                    &&& old(self).whole()
                    &&& decode_header(old(self).upcoming(), old(self).caps()) == (Outcome::Accepted {
                        attributes: f.attributes@,
                        size: f.size,
                        rest: (*f.content.inner).pending(),
                    })
                    &&& (*f.content.inner).failure() == old(self).source().failure()
                    &&& *f.content.unread == f.size
                    &&& final(self).source() == *final(f.content.inner)
                    &&& final(self).left() == *final(f.content.unread)
                    &&& final(self).declared() == f.size
                    &&& !final(self).fused()
                },
                Ok(None) => {
                    &&& old(self).whole()
                    &&& at_end(old(self).upcoming(), old(self).source().failure())
                    &&& final(self).fused()
                },
                Err(e) => {
                    &&& final(self).fused()
                    &&& if old(self).whole() {
                        next_refused(old(self).upcoming(), old(self).source().failure(), old(self).caps(), e)
                    } else if old(self).source().failure() is Some {
                        e == from_io(old(self).source().failure()->0)
                    } else {
                        e == (Error::SizeMismatch {
                            expected: old(self).declared(),
                            actual: arrived(
                                old(self).declared(),
                                old(self).left(),
                                old(self).source().pending().len(),
                            ),
                        })
                    }
                },
            },
    {
        if self.done {
            return Ok(None);
        }
        if let Err(e) = self.discard_unread() {
            self.done = true;
            return Err(e);
        }
        match next_header(&mut self.reader, self.limits) {
            Ok(Some((attributes, size))) => {
                self.size = size;
                self.unread = size;
                // Disjoint borrows of two fields, which is what lets the
                // content carry both the stream and the counter that tracks
                // it.
                let FlowFilesReader { reader, unread, .. } = self;
                Ok(Some(FlowFile { size, attributes, content: StreamedContent { inner: reader, unread } }))
            },
            Ok(None) => {
                self.done = true;
                Ok(None)
            },
            Err(e) => {
                self.done = true;
                Err(e)
            },
        }
    }

    /// Read past whatever of the last flow file's content was left.
    fn discard_unread(&mut self) -> (r: Result<()>)
        ensures
            final(self).caps() == old(self).caps(),
            final(self).declared() == old(self).declared(),
            final(self).fused() == old(self).fused(),
            final(self).source().failure() == old(self).source().failure(),
            match r {
                Ok(_) => {
                    &&& old(self).whole()
                    &&& final(self).source().pending() == old(self).upcoming()
                    &&& final(self).left() == 0
                },
                Err(e) => {
                    &&& !old(self).whole()
                    &&& if old(self).source().failure() is Some {
                        e == from_io(old(self).source().failure()->0)
                    } else {
                        e == (Error::SizeMismatch {
                            expected: old(self).declared(),
                            actual: arrived(
                                old(self).declared(),
                                old(self).left(),
                                old(self).source().pending().len(),
                            ),
                        })
                    }
                },
            },
    {
        if self.unread == 0 {
            assert(self.reader.pending() =~= skip_up_to(self.reader.pending(), 0));
            return Ok(());
        }
        let unread: u64 = self.unread;
        match skip(&mut self.reader, unread) {
            Ok(skipped) => {
                self.unread = 0;
                if skipped != unread {
                    // Report against the whole content, not the part being
                    // skipped: what the header declared is what did not
                    // arrive.
                    let actual: u64 = if unread <= self.size {
                        self.size - unread + skipped
                    } else {
                        skipped
                    };
                    return Err(Error::SizeMismatch { expected: self.size, actual });
                }
                Ok(())
            },
            Err(e) => Err(Error::from(e)),
        }
    }
}

/// Writes a stream of concatenated flow files, the counterpart to
/// [`FlowFiles`].
///
/// A failed write leaves a partial flow file in the stream, so the writer
/// refuses every write after one, the way [`FlowFiles`] stops reading after an
/// error: appending to a stream that is mid-record would bury the failure
/// rather than report it. See [`is_poisoned`](Self::is_poisoned).
///
/// # Finishing
///
/// This type writes straight through and buffers nothing of its own, but the
/// writer underneath it may. Finish with [`finish`](Self::finish), which
/// flushes and hands the writer back; [`flush`](Self::flush) does it without
/// giving up the writer, and [`into_inner`](Self::into_inner) deliberately
/// skips it.
#[derive(Debug)]
pub struct FlowFilesWriter<W> {
    writer: W,
    count: u64,
    poisoned: bool,
}

impl<W> FlowFilesWriter<W> {
    /// The underlying writer.
    pub closed spec fn sink(&self) -> W {
        self.writer
    }

    /// How many flow files are complete.
    pub closed spec fn complete(&self) -> u64 {
        self.count
    }

    /// Whether the stream is mid-flow-file.
    pub closed spec fn broken(&self) -> bool {
        self.poisoned
    }

    /// Write flow files to `writer`.
    pub fn new(writer: W) -> (w: FlowFilesWriter<W>)
        ensures
            w.sink() == writer,
            w.complete() == 0,
            !w.broken(),
    {
        FlowFilesWriter { writer, count: 0, poisoned: false }
    }

    /// Whether writing is still possible.
    pub fn guard(&self) -> (r: core::result::Result<(), IoError>)
        ensures
            match r {
                Ok(_) => !self.broken(),
                Err(e) => self.broken() && e == into_io(Error::WriterPoisoned),
            },
    {
        if self.poisoned {
            return Err(poisoned());
        }
        Ok(())
    }

    /// Pass on what a write came to, refusing every later one if it failed.
    pub fn poison_on_err<T>(&mut self, result: core::result::Result<T, IoError>) -> (r: core::result::Result<T, IoError>)
        ensures
            r == result,
            final(self).sink() == old(self).sink(),
            final(self).complete() == old(self).complete(),
            final(self).broken() == (old(self).broken() || result is Err),
    {
        if result.is_err() {
            self.poisoned = true;
        }
        result
    }

    /// Whether a write has failed, leaving the stream mid-flow-file.
    ///
    /// Once this is true every further write fails without touching the
    /// underlying writer. [`into_inner`](Self::into_inner) still hands it
    /// back, for a caller that wants to discard or truncate the output.
    pub fn is_poisoned(&self) -> (yes: bool)
        ensures
            yes == self.broken(),
    {
        self.poisoned
    }

    /// The number of flow files written so far, counting only the complete
    /// ones.
    pub fn count(&self) -> (n: u64)
        ensures
            n == self.complete(),
    {
        self.count
    }

    /// A reference to the underlying writer.
    pub fn get_ref(&self) -> (writer: &W)
        ensures
            writer == &self.sink(),
    {
        &self.writer
    }

    /// A mutable reference to the underlying writer.
    pub fn get_mut(&mut self) -> (writer: &mut W)
        ensures
            *writer == old(self).sink(),
            final(self).sink() == *final(writer),
            final(self).complete() == old(self).complete(),
            final(self).broken() == old(self).broken(),
    {
        &mut self.writer
    }

    /// Consume the writer, returning the underlying one *without flushing it*.
    ///
    /// For finishing a stream, use [`finish`](Self::finish). This is the
    /// escape hatch for the other case: taking the writer back after a failure
    /// in order to discard or truncate what was produced.
    pub fn into_inner(self) -> (writer: W)
        ensures
            writer == self.sink(),
    {
        self.writer
    }
}

impl<W: Writer> FlowFilesWriter<W> {
    /// Append a flow file, streaming exactly [`size`](FlowFile::size) bytes
    /// from its content reader. Returns the number of content bytes copied.
    ///
    /// # Errors
    ///
    /// As [`FlowFile::write_to`]: a content reader that ends early leaves a
    /// truncated flow file behind, and poisons the writer. Use
    /// [`write_bytes`](Self::write_bytes) for content whose length must be
    /// verified before anything is committed.
    pub fn write<R: Reader>(&mut self, flow_file: FlowFile<R>) -> (r: core::result::Result<u64, IoError>)
        requires
            encodable(flow_file.attributes@),
            old(self).complete() < u64::MAX,
        ensures
            old(self).broken() ==> {
                &&& r == Err::<u64, IoError>(into_io(Error::WriterPoisoned))
                &&& *final(self) == *old(self)
            },
            !old(self).broken() ==> {
                let (bytes, outcome) = write_outcome(
                    header_wire(flow_file.attributes@, flow_file.size),
                    flow_file.size,
                    flow_file.content.pending(),
                    flow_file.content.failure(),
                    old(self).sink().budget(),
                );
                &&& r == outcome
                &&& final(self).sink().written() == old(self).sink().written() + bytes
                &&& final(self).broken() == (r is Err)
                &&& final(self).complete() == old(self).complete() + (if r is Ok {
                    1int
                } else {
                    0int
                })
                &&& r is Ok ==> final(self).sink().budget() == spend(old(self).sink().budget(), bytes.len())
            },
    {
        if let Err(e) = self.guard() {
            return Err(e);
        }
        let result = flow_file.write_to(&mut self.writer);
        match self.poison_on_err(result) {
            Ok(copied) => {
                self.count = self.count + 1;
                Ok(copied)
            },
            Err(e) => Err(e),
        }
    }

    /// Append an in-memory flow file, whose size is known to be correct.
    ///
    /// # Errors
    ///
    /// Whatever the writer returns, which, since it may have accepted part
    /// of the flow file first, also poisons the writer.
    pub fn write_bytes(&mut self, flow_file: &FlowFile<Vec<u8>>) -> (r: core::result::Result<u64, IoError>)
        requires
            flow_file@.serializable(),
            old(self).complete() < u64::MAX,
        ensures
            old(self).broken() ==> {
                &&& r == Err::<u64, IoError>(into_io(Error::WriterPoisoned))
                &&& *final(self) == *old(self)
            },
            !old(self).broken() ==> if accepts(old(self).sink().budget(), flow_file@.wire().len()) {
                &&& r == Ok::<u64, IoError>(flow_file.size)
                &&& final(self).sink().written() == old(self).sink().written() + flow_file@.wire()
                &&& final(self).sink().budget() == spend(old(self).sink().budget(), flow_file@.wire().len())
                &&& final(self).complete() == old(self).complete() + 1
                &&& !final(self).broken()
            } else {
                let (room, refusal) = old(self).sink().budget()->0;
                &&& r == Err::<u64, IoError>(refusal)
                &&& final(self).sink().written() == old(self).sink().written() + flow_file@.wire().take(room as int)
                &&& final(self).complete() == old(self).complete()
                &&& final(self).broken()
            },
    {
        if let Err(e) = self.guard() {
            return Err(e);
        }
        let bytes = flow_file.to_bytes();
        let result = self.writer.write_all(bytes.as_slice());
        match self.poison_on_err(result) {
            Ok(_) => {
                self.count = self.count + 1;
                Ok(flow_file.size)
            },
            Err(e) => Err(e),
        }
    }

    /// Flush the underlying writer.
    ///
    /// Nothing else here does: this type holds no buffer of its own, so
    /// whatever the writer underneath keeps is only pushed out when asked.
    ///
    /// # Errors
    ///
    /// Whatever the underlying writer returns. A failed flush poisons the
    /// writer, since bytes that never reached the stream leave it
    /// mid-flow-file exactly as a failed write does.
    pub fn flush(&mut self) -> (r: core::result::Result<(), IoError>)
        ensures
            final(self).sink().written() == old(self).sink().written(),
            final(self).complete() == old(self).complete(),
            match old(self).sink().flush_failure() {
                Some(failure) => r == Err::<(), IoError>(failure) && final(self).broken(),
                None => {
                    &&& r is Ok
                    &&& final(self).sink().flushed() == final(self).sink().written()
                    &&& final(self).broken() == old(self).broken()
                },
            },
    {
        let result = self.writer.flush();
        self.poison_on_err(result)
    }

    /// Flush and return the underlying writer: the ordinary way to finish.
    ///
    /// # Errors
    ///
    /// Whatever flushing the underlying writer returns, in which case the
    /// writer is dropped. To keep hold of it either way, call
    /// [`flush`](Self::flush) and then [`into_inner`](Self::into_inner).
    pub fn finish(self) -> (r: core::result::Result<W, IoError>)
        ensures
            match self.sink().flush_failure() {
                Some(failure) => r == Err::<W, IoError>(failure),
                None => {
                    &&& r matches Ok(writer)
                    &&& writer.written() == self.sink().written()
                    &&& writer.flushed() == writer.written()
                },
            },
    {
        let mut this = self;
        match this.flush() {
            Ok(_) => Ok(this.writer),
            Err(e) => Err(e),
        }
    }
}

} // verus!
