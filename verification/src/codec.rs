//! The wire format of one request or response: the varint of the payload's length,
//! then the payload. A codec holds the largest request and the largest response that
//! it admits, and nothing else.

use crate::varint::{
    decode_varint, decoded, encode_varint, lemma_decode_encode, lemma_decoded_final,
    lemma_varint_shape, varint, VarintError,
};
use vstd::prelude::*;
use vstd::slice::{slice_subrange, slice_to_vec};

verus! {

/// Why a message could not be read from, or written to, a substream.
#[derive(Clone, Copy, Debug, PartialEq, Eq, Structural)]
pub enum CodecError {
    /// The length prefix is no varint of a `usize`.
    Prefix(VarintError),
    /// The length prefix announces more bytes than the codec admits.
    SizeExceeded { length: usize, limit: usize },
    /// The substream ends before the announced payload does.
    UnexpectedEof,
    /// The write side of the substream was closed before.
    Closed,
}

/// The kind of failure that a host reports for a `CodecError`.
#[derive(Clone, Copy, Debug, PartialEq, Eq, Structural)]
pub enum CodecErrorKind {
    /// The peer sent something that this codec refuses.
    InvalidInput,
    /// The substream ended too early.
    UnexpectedEof,
    /// The substream was closed on our side.
    BrokenPipe,
}

impl CodecError {
    /// The kind of this error: a bad or too large length prefix is invalid input.
    pub open spec fn spec_kind(self) -> CodecErrorKind {
        match self {
            CodecError::Prefix(_) => CodecErrorKind::InvalidInput,
            CodecError::SizeExceeded { .. } => CodecErrorKind::InvalidInput,
            CodecError::UnexpectedEof => CodecErrorKind::UnexpectedEof,
            CodecError::Closed => CodecErrorKind::BrokenPipe,
        }
    }

    /// The kind of this error.
    #[verifier::when_used_as_spec(spec_kind)]
    pub fn kind(self) -> (k: CodecErrorKind)
        ensures
            k == self.spec_kind(),
    {
        match self {
            CodecError::Prefix(_) => CodecErrorKind::InvalidInput,
            CodecError::SizeExceeded { .. } => CodecErrorKind::InvalidInput,
            CodecError::UnexpectedEof => CodecErrorKind::UnexpectedEof,
            CodecError::Closed => CodecErrorKind::BrokenPipe,
        }
    }
}

/// A message as it travels: its length as a varint, then its bytes.
pub open spec fn frame(payload: Seq<u8>) -> Seq<u8> {
    varint(payload.len()) + payload
}

/// What reading one message from `unread` gives under a limit on its length, and how
/// many bytes of `unread` the read takes.
///
/// A prefix that is no varint takes nothing. A prefix over the limit is taken, and not
/// one byte of the payload behind it. So is the prefix of a payload that is cut short.
pub open spec fn read_frame(limit: usize, unread: Seq<u8>) -> (Result<Seq<u8>, CodecError>, nat) {
    match decoded(unread) {
        Err(e) => (Err(CodecError::Prefix(e)), 0),
        Ok((length, used)) => {
            if length > limit {
                (Err(CodecError::SizeExceeded { length: length as usize, limit }), used)
            } else if unread.len() < used + length {
                (Err(CodecError::UnexpectedEof), used)
            } else {
                (Ok(unread.subrange(used as int, (used + length) as int)), used + length)
            }
        },
    }
}

/// What the bytes read so far say of the message that they start, under a limit on
/// its length: how many bytes of payload follow, or that more bytes are needed to
/// tell, or why the message is refused.
pub open spec fn prefix_verdict(limit: usize, prefix: Seq<u8>) -> Result<Option<usize>, CodecError> {
    match decoded(prefix) {
        Ok((length, _)) => if length > limit {
            Err(CodecError::SizeExceeded { length: length as usize, limit })
        } else {
            Ok(Some(length as usize))
        },
        Err(VarintError::Insufficient) => Ok(None),
        Err(e) => Err(CodecError::Prefix(e)),
    }
}

/// The outcome of a read with the payload taken as a sequence.
pub open spec fn read_view(r: Result<Vec<u8>, CodecError>) -> Result<Seq<u8>, CodecError> {
    match r {
        Ok(payload) => Ok(payload@),
        Err(e) => Err(e),
    }
}

/// The read side of a substream held in memory: what the peer sent, and how much of it
/// has been read.
#[derive(Debug)]
pub struct ReadStream {
    data: Vec<u8>,
    position: usize,
}

impl ReadStream {
    /// The position never passes the end of the data.
    #[verifier::type_invariant]
    spec fn inv(self) -> bool {
        self.position <= self.data@.len()
    }

    /// All that the peer sent.
    pub closed spec fn sent(self) -> Seq<u8> {
        self.data@
    }

    /// How many bytes have been read.
    pub closed spec fn spec_position(&self) -> usize {
        self.position
    }

    /// What has not been read yet.
    pub open spec fn unread(self) -> Seq<u8> {
        self.sent().skip(self.spec_position() as int)
    }

    /// A substream on which the peer sent `data`, of which nothing has been read.
    pub fn new(data: Vec<u8>) -> (io: ReadStream)
        ensures
            io.sent() == data@,
            io.spec_position() == 0,
    {
        ReadStream { data, position: 0 }
    }

    /// How many bytes have been read.
    #[verifier::when_used_as_spec(spec_position)]
    pub fn position(&self) -> (p: usize)
        ensures
            p == self.spec_position(),
            p <= self.sent().len(),
    {
        proof {
            use_type_invariant(self);
        }
        self.position
    }

    /// How many bytes are left to read.
    pub fn remaining(&self) -> (n: usize)
        ensures
            n == self.unread().len(),
    {
        proof {
            use_type_invariant(self);
        }
        self.data.len() - self.position
    }
}

/// The write side of a substream held in memory: what was written, and whether the
/// end of writing was signalled.
#[derive(Debug)]
pub struct WriteStream {
    data: Vec<u8>,
    closed: bool,
}

impl WriteStream {
    /// All that was written.
    pub closed spec fn written(self) -> Seq<u8> {
        self.data@
    }

    /// Whether the end of writing was signalled.
    pub closed spec fn spec_is_closed(&self) -> bool {
        self.closed
    }

    /// A substream on which nothing was written.
    pub fn new() -> (io: WriteStream)
        ensures
            io.written() == Seq::<u8>::empty(),
            !io.spec_is_closed(),
    {
        WriteStream { data: Vec::new(), closed: false }
    }

    /// Whether the end of writing was signalled.
    #[verifier::when_used_as_spec(spec_is_closed)]
    pub fn is_closed(&self) -> (c: bool)
        ensures
            c == self.spec_is_closed(),
    {
        self.closed
    }

    /// All that was written.
    pub fn bytes(&self) -> (b: &Vec<u8>)
        ensures
            b@ == self.written(),
    {
        &self.data
    }

    /// Gives up the substream for what was written on it.
    pub fn into_bytes(self) -> (b: Vec<u8>)
        ensures
            b@ == self.written(),
    {
        self.data
    }
}

/// The bytes of one message on the wire.
pub fn encode_frame(payload: &[u8]) -> (wire: Vec<u8>)
    ensures
        wire@ == frame(payload@),
{
    let mut wire = encode_varint(payload.len());
    wire.extend_from_slice(payload);
    assert(wire@ =~= frame(payload@));
    wire
}

/// Reads one message of at most `limit` bytes.
fn read_message(limit: usize, io: &mut ReadStream) -> (r: Result<Vec<u8>, CodecError>)
    ensures
        final(io).sent() == old(io).sent(),
        (read_view(r), (final(io).spec_position() - old(io).spec_position()) as nat) == read_frame(
            limit,
            old(io).unread(),
        ),
{
    proof {
        use_type_invariant(&*io);
    }
    let total = io.data.len();
    let unread = slice_subrange(io.data.as_slice(), io.position, total);
    assert(unread@ =~= old(io).unread());
    match decode_varint(unread) {
        Err(e) => Err(CodecError::Prefix(e)),
        Ok((length, used)) => {
            let start = io.position + used;
            if length > limit {
                io.position = start;
                Err(CodecError::SizeExceeded { length, limit })
            } else if total - start < length {
                io.position = start;
                Err(CodecError::UnexpectedEof)
            } else {
                let payload = slice_to_vec(slice_subrange(io.data.as_slice(), start, start + length));
                assert(payload@ =~= old(io).unread().subrange(used as int, used + length));
                io.position = start + length;
                Ok(payload)
            }
        },
    }
}

/// Says what the bytes read so far say of the message that they start.
fn judge_prefix(limit: usize, prefix: &[u8]) -> (r: Result<Option<usize>, CodecError>)
    ensures
        r == prefix_verdict(limit, prefix@),
{
    match decode_varint(prefix) {
        Ok((length, _)) => {
            if length > limit {
                Err(CodecError::SizeExceeded { length, limit })
            } else {
                Ok(Some(length))
            }
        },
        Err(VarintError::Insufficient) => Ok(None),
        Err(e) => Err(CodecError::Prefix(e)),
    }
}

/// Writes one message and signals the end of writing.
fn write_message(io: &mut WriteStream, payload: &[u8]) -> (r: Result<(), CodecError>)
    ensures
        old(io).spec_is_closed() ==> r == Err::<(), CodecError>(CodecError::Closed) && *final(io)
            == *old(io),
        !old(io).spec_is_closed() ==> r == Ok::<(), CodecError>(()) && final(io).written()
            == old(io).written() + frame(payload@) && final(io).spec_is_closed(),
{
    if io.closed {
        return Err(CodecError::Closed);
    }
    let wire = encode_frame(payload);
    io.data.extend_from_slice(wire.as_slice());
    io.closed = true;
    assert(io.data@ =~= old(io).data@ + frame(payload@));
    Ok(())
}

/// How requests and responses of one protocol are turned into bytes and back.
#[derive(Clone, Copy, Debug, PartialEq, Eq, Structural)]
pub struct GenericCodec {
    max_request_size: usize,
    max_response_size: usize,
}

impl GenericCodec {
    /// The largest request that the codec reads.
    pub closed spec fn spec_max_request_size(&self) -> usize {
        self.max_request_size
    }

    /// The largest response that the codec reads.
    pub closed spec fn spec_max_response_size(&self) -> usize {
        self.max_response_size
    }

    /// The codec with the given limits, in bytes.
    pub closed spec fn spec_new(max_request_size: usize, max_response_size: usize) -> GenericCodec {
        GenericCodec { max_request_size, max_response_size }
    }

    /// A codec with the given limits, in bytes.
    #[verifier::when_used_as_spec(spec_new)]
    pub fn new(max_request_size: usize, max_response_size: usize) -> (codec: GenericCodec)
        ensures
            codec == Self::spec_new(max_request_size, max_response_size),
            codec.spec_max_request_size() == max_request_size,
            codec.spec_max_response_size() == max_response_size,
    {
        GenericCodec { max_request_size, max_response_size }
    }

    /// The largest request that the codec reads.
    #[verifier::when_used_as_spec(spec_max_request_size)]
    pub fn max_request_size(&self) -> (n: usize)
        ensures
            n == self.spec_max_request_size(),
    {
        self.max_request_size
    }

    /// The largest response that the codec reads.
    #[verifier::when_used_as_spec(spec_max_response_size)]
    pub fn max_response_size(&self) -> (n: usize)
        ensures
            n == self.spec_max_response_size(),
    {
        self.max_response_size
    }

    /// Whether a request of `length` bytes is admitted. A host that reads the prefix
    /// itself asks this before it reads one byte of the payload.
    pub fn check_request_size(&self, length: usize) -> (r: Result<(), CodecError>)
        ensures
            r == if length > self.max_request_size() {
                Err::<(), CodecError>(
                    CodecError::SizeExceeded { length, limit: self.max_request_size() },
                )
            } else {
                Ok::<(), CodecError>(())
            },
    {
        if length > self.max_request_size {
            Err(CodecError::SizeExceeded { length, limit: self.max_request_size })
        } else {
            Ok(())
        }
    }

    /// Whether a response of `length` bytes is admitted.
    pub fn check_response_size(&self, length: usize) -> (r: Result<(), CodecError>)
        ensures
            r == if length > self.max_response_size() {
                Err::<(), CodecError>(
                    CodecError::SizeExceeded { length, limit: self.max_response_size() },
                )
            } else {
                Ok::<(), CodecError>(())
            },
    {
        if length > self.max_response_size {
            Err(CodecError::SizeExceeded { length, limit: self.max_response_size })
        } else {
            Ok(())
        }
    }

    /// Says what the first bytes of a request say of it: `Ok(Some(length))` where the
    /// length prefix is complete and `length` bytes of payload are to be read,
    /// `Ok(None)` where another byte of the prefix is needed, and the error where
    /// the request is refused. A host that reads from the network byte by byte asks
    /// this after each byte of the prefix, and so reads no byte of a payload that is
    /// over the limit.
    pub fn request_prefix(&self, prefix: &[u8]) -> (r: Result<Option<usize>, CodecError>)
        ensures
            r == prefix_verdict(self.max_request_size(), prefix@),
    {
        judge_prefix(self.max_request_size, prefix)
    }

    /// Says what the first bytes of a response say of it, as `request_prefix` does
    /// for a request.
    pub fn response_prefix(&self, prefix: &[u8]) -> (r: Result<Option<usize>, CodecError>)
        ensures
            r == prefix_verdict(self.max_response_size(), prefix@),
    {
        judge_prefix(self.max_response_size, prefix)
    }

    /// Reads one request from the substream.
    pub fn read_request(&self, io: &mut ReadStream) -> (r: Result<Vec<u8>, CodecError>)
        ensures
            final(io).sent() == old(io).sent(),
            (read_view(r), (final(io).spec_position() - old(io).spec_position()) as nat)
                == read_frame(self.max_request_size(), old(io).unread()),
    {
        read_message(self.max_request_size, io)
    }

    /// Reads one response from the substream.
    pub fn read_response(&self, io: &mut ReadStream) -> (r: Result<Vec<u8>, CodecError>)
        ensures
            final(io).sent() == old(io).sent(),
            (read_view(r), (final(io).spec_position() - old(io).spec_position()) as nat)
                == read_frame(self.max_response_size(), old(io).unread()),
    {
        read_message(self.max_response_size, io)
    }

    /// Writes one request to the substream and signals the end of writing. Fails, and
    /// writes nothing, where the end of writing was signalled before.
    pub fn write_request(&self, io: &mut WriteStream, req: Vec<u8>) -> (r: Result<(), CodecError>)
        ensures
            old(io).spec_is_closed() ==> r == Err::<(), CodecError>(CodecError::Closed)
                && *final(io) == *old(io),
            !old(io).spec_is_closed() ==> r == Ok::<(), CodecError>(()) && final(io).written()
                == old(io).written() + frame(req@) && final(io).spec_is_closed(),
    {
        write_message(io, req.as_slice())
    }

    /// Writes one response to the substream and signals the end of writing. Fails, and
    /// writes nothing, where the end of writing was signalled before.
    pub fn write_response(&self, io: &mut WriteStream, res: Vec<u8>) -> (r: Result<(), CodecError>)
        ensures
            old(io).spec_is_closed() ==> r == Err::<(), CodecError>(CodecError::Closed)
                && *final(io) == *old(io),
            !old(io).spec_is_closed() ==> r == Ok::<(), CodecError>(()) && final(io).written()
                == old(io).written() + frame(res@) && final(io).spec_is_closed(),
    {
        write_message(io, res.as_slice())
    }
}

/// Reading what was written gives the payload back where it is within the limit, and
/// takes the whole message.
pub proof fn lemma_read_written(limit: usize, payload: Seq<u8>, rest: Seq<u8>)
    requires
        payload.len() <= limit,
    ensures
        read_frame(limit, frame(payload) + rest) == (
            Ok::<Seq<u8>, CodecError>(payload),
            frame(payload).len(),
        ),
{
    let prefix = varint(payload.len());
    let wire = frame(payload) + rest;
    assert(wire =~= prefix + (payload + rest));
    lemma_decode_encode(payload.len(), payload + rest);
    assert(wire.subrange(prefix.len() as int, (prefix.len() + payload.len()) as int) =~= payload);
}

/// Reading what was written fails where the payload is over the limit, and takes the
/// length prefix and not one byte of the payload.
pub proof fn lemma_read_over_limit(limit: usize, payload: Seq<u8>, rest: Seq<u8>)
    requires
        limit < payload.len() <= usize::MAX,
    ensures
        read_frame(limit, frame(payload) + rest) == (
            Err::<Seq<u8>, CodecError>(
                CodecError::SizeExceeded { length: payload.len() as usize, limit },
            ),
            varint(payload.len()).len(),
        ),
{
    let prefix = varint(payload.len());
    let wire = frame(payload) + rest;
    assert(wire =~= prefix + (payload + rest));
    lemma_decode_encode(payload.len(), payload + rest);
}

/// A message on the wire is longer than its payload by the length of its prefix,
/// which is at least one byte.
pub proof fn lemma_frame_len(payload: Seq<u8>)
    ensures
        frame(payload).len() == varint(payload.len()).len() + payload.len(),
        frame(payload).len() > payload.len(),
{
    lemma_varint_shape(payload.len());
}


/// What the first bytes say of a message is final once it is more than that they are
/// too few: bytes that follow do not change it.
pub proof fn lemma_verdict_final(limit: usize, prefix: Seq<u8>, rest: Seq<u8>)
    requires
        prefix_verdict(limit, prefix) != Ok::<Option<usize>, CodecError>(None),
    ensures
        prefix_verdict(limit, prefix + rest) == prefix_verdict(limit, prefix),
{
    lemma_decoded_final(prefix, rest);
}

/// Reading a whole substream at once comes to what reading it piece by piece comes
/// to: a refusal is the same refusal, and where a length is told, that many bytes
/// behind the prefix are the payload, if they are all there.
pub proof fn lemma_read_follows_verdict(limit: usize, unread: Seq<u8>)
    ensures
        match prefix_verdict(limit, unread) {
            Ok(Some(length)) => decoded(unread) is Ok && read_frame(limit, unread).0 == (if unread.len()
                < decoded(unread).unwrap().1 + length {
                Err::<Seq<u8>, CodecError>(CodecError::UnexpectedEof)
            } else {
                Ok::<Seq<u8>, CodecError>(
                    unread.subrange(
                        decoded(unread).unwrap().1 as int,
                        decoded(unread).unwrap().1 + length,
                    ),
                )
            }),
            Ok(None) => read_frame(limit, unread).0 == Err::<Seq<u8>, CodecError>(
                CodecError::Prefix(VarintError::Insufficient),
            ),
            Err(e) => read_frame(limit, unread).0 == Err::<Seq<u8>, CodecError>(e),
        },
{
}

} // verus!
