//! The transport binder and the per-connection pipeline. A `Transport`
//! binds the line codec to one connection's read and write buffers; a
//! `Pipeline` drives the connection: every complete frame fed in is
//! decoded, handed to the service, and its response encoded to the
//! output, strictly one request at a time and in arrival order.

use vstd::prelude::*;

use crate::codec::encoded;
use crate::codec::frame_split;
use crate::codec::has_nl;
use crate::codec::lemma_frame_split_parts;
use crate::codec::lemma_split_encoded;
use crate::codec::Buffer;
use crate::codec::CodecError;
use crate::codec::LineCodec;
use crate::codec::Message;
use crate::service::Echo;
use crate::service::Service;
use crate::utf8::is_utf8;

verus! {

/// The framed transport of one connection: the line codec bound to a
/// read buffer of raw bytes and a write buffer of encoded responses.
pub struct Transport {
    codec: LineCodec,
    read_buf: Buffer,
    write_buf: Vec<u8>,
}

impl Transport {
    /// The raw bytes read from the connection and not yet consumed.
    pub closed spec fn in_bytes(&self) -> Seq<u8> {
        self.read_buf@
    }

    /// The encoded bytes queued for writing to the connection.
    pub closed spec fn out_bytes(&self) -> Seq<u8> {
        self.write_buf@
    }

    /// A transport with empty buffers.
    pub fn new() -> (t: Transport)
        ensures
            t.in_bytes() == Seq::<u8>::empty(),
            t.out_bytes() == Seq::<u8>::empty(),
    {
        Transport { codec: LineCodec, read_buf: Buffer::new(), write_buf: Vec::new() }
    }

    /// Appends bytes read from the connection to the read buffer.
    pub fn feed(&mut self, chunk: &[u8])
        ensures
            final(self).in_bytes() == old(self).in_bytes() + chunk@,
            final(self).out_bytes() == old(self).out_bytes(),
    {
        self.read_buf.extend(chunk);
    }

    /// Attempts to decode one message from the read buffer: `Ok(None)`
    /// until a full frame has arrived, then the frame's message, or the
    /// codec's error if the frame is not UTF-8.
    pub fn try_receive(&mut self) -> (r: Result<Option<Message>, CodecError>)
        ensures
            final(self).out_bytes() == old(self).out_bytes(),
            match frame_split(old(self).in_bytes()) {
                None => final(self).in_bytes() == old(self).in_bytes() && (r matches Ok(o)
                    && o is None),
                Some(parts) => final(self).in_bytes() == parts.1 && (if is_utf8(parts.0) {
                    r matches Ok(o) && o matches Some(m) && m@ == parts.0
                } else {
                    r matches Err(e) && e == CodecError::MalformedFrame
                }),
            },
    {
        self.codec.decode(&mut self.read_buf)
    }

    /// Encodes a message and queues its bytes for writing.
    pub fn send(&mut self, msg: Message)
        ensures
            final(self).in_bytes() == old(self).in_bytes(),
            final(self).out_bytes() == old(self).out_bytes() + encoded(msg@),
    {
        self.codec.encode(msg, &mut self.write_buf);
    }

    /// Hands over everything queued for writing and clears the queue.
    pub fn take_output(&mut self) -> (r: Vec<u8>)
        ensures
            r@ == old(self).out_bytes(),
            final(self).out_bytes() == Seq::<u8>::empty(),
            final(self).in_bytes() == old(self).in_bytes(),
    {
        let mut v: Vec<u8> = Vec::new();
        core::mem::swap(&mut v, &mut self.write_buf);
        v
    }

    /// How many unconsumed bytes the read buffer holds.
    pub fn in_len(&self) -> (n: usize)
        ensures
            n == self.in_bytes().len(),
    {
        self.read_buf.len()
    }
}

/// The line-delimited protocol: binds the line codec to a raw
/// connection, yielding a framed transport.
pub struct LineProto;

impl LineProto {
    /// A fresh framed transport for one accepted connection.
    pub fn bind_transport(&self) -> (t: Transport)
        ensures
            t.in_bytes() == Seq::<u8>::empty(),
            t.out_bytes() == Seq::<u8>::empty(),
    {
        Transport::new()
    }
}

/// Where a connection's pipeline stands.
#[derive(Clone, Copy, Debug, PartialEq, Eq, Structural)]
pub enum PipelineState {
    /// Healthy: waiting for the next complete request frame.
    AwaitingRequest,
    /// The remote side ended the stream cleanly; nothing was cut off.
    Closed,
    /// A malformed frame, a failing service, or a stream that ended in
    /// the middle of a frame. Fatal: the framing can no longer be
    /// trusted, so no response is produced past this point.
    Failed,
}

/// What repeatedly decoding and handling frames does to a connection:
/// from the unconsumed input and the output queued so far, the input and
/// output after every complete frame has been handled, and whether the
/// connection failed on the way. Responses are appended strictly in
/// request order; handling stops at the first malformed frame or failing
/// request, whose frame is already consumed.
pub open spec fn drain<S: Service>(svc: S, buf: Seq<u8>, out: Seq<u8>) -> (Seq<u8>, Seq<u8>, bool)
    decreases buf.len(),
{
    match frame_split(buf) {
        None => (buf, out, false),
        Some(parts) => {
            if !is_utf8(parts.0) {
                (parts.1, out, true)
            } else {
                match svc.response(parts.0) {
                    None => (parts.1, out, true),
                    Some(resp) => {
                        proof {
                            lemma_frame_split_parts(buf);
                        }
                        drain(svc, parts.1, out + encoded(resp))
                    },
                }
            }
        },
    }
}

/// One connection's request/response driver: the framed transport, the
/// connection's own service instance, and where the connection stands.
pub struct Pipeline<S: Service> {
    transport: Transport,
    service: S,
    state: PipelineState,
}

impl<S: Service> Pipeline<S> {
    /// The connection's service instance.
    pub closed spec fn svc(&self) -> S {
        self.service
    }

    /// Where the connection stands.
    pub closed spec fn st(&self) -> PipelineState {
        self.state
    }

    /// The raw bytes received and not yet consumed.
    pub closed spec fn in_bytes(&self) -> Seq<u8> {
        self.transport.in_bytes()
    }

    /// The encoded responses queued for writing.
    pub closed spec fn out_bytes(&self) -> Seq<u8> {
        self.transport.out_bytes()
    }

    /// A pipeline for one freshly accepted connection.
    pub fn new(transport: Transport, service: S) -> (p: Pipeline<S>)
        ensures
            p.st() == PipelineState::AwaitingRequest,
            p.in_bytes() == transport.in_bytes(),
            p.out_bytes() == transport.out_bytes(),
            p.svc() == service,
    {
        Pipeline { transport, service, state: PipelineState::AwaitingRequest }
    }

    /// Where the connection stands.
    pub fn state(&self) -> (s: PipelineState)
        ensures
            s == self.st(),
    {
        self.state
    }

    /// Feeds bytes read from the connection into the pipeline, then
    /// decodes and handles every complete frame they finish, queueing
    /// one response per request in request order. The first malformed
    /// frame or failing request fails the connection, with no response
    /// for it and nothing handled past it.
    pub fn on_bytes(&mut self, chunk: &[u8])
        requires
            old(self).st() == PipelineState::AwaitingRequest,
        ensures
            ({
                let step = drain(
                    old(self).svc(),
                    old(self).in_bytes() + chunk@,
                    old(self).out_bytes(),
                );
                &&& final(self).in_bytes() == step.0
                &&& final(self).out_bytes() == step.1
                &&& final(self).svc() == old(self).svc()
                &&& final(self).st() == (if step.2 {
                    PipelineState::Failed
                } else {
                    PipelineState::AwaitingRequest
                })
            }),
    {
        self.transport.feed(chunk);
        let ghost svc = self.service;
        let ghost target = drain(svc, self.transport.in_bytes(), self.transport.out_bytes());
        loop
            invariant
                self.service == svc,
                svc == old(self).svc(),
                self.state == PipelineState::AwaitingRequest,
                target == drain(
                    old(self).svc(),
                    old(self).in_bytes() + chunk@,
                    old(self).out_bytes(),
                ),
                drain(svc, self.transport.in_bytes(), self.transport.out_bytes()) == target,
            decreases self.transport.in_bytes().len(),
        {
            let ghost prev_in = self.transport.in_bytes();
            proof {
                lemma_frame_split_parts(prev_in);
            }
            match self.transport.try_receive() {
                Ok(None) => {
                    return;
                },
                Ok(Some(m)) => {
                    match self.service.call(m) {
                        Ok(resp) => {
                            self.transport.send(resp);
                        },
                        Err(_) => {
                            self.state = PipelineState::Failed;
                            return;
                        },
                    }
                },
                Err(_) => {
                    self.state = PipelineState::Failed;
                    return;
                },
            }
        }
    }

    /// Tells the pipeline the remote side has ended the stream. A clean
    /// end, with no bytes left over, closes the connection; bytes left
    /// over mean the stream stopped in the middle of a frame, which
    /// fails it.
    pub fn on_eof(&mut self)
        requires
            old(self).st() == PipelineState::AwaitingRequest,
        ensures
            final(self).in_bytes() == old(self).in_bytes(),
            final(self).out_bytes() == old(self).out_bytes(),
            final(self).svc() == old(self).svc(),
            final(self).st() == (if old(self).in_bytes().len() == 0 {
                PipelineState::Closed
            } else {
                PipelineState::Failed
            }),
    {
        if self.transport.in_len() == 0 {
            self.state = PipelineState::Closed;
        } else {
            self.state = PipelineState::Failed;
        }
    }

    /// Hands the encoded responses queued so far to the writer and
    /// clears the queue.
    pub fn take_output(&mut self) -> (r: Vec<u8>)
        ensures
            r@ == old(self).out_bytes(),
            final(self).out_bytes() == Seq::<u8>::empty(),
            final(self).in_bytes() == old(self).in_bytes(),
            final(self).svc() == old(self).svc(),
            final(self).st() == old(self).st(),
    {
        self.transport.take_output()
    }
}

/// Ordering: a connection that sends requests r1, r2, r3 in sequence to
/// the identity service gets back exactly the responses r1, r2, r3, in
/// that order, never interleaved or reordered — the output is the three
/// encodings concatenated in request order, the input is fully drained,
/// and the connection stays healthy.
pub proof fn lemma_echo_ordering(r1: Seq<u8>, r2: Seq<u8>, r3: Seq<u8>, out: Seq<u8>)
    requires
        !has_nl(r1) && is_utf8(r1),
        !has_nl(r2) && is_utf8(r2),
        !has_nl(r3) && is_utf8(r3),
    ensures
        drain(Echo, encoded(r1) + encoded(r2) + encoded(r3), out) == (
            Seq::<u8>::empty(),
            out + encoded(r1) + encoded(r2) + encoded(r3),
            false,
        ),
{
    let s3 = encoded(r3);
    let s23 = encoded(r2) + s3;
    let s123 = encoded(r1) + s23;
    assert(encoded(r1) + encoded(r2) + encoded(r3) =~= s123);
    lemma_split_encoded(r1, s23);
    lemma_split_encoded(r2, s3);
    lemma_split_encoded(r3, Seq::empty());
    assert(encoded(r3) + Seq::<u8>::empty() =~= encoded(r3));
    assert(drain(Echo, s123, out) == drain(Echo, s23, out + encoded(r1)));
    assert(drain(Echo, s23, out + encoded(r1)) == drain(Echo, s3, out + encoded(r1) + encoded(r2)));
    assert(drain(Echo, s3, out + encoded(r1) + encoded(r2)) == drain(
        Echo,
        Seq::<u8>::empty(),
        out + encoded(r1) + encoded(r2) + encoded(r3),
    ));
}

} // verus!
