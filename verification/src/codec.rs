//! The line frame codec: newline-delimited frames over a growable byte
//! buffer. `decode` extracts the bytes before the first newline, consumes
//! the delimiter, and checks the frame is UTF-8; `encode` appends a
//! message's bytes and exactly one trailing newline.

use vstd::prelude::*;

use crate::utf8::is_utf8;
use crate::utf8::validate_utf8;

verus! {

/// Whether the bytes contain a newline delimiter.
pub open spec fn has_nl(s: Seq<u8>) -> bool {
    exists|k: int| 0 <= k < s.len() && s[k] == 10u8
}

/// Splits the first complete frame off the front of a buffer: the bytes
/// before the first newline, and the bytes after it. `None` when no
/// delimiter has arrived yet.
pub open spec fn frame_split(s: Seq<u8>) -> Option<(Seq<u8>, Seq<u8>)>
    decreases s.len(),
{
    if s.len() == 0 {
        None
    } else if s[0] == 10u8 {
        Some((Seq::empty(), s.skip(1)))
    } else {
        match frame_split(s.skip(1)) {
            None => None,
            Some(parts) => Some((seq![s[0]] + parts.0, parts.1)),
        }
    }
}

/// The wire form of a message: its bytes followed by one newline.
pub open spec fn encoded(m: Seq<u8>) -> Seq<u8> {
    m + seq![10u8]
}

/// A split succeeds exactly when a delimiter is present; the two parts
/// rebuild the buffer around the first newline, and the frame itself is
/// newline-free.
pub proof fn lemma_frame_split_parts(s: Seq<u8>)
    ensures
        match frame_split(s) {
            None => !has_nl(s),
            Some(parts) => s == parts.0 + seq![10u8] + parts.1 && !has_nl(parts.0)
                && parts.0.len() + 1 + parts.1.len() == s.len(),
        },
    decreases s.len(),
{
    if s.len() == 0 {
    } else if s[0] == 10u8 {
        assert(s =~= Seq::<u8>::empty() + seq![10u8] + s.skip(1));
    } else {
        lemma_frame_split_parts(s.skip(1));
        match frame_split(s.skip(1)) {
            None => {
                assert forall|k: int| 0 <= k < s.len() implies s[k] != 10u8 by {
                    if k > 0 {
                        assert(s.skip(1)[k - 1] == s[k]);
                    }
                }
            },
            Some(parts) => {
                let f = seq![s[0]] + parts.0;
                assert(s =~= seq![s[0]] + s.skip(1));
                assert(f + seq![10u8] + parts.1 =~= seq![s[0]] + (parts.0 + seq![10u8]
                    + parts.1));
                assert forall|k: int| 0 <= k < f.len() implies f[k] != 10u8 by {
                    if k > 0 {
                        assert(f[k] == parts.0[k - 1]);
                    }
                }
            },
        }
    }
}

/// A buffer without a delimiter holds no complete frame.
pub proof fn lemma_frame_split_none(s: Seq<u8>)
    requires
        !has_nl(s),
    ensures
        frame_split(s) is None,
    decreases s.len(),
{
    if s.len() > 0 {
        assert(s[0] != 10u8);
        assert forall|k: int| 0 <= k < s.skip(1).len() implies s.skip(1)[k] != 10u8 by {
            assert(s.skip(1)[k] == s[k + 1]);
        }
        lemma_frame_split_none(s.skip(1));
    }
}

/// With the first delimiter at index `i`, the split yields the bytes
/// before it and the bytes after it.
pub proof fn lemma_frame_split_at(s: Seq<u8>, i: int)
    requires
        0 <= i < s.len(),
        s[i] == 10u8,
        forall|j: int| 0 <= j < i ==> s[j] != 10u8,
    ensures
        frame_split(s) == Some((s.take(i), s.skip(i + 1))),
    decreases i,
{
    if i == 0 {
        assert(s.take(0) =~= Seq::<u8>::empty());
    } else {
        let t = s.skip(1);
        assert(t[i - 1] == s[i]);
        assert forall|j: int| 0 <= j < i - 1 implies t[j] != 10u8 by {
            assert(t[j] == s[j + 1]);
        }
        lemma_frame_split_at(t, i - 1);
        assert(seq![s[0]] + t.take(i - 1) =~= s.take(i));
        assert(t.skip(i) =~= s.skip(i + 1));
    }
}

/// An encoded newline-free message at the front of a buffer is split off
/// whole: the frame is the message and the rest is untouched.
pub proof fn lemma_split_encoded(m: Seq<u8>, rest: Seq<u8>)
    requires
        !has_nl(m),
    ensures
        frame_split(encoded(m) + rest) == Some((m, rest)),
{
    let s = encoded(m) + rest;
    assert(s[m.len() as int] == 10u8);
    assert forall|j: int| 0 <= j < m.len() implies s[j] != 10u8 by {
        assert(s[j] == m[j]);
    }
    lemma_frame_split_at(s, m.len() as int);
    assert(s.take(m.len() as int) =~= m);
    assert(s.skip(m.len() as int + 1) =~= rest);
}

/// Round trip: the buffer produced by encoding a newline-free message
/// splits into exactly that message with nothing left over, so decoding
/// after encoding yields the message unchanged.
pub proof fn lemma_encode_decode_round_trip(m: Seq<u8>)
    requires
        !has_nl(m),
    ensures
        frame_split(encoded(m)) == Some((m, Seq::<u8>::empty())),
{
    lemma_split_encoded(m, Seq::empty());
    assert(encoded(m) + Seq::<u8>::empty() =~= encoded(m));
}

/// Incremental delivery: every prefix of an encoded message that stops
/// short of the trailing newline holds no complete frame, however the
/// bytes were chunked; once the newline arrives, the whole message is
/// decoded at once.
pub proof fn lemma_incremental_delivery(m: Seq<u8>, k: int)
    requires
        !has_nl(m),
        0 <= k <= m.len(),
    ensures
        frame_split(encoded(m).take(k)) is None,
        frame_split(encoded(m)) == Some((m, Seq::<u8>::empty())),
{
    assert(encoded(m).take(k) =~= m.take(k));
    assert forall|j: int| 0 <= j < m.take(k).len() implies m.take(k)[j] != 10u8 by {
        assert(m.take(k)[j] == m[j]);
    }
    lemma_frame_split_none(m.take(k));
    lemma_encode_decode_round_trip(m);
}

/// The read-side byte buffer of one connection: bytes arrive at the back
/// and complete frames are consumed from the front.
pub struct Buffer {
    data: Vec<u8>,
}

impl View for Buffer {
    type V = Seq<u8>;

    closed spec fn view(&self) -> Seq<u8> {
        self.data@
    }
}

impl Buffer {
    /// An empty buffer.
    pub fn new() -> (b: Buffer)
        ensures
            b@ == Seq::<u8>::empty(),
    {
        Buffer { data: Vec::new() }
    }

    /// Appends freshly read bytes at the back.
    pub fn extend(&mut self, chunk: &[u8])
        ensures
            final(self)@ == old(self)@ + chunk@,
    {
        let ghost orig = self@;
        let n: usize = chunk.len();
        let mut j: usize = 0;
        while j < n
            invariant
                j <= n,
                n == chunk@.len(),
                self@ == orig + chunk@.take(j as int),
            decreases n - j,
        {
            self.data.push(chunk[j]);
            proof {
                assert(orig + chunk@.take(j as int) + seq![chunk@[j as int]] =~= orig + chunk@.take(
                    j + 1,
                ));
            }
            j = j + 1;
        }
        proof {
            assert(orig + chunk@.take(n as int) =~= orig + chunk@);
        }
    }

    /// How many unconsumed bytes the buffer holds.
    pub fn len(&self) -> (n: usize)
        ensures
            n == self@.len(),
    {
        self.data.len()
    }
}

/// The text content of one frame, always valid UTF-8. A message decoded
/// from a frame never contains the delimiter that framed it; keeping an
/// outgoing message newline-free rests with whoever produces it, since
/// the encoder neither escapes nor validates.
pub struct Message {
    bytes: Vec<u8>,
}

impl View for Message {
    type V = Seq<u8>;

    closed spec fn view(&self) -> Seq<u8> {
        self.bytes@
    }
}

impl Message {
    /// Wraps the bytes as a message if they are valid UTF-8.
    pub fn new(bytes: Vec<u8>) -> (r: Option<Message>)
        ensures
            is_utf8(bytes@) ==> (r matches Some(m) && m@ == bytes@),
            !is_utf8(bytes@) ==> r is None,
    {
        if validate_utf8(bytes.as_slice()) {
            Some(Message { bytes })
        } else {
            None
        }
    }

    /// The message's UTF-8 bytes.
    pub fn as_bytes(&self) -> (r: &Vec<u8>)
        ensures
            r@ == self@,
    {
        &self.bytes
    }

    /// Gives the bytes up.
    pub fn into_bytes(self) -> (r: Vec<u8>)
        ensures
            r@ == self@,
    {
        self.bytes
    }

    /// The message's length in bytes.
    pub fn len(&self) -> (n: usize)
        ensures
            n == self@.len(),
    {
        self.bytes.len()
    }
}

/// A failure of `decode`.
#[derive(Clone, Copy, Debug, PartialEq, Eq, Structural)]
pub enum CodecError {
    /// A complete frame arrived whose bytes are not valid UTF-8. The
    /// frame and its delimiter are already consumed and discarded.
    MalformedFrame,
}

/// The line codec itself: stateless; all state lives in the buffers it
/// is handed.
pub struct LineCodec;

impl LineCodec {
    /// Extracts the first complete frame from the buffer, if one has
    /// arrived. `Ok(None)` asks the caller to read more bytes first; a
    /// complete frame is consumed through its delimiter whether or not
    /// its bytes turn out to be valid UTF-8.
    pub fn decode(&self, buf: &mut Buffer) -> (r: Result<Option<Message>, CodecError>)
        ensures
            match frame_split(old(buf)@) {
                None => final(buf)@ == old(buf)@ && (r matches Ok(o) && o is None),
                Some(parts) => final(buf)@ == parts.1 && (if is_utf8(parts.0) {
                    r matches Ok(o) && o matches Some(m) && m@ == parts.0
                } else {
                    r matches Err(e) && e == CodecError::MalformedFrame
                }),
            },
    {
        let ghost s = buf@;
        let n: usize = buf.data.len();
        let mut i: usize = 0;
        while i < n && buf.data[i] != 10u8
            invariant
                i <= n,
                buf@ == s,
                n == s.len(),
                forall|j: int| 0 <= j < i ==> s[j] != 10u8,
            decreases n - i,
        {
            i = i + 1;
        }
        if i == n {
            proof {
                lemma_frame_split_none(s);
            }
            return Ok(None);
        }
        proof {
            lemma_frame_split_at(s, i as int);
        }
        let mut frame = buf.data.split_off(i + 1);
        core::mem::swap(&mut buf.data, &mut frame);
        frame.pop();
        proof {
            assert(buf.data@ =~= s.skip(i + 1));
            assert(frame@ =~= s.take(i as int));
        }
        if validate_utf8(frame.as_slice()) {
            Ok(Some(Message { bytes: frame }))
        } else {
            Err(CodecError::MalformedFrame)
        }
    }

    /// Appends the wire form of `msg` to the output buffer: its bytes and
    /// exactly one trailing newline. Encoding never fails; keeping the
    /// content newline-free is the message producer's responsibility.
    pub fn encode(&self, msg: Message, out: &mut Vec<u8>)
        ensures
            final(out)@ == old(out)@ + encoded(msg@),
    {
        let ghost orig = out@;
        let n: usize = msg.bytes.len();
        let mut j: usize = 0;
        while j < n
            invariant
                j <= n,
                n == msg@.len(),
                msg@ == msg.bytes@,
                out@ == orig + msg@.take(j as int),
            decreases n - j,
        {
            out.push(msg.bytes[j]);
            proof {
                assert(orig + msg@.take(j as int) + seq![msg@[j as int]] =~= orig + msg@.take(
                    j + 1,
                ));
            }
            j = j + 1;
        }
        out.push(10u8);
        proof {
            assert(orig + msg@.take(n as int) + seq![10u8] =~= orig + encoded(msg@));
        }
    }
}

} // verus!
