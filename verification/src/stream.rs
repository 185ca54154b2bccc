//! The fill/cut/drain bookkeeping shared by the stream wrappers.
//!
//! [`StreamBuffer`] owns a buffer of capacity `max_size` and a detector; it
//! is pure computation. The wrappers [`StreamCDC`] (blocking source) and
//! [`AsyncStreamCDC`] (suspending source) pair a `StreamBuffer` with a byte
//! source; their read loops, being I/O, live outside the verified library
//! and drive the buffer through `free_space`/`push`/`mark_eof`/`next_chunk`.

use vstd::prelude::*;

use crate::detector::{
    chunk_at_ok, fresh_detector, same_config, Chunk, DetectorView, FastCDC, Normalization,
};
use crate::error::Error;
use crate::gear::DEFAULT_GEAR_SEED;
use crate::valid_config;

verus! {

/// The mathematical state of a stream buffer: the unconsumed window of the
/// stream, the buffer capacity, the absolute position of the window start,
/// the end-of-source flag, and the detector's own state.
pub ghost struct StreamBufferView {
    pub window: Seq<u8>,
    pub capacity: nat,
    pub processed: nat,
    pub eof: bool,
    pub detector: DetectorView,
}

/// A freshly constructed stream buffer over a fresh detector.
pub open spec fn fresh_stream(
    v: StreamBufferView,
    min_size: u32,
    avg_size: u32,
    max_size: u32,
    level: Normalization,
) -> bool {
    &&& fresh_detector(v.detector, min_size, avg_size, max_size, level, DEFAULT_GEAR_SEED)
    &&& v.window == Seq::<u8>::empty()
    &&& v.capacity == max_size
    &&& v.processed == 0
    &&& v.eof == false
}

/// A successful drain of `count` bytes: exactly the front of the window
/// leaves as the payload, and nothing else changes.
pub open spec fn drain_ok_post(
    pre: StreamBufferView,
    post: StreamBufferView,
    count: int,
    d: Seq<u8>,
) -> bool {
    &&& d == pre.window.subrange(0, count)
    &&& post.window == pre.window.subrange(count, pre.window.len() as int)
    &&& post.capacity == pre.capacity
    &&& post.processed == pre.processed
    &&& post.eof == pre.eof
    &&& post.detector == pre.detector
}

/// A successful `next_chunk`: the chunk's payload is exactly the window's
/// first `cutpoint_in_buffer` bytes, which are removed; `offset` and
/// `cutpoint` are the chunk's absolute stream coordinates; and the chunk
/// ends at the least cut point of the stream the detector has scanned
/// (or at the window's end, forced). Concatenating successive payloads in
/// order therefore reproduces the source bytes exactly.
pub open spec fn next_chunk_ok_post(
    pre: StreamBufferView,
    post: StreamBufferView,
    d: Seq<u8>,
    c: Chunk,
) -> bool {
    let p = c.cutpoint_in_buffer as int;
    &&& 1 <= p <= pre.window.len()
    &&& d == pre.window.subrange(0, p)
    &&& post.window == pre.window.subrange(p, pre.window.len() as int)
    &&& c.offset == pre.processed as int
    &&& c.cutpoint == pre.processed + p
    &&& post.processed == pre.processed + p
    &&& post.capacity == pre.capacity
    &&& post.eof == pre.eof
    &&& same_config(pre.detector, post.detector)
    &&& post.detector.fed == pre.detector.fed + pre.window.subrange(0, p)
    &&& post.detector.consumed == pre.detector.consumed + p
    &&& chunk_at_ok(
        pre.detector,
        pre.detector.fed + pre.window,
        pre.detector.consumed + pre.window.len() as int,
        pre.detector.consumed as int,
        pre.detector.consumed + p,
        c.hash,
    )
}

/// Payloads of successive `next_chunk` calls are contiguous: the second
/// chunk starts where the first ended, and the two payloads concatenated
/// are exactly the front of the first window. Applied along a whole run of
/// calls, the payloads in order reproduce the source bytes exactly.
pub proof fn lemma_payloads_contiguous(
    pre: StreamBufferView,
    mid: StreamBufferView,
    post: StreamBufferView,
    d1: Seq<u8>,
    c1: Chunk,
    d2: Seq<u8>,
    c2: Chunk,
)
    requires
        next_chunk_ok_post(pre, mid, d1, c1),
        next_chunk_ok_post(mid, post, d2, c2),
    ensures
        c2.offset == c1.cutpoint,
        d1 + d2 == pre.window.subrange(0, d1.len() + d2.len() as int),
        post.processed == pre.processed + d1.len() + d2.len(),
{
    let p1 = c1.cutpoint_in_buffer as int;
    let p2 = c2.cutpoint_in_buffer as int;
    assert(d1 + d2 =~= pre.window.subrange(0, p1 + p2));
}

/// A fixed-capacity buffer in front of a detector: fill it with `push`,
/// take whole chunks out with `next_chunk`, until the source is exhausted.
pub struct StreamBuffer {
    inner: FastCDC,
    buffer: Vec<u8>,
    length: usize,
    processed: usize,
    eof: bool,
}

impl View for StreamBuffer {
    type V = StreamBufferView;

    closed spec fn view(&self) -> StreamBufferView {
        StreamBufferView {
            window: if self.length <= self.buffer@.len() {
                self.buffer@.subrange(0, self.length as int)
            } else {
                self.buffer@
            },
            capacity: self.buffer@.len(),
            processed: self.processed as nat,
            eof: self.eof,
            detector: self.inner@,
        }
    }
}

impl StreamBuffer {
    /// The buffer's own layout invariant, hidden behind the view.
    spec fn buffer_inv(&self) -> bool {
        &&& self.length <= self.buffer@.len()
        &&& self.inner.wf()
    }

    /// A well-formed stream buffer: a well-formed detector that sits
    /// exactly at the window start (no partial chunk pending inside it),
    /// and a window that fits the capacity, which equals `max_size`.
    pub closed spec fn wf(&self) -> bool {
        &&& self.buffer_inv()
        &&& self@.detector.chunk_len == 0
        &&& self@.detector.consumed == self@.processed
        &&& self@.capacity == self@.detector.max_size
    }

    /// Construct a buffer of capacity `max_size` over a fresh detector.
    /// Fails exactly on invalid size configurations.
    pub fn new(min_size: u32, avg_size: u32, max_size: u32, level: Normalization) -> (r: Result<
        StreamBuffer,
        Error,
    >)
        ensures
            r is Ok <==> valid_config(min_size, avg_size, max_size),
            r matches Err(e) ==> e == crate::detector::config_error(min_size, avg_size, max_size),
            r matches Ok(sb) ==> sb.wf() && fresh_stream(sb@, min_size, avg_size, max_size, level),
    {
        let inner = match FastCDC::new_advanced(min_size, avg_size, max_size, level, None) {
            Err(e) => {
                return Err(e);
            },
            Ok(d) => d,
        };
        let cap = max_size as usize;
        let mut buffer: Vec<u8> = Vec::new();
        let mut i: usize = 0;
        while i < cap
            invariant
                i <= cap,
                buffer@.len() == i,
            decreases cap - i,
        {
            buffer.push(0u8);
            i = i + 1;
        }
        let sb = StreamBuffer { inner, buffer, length: 0, processed: 0, eof: false };
        proof {
            assert(sb@.window =~= Seq::<u8>::empty());
        }
        Ok(sb)
    }

    /// How many more bytes fit before the buffer is full.
    pub fn free_space(&self) -> (n: usize)
        requires
            self.wf(),
        ensures
            n == self@.capacity - self@.window.len(),
    {
        self.buffer.len() - self.length
    }

    /// How many bytes the window currently holds.
    pub fn window_len(&self) -> (n: usize)
        requires
            self.wf(),
        ensures
            n == self@.window.len(),
    {
        self.length
    }

    /// The absolute stream position of the window start: how many bytes
    /// have already been handed out as chunk payloads.
    pub fn processed(&self) -> (n: usize)
        ensures
            n == self@.processed,
    {
        self.processed
    }

    /// Has the source been marked exhausted?
    pub fn is_eof(&self) -> (r: bool)
        ensures
            r == self@.eof,
    {
        self.eof
    }

    /// Record that the source is exhausted (a read returned zero bytes).
    pub fn mark_eof(&mut self)
        requires
            old(self).wf(),
        ensures
            final(self).wf(),
            final(self)@ == (StreamBufferView { eof: true, ..old(self)@ }),
    {
        self.eof = true;
    }

    /// Append freshly read bytes to the buffer's unused tail.
    pub fn push(&mut self, data: &[u8])
        requires
            old(self).wf(),
            old(self)@.window.len() + data@.len() <= old(self)@.capacity,
        ensures
            final(self).wf(),
            final(self)@ == (StreamBufferView {
                window: old(self)@.window + data@,
                ..old(self)@
            }),
    {
        let mut k: usize = 0;
        while k < data.len()
            invariant
                old(self).wf(),
                k <= data@.len(),
                old(self).length + data@.len() <= old(self).buffer@.len(),
                self.inner == old(self).inner,
                self.length == old(self).length,
                self.processed == old(self).processed,
                self.eof == old(self).eof,
                self.buffer@.len() == old(self).buffer@.len(),
                forall|j: int| 0 <= j < old(self).length ==> self.buffer@[j] == old(self).buffer@[j],
                forall|j: int|
                    0 <= j < k ==> self.buffer@[old(self).length + j] == data@[j],
            decreases data@.len() - k,
        {
            let idx = self.length + k;
            self.buffer[idx] = data[k];
            k = k + 1;
        }
        self.length = self.length + data.len();
        proof {
            assert(self@.window =~= old(self)@.window + data@);
        }
    }

    /// Remove exactly `count` bytes from the front of the window and hand
    /// them out, shifting the rest forward. Asking for more bytes than the
    /// window holds is the internal-consistency error, reported, never
    /// undefined behavior.
    pub fn drain_bytes(&mut self, count: usize) -> (r: Result<Vec<u8>, Error>)
        requires
            old(self).wf(),
        ensures
            final(self).wf(),
            count > old(self)@.window.len() <==> r is Err,
            r matches Err(e) ==> e == (Error::DrainOversize {
                requested: count,
                available: old(self)@.window.len() as usize,
            }) && final(self)@ == old(self)@,
            r matches Ok(d) ==> drain_ok_post(old(self)@, final(self)@, count as int, d@),
    {
        if count > self.length {
            return Err(Error::DrainOversize { requested: count, available: self.length });
        }
        let mut out: Vec<u8> = Vec::new();
        let mut j: usize = 0;
        while j < count
            invariant
                old(self).wf(),
                count <= old(self).length,
                j <= count,
                self == old(self),
                out@.len() == j,
                forall|i: int| 0 <= i < j ==> out@[i] == old(self).buffer@[i],
            decreases count - j,
        {
            out.push(self.buffer[j]);
            j = j + 1;
        }
        let remain = self.length - count;
        let mut j: usize = 0;
        while j < remain
            invariant
                old(self).wf(),
                count <= old(self).length,
                remain == old(self).length - count,
                j <= remain,
                self.inner == old(self).inner,
                self.length == old(self).length,
                self.processed == old(self).processed,
                self.eof == old(self).eof,
                self.buffer@.len() == old(self).buffer@.len(),
                forall|i: int| 0 <= i < j ==> self.buffer@[i] == old(self).buffer@[count + i],
                forall|i: int| j <= i < self.buffer@.len() ==> self.buffer@[i]
                    == old(self).buffer@[i],
            decreases remain - j,
        {
            let b = self.buffer[count + j];
            self.buffer[j] = b;
            j = j + 1;
        }
        self.length = remain;
        proof {
            assert(out@ =~= old(self)@.window.subrange(0, count as int));
            assert(self@.window =~= old(self)@.window.subrange(
                count as int,
                old(self)@.window.len() as int,
            ));
        }
        Ok(out)
    }

    /// Cut the next chunk out of the buffered window. The window is treated
    /// as all the bytes that remain (so at end of source a trailing
    /// fragment shorter than `min_size` still comes out; mid-stream the
    /// wrappers only call this on a full buffer, where the declared window
    /// end coincides with the forced `max_size` cut). Returns the
    /// end-of-stream sentinel `Error::Empty` exactly when the window is
    /// empty; on success the payload is the window's front and the chunk
    /// carries absolute stream coordinates.
    pub fn next_chunk(&mut self) -> (r: Result<(Vec<u8>, Chunk), Error>)
        requires
            old(self).wf(),
            old(self)@.processed + old(self)@.window.len() <= isize::MAX,
        ensures
            final(self).wf(),
            r is Err <==> old(self)@.window.len() == 0,
            r matches Err(e) ==> e is Empty && final(self)@ == old(self)@,
            r matches Ok(t) ==> next_chunk_ok_post(old(self)@, final(self)@, t.0@, t.1),
    {
        if self.length == 0 {
            return Err(Error::Empty);
        }
        let len = self.length;
        let ghost w = self@.window;
        let ghost det0 = self@.detector;
        self.inner.set_content_length(len);
        let ghost vk = self.inner@;
        let data = vstd::slice::slice_subrange(self.buffer.as_slice(), 0, len);
        proof {
            assert(data@ =~= w);
        }
        let r = self.inner.cut(data);
        let c = match r {
            None => {
                proof {
                    assert(vk.chunk_len + data@.len() > 0);
                    assert(false);
                }
                return Err(Error::Empty);
            },
            Some(c) => c,
        };
        proof {
            if c.cutpoint == 0 {
                let s = vk.fed + data@;
                assert(!crate::detector::is_cut_at(vk, s, vk.consumed as int, vk.consumed as int));
                assert(false);
            }
        }
        let p = c.cutpoint;
        let off = self.processed;
        self.processed = self.processed + p;
        let payload = match self.drain_bytes(p) {
            Ok(d) => d,
            Err(_) => {
                proof {
                    assert(false);
                }
                return Err(Error::Empty);
            },
        };
        let chunk = Chunk {
            hash: c.hash,
            offset: off as isize,
            cutpoint: off + p,
            cutpoint_in_buffer: p,
        };
        proof {
            reveal(chunk_at_ok);
            let s = det0.fed + w;
            let a = det0.consumed as int;
            let end = a + p;
            assert(vk.fed + data@ =~= s);
            assert forall|e: int| a < e < end implies !(#[trigger] crate::detector::is_cut_at(
                det0,
                s,
                a,
                e,
            )) by {
                assert(!crate::detector::is_cut_at(vk, s, a, e));
            }
            if crate::detector::is_cut_at(vk, s, a, end) {
                assert(crate::detector::is_cut_at(det0, s, a, end));
            }
            assert(chunk_at_ok(det0, s, a + w.len(), a, end, c.hash));
        }
        Ok((payload, chunk))
    }
}

/// The streaming chunker over a blocking byte source: a [`StreamBuffer`]
/// paired with the source it is filled from. The fill loop itself performs
/// I/O and lives with the caller: it reads at most `free_space` bytes,
/// `push`es them, calls `mark_eof` on a zero-length read, and takes chunks
/// with `next_chunk` once the buffer is full or the source is exhausted.
pub struct StreamCDC<R> {
    /// The blocking byte source.
    pub source: R,
    /// The buffer and detector state.
    pub stream: StreamBuffer,
}

impl<R> StreamCDC<R> {
    /// Construct a chunker that will process bytes from `source`, with the
    /// default normalization level (level 1). Fails exactly on invalid
    /// size configurations.
    pub fn new(source: R, min_size: u32, avg_size: u32, max_size: u32) -> (r: Result<Self, Error>)
        ensures
            r is Ok <==> valid_config(min_size, avg_size, max_size),
            r matches Err(e) ==> e == crate::detector::config_error(min_size, avg_size, max_size),
            r matches Ok(s) ==> s.stream.wf() && fresh_stream(
                s.stream@,
                min_size,
                avg_size,
                max_size,
                Normalization::Level1,
            ),
    {
        Self::new_advanced(source, min_size, avg_size, max_size, Normalization::Level1)
    }

    /// Construct a chunker with the given normalization level.
    pub fn new_advanced(
        source: R,
        min_size: u32,
        avg_size: u32,
        max_size: u32,
        level: Normalization,
    ) -> (r: Result<Self, Error>)
        ensures
            r is Ok <==> valid_config(min_size, avg_size, max_size),
            r matches Err(e) ==> e == crate::detector::config_error(min_size, avg_size, max_size),
            r matches Ok(s) ==> s.stream.wf() && fresh_stream(
                s.stream@,
                min_size,
                avg_size,
                max_size,
                level,
            ),
    {
        match StreamBuffer::new(min_size, avg_size, max_size, level) {
            Err(e) => Err(e),
            Ok(stream) => Ok(StreamCDC { source, stream }),
        }
    }

    /// Drain `count` bytes from the front of the buffered window.
    pub fn drain_bytes(&mut self, count: usize) -> (r: Result<Vec<u8>, Error>)
        requires
            old(self).stream.wf(),
        ensures
            final(self).stream.wf(),
            count > old(self).stream@.window.len() <==> r is Err,
            r matches Err(e) ==> e == (Error::DrainOversize {
                requested: count,
                available: old(self).stream@.window.len() as usize,
            }) && final(self).stream@ == old(self).stream@,
            r matches Ok(d) ==> drain_ok_post(old(self).stream@, final(self).stream@, count as int, d@),
    {
        self.stream.drain_bytes(count)
    }
}

/// The streaming chunker over a source that may suspend while bytes are
/// awaited. Identical bookkeeping to [`StreamCDC`]; only the fill step of
/// its read loop differs, and that loop — being asynchronous I/O — lives
/// with the caller, driving `free_space`/`push`/`mark_eof`/`next_chunk`.
pub struct AsyncStreamCDC<R> {
    /// The suspending byte source.
    pub source: R,
    /// The buffer and detector state.
    pub stream: StreamBuffer,
}

impl<R> AsyncStreamCDC<R> {
    /// Construct a chunker that will process bytes from `source`, with the
    /// default normalization level (level 1). Fails exactly on invalid
    /// size configurations.
    pub fn new(source: R, min_size: u32, avg_size: u32, max_size: u32) -> (r: Result<Self, Error>)
        ensures
            r is Ok <==> valid_config(min_size, avg_size, max_size),
            r matches Err(e) ==> e == crate::detector::config_error(min_size, avg_size, max_size),
            r matches Ok(s) ==> s.stream.wf() && fresh_stream(
                s.stream@,
                min_size,
                avg_size,
                max_size,
                Normalization::Level1,
            ),
    {
        Self::new_advanced(source, min_size, avg_size, max_size, Normalization::Level1)
    }

    /// Construct a chunker with the given normalization level.
    pub fn new_advanced(
        source: R,
        min_size: u32,
        avg_size: u32,
        max_size: u32,
        level: Normalization,
    ) -> (r: Result<Self, Error>)
        ensures
            r is Ok <==> valid_config(min_size, avg_size, max_size),
            r matches Err(e) ==> e == crate::detector::config_error(min_size, avg_size, max_size),
            r matches Ok(s) ==> s.stream.wf() && fresh_stream(
                s.stream@,
                min_size,
                avg_size,
                max_size,
                level,
            ),
    {
        match StreamBuffer::new(min_size, avg_size, max_size, level) {
            Err(e) => Err(e),
            Ok(stream) => Ok(AsyncStreamCDC { source, stream }),
        }
    }

    /// Drain `count` bytes from the front of the buffered window.
    pub fn drain_bytes(&mut self, count: usize) -> (r: Result<Vec<u8>, Error>)
        requires
            old(self).stream.wf(),
        ensures
            final(self).stream.wf(),
            count > old(self).stream@.window.len() <==> r is Err,
            r matches Err(e) ==> e == (Error::DrainOversize {
                requested: count,
                available: old(self).stream@.window.len() as usize,
            }) && final(self).stream@ == old(self).stream@,
            r matches Ok(d) ==> drain_ok_post(old(self).stream@, final(self).stream@, count as int, d@),
    {
        self.stream.drain_bytes(count)
    }
}

} // verus!
