//! The resumable FastCDC (2020) chunk-boundary detector.
//!
//! A detector scans a logical byte stream that may arrive as arbitrarily
//! sized buffers. Its mathematical model is the sequence `fed` of all bytes
//! it has scanned so far: a position `end` is a cut point of the current
//! chunk (which starts at `consumed - chunk_len`) exactly when
//! [`is_cut_at`] holds, and `cut` returns the least such position, or forces
//! one at a declared end of content. Because the model speaks only about the
//! byte sequence, the boundaries are independent of how the stream is split
//! into buffers.

use vstd::prelude::*;
use vstd::arithmetic::power2::{
    pow2, lemma_pow2_unfold, lemma_pow2_strictly_increases, lemma2_to64, lemma2_to64_rest,
};

use crate::error::Error;
use crate::gear::{gear_table, make_gear_table, DEFAULT_GEAR_SEED};
use crate::{
    valid_config, AVERAGE_MAX, AVERAGE_MIN, MAXIMUM_MAX, MAXIMUM_MIN, MINIMUM_MAX, MINIMUM_MIN,
};

verus! {

/// The chunk-size normalization level: how strongly cut points are pulled
/// toward the average size. Level 0 turns normalization off (the same mask
/// is used on both sides of the split point).
#[derive(Clone, Copy, PartialEq, Eq, Structural, Debug)]
pub enum Normalization {
    Level0,
    Level1,
    Level2,
    Level3,
}

/// How many mask bits a normalization level adds below the split point and
/// removes above it.
pub open spec fn level_bits(level: Normalization) -> nat {
    match level {
        Normalization::Level0 => 0,
        Normalization::Level1 => 1,
        Normalization::Level2 => 2,
        Normalization::Level3 => 3,
    }
}

impl Normalization {
    /// The number of mask bits this level shifts, as an executable value.
    pub fn bits(&self) -> (n: u32)
        ensures
            n == level_bits(*self),
    {
        match self {
            Normalization::Level0 => 0,
            Normalization::Level1 => 1,
            Normalization::Level2 => 2,
            Normalization::Level3 => 3,
        }
    }
}

/// One detected chunk. `offset` and `cutpoint` are relative to the data
/// passed to the `cut` call that produced the chunk: `offset` is zero when
/// the chunk began at the start of that data and negative when `-offset`
/// of its bytes were supplied by earlier calls; `cutpoint` is the chunk's
/// end position within that data, and `cutpoint_in_buffer` is the number of
/// bytes of that data belonging to the chunk (always equal to `cutpoint`).
/// The stream wrappers re-express `offset` and `cutpoint` in absolute
/// stream coordinates.
#[derive(Clone, Copy, PartialEq, Eq, Structural, Debug)]
pub struct Chunk {
    /// The rolling-hash value at the cut point: a boundary fingerprint,
    /// not a content digest.
    pub hash: u64,
    /// Start of the chunk, relative to the data of the producing call.
    pub offset: isize,
    /// End of the chunk, relative to the data of the producing call.
    pub cutpoint: usize,
    /// Bytes of the producing call's data that belong to the chunk.
    pub cutpoint_in_buffer: usize,
}

impl Chunk {
    /// The chunk's length in bytes.
    pub fn get_length(&self) -> (n: usize)
        requires
            self.offset as int <= self.cutpoint as int,
            self.cutpoint as int <= isize::MAX as int,
            self.cutpoint as int - self.offset as int <= isize::MAX as int,
        ensures
            n as int == self.cutpoint as int - self.offset as int,
    {
        (self.cutpoint as isize - self.offset) as usize
    }
}

/// The mathematical state of a detector.
pub ghost struct DetectorView {
    pub min_size: u32,
    pub avg_size: u32,
    pub max_size: u32,
    pub mask_small: u64,
    pub mask_large: u64,
    pub split: u32,
    pub gear: Seq<u64>,
    pub hash: u64,
    pub chunk_len: nat,
    pub consumed: nat,
    pub expected_end: Option<nat>,
    pub fed: Seq<u8>,
}

/// One step of the rolling gear hash: shift left and add the gear value of
/// the scanned byte, modulo `2^64`.
pub open spec fn hash_step(h: u64, g: u64) -> u64 {
    h.wrapping_mul(2).wrapping_add(g)
}

/// The rolling hash of a whole byte sequence, started from zero.
pub open spec fn hash_of(gear: Seq<u64>, bytes: Seq<u8>) -> u64
    decreases bytes.len(),
{
    if bytes.len() == 0 {
        0u64
    } else {
        hash_step(hash_of(gear, bytes.drop_last()), gear[bytes.last() as int])
    }
}

/// The mask a chunk of length `len` is tested against: the stricter small
/// mask below the split point, the looser large mask from it on.
pub open spec fn chunk_mask(v: DetectorView, len: int) -> u64 {
    if len < v.split {
        v.mask_small
    } else {
        v.mask_large
    }
}

/// Is `end` a cut point for a chunk starting at `start` in the stream `s`?
/// Either the masked rolling hash vanishes once the chunk has at least
/// `min_size` bytes, or the chunk has reached `max_size`. This is a property
/// of the byte sequence alone: buffering plays no role in it.
pub open spec fn is_cut_at(v: DetectorView, s: Seq<u8>, start: int, end: int) -> bool {
    let len = end - start;
    let h = hash_of(v.gear, s.subrange(start, end));
    ||| (len >= v.min_size && (h & chunk_mask(v, len)) == 0)
    ||| len >= v.max_size
}

/// Two detector states share their whole configuration.
pub open spec fn same_config(a: DetectorView, b: DetectorView) -> bool {
    &&& a.min_size == b.min_size
    &&& a.avg_size == b.avg_size
    &&& a.max_size == b.max_size
    &&& a.mask_small == b.mask_small
    &&& a.mask_large == b.mask_large
    &&& a.split == b.split
    &&& a.gear == b.gear
}

/// A mask with the `n` lowest bits set.
pub open spec fn mask_of(n: nat) -> u64
    decreases n,
{
    if n == 0 {
        0u64
    } else {
        mask_of((n - 1) as nat).wrapping_mul(2).wrapping_add(1)
    }
}

/// The floor of the base-2 logarithm.
pub open spec fn log2(n: nat) -> nat
    decreases n,
{
    if n <= 1 {
        0
    } else {
        1 + log2(n / 2)
    }
}

/// `mask_of(n)` really is `2^n - 1` while that fits in 64 bits.
pub proof fn lemma_mask_of_value(n: nat)
    requires
        n <= 63,
    ensures
        mask_of(n) == pow2(n) - 1,
    decreases n,
{
    lemma2_to64();
    if n > 0 {
        lemma_mask_of_value((n - 1) as nat);
        lemma_pow2_unfold(n);
        if n < 64 {
            lemma_pow2_strictly_increases(n, 64);
        }
        lemma2_to64_rest();
    }
}

/// Builds a mask with the `n` lowest bits set.
fn mask_with_bits(n: u32) -> (m: u64)
    requires
        1 <= n <= 31,
    ensures
        m == mask_of(n as nat),
{
    let mut m: u64 = 0;
    let mut i: u32 = 0;
    proof {
        lemma2_to64();
    }
    while i < n
        invariant
            i <= n <= 31,
            m == mask_of(i as nat),
            m == pow2(i as nat) - 1,
        decreases n - i,
    {
        proof {
            lemma_mask_of_value(i as nat);
            lemma_mask_of_value((i + 1) as nat);
            lemma2_to64();
            lemma_pow2_strictly_increases(i as nat, 31);
        }
        m = m * 2 + 1;
        i = i + 1;
    }
    proof {
        lemma_mask_of_value(n as nat);
    }
    m
}

/// Computes the floor of the base-2 logarithm, with its defining bounds.
fn floor_log2(x: u32) -> (b: u32)
    requires
        x >= 1,
    ensures
        b == log2(x as nat),
        pow2(b as nat) <= x < pow2((b + 1) as nat),
{
    let mut v: u32 = x;
    let mut b: u32 = 0;
    let mut p: u32 = 1;
    proof {
        lemma2_to64();
    }
    while v > 1
        invariant
            1 <= v <= x,
            b <= 32,
            p >= 1,
            p == pow2(b as nat),
            log2(x as nat) == b + log2(v as nat),
            v * p <= x < (v + 1) * p,
        decreases v,
    {
        proof {
            lemma_pow2_unfold((b + 1) as nat);
            assert((v / 2) * (2 * p) <= v * p && x < ((v / 2 + 1) * (2 * p))) by (nonlinear_arith)
                requires
                    v >= 2,
                    p >= 1,
                    v * p <= x < (v + 1) * p,
            ;
            assert(2 * p <= v * p) by (nonlinear_arith)
                requires
                    v >= 2,
                    p >= 1,
            ;
            if b + 1 > 32 {
                lemma_pow2_strictly_increases(32, (b + 1) as nat);
                lemma2_to64();
                lemma2_to64_rest();
            }
        }
        v = v / 2;
        p = p * 2;
        b = b + 1;
    }
    proof {
        assert(log2(1nat) == 0);
        lemma_pow2_unfold((b + 1) as nat);
    }
    b
}

/// The first violated constraint of an invalid configuration, in the order
/// the checks are made: each absolute range first, then the two orderings.
pub open spec fn config_error(min_size: u32, avg_size: u32, max_size: u32) -> Error {
    if min_size < MINIMUM_MIN {
        Error::MinSizeTooSmall
    } else if min_size > MINIMUM_MAX {
        Error::MinSizeTooLarge
    } else if avg_size < AVERAGE_MIN {
        Error::AvgSizeTooSmall
    } else if avg_size > AVERAGE_MAX {
        Error::AvgSizeTooLarge
    } else if max_size < MAXIMUM_MIN {
        Error::MaxSizeTooSmall
    } else if max_size > MAXIMUM_MAX {
        Error::MaxSizeTooLarge
    } else if min_size > avg_size {
        Error::MinSizeExceedsAvgSize
    } else {
        Error::AvgSizeExceedsMaxSize
    }
}

/// Checks a configuration, reporting the exact violated bound.
pub fn validate_config(min_size: u32, avg_size: u32, max_size: u32) -> (r: Result<(), Error>)
    ensures
        r is Ok <==> valid_config(min_size, avg_size, max_size),
        r matches Err(e) ==> e == config_error(min_size, avg_size, max_size),
{
    if min_size < MINIMUM_MIN {
        Err(Error::MinSizeTooSmall)
    } else if min_size > MINIMUM_MAX {
        Err(Error::MinSizeTooLarge)
    } else if avg_size < AVERAGE_MIN {
        Err(Error::AvgSizeTooSmall)
    } else if avg_size > AVERAGE_MAX {
        Err(Error::AvgSizeTooLarge)
    } else if max_size < MAXIMUM_MIN {
        Err(Error::MaxSizeTooSmall)
    } else if max_size > MAXIMUM_MAX {
        Err(Error::MaxSizeTooLarge)
    } else if min_size > avg_size {
        Err(Error::MinSizeExceedsAvgSize)
    } else if avg_size > max_size {
        Err(Error::AvgSizeExceedsMaxSize)
    } else {
        Ok(())
    }
}

/// The seed a detector ends up with: the caller's, or the default.
pub open spec fn seed_or_default(seed: Option<u64>) -> u64 {
    match seed {
        Some(s) => s,
        None => DEFAULT_GEAR_SEED,
    }
}

/// A freshly constructed detector: validated sizes, masks and split point
/// derived from the average size and the normalization level, the gear
/// table derived from the seed, and all scanning state at zero.
pub open spec fn fresh_detector(
    v: DetectorView,
    min_size: u32,
    avg_size: u32,
    max_size: u32,
    level: Normalization,
    seed: u64,
) -> bool {
    &&& v.min_size == min_size
    &&& v.avg_size == avg_size
    &&& v.max_size == max_size
    &&& v.split == avg_size
    &&& v.mask_small == mask_of(log2(avg_size as nat) + level_bits(level))
    &&& v.mask_large == mask_of((log2(avg_size as nat) - level_bits(level)) as nat)
    &&& v.gear == gear_table(seed)
    &&& v.hash == 0
    &&& v.chunk_len == 0
    &&& v.consumed == 0
    &&& v.expected_end is None
    &&& v.fed == Seq::<u8>::empty()
}

/// The FastCDC boundary detector: configuration plus the rolling state of
/// the chunk currently being scanned.
pub struct FastCDC {
    min_size: u32,
    avg_size: u32,
    max_size: u32,
    mask_small: u64,
    mask_large: u64,
    split: u32,
    gear: Vec<u64>,
    hash: u64,
    chunk_len: usize,
    consumed: u64,
    expected_end: Option<u64>,
    fed: Ghost<Seq<u8>>,
}

impl View for FastCDC {
    type V = DetectorView;

    closed spec fn view(&self) -> DetectorView {
        DetectorView {
            min_size: self.min_size,
            avg_size: self.avg_size,
            max_size: self.max_size,
            mask_small: self.mask_small,
            mask_large: self.mask_large,
            split: self.split,
            gear: self.gear@,
            hash: self.hash,
            chunk_len: self.chunk_len as nat,
            consumed: self.consumed as nat,
            expected_end: match self.expected_end {
                Some(e) => Some(e as nat),
                None => None,
            },
            fed: self.fed@,
        }
    }
}

/// A well-formed detector state: a valid configuration, a full gear table,
/// an in-progress chunk shorter than `max_size` whose rolling hash matches
/// the scanned window, and no cut point anywhere inside that window.
pub open spec fn view_wf(v: DetectorView) -> bool {
    &&& valid_config(v.min_size, v.avg_size, v.max_size)
    &&& v.split == v.avg_size
    &&& v.gear.len() == 256
    &&& v.chunk_len < v.max_size
    &&& v.chunk_len <= v.consumed
    &&& v.consumed == v.fed.len()
    &&& v.consumed <= u64::MAX
    &&& v.hash == hash_of(v.gear, v.fed.subrange(v.consumed - v.chunk_len, v.consumed as int))
    &&& forall|e: int|
        v.consumed - v.chunk_len < e <= v.consumed ==> !(#[trigger] is_cut_at(
            v,
            v.fed,
            v.consumed - v.chunk_len,
            e,
        ))
}

/// A subrange taken inside the first part of a concatenation does not
/// depend on the second part.
pub proof fn lemma_subrange_concat_prefix(s1: Seq<u8>, s2: Seq<u8>, a: int, b: int)
    requires
        0 <= a <= b <= s1.len(),
    ensures
        (s1 + s2).subrange(a, b) == s1.subrange(a, b),
{
    assert((s1 + s2).subrange(a, b) =~= s1.subrange(a, b));
}

/// Extending a scanned range by one byte advances the rolling hash by one
/// [`hash_step`] on that byte's gear value.
pub proof fn lemma_hash_of_snoc(gear: Seq<u64>, s: Seq<u8>, start: int, end: int)
    requires
        0 <= start <= end < s.len(),
    ensures
        hash_of(gear, s.subrange(start, end + 1)) == hash_step(
            hash_of(gear, s.subrange(start, end)),
            gear[s[end] as int],
        ),
{
    assert(s.subrange(start, end + 1).drop_last() =~= s.subrange(start, end));
    assert(s.subrange(start, end + 1).last() == s[end]);
}

/// What `cut` leaves behind and guarantees when it finds no boundary: all
/// of `data` was absorbed into the in-progress chunk, no position in the
/// whole scanned window is a cut point, and no end-of-content cut was due.
pub open spec fn cut_none_post(pre: DetectorView, data: Seq<u8>, post: DetectorView) -> bool {
    let start = pre.consumed - pre.chunk_len;
    let s = pre.fed + data;
    &&& post.fed == s
    &&& post.consumed == pre.consumed + data.len()
    &&& post.chunk_len == pre.chunk_len + data.len()
    &&& (forall|e: int|
        start < e <= pre.consumed + data.len() ==> !(#[trigger] is_cut_at(pre, s, start, e)))
    &&& !(pre.expected_end == Some((pre.consumed + data.len()) as nat) && pre.chunk_len
        + data.len() > 0)
}

/// What `cut` guarantees when it returns a chunk `c`: the chunk ends at the
/// least cut point of the stream after the chunk's start (or at a declared
/// end of content), carries the rolling hash of exactly the chunk's bytes,
/// reports how much of `data` it used, and the detector is reset behind it.
pub open spec fn cut_some_post(
    pre: DetectorView,
    data: Seq<u8>,
    post: DetectorView,
    c: Chunk,
) -> bool {
    let start = pre.consumed - pre.chunk_len;
    let s = pre.fed + data;
    let p = c.cutpoint as int;
    let end = pre.consumed + p;
    &&& p <= data.len()
    &&& c.cutpoint_in_buffer == c.cutpoint
    &&& c.offset == -(pre.chunk_len as int)
    &&& c.hash == hash_of(pre.gear, s.subrange(start, end))
    &&& end - start <= pre.max_size
    &&& (end - start >= pre.min_size || pre.expected_end == Some(end as nat))
    &&& (is_cut_at(pre, s, start, end) || (pre.expected_end == Some(end as nat) && p
        == data.len() && end > start))
    &&& (forall|e: int| start < e < end ==> !(#[trigger] is_cut_at(pre, s, start, e)))
    &&& post.fed == pre.fed + data.subrange(0, p)
    &&& post.consumed == end
    &&& post.chunk_len == 0
    &&& post.hash == 0
}

/// One chunk of a fully scanned buffer, in absolute stream coordinates:
/// it spans `[a, b)` of the stream `s`, carries the rolling hash of exactly
/// those bytes, ends at the least cut point after `a` (or at the declared
/// stream end), and obeys the size bounds (`min_size` only excused for the
/// final, forced chunk).
#[verifier::opaque]
pub open spec fn chunk_at_ok(
    v: DetectorView,
    s: Seq<u8>,
    stream_end: int,
    a: int,
    b: int,
    hash: u64,
) -> bool {
    &&& a < b <= stream_end
    &&& hash == hash_of(v.gear, s.subrange(a, b))
    &&& (forall|e: int| a < e < b ==> !(#[trigger] is_cut_at(v, s, a, e)))
    &&& (is_cut_at(v, s, a, b) || b == stream_end)
    &&& b - a <= v.max_size
    &&& (b - a >= v.min_size || b == stream_end)
}

/// The least cut point after a chunk start is unique: two positions that
/// are both cut points with no cut point before them are the same position.
/// Together with [`chunk_at_ok`] this says that chunk boundaries are a
/// function of the byte stream and the configuration alone — identical
/// input bytes and configuration always yield identical boundaries, no
/// matter how the stream is buffered or timed.
pub proof fn lemma_next_boundary_unique(
    v: DetectorView,
    s: Seq<u8>,
    stream_end: int,
    a: int,
    b1: int,
    b2: int,
    h1: u64,
    h2: u64,
)
    requires
        chunk_at_ok(v, s, stream_end, a, b1, h1),
        chunk_at_ok(v, s, stream_end, a, b2, h2),
    ensures
        b1 == b2,
        h1 == h2,
{
    reveal(chunk_at_ok);
    if b1 < b2 {
        assert(!is_cut_at(v, s, a, b1));
        assert(b1 < stream_end);
    }
    if b2 < b1 {
        assert(!is_cut_at(v, s, a, b2));
        assert(b2 < stream_end);
    }
}

/// Concatenation invariance: when a `cut` call absorbs a buffer `d1`
/// without finding a boundary and the next call finds one in `d2`, the same
/// boundary — same absolute position, same hash, same chunk span — is found
/// by a single call on the concatenation `d1 + d2`. Feeding a stream as any
/// sequence of sub-buffers therefore yields the same ordered cut points and
/// hash values as feeding it whole.
pub proof fn lemma_concat_invariance(
    pre: DetectorView,
    mid: DetectorView,
    post: DetectorView,
    d1: Seq<u8>,
    d2: Seq<u8>,
    c: Chunk,
)
    requires
        view_wf(pre),
        same_config(pre, mid),
        mid.expected_end == pre.expected_end,
        cut_none_post(pre, d1, mid),
        cut_some_post(mid, d2, post, c),
        c.cutpoint + d1.len() <= usize::MAX,
        pre.chunk_len + d1.len() <= isize::MAX,
    ensures
        cut_some_post(
            pre,
            d1 + d2,
            post,
            Chunk {
                hash: c.hash,
                offset: -(pre.chunk_len as int) as isize,
                cutpoint: (c.cutpoint + d1.len()) as usize,
                cutpoint_in_buffer: (c.cutpoint + d1.len()) as usize,
            },
        ),
{
    let s = pre.fed + (d1 + d2);
    let s2 = mid.fed + d2;
    assert(s2 =~= s);
    let start = pre.consumed - pre.chunk_len;
    assert(mid.consumed - mid.chunk_len == start);
    let p = c.cutpoint + d1.len();
    let end = pre.consumed + p;
    assert(end == mid.consumed + c.cutpoint);
    assert((d1 + d2).subrange(0, p as int) =~= d1 + d2.subrange(0, c.cutpoint as int));
    assert(post.fed =~= pre.fed + (d1 + d2).subrange(0, p as int));
    assert forall|e: int| start < e < end implies !(#[trigger] is_cut_at(pre, s, start, e)) by {
        assert(!is_cut_at(mid, s2, start, e));
    }
    if is_cut_at(mid, s2, start, end) {
        assert(is_cut_at(pre, s, start, end));
    }
}

/// Determinism: the contract of `cut` pins its outcome down completely.
/// Any two chunks that both satisfy the cut contract for the same starting
/// state and the same data are the same chunk, and leave the detector in
/// the same scanning state. With identical configuration and input bytes
/// there is exactly one possible sequence of boundaries and hashes.
pub proof fn lemma_cut_deterministic(
    pre: DetectorView,
    data: Seq<u8>,
    post1: DetectorView,
    c1: Chunk,
    post2: DetectorView,
    c2: Chunk,
)
    requires
        valid_config(pre.min_size, pre.avg_size, pre.max_size),
        cut_some_post(pre, data, post1, c1),
        cut_some_post(pre, data, post2, c2),
    ensures
        c1 == c2,
        post1.fed == post2.fed,
        post1.consumed == post2.consumed,
        post1.chunk_len == post2.chunk_len,
        post1.hash == post2.hash,
{
    let start = pre.consumed - pre.chunk_len;
    let s = pre.fed + data;
    let e1 = pre.consumed + c1.cutpoint;
    let e2 = pre.consumed + c2.cutpoint;
    assert(start < e1);
    assert(start < e2);
    if e1 < e2 {
        assert(!is_cut_at(pre, s, start, e1));
        assert(c1.cutpoint == data.len());
    }
    if e2 < e1 {
        assert(!is_cut_at(pre, s, start, e2));
        assert(c2.cutpoint == data.len());
    }
    assert(c1.cutpoint == c2.cutpoint);
}

/// Concatenation invariance for calls that find nothing: when `cut`
/// absorbs `d1` and then `d2` without finding a boundary, a single call on
/// `d1 + d2` finds nothing either and leaves the identical state.
pub proof fn lemma_concat_none(
    pre: DetectorView,
    mid: DetectorView,
    post: DetectorView,
    d1: Seq<u8>,
    d2: Seq<u8>,
)
    requires
        pre.chunk_len <= pre.consumed,
        pre.consumed == pre.fed.len(),
        same_config(pre, mid),
        mid.expected_end == pre.expected_end,
        cut_none_post(pre, d1, mid),
        cut_none_post(mid, d2, post),
    ensures
        cut_none_post(pre, d1 + d2, post),
{
    let s = pre.fed + (d1 + d2);
    let s2 = mid.fed + d2;
    assert(s2 =~= s);
    let start = pre.consumed - pre.chunk_len;
    assert(mid.consumed - mid.chunk_len == start);
    assert(post.fed =~= s);
    assert forall|e: int|
        start < e <= pre.consumed + (d1 + d2).len() implies !(#[trigger] is_cut_at(
        pre,
        s,
        start,
        e,
    )) by {
        if e <= mid.consumed {
            assert(!is_cut_at(pre, pre.fed + d1, start, e));
            lemma_subrange_concat_prefix(pre.fed + d1, d2, start, e);
            assert((pre.fed + d1) + d2 =~= s);
        } else {
            assert(!is_cut_at(mid, s2, start, e));
        }
    }
}

/// Translates the outcome of one `cut` call made on the tail of a buffer
/// into absolute coordinates of the whole scan: the chunk it produced is a
/// well-placed chunk of the full stream.
proof fn lemma_iterator_step(
    pre: DetectorView,
    vk: DetectorView,
    post: DetectorView,
    data: Seq<u8>,
    cursor: int,
    c: Chunk,
)
    requires
        valid_config(pre.min_size, pre.avg_size, pre.max_size),
        view_wf(vk),
        same_config(pre, vk),
        0 <= cursor < data.len(),
        vk.consumed == pre.consumed + cursor,
        vk.fed == pre.fed + data.subrange(0, cursor),
        vk.expected_end == Some((pre.consumed + data.len()) as nat),
        pre.consumed == pre.fed.len(),
        pre.consumed + data.len() <= u64::MAX,
        cut_some_post(vk, data.subrange(cursor, data.len() as int), post, c),
    ensures
        chunk_at_ok(
            pre,
            pre.fed + data,
            pre.consumed + data.len() as int,
            vk.consumed - vk.chunk_len,
            vk.consumed + c.cutpoint,
            c.hash,
        ),
        post.fed == pre.fed + data.subrange(0, cursor + c.cutpoint),
        cursor + c.cutpoint <= data.len(),
        c.cutpoint >= 1,
{
    reveal(chunk_at_ok);
    let s = pre.fed + data;
    let rest = data.subrange(cursor, data.len() as int);
    let s2 = vk.fed + rest;
    assert(s2 =~= s);
    let a = vk.consumed - vk.chunk_len;
    let end = vk.consumed + c.cutpoint;
    assert forall|e: int| a < e < end implies !(#[trigger] is_cut_at(pre, s, a, e)) by {
        assert(!is_cut_at(vk, s2, a, e));
    }
    if is_cut_at(vk, s2, a, end) {
        assert(is_cut_at(pre, s, a, end));
    }
    assert(vk.fed + rest.subrange(0, c.cutpoint as int) =~= pre.fed + data.subrange(
        0,
        cursor + c.cutpoint,
    ));
    if c.cutpoint == 0 {
        if vk.chunk_len > 0 {
            lemma_subrange_concat_prefix(vk.fed, rest, a, vk.consumed as int);
            assert(!is_cut_at(vk, vk.fed, a, vk.consumed as int));
            assert(is_cut_at(vk, s2, a, vk.consumed as int));
            assert(false);
        } else {
            assert(!is_cut_at(vk, s2, a, end));
            assert(false);
        }
    }
}

/// Well-formedness only speaks about the configuration and the scanning
/// window, so it carries over to any state that agrees on those.
pub proof fn lemma_wf_same_scan(a: DetectorView, b: DetectorView)
    requires
        view_wf(a),
        same_config(a, b),
        b.hash == a.hash,
        b.chunk_len == a.chunk_len,
        b.consumed == a.consumed,
        b.fed == a.fed,
    ensures
        view_wf(b),
{
    assert forall|e: int|
        b.consumed - b.chunk_len < e <= b.consumed implies !(#[trigger] is_cut_at(
        b,
        b.fed,
        b.consumed - b.chunk_len,
        e,
    )) by {
        assert(!is_cut_at(a, a.fed, a.consumed - a.chunk_len, e));
    }
}

impl FastCDC {
    /// A well-formed detector.
    pub open spec fn wf(&self) -> bool {
        view_wf(self@)
    }

    /// Construct a detector with the default normalization level (level 1)
    /// and the default gear table. Fails exactly on configurations that
    /// violate an absolute range or the ordering of the three sizes.
    pub fn new(min_size: u32, avg_size: u32, max_size: u32) -> (r: Result<FastCDC, Error>)
        ensures
            r is Ok <==> valid_config(min_size, avg_size, max_size),
            r matches Err(e) ==> e == config_error(min_size, avg_size, max_size),
            r matches Ok(d) ==> d.wf() && fresh_detector(
                d@,
                min_size,
                avg_size,
                max_size,
                Normalization::Level1,
                DEFAULT_GEAR_SEED,
            ),
    {
        Self::new_advanced(min_size, avg_size, max_size, Normalization::Level1, None)
    }

    /// Construct a detector with a chosen normalization level and,
    /// optionally, a custom gear-table seed. Fails exactly on invalid
    /// configurations, identifying the violated bound; never panics.
    pub fn new_advanced(
        min_size: u32,
        avg_size: u32,
        max_size: u32,
        level: Normalization,
        seed: Option<u64>,
    ) -> (r: Result<FastCDC, Error>)
        ensures
            r is Ok <==> valid_config(min_size, avg_size, max_size),
            r matches Err(e) ==> e == config_error(min_size, avg_size, max_size),
            r matches Ok(d) ==> d.wf() && fresh_detector(
                d@,
                min_size,
                avg_size,
                max_size,
                level,
                seed_or_default(seed),
            ),
    {
        match validate_config(min_size, avg_size, max_size) {
            Err(e) => Err(e),
            Ok(()) => {
                let bits = floor_log2(avg_size);
                proof {
                    lemma2_to64();
                    if bits < 8 {
                        if bits + 1 < 8 {
                            lemma_pow2_strictly_increases((bits + 1) as nat, 8);
                        }
                        assert(false);
                    }
                    if bits > 28 {
                        lemma_pow2_strictly_increases(28, bits as nat);
                        assert(false);
                    }
                }
                let lb = level.bits();
                let mask_small = mask_with_bits(bits + lb);
                let mask_large = mask_with_bits(bits - lb);
                let gear = make_gear_table(
                    match seed {
                        Some(s) => s,
                        None => DEFAULT_GEAR_SEED,
                    },
                );
                let d = FastCDC {
                    min_size,
                    avg_size,
                    max_size,
                    mask_small,
                    mask_large,
                    split: avg_size,
                    gear,
                    hash: 0,
                    chunk_len: 0,
                    consumed: 0,
                    expected_end: None,
                    fed: Ghost(Seq::empty()),
                };
                proof {
                    assert(d@.fed.subrange(0, 0) =~= Seq::<u8>::empty());
                }
                Ok(d)
            },
        }
    }

    /// Declares that exactly `n` further bytes will be fed after those the
    /// detector has already consumed. Without this declaration a trailing
    /// fragment shorter than `min_size` is never forced out at the end of
    /// the stream.
    pub fn set_content_length(&mut self, n: usize)
        requires
            old(self).wf(),
            old(self)@.consumed + n <= u64::MAX,
        ensures
            final(self).wf(),
            same_config(old(self)@, final(self)@),
            final(self)@ == (DetectorView {
                expected_end: Some((old(self)@.consumed + n) as nat),
                ..old(self)@
            }),
    {
        self.expected_end = Some(self.consumed + n as u64);
        proof {
            lemma_wf_same_scan(old(self)@, self@);
        }
    }

    /// Scan the next buffer of the stream and return the next chunk if one
    /// ends inside it. The rolling hash and the in-progress chunk length
    /// continue from the previous call; when no boundary is found, all the
    /// state persists exactly as if the next call's data were appended to
    /// this call's data. At most one chunk is returned per call: to find
    /// further boundaries in the same buffer, call again on the remainder
    /// after `cutpoint_in_buffer`.
    pub fn cut(&mut self, data: &[u8]) -> (r: Option<Chunk>)
        requires
            old(self).wf(),
            old(self)@.consumed + data@.len() <= u64::MAX,
        ensures
            final(self).wf(),
            same_config(old(self)@, final(self)@),
            final(self)@.expected_end == old(self)@.expected_end,
            (match r {
                None => cut_none_post(old(self)@, data@, final(self)@),
                Some(c) => cut_some_post(old(self)@, data@, final(self)@, c),
            }),
    {
        let ghost pre = self@;
        let ghost s = pre.fed + data@;
        let ghost start = pre.consumed - pre.chunk_len;

        let force: bool = match self.expected_end {
            Some(e) => e == self.consumed + data.len() as u64,
            None => false,
        };
        let entry_len: usize = self.chunk_len;

        let mut h: u64 = self.hash;
        let mut cl: usize = self.chunk_len;
        let mut i: usize = 0;
        let mut found: bool = false;

        proof {
            lemma_subrange_concat_prefix(pre.fed, data@, start, pre.consumed as int);
            assert forall|e: int| start < e <= pre.consumed as int implies !(#[trigger] is_cut_at(
                pre,
                s,
                start,
                e,
            )) by {
                lemma_subrange_concat_prefix(pre.fed, data@, start, e);
                assert(!is_cut_at(pre, pre.fed, start, e));
            }
        }

        while i < data.len() && !found
            invariant
                self == old(self),
                view_wf(pre),
                pre == self@,
                s == pre.fed + data@,
                start == pre.consumed - pre.chunk_len,
                pre.consumed + data@.len() <= u64::MAX,
                i <= data@.len(),
                cl == pre.chunk_len + i,
                cl <= pre.max_size,
                !found ==> cl < pre.max_size,
                h == hash_of(pre.gear, s.subrange(start, pre.consumed + i as int)),
                found ==> (i >= 1 && is_cut_at(pre, s, start, pre.consumed + i as int)),
                found ==> (forall|e: int|
                    start < e < pre.consumed + i as int ==> !(#[trigger] is_cut_at(
                        pre,
                        s,
                        start,
                        e,
                    ))),
                !found ==> (forall|e: int|
                    start < e <= pre.consumed + i as int ==> !(#[trigger] is_cut_at(
                        pre,
                        s,
                        start,
                        e,
                    ))),
            decreases data@.len() - i,
        {
            let b: u8 = data[i];
            let g: u64 = self.gear[b as usize];
            proof {
                lemma_hash_of_snoc(pre.gear, s, start, pre.consumed + i as int);
                assert(s[pre.consumed + i as int] == data@[i as int]);
            }
            h = h.wrapping_mul(2).wrapping_add(g);
            cl = cl + 1;
            i = i + 1;
            let m: u64 = if cl < self.split as usize {
                self.mask_small
            } else {
                self.mask_large
            };
            if (cl >= self.min_size as usize && (h & m) == 0) || cl >= self.max_size as usize {
                found = true;
            }
            proof {
                let e = pre.consumed + i as int;
                assert(s.subrange(start, e).len() == cl);
                if found {
                    assert(is_cut_at(pre, s, start, e));
                } else {
                    assert(!is_cut_at(pre, s, start, e));
                }
            }
        }

        if found {
            let p = i;
            let off: isize = -(entry_len as isize);
            self.hash = 0;
            self.chunk_len = 0;
            self.consumed = self.consumed + p as u64;
            proof {
                let fed_new = pre.fed + data@.subrange(0, p as int);
                assert(fed_new =~= s.subrange(0, pre.consumed + p as int));
                assert(fed_new.len() == pre.consumed + p);
            }
            self.fed = Ghost(pre.fed + data@.subrange(0, p as int));
            proof {
                assert(self@.fed.subrange(
                    self@.consumed as int,
                    self@.consumed as int,
                ) =~= Seq::<u8>::empty());
            }
            Some(Chunk { hash: h, offset: off, cutpoint: p, cutpoint_in_buffer: p })
        } else if force && cl > 0 {
            let p = data.len();
            let off: isize = -(entry_len as isize);
            self.hash = 0;
            self.chunk_len = 0;
            self.consumed = self.consumed + p as u64;
            proof {
                let fed_new = pre.fed + data@.subrange(0, p as int);
                assert(fed_new =~= s);
            }
            self.fed = Ghost(pre.fed + data@.subrange(0, p as int));
            proof {
                assert(self@.fed.subrange(
                    self@.consumed as int,
                    self@.consumed as int,
                ) =~= Seq::<u8>::empty());
            }
            Some(Chunk { hash: h, offset: off, cutpoint: p, cutpoint_in_buffer: p })
        } else {
            self.hash = h;
            self.chunk_len = cl;
            self.consumed = self.consumed + data.len() as u64;
            proof {
                assert(pre.fed + data@ =~= s);
            }
            self.fed = Ghost(pre.fed + data@);
            proof {
                let post = self@;
                assert forall|e: int|
                    post.consumed - post.chunk_len < e <= post.consumed implies !(
                #[trigger] is_cut_at(post, post.fed, post.consumed - post.chunk_len, e)) by {
                    assert(!is_cut_at(pre, s, start, e));
                }
            }
            None
        }
    }

    /// Scan one complete in-memory buffer and return every chunk in it, by
    /// repeatedly cutting the remaining tail and advancing the cursor by
    /// `cutpoint_in_buffer`. The buffer is treated as the rest of the
    /// stream, so a trailing fragment shorter than `min_size` is emitted as
    /// a final chunk. The returned chunks' `offset` and `cutpoint` are
    /// positions within `data` (the first chunk's `offset` is negative when
    /// bytes of earlier `cut` calls are still pending); consecutive chunks
    /// tile `data` completely and each ends at the least cut point of the
    /// stream, exactly as successive `cut` calls would find them.
    #[verifier::rlimit(100)]
    pub fn as_iterator(&mut self, data: &[u8]) -> (chunks: Vec<Chunk>)
        requires
            old(self).wf(),
            old(self)@.consumed + data@.len() <= u64::MAX,
            data@.len() <= isize::MAX,
        ensures
            final(self).wf(),
            same_config(old(self)@, final(self)@),
            final(self)@.fed == old(self)@.fed + data@,
            final(self)@.consumed == old(self)@.consumed + data@.len(),
            final(self)@.expected_end == Some((old(self)@.consumed + data@.len()) as nat),
            data@.len() > 0 ==> final(self)@.chunk_len == 0,
            chunks@.len() == 0 <==> data@.len() == 0,
            chunks@.len() > 0 ==> chunks@[chunks@.len() - 1].cutpoint == data@.len(),
            forall|k: int|
                0 <= k < chunks@.len() ==> (#[trigger] chunks@[k].offset) as int == (if k == 0 {
                    -(old(self)@.chunk_len as int)
                } else {
                    chunks@[k - 1].cutpoint as int
                }),
            forall|k: int|
                0 <= k < chunks@.len() ==> (#[trigger] chunks@[k].cutpoint_in_buffer) as int
                    == chunks@[k].cutpoint - (if chunks@[k].offset >= 0 {
                    chunks@[k].offset as int
                } else {
                    0
                }),
            forall|k: int|
                0 <= k < chunks@.len() ==> chunk_at_ok(
                    old(self)@,
                    old(self)@.fed + data@,
                    old(self)@.consumed + data@.len() as int,
                    old(self)@.consumed + (#[trigger] chunks@[k]).offset,
                    old(self)@.consumed + chunks@[k].cutpoint,
                    chunks@[k].hash,
                ),
    {
        let ghost pre = self@;
        let ghost s = pre.fed + data@;
        let ghost stream_end = pre.consumed + data@.len();

        self.set_content_length(data.len());
        proof {
            lemma_wf_same_scan(pre, self@);
        }

        let mut chunks: Vec<Chunk> = Vec::new();
        let mut cursor: usize = 0;

        while cursor < data.len()
            invariant
                view_wf(pre),
                s == pre.fed + data@,
                stream_end == pre.consumed + data@.len(),
                pre.consumed + data@.len() <= u64::MAX,
                data@.len() <= isize::MAX,
                cursor <= data@.len(),
                self.wf(),
                same_config(pre, self@),
                self@.consumed == pre.consumed + cursor,
                self@.fed == pre.fed + data@.subrange(0, cursor as int),
                self@.expected_end == Some(stream_end as nat),
                self@.chunk_len == (if chunks@.len() == 0 {
                    pre.chunk_len
                } else {
                    0nat
                }),
                chunks@.len() == 0 <==> cursor == 0,
                chunks@.len() > 0 ==> chunks@[chunks@.len() - 1].cutpoint == cursor,
                forall|k: int|
                    0 <= k < chunks@.len() ==> (#[trigger] chunks@[k].cutpoint) as int <= cursor,
                forall|k: int|
                    0 <= k < chunks@.len() ==> (#[trigger] chunks@[k].offset) as int == (if k == 0 {
                        -(pre.chunk_len as int)
                    } else {
                        chunks@[k - 1].cutpoint as int
                    }),
                forall|k: int|
                    0 <= k < chunks@.len() ==> (#[trigger] chunks@[k].cutpoint_in_buffer) as int
                        == chunks@[k].cutpoint - (if chunks@[k].offset >= 0 {
                        chunks@[k].offset as int
                    } else {
                        0
                    }),
                forall|k: int|
                    0 <= k < chunks@.len() ==> chunk_at_ok(
                        pre,
                        s,
                        stream_end as int,
                        pre.consumed + (#[trigger] chunks@[k]).offset,
                        pre.consumed + chunks@[k].cutpoint,
                        chunks@[k].hash,
                    ),
            decreases data@.len() - cursor,
        {
            let ghost vk = self@;
            let rest = vstd::slice::slice_subrange(data, cursor, data.len());
            proof {
                assert(vk.fed + rest@ =~= s);
            }
            let r = self.cut(rest);
            match r {
                None => {
                    proof {
                        assert(vk.chunk_len + rest@.len() > 0);
                        assert(false);
                    }
                },
                Some(c) => {
                    let ghost a = vk.consumed - vk.chunk_len;
                    let ghost end = vk.consumed + c.cutpoint;
                    let abs_off: isize = cursor as isize + c.offset;
                    let abs_cut: usize = cursor + c.cutpoint;
                    proof {
                        lemma_iterator_step(pre, vk, self@, data@, cursor as int, c);
                        assert(pre.consumed + abs_off as int == a);
                        assert(pre.consumed + abs_cut as int == end);
                    }
                    chunks.push(
                        Chunk {
                            hash: c.hash,
                            offset: abs_off,
                            cutpoint: abs_cut,
                            cutpoint_in_buffer: c.cutpoint_in_buffer,
                        },
                    );
                    cursor = abs_cut;
                },
            }
        }
        proof {
            if data@.len() > 0 {
                assert(chunks@.len() > 0);
            }
            assert(pre.fed + data@.subrange(0, data@.len() as int) =~= pre.fed + data@);
        }
        chunks
    }
}

} // verus!
