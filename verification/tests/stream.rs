//! The stream buffer: fill/cut/drain cycles reproduce the source exactly.

use fastcdc_alt::{AsyncStreamCDC, Chunk, Error, FastCDC, Normalization, StreamBuffer};
use futures::io::AsyncReadExt;
use md5::{Digest, Md5};

fn gen_bytes(n: usize, seed: u64) -> Vec<u8> {
    let mut state = seed;
    let mut out = Vec::with_capacity(n);
    for _ in 0..n {
        state = state
            .wrapping_mul(6364136223846793005)
            .wrapping_add(1442695040888963407);
        out.push((state >> 33) as u8);
    }
    out
}

/// Drive a stream buffer exactly as the wrappers do, reading from `source`
/// in reads of at most `read_size` bytes.
fn drive(source: &[u8], read_size: usize) -> Vec<(Vec<u8>, Chunk)> {
    let mut sb = StreamBuffer::new(64, 256, 1024, Normalization::Level1)
        .ok()
        .unwrap();
    let mut read_pos = 0usize;
    let mut out = Vec::new();
    loop {
        // Fill: read into the unused tail until full or exhausted.
        while !sb.is_eof() && sb.free_space() > 0 {
            let want = sb.free_space().min(read_size).min(source.len() - read_pos);
            if want == 0 {
                sb.mark_eof();
            } else {
                sb.push(&source[read_pos..read_pos + want]);
                read_pos += want;
            }
        }
        // Cut and drain.
        match sb.next_chunk() {
            Ok(pair) => out.push(pair),
            Err(e) => {
                assert!(e.is_empty_sentinel());
                assert!(matches!(e, Error::Empty));
                break;
            }
        }
    }
    out
}

fn md5_digest(data: &[u8]) -> Vec<u8> {
    let mut hasher = Md5::new();
    hasher.update(data);
    hasher.finalize().to_vec()
}

#[test]
fn reconstructed_bytes_reproduce_the_source() {
    let source = gen_bytes(50_000, 77);
    let chunks = drive(&source, 997);
    assert!(chunks.len() > 5);
    let mut rebuilt = Vec::new();
    let mut pos = 0usize;
    for (payload, chunk) in &chunks {
        assert_eq!(chunk.offset as usize, pos);
        assert_eq!(chunk.cutpoint, pos + payload.len());
        assert_eq!(chunk.cutpoint_in_buffer, payload.len());
        // Each payload's digest matches the digest of the same byte range
        // of the source read in bulk.
        assert_eq!(md5_digest(payload), md5_digest(&source[pos..chunk.cutpoint]));
        rebuilt.extend_from_slice(payload);
        pos = chunk.cutpoint;
    }
    assert_eq!(rebuilt, source);
    assert_eq!(md5_digest(&rebuilt), md5_digest(&source));
}

#[test]
fn streaming_matches_bulk_chunking() {
    let source = gen_bytes(80_000, 123);
    let mut bulk = FastCDC::new(64, 256, 1024).ok().unwrap();
    let reference = bulk.as_iterator(&source);
    for read_size in [1, 13, 1024, 4096, source.len()] {
        let streamed = drive(&source, read_size);
        assert_eq!(streamed.len(), reference.len());
        for (k, (payload, chunk)) in streamed.iter().enumerate() {
            assert_eq!(chunk.hash, reference[k].hash);
            assert_eq!(chunk.offset, reference[k].offset);
            assert_eq!(chunk.cutpoint, reference[k].cutpoint);
            assert_eq!(payload.len(), reference[k].cutpoint_in_buffer);
        }
    }
}

#[test]
fn drain_of_more_than_buffered_is_reported() {
    let mut sb = StreamBuffer::new(64, 256, 1024, Normalization::Level1)
        .ok()
        .unwrap();
    sb.push(&[1, 2, 3]);
    match sb.drain_bytes(4) {
        Err(Error::DrainOversize {
            requested,
            available,
        }) => {
            assert_eq!(requested, 4);
            assert_eq!(available, 3);
        }
        _ => panic!("a drain beyond the window must be reported"),
    }
    // The buffer is intact and a valid drain still works.
    let front = sb.drain_bytes(2).ok().unwrap();
    assert_eq!(front, vec![1, 2]);
    assert_eq!(sb.window_len(), 1);
}

#[test]
fn empty_window_gives_the_end_of_stream_sentinel() {
    let mut sb = StreamBuffer::new(64, 256, 1024, Normalization::Level1)
        .ok()
        .unwrap();
    sb.mark_eof();
    assert!(matches!(sb.next_chunk(), Err(Error::Empty)));
}

/// Drive the asynchronous wrapper through a genuinely suspending source:
/// fill from a `futures` reader, then cut, exactly as its read loop does.
#[test]
fn async_wrapper_reproduces_the_source() {
    let source = gen_bytes(50_000, 77);
    let chunks: Vec<(Vec<u8>, Chunk)> = futures::executor::block_on(async {
        let mut chunker = AsyncStreamCDC::new(source.as_slice(), 64, 256, 1024)
            .ok()
            .unwrap();
        let mut out = Vec::new();
        loop {
            while !chunker.stream.is_eof() && chunker.stream.free_space() > 0 {
                let free = chunker.stream.free_space();
                let mut tmp = vec![0u8; free];
                let n = chunker.source.read(&mut tmp).await.unwrap();
                if n == 0 {
                    chunker.stream.mark_eof();
                } else {
                    chunker.stream.push(&tmp[..n]);
                }
            }
            match chunker.stream.next_chunk() {
                Ok(pair) => out.push(pair),
                Err(e) => {
                    assert!(matches!(e, Error::Empty));
                    break;
                }
            }
        }
        out
    });
    // Same boundaries as the blocking drive and the bulk scan, and the
    // payloads reproduce the source.
    let blocking = drive(&source, 997);
    assert_eq!(chunks.len(), blocking.len());
    let mut rebuilt = Vec::new();
    for (k, (payload, chunk)) in chunks.iter().enumerate() {
        assert_eq!(chunk, &blocking[k].1);
        rebuilt.extend_from_slice(payload);
    }
    assert_eq!(rebuilt, source);
}

#[test]
fn trailing_fragment_shorter_than_min_size_is_emitted() {
    // 1024 + 37 bytes: the final fill is short, and the tail fragment must
    // still come out even though it is shorter than min_size.
    let source = gen_bytes(1061, 5);
    let chunks = drive(&source, 4096);
    let total: usize = chunks.iter().map(|(p, _)| p.len()).collect::<Vec<_>>().iter().sum();
    assert_eq!(total, source.len());
    let (_, last) = chunks.last().unwrap();
    assert_eq!(last.cutpoint, source.len());
}
