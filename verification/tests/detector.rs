//! Behavior of the resumable boundary detector.

use fastcdc_alt::{gear_value, Chunk, FastCDC, DEFAULT_GEAR_SEED};

/// Deterministic pseudo-random test bytes.
fn gen_bytes(n: usize, seed: u64) -> Vec<u8> {
    let mut state = seed;
    let mut out = Vec::with_capacity(n);
    for _ in 0..n {
        state = state
            .wrapping_mul(6364136223846793005)
            .wrapping_add(1442695040888963407);
        out.push((state >> 33) as u8);
    }
    out
}

/// The rolling hash recomputed independently of the detector.
fn rolling_hash(bytes: &[u8]) -> u64 {
    let mut h: u64 = 0;
    for &b in bytes {
        h = h
            .wrapping_mul(2)
            .wrapping_add(gear_value(DEFAULT_GEAR_SEED, b as usize));
    }
    h
}

fn lengths(chunks: &[Chunk]) -> Vec<usize> {
    chunks.iter().map(|c| c.get_length()).collect()
}

#[test]
fn short_buffer_yields_no_chunk_without_content_length() {
    let data = gen_bytes(1000, 11);
    let mut detector = FastCDC::new(4096, 16384, 65535).ok().unwrap();
    assert!(detector.cut(&data).is_none());
}

#[test]
fn short_buffer_yields_one_chunk_with_content_length() {
    let data = gen_bytes(1000, 11);
    let mut detector = FastCDC::new(4096, 16384, 65535).ok().unwrap();
    detector.set_content_length(data.len());
    let chunk = detector.cut(&data).unwrap();
    assert_eq!(chunk.offset, 0);
    assert_eq!(chunk.cutpoint, 1000);
    assert_eq!(chunk.cutpoint_in_buffer, 1000);
    assert_eq!(chunk.hash, rolling_hash(&data));
    // Nothing else follows.
    assert!(detector.cut(&[]).is_none());
}

#[test]
fn chunk_sizes_stay_within_bounds() {
    let data = gen_bytes(200_000, 3);
    let mut detector = FastCDC::new(64, 256, 1024).ok().unwrap();
    let chunks = detector.as_iterator(&data);
    assert!(chunks.len() > 1);
    let lens = lengths(&chunks);
    for (k, len) in lens.iter().enumerate() {
        assert!(*len <= 1024);
        if k + 1 < lens.len() {
            assert!(*len >= 64);
        }
    }
    // The chunks tile the buffer completely.
    let mut pos: isize = 0;
    for c in &chunks {
        assert_eq!(c.offset, pos);
        assert!(c.cutpoint as isize > pos);
        assert_eq!(c.cutpoint_in_buffer, c.cutpoint - pos as usize);
        pos = c.cutpoint as isize;
    }
    assert_eq!(pos as usize, data.len());
}

#[test]
fn first_chunk_hash_matches_recomputed_rolling_hash() {
    let data = gen_bytes(50_000, 5);
    let mut detector = FastCDC::new(64, 256, 1024).ok().unwrap();
    let chunks = detector.as_iterator(&data);
    assert_eq!(chunks[0].hash, rolling_hash(&data[..chunks[0].cutpoint]));
    let second = &chunks[1];
    assert_eq!(
        second.hash,
        rolling_hash(&data[second.offset as usize..second.cutpoint])
    );
}

#[test]
fn identical_input_and_configuration_yield_identical_boundaries() {
    let data = gen_bytes(120_000, 21);
    let mut a = FastCDC::new(256, 1024, 8192).ok().unwrap();
    let mut b = FastCDC::new(256, 1024, 8192).ok().unwrap();
    let ca = a.as_iterator(&data);
    let cb = b.as_iterator(&data);
    assert_eq!(ca, cb);
    // A different configuration really changes something.
    let mut c = FastCDC::new(64, 512, 8192).ok().unwrap();
    let cc = c.as_iterator(&data);
    assert_ne!(lengths(&ca), lengths(&cc));
}

/// Feed `data` split at the given piece sizes through successive `cut`
/// calls, returning each chunk as (hash, length).
fn chunk_split(data: &[u8], pieces: &[usize]) -> Vec<(u64, usize)> {
    let mut detector = FastCDC::new(256, 1024, 8192).ok().unwrap();
    detector.set_content_length(data.len());
    let mut out = Vec::new();
    let mut fed = 0usize;
    for &piece in pieces {
        let mut cursor = fed;
        let end = (fed + piece).min(data.len());
        while cursor < end {
            match detector.cut(&data[cursor..end]) {
                Some(c) => {
                    out.push((c.hash, (c.cutpoint as isize - c.offset) as usize));
                    cursor += c.cutpoint_in_buffer;
                }
                None => {
                    cursor = end;
                }
            }
        }
        fed = end;
    }
    out
}

#[test]
fn concatenation_invariance_across_buffer_splits() {
    let data = gen_bytes(100_000, 42);
    let mut bulk = FastCDC::new(256, 1024, 8192).ok().unwrap();
    bulk.set_content_length(data.len());
    let reference: Vec<(u64, usize)> = bulk
        .as_iterator(&data)
        .iter()
        .map(|c| (c.hash, (c.cutpoint as isize - c.offset) as usize))
        .collect();
    assert!(reference.len() > 5);

    assert_eq!(chunk_split(&data, &[data.len()]), reference);
    assert_eq!(chunk_split(&data, &[50_000, 50_000]), reference);
    assert_eq!(chunk_split(&data, &[1; 100_000]), reference);
    assert_eq!(
        chunk_split(&data, &[3, 7_000, 1, 999, 65_000, 100_000]),
        reference
    );
}

/// An independent, straight-line reimplementation of the boundary rule:
/// masks with `log2(avg) +/- level` low bits, the stricter one below the
/// split point `avg`, a forced cut at `max`, and a forced final cut.
fn reference_boundaries(
    data: &[u8],
    min: usize,
    avg: usize,
    max: usize,
    level: u32,
) -> Vec<(u64, usize)> {
    let bits = 31 - (avg as u32).leading_zeros();
    let mask_small = (1u64 << (bits + level)) - 1;
    let mask_large = (1u64 << (bits - level)) - 1;
    let mut out = Vec::new();
    let mut h: u64 = 0;
    let mut len = 0usize;
    for &b in data {
        h = h
            .wrapping_mul(2)
            .wrapping_add(gear_value(DEFAULT_GEAR_SEED, b as usize));
        len += 1;
        let mask = if len < avg { mask_small } else { mask_large };
        if (len >= min && (h & mask) == 0) || len >= max {
            out.push((h, len));
            h = 0;
            len = 0;
        }
    }
    if len > 0 {
        out.push((h, len));
    }
    out
}

#[test]
fn boundaries_match_an_independent_scan() {
    let data = gen_bytes(150_000, 2024);
    let expected = reference_boundaries(&data, 256, 1024, 8192, 1);
    assert!(expected.len() > 10);
    let mut detector = FastCDC::new(256, 1024, 8192).ok().unwrap();
    let chunks = detector.as_iterator(&data);
    let got: Vec<(u64, usize)> = chunks
        .iter()
        .map(|c| (c.hash, (c.cutpoint as isize - c.offset) as usize))
        .collect();
    assert_eq!(got, expected);
}

#[test]
fn custom_seed_changes_boundaries() {
    let data = gen_bytes(100_000, 9);
    let mut a = FastCDC::new_advanced(256, 1024, 8192, fastcdc_alt::Normalization::Level1, None)
        .ok()
        .unwrap();
    let mut b = FastCDC::new_advanced(
        256,
        1024,
        8192,
        fastcdc_alt::Normalization::Level1,
        Some(0x1234_5678),
    )
    .ok()
    .unwrap();
    let ca = a.as_iterator(&data);
    let cb = b.as_iterator(&data);
    assert_ne!(lengths(&ca), lengths(&cb));
}
