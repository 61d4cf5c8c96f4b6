use toneframe::pcm_chunker::{PcmChunker, CHUNK_SAMPLES};

#[test]
fn small_pushes_only_queue() {
    let mut c: PcmChunker<i32> = PcmChunker::new();
    let batch = c.push(&[1, 2, 3]);
    assert!(batch.chunks.is_empty());
    assert!(!batch.first_emit);
    assert_eq!(c.queued_len(), 3);
}

#[test]
fn full_chunk_is_cut_and_flagged_once() {
    let mut c: PcmChunker<u32> = PcmChunker::new();
    let first: Vec<u32> = (0..300).collect();
    let b1 = c.push(&first);
    assert!(b1.chunks.is_empty());
    let second: Vec<u32> = (300..1000).collect();
    let b2 = c.push(&second);
    assert_eq!(b2.chunks.len(), 2);
    assert!(b2.first_emit);
    assert_eq!(b2.chunks[0], (0..384).collect::<Vec<u32>>());
    assert_eq!(b2.chunks[1], (384..768).collect::<Vec<u32>>());
    assert_eq!(c.queued_len(), 1000 - 768);
    let third: Vec<u32> = (1000..1200).collect();
    let b3 = c.push(&third);
    assert_eq!(b3.chunks.len(), 1);
    assert!(!b3.first_emit);
    assert_eq!(b3.chunks[0], (768..1152).collect::<Vec<u32>>());
}

#[test]
fn no_sample_lost_or_reordered() {
    let mut c: PcmChunker<u64> = PcmChunker::new();
    let mut seen: Vec<u64> = Vec::new();
    let mut next: u64 = 0;
    for size in [0usize, 1, 383, 384, 385, 1000, 17, 2000] {
        let block: Vec<u64> = (next..next + size as u64).collect();
        next += size as u64;
        for chunk in c.push(&block).chunks {
            assert_eq!(chunk.len(), CHUNK_SAMPLES);
            seen.extend(chunk);
        }
        assert!(c.queued_len() < CHUNK_SAMPLES);
    }
    assert_eq!(seen.len() + c.queued_len(), next as usize);
    assert_eq!(seen, (0..seen.len() as u64).collect::<Vec<u64>>());
}

#[test]
fn works_with_float_samples() {
    let mut c: PcmChunker<f32> = PcmChunker::new();
    let block = vec![0.25f32; CHUNK_SAMPLES];
    let b = c.push(&block);
    assert_eq!(b.chunks.len(), 1);
    assert_eq!(b.chunks[0][0], 0.25);
    assert!(b.first_emit);
}
