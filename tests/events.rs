use snipper::events::{EventBuffer, ScoredBlock, GAP_SIZE};
use snipper::pipeline::process_block;

fn block(tag: usize) -> Vec<u8> {
    vec![(tag % 256) as u8, (tag / 256) as u8, 7, 9]
}

/// Feeds `hits` in order, with block `i` tagged `i`; returns each flush.
fn run(buffer: &mut EventBuffer, hits: &[u32]) -> Vec<Vec<ScoredBlock>> {
    let mut flushes = Vec::new();
    for (i, h) in hits.iter().enumerate() {
        if let Some(out) = buffer.ingest(block(i), *h) {
            flushes.push(out);
        }
    }
    flushes
}

#[test]
fn burst_of_three_events_flushes_once() {
    let mut hits = vec![0u32; GAP_SIZE];
    hits.extend([2, 2, 2]);
    hits.extend(vec![0u32; GAP_SIZE + 1]);
    let flush_at = hits.len() - 1;
    hits.extend(vec![0u32; 40]);
    let mut buffer = EventBuffer::new();
    let mut flushes = Vec::new();
    for (i, h) in hits.iter().enumerate() {
        if let Some(out) = buffer.ingest(block(i), *h) {
            assert_eq!(i, flush_at);
            assert_eq!(buffer.len(), 0);
            flushes.push(out);
        }
    }
    assert_eq!(flushes.len(), 1);
    let out = &flushes[0];
    // The oldest quiet block was evicted on the flushing ingest.
    assert_eq!(out.len(), 2 * GAP_SIZE + 3);
    for (k, b) in out.iter().enumerate() {
        assert_eq!(b.data, block(k + 1));
        assert_eq!(b.hits, hits[k + 1]);
    }
    let bytes: Vec<u8> = out.iter().flat_map(|b| b.data.iter().copied()).collect();
    assert_eq!(bytes.len(), out.len() * 4);
}

#[test]
fn burst_of_one_event_does_not_flush() {
    let mut hits = vec![0u32; GAP_SIZE];
    hits.push(2);
    hits.extend(vec![0u32; 3 * GAP_SIZE]);
    let mut buffer = EventBuffer::new();
    assert!(run(&mut buffer, &hits).is_empty());
    assert_eq!(buffer.len(), 2 * GAP_SIZE + 1);
}

#[test]
fn two_events_do_not_flush() {
    let mut hits = vec![5u32, 2];
    hits.extend(vec![0u32; 2 * GAP_SIZE]);
    let mut buffer = EventBuffer::new();
    assert!(run(&mut buffer, &hits).is_empty());
    // Both event blocks were evicted as quiet history.
    assert_eq!(buffer.len(), GAP_SIZE + 2);
    assert_eq!(buffer.event_count(), 0);
}

#[test]
fn hit_count_of_one_is_no_event() {
    let mut hits = vec![1u32, 1, 1, 1];
    hits.extend(vec![0u32; 2 * GAP_SIZE]);
    let mut buffer = EventBuffer::new();
    assert!(run(&mut buffer, &hits).is_empty());
    assert_eq!(buffer.event_count(), 0);
}

#[test]
fn sustained_quiet_caps_length() {
    let mut buffer = EventBuffer::new();
    for i in 0..100 {
        assert!(buffer.ingest(block(i), 0).is_none());
        assert!(buffer.len() <= GAP_SIZE + 1);
    }
    assert_eq!(buffer.len(), GAP_SIZE + 1);
    assert!(buffer.currently_quiet());
}

#[test]
fn quiet_after_small_burst_keeps_length() {
    let mut buffer = EventBuffer::new();
    let mut hits = vec![3u32, 0, 1];
    hits.extend(vec![0u32; GAP_SIZE]);
    run(&mut buffer, &hits);
    let len = buffer.len();
    assert_eq!(len, GAP_SIZE + 3);
    for i in 0..50 {
        assert!(buffer.ingest(block(i), 0).is_none());
        assert_eq!(buffer.len(), len);
    }
}

#[test]
fn quiet_needs_more_than_gap_blocks() {
    let mut buffer = EventBuffer::new();
    run(&mut buffer, &vec![0u32; GAP_SIZE]);
    assert!(!buffer.currently_quiet());
    buffer.ingest(block(0), 0);
    assert!(buffer.currently_quiet());
    buffer.ingest(block(1), 4);
    assert!(!buffer.currently_quiet());
    assert_eq!(buffer.hits_at(buffer.len() - 1), 4);
}

#[test]
fn process_block_counts_hits_and_flushes() {
    let peak: Vec<u32> = (0..20).map(|i| if i == 3 { 50 } else { 0 }).collect();
    let flat: Vec<u32> = vec![4; 20];
    let mut buffer = EventBuffer::new();
    let mut flushed = None;
    for i in 0..GAP_SIZE {
        assert!(process_block(&mut buffer, block(i), &vec![flat.clone()]).is_none());
    }
    for i in 0..3 {
        let spectra = vec![peak.clone(), flat.clone(), peak.clone()];
        assert!(process_block(&mut buffer, block(100 + i), &spectra).is_none());
        assert_eq!(buffer.hits_at(buffer.len() - 1), 2);
    }
    for i in 0..=GAP_SIZE {
        if let Some(out) = process_block(&mut buffer, block(200 + i), &vec![flat.clone()]) {
            flushed = Some(out);
        }
    }
    let out = flushed.expect("a flush at the end of the burst");
    assert_eq!(out.len(), 2 * GAP_SIZE + 3);
    assert_eq!(buffer.len(), 0);
}
