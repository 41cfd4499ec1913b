use rufus::mutator::{MutationMethod, Mutator, Sample};

fn traced(data: Vec<u8>, trace: Vec<u64>) -> Sample {
    let mut s = Sample::new(&data);
    s.add_trace(trace);
    s
}

#[test]
fn admission_is_idempotent_across_batches() {
    let mut m = Mutator::new();
    m.update(&vec![traced(vec![1, 2, 3], vec![42])]);
    assert_eq!(m.corpus_len(), 1);
    m.update(&vec![traced(vec![1, 2, 3], vec![42])]);
    assert_eq!(m.corpus_len(), 1);
}

#[test]
fn admission_is_idempotent_within_a_batch() {
    let mut m = Mutator::new();
    m.update(&vec![traced(vec![1], vec![7, 8]), traced(vec![2], vec![7, 8])]);
    assert_eq!(m.corpus_len(), 1);
}

#[test]
fn different_data_same_signature_is_one_entry() {
    let mut m = Mutator::new();
    m.update(&vec![traced(vec![1, 1], vec![5])]);
    m.update(&vec![traced(vec![9, 9, 9], vec![5])]);
    assert_eq!(m.corpus_len(), 1);
    assert_eq!(m.corpus_entry(0).data, vec![1, 1]);
}

#[test]
fn samples_without_a_trace_are_dropped() {
    let mut m = Mutator::new();
    m.update(&vec![Sample::new(&vec![1, 2])]);
    assert_eq!(m.corpus_len(), 0);
    assert_eq!(m.pending_len(), 0);
}

#[test]
fn signature_order_distinguishes_executions() {
    let a: u64 = 0x400010;
    let b: u64 = 0x400020;
    let mut m = Mutator::new();
    m.update(&vec![traced(vec![1], vec![a, b, a])]);
    m.update(&vec![traced(vec![2], vec![a, a, b])]);
    assert_eq!(m.corpus_len(), 2);
}

#[test]
fn empty_signature_is_admitted_once() {
    let seed = vec![0u8; 10];
    let mut m = Mutator::new();
    m.consume(&vec![seed.clone()]);
    assert_eq!(m.pending_len(), 1);
    let mut s = m.next_sample().expect("seed queued");
    s.add_trace(vec![]);
    m.update(&vec![s]);
    assert_eq!(m.corpus_len(), 1);
    assert_eq!(m.corpus_entry(0).data, seed);
    assert!(matches!(m.corpus_entry(0).method, MutationMethod::Raw));

    // every mutated child that also reports the empty signature is a
    // duplicate and must be rejected
    let mut pool = Vec::new();
    while let Some(mut c) = m.next_sample() {
        c.add_trace(vec![]);
        pool.push(c);
    }
    assert_eq!(pool.len(), 100);
    m.update(&pool);
    assert_eq!(m.corpus_len(), 1);
    assert!(matches!(m.corpus_entry(0).method, MutationMethod::Raw));
}

#[test]
fn corpus_keeps_the_first_novel_sample() {
    let mut m = Mutator::new();
    let base: u64 = 0x400000;
    m.update(&vec![traced(vec![10], vec![base + 0x10, base + 0x20])]);
    m.update(&vec![traced(vec![20], vec![base + 0x10, base + 0x20])]);
    assert_eq!(m.corpus_len(), 1);
    assert_eq!(m.corpus_entry(0).data, vec![10]);
    assert_eq!(
        m.corpus_entry(0).trace,
        Some(vec![base + 0x10, base + 0x20])
    );
}

#[test]
fn every_corpus_entry_feeds_the_next_round() {
    let mut m = Mutator::new();
    m.update(&vec![traced(vec![1, 2, 3, 4], vec![10])]);
    assert_eq!(m.pending_len(), 100);
    while m.next_sample().is_some() {}
    m.update(&vec![traced(vec![5, 6, 7, 8], vec![20])]);
    assert_eq!(m.corpus_len(), 2);
    // growth is cumulative: both corpus entries seed the new round
    assert_eq!(m.pending_len(), 200);
}

#[test]
fn consume_queues_every_seed() {
    let mut m = Mutator::new();
    m.consume(&vec![vec![1], vec![2, 2], vec![3, 3, 3]]);
    assert_eq!(m.pending_len(), 3);
    assert_eq!(m.corpus_len(), 0);
    let s = m.next_sample().expect("queued");
    assert_eq!(s.data, vec![3, 3, 3]);
    assert_eq!(s.version, 1);
}
