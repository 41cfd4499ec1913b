use rufus::mutator::{MutationMethod, Mutator, Sample};

#[test]
fn seed_sample_is_raw() {
    let s = Sample::new(&vec![1u8, 2, 3]);
    assert_eq!(s.version, 1);
    assert_eq!(s.data, vec![1u8, 2, 3]);
    assert!(matches!(s.method, MutationMethod::Raw));
    assert!(s.trace.is_none());
}

#[test]
fn bit_flip_always_changes_the_data() {
    let s = Sample::new(&vec![0u8, 0xab, 0xff]);
    let c = s.bit_flip_at(1, 0x10);
    assert_eq!(c.data, vec![0u8, 0xbb, 0xff]);
    assert_ne!(c.data, s.data);
    assert_eq!(c.data.len(), s.data.len());
    assert_eq!(c.version, 2);
    assert!(matches!(c.method, MutationMethod::BitFlip));
    assert!(c.trace.is_none());
}

#[test]
fn byte_flip_sets_the_chosen_byte() {
    let s = Sample::new(&vec![0u8; 10]);
    let c = s.byte_flip_at(3, 0xff);
    assert_eq!(c.data[3], 0xff);
    assert_eq!(c.data.len(), 10);
    for i in 0..10 {
        if i != 3 {
            assert_eq!(c.data[i], 0);
        }
    }
    assert!(matches!(c.method, MutationMethod::ByteFlip));
}

#[test]
fn insert_block_grows_by_the_block() {
    let s = Sample::new(&vec![10u8, 20, 30]);
    let c = s.insert_block_at(1, &vec![7u8, 8]);
    assert_eq!(c.data, vec![10u8, 7, 8, 20, 30]);
    assert!(matches!(c.method, MutationMethod::InsertBlock));
}

#[test]
fn insert_block_at_the_end() {
    let s = Sample::new(&vec![10u8, 20]);
    let c = s.insert_block_at(2, &vec![9u8]);
    assert_eq!(c.data, vec![10u8, 20, 9]);
}

#[test]
fn remove_block_shrinks_exactly() {
    let s = Sample::new(&vec![1u8, 2, 3, 4, 5]);
    let c = s.remove_block_at(1, 3);
    assert_eq!(c.data, vec![1u8, 5]);
    assert!(matches!(c.method, MutationMethod::RemoveBlock));
}

#[test]
fn add_trace_attaches_once() {
    let mut s = Sample::new(&vec![1u8]);
    s.add_trace(vec![0x400010, 0x400020]);
    assert_eq!(s.trace, Some(vec![0x400010u64, 0x400020]));
    assert_eq!(s.data, vec![1u8]);
}

#[test]
fn raw_copy_keeps_the_data() {
    let s = Sample::new(&vec![5u8, 6]);
    let c = s.raw();
    assert_eq!(c.data, vec![5u8, 6]);
    assert_eq!(c.version, 2);
    assert!(matches!(c.method, MutationMethod::Raw));
}

fn children_of(seed: Vec<u8>) -> (Vec<u8>, Vec<Sample>) {
    let mut m = Mutator::new();
    m.consume(&vec![seed.clone()]);
    let mut s = m.next_sample().expect("seed queued");
    s.add_trace(vec![]);
    m.update(&vec![s]);
    let mut children = Vec::new();
    while let Some(c) = m.next_sample() {
        children.push(c);
    }
    (seed, children)
}

#[test]
fn mutated_children_respect_the_length_bounds() {
    let (seed, children) = children_of(vec![9u8; 10]);
    assert_eq!(children.len(), 100);
    for c in &children {
        assert!(c.trace.is_none());
        assert_eq!(c.version, 2);
        match c.method {
            MutationMethod::Raw => panic!("raw child from a nonempty parent"),
            MutationMethod::BitFlip => {
                assert_eq!(c.data.len(), seed.len());
                assert_ne!(c.data, seed);
            }
            MutationMethod::ByteFlip => assert_eq!(c.data.len(), seed.len()),
            MutationMethod::InsertBlock => {
                assert!(c.data.len() >= seed.len() + 1 && c.data.len() <= seed.len() + 7);
            }
            MutationMethod::RemoveBlock => {
                assert!(c.data.len() < seed.len());
                assert!(seed.len() - c.data.len() <= 7);
            }
        }
    }
}

#[test]
fn empty_parent_falls_back_to_raw() {
    let (_, children) = children_of(vec![]);
    assert_eq!(children.len(), 100);
    for c in &children {
        match c.method {
            MutationMethod::Raw => assert!(c.data.is_empty()),
            MutationMethod::InsertBlock => {
                assert!(c.data.len() >= 1 && c.data.len() <= 7);
            }
            _ => panic!("index-based strategy on an empty buffer"),
        }
    }
}
