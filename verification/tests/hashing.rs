use disk_visualizer::hashing::{ContentHasher, BLOCK_SIZE};

fn hash_in_blocks(bytes: &[u8], block: usize) -> String {
    let mut hasher = ContentHasher::new();
    for piece in bytes.chunks(block) {
        assert!(hasher.absorb(piece));
    }
    assert!(!hasher.absorb(&[]));
    hasher.finish()
}

#[test]
fn nothing_absorbed_gives_the_hash_of_the_empty_input() {
    let hasher = ContentHasher::new();
    assert_eq!(
        hasher.finish(),
        "af1349b9f5f9a1a6a0404dea36dcc9499bcb25c9adc112b7cc9a93cae41f3262"
    );
}

#[test]
fn absorbed_bytes_give_the_blake3_hash_in_lower_case_hex() {
    let mut hasher = ContentHasher::new();
    hasher.absorb(b"abc");
    let hex = hasher.finish();
    assert_eq!(hex, "6437b3ac38465133ffb63b75273a8db548c558465d79db03fd359c6cd5bd9d85");
    assert_eq!(hex, blake3::hash(b"abc").to_hex().to_string());
    assert_eq!(hex.len(), 64);
}

#[test]
fn an_empty_block_ends_the_file_and_changes_nothing() {
    let mut hasher = ContentHasher::new();
    assert!(hasher.absorb(b"some bytes"));
    let before = hasher.finish();
    assert!(!hasher.absorb(&[]));
    assert_eq!(hasher.finish(), before);
}

#[test]
fn the_cut_into_blocks_does_not_matter() {
    let bytes: Vec<u8> = (0..20_000u32).map(|i| (i % 251) as u8).collect();
    let whole = blake3::hash(&bytes).to_hex().to_string();
    assert_eq!(hash_in_blocks(&bytes, BLOCK_SIZE), whole);
    assert_eq!(hash_in_blocks(&bytes, 1), whole);
    assert_eq!(hash_in_blocks(&bytes, 1000), whole);
    assert_eq!(hash_in_blocks(&bytes, 20_000), whole);
}

#[test]
fn blocks_are_absorbed_in_order() {
    let mut forward = ContentHasher::new();
    forward.absorb(b"first");
    forward.absorb(b"second");
    let mut backward = ContentHasher::new();
    backward.absorb(b"second");
    backward.absorb(b"first");
    assert_eq!(forward.finish(), blake3::hash(b"firstsecond").to_hex().to_string());
    assert_ne!(forward.finish(), backward.finish());
}

#[test]
fn finishing_twice_gives_the_same_hash_and_absorbing_may_go_on() {
    let mut hasher = ContentHasher::new();
    hasher.absorb(b"foo");
    assert_eq!(hasher.finish(), hasher.finish());
    hasher.absorb(b"bar");
    assert_eq!(hasher.finish(), blake3::hash(b"foobar").to_hex().to_string());
}

#[test]
fn the_block_size_is_four_kibibytes() {
    assert_eq!(BLOCK_SIZE, 4096);
}
