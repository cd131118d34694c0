use blocked_bloom::mapping::{bit_position, block_index, step_of, NUM_PROBES};
use blocked_bloom::{BlockedBloomFilter, InvalidLayout};
use rand::Rng;

fn rand_hashes(size: usize) -> Vec<u32> {
    let mut hashes: Vec<u32> = vec![0; size];
    let mut rng = rand::thread_rng();
    rng.fill(hashes.as_mut_slice());
    hashes
}

#[test]
fn test_filter() {
    let mut bbf = BlockedBloomFilter::create_filter(123);
    assert!(!bbf.may_contain(12345));
    bbf.add(12345);
    assert!(bbf.may_contain(12345));

    let v = vec![12; 64];
    let bbf = BlockedBloomFilter::from_vec(v).unwrap();
    assert_eq!(bbf.len(), 64);
}

#[test]
fn test_contain_key() {
    let mut filter = BlockedBloomFilter::create_filter(10);
    let hashes = rand_hashes(10);
    for &h in &hashes {
        filter.add(h);
    }
    for h in hashes {
        assert!(filter.may_contain(h));
    }
}

#[test]
fn test_false_positive1() {
    const FILTER_SIZE: usize = 10000;
    let mut rng = rand::thread_rng();
    let mut filter = BlockedBloomFilter::create_filter(FILTER_SIZE);
    let rand_keys = rand::seq::index::sample(&mut rng, u32::MAX as usize, FILTER_SIZE * 2);
    for i in 0..FILTER_SIZE {
        filter.add(rand_keys.index(i) as u32);
    }
    for i in 0..FILTER_SIZE {
        assert!(filter.may_contain(rand_keys.index(i) as u32));
    }

    let mut false_pos_count = 0;
    for i in FILTER_SIZE..FILTER_SIZE * 2 {
        if filter.may_contain(rand_keys.index(i) as u32) {
            false_pos_count += 1;
        }
    }
    assert!(
        false_pos_count < 200,
        "false positive rate: {}/10000",
        false_pos_count
    );
}

#[test]
fn inserted_hashes_stay_present_after_more_inserts() {
    let mut filter = BlockedBloomFilter::create_filter(100);
    let first = rand_hashes(50);
    for &h in &first {
        filter.add(h);
    }
    for h in rand_hashes(500) {
        filter.add(h);
    }
    for h in first {
        assert!(filter.may_contain(h));
    }
}

#[test]
fn repeated_queries_agree() {
    let mut filter = BlockedBloomFilter::create_filter(20);
    for h in rand_hashes(20) {
        filter.add(h);
    }
    for h in rand_hashes(200) {
        let a = filter.may_contain(h);
        let b = filter.may_contain(h);
        assert_eq!(a, b);
    }
}

#[test]
fn empty_filter_rejects_everything() {
    let filter = BlockedBloomFilter::create_filter(0);
    assert_eq!(filter.len(), 64);
    assert_eq!(filter.num_blocks(), 1);
    for h in [0u32, 1, 7, 12345, 0x8000_0000, u32::MAX] {
        assert!(!filter.may_contain(h));
    }
    for h in rand_hashes(1000) {
        assert!(!filter.may_contain(h));
    }
}

#[test]
fn zero_bytes_load_as_an_empty_filter() {
    let filter = BlockedBloomFilter::from_vec(vec![0u8; 128]).unwrap();
    assert_eq!(filter.num_blocks(), 2);
    for h in rand_hashes(1000) {
        assert!(!filter.may_contain(h));
    }
}

#[test]
fn round_trip_through_bytes() {
    let mut filter = BlockedBloomFilter::create_filter(300);
    for h in rand_hashes(300) {
        filter.add(h);
    }
    let bytes = filter.to_bytes();
    assert_eq!(bytes.len(), filter.len());
    let loaded = BlockedBloomFilter::from_vec(bytes.clone()).unwrap();
    assert_eq!(loaded.len(), filter.len());
    assert_eq!(loaded.to_bytes(), bytes);
    for h in rand_hashes(5000) {
        assert_eq!(loaded.may_contain(h), filter.may_contain(h));
    }
}

#[test]
fn loaded_bytes_are_written_back_unchanged() {
    let bytes: Vec<u8> = (0..192u32).map(|i| (i * 37 + 11) as u8).collect();
    let filter = BlockedBloomFilter::from_vec(bytes.clone()).unwrap();
    assert_eq!(filter.len(), 192);
    assert_eq!(filter.num_blocks(), 3);
    assert_eq!(filter.to_bytes(), bytes);
}

#[test]
fn add_sets_the_probed_bits_little_endian() {
    let h: u32 = 0xDEAD_BEEF;
    let mut filter = BlockedBloomFilter::create_filter(0);
    filter.add(h);
    let bytes = filter.to_bytes();
    let step = step_of(h);
    let mut expected = vec![0u8; 64];
    for i in 0..NUM_PROBES {
        let pos = bit_position(h, step, i);
        expected[pos / 8] |= 1u8 << (pos % 8);
    }
    assert_eq!(bytes, expected);
    assert!(filter.may_contain(h));
}

#[test]
fn a_set_bit_is_read_from_its_byte() {
    let h: u32 = 5;
    let step = step_of(h);
    let mut bytes = vec![0u8; 64];
    for i in 0..NUM_PROBES {
        let pos = bit_position(h, step, i);
        bytes[pos / 8] |= 1u8 << (pos % 8);
    }
    let mut partial = bytes.clone();
    let last = bit_position(h, step, NUM_PROBES - 1);
    partial[last / 8] &= !(1u8 << (last % 8));
    assert!(BlockedBloomFilter::from_vec(bytes).unwrap().may_contain(h));
    assert!(!BlockedBloomFilter::from_vec(partial).unwrap().may_contain(h));
}

#[test]
fn from_vec_rejects_bad_lengths() {
    assert_eq!(
        BlockedBloomFilter::from_vec(Vec::new()).err(),
        Some(InvalidLayout { len: 0 })
    );
    assert_eq!(
        BlockedBloomFilter::from_vec(vec![0u8; 63]).err(),
        Some(InvalidLayout { len: 63 })
    );
    assert_eq!(
        BlockedBloomFilter::from_vec(vec![0u8; 100]).err(),
        Some(InvalidLayout { len: 100 })
    );
    assert!(BlockedBloomFilter::from_vec(vec![0u8; 640]).is_ok());
}

#[test]
fn frozen_filter_answers_like_the_builder() {
    let mut filter = BlockedBloomFilter::create_filter(50);
    let hashes = rand_hashes(50);
    for &h in &hashes {
        filter.add(h);
    }
    let probes = rand_hashes(1000);
    let answers: Vec<bool> = probes.iter().map(|&h| filter.may_contain(h)).collect();
    let bytes = filter.to_bytes();
    let len = filter.len();
    let frozen = filter.freeze();
    assert_eq!(frozen.len(), len);
    assert_eq!(frozen.to_bytes(), bytes);
    for h in hashes {
        assert!(frozen.may_contain(h));
    }
    for (h, a) in probes.into_iter().zip(answers) {
        assert_eq!(frozen.may_contain(h), a);
    }
}

#[test]
fn single_block_maps_every_hash_to_block_zero() {
    for h in [0u32, 1, 0x7FFF_FFFF, 0x8000_0000, u32::MAX] {
        assert_eq!(block_index(h, 1), 0);
    }
    for h in rand_hashes(1000) {
        assert_eq!(block_index(h, 1), 0);
        let step = step_of(h);
        for i in 0..NUM_PROBES {
            assert!(bit_position(h, step, i) < 512);
        }
    }
}

#[test]
fn block_index_takes_the_high_bits() {
    assert_eq!(block_index(0, 5), 0);
    assert_eq!(block_index(0x8000_0000, 4), 2);
    assert_eq!(block_index(u32::MAX, 3), 2);
    assert_eq!(block_index(0x4000_0000, 196), 49);
    for h in rand_hashes(1000) {
        assert!(block_index(h, 196) < 196);
    }
}

#[test]
fn probe_stride_and_positions() {
    assert_eq!(step_of(0), 1);
    // low 32 bits of 0x9E37_79B9 have top byte 0x9E = 158
    assert_eq!(step_of(1), 317);
    assert_eq!(bit_position(1, 317, 0), 1);
    assert_eq!(bit_position(1, 317, 2), 123);
    assert_eq!(bit_position(0, 1, 6), 6);
    for h in rand_hashes(1000) {
        let s = step_of(h);
        assert_eq!(s % 2, 1);
        assert!(s < 512);
    }
}
