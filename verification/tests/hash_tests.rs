use instancesync::hash::{compute_hash, compute_normalized_length, is_whitespace_character, Buffer};

fn buffer_from(bytes: &[u8]) -> Buffer {
    let mut b = Buffer::new(bytes.len());
    b.data_mut().copy_from_slice(bytes);
    b
}

#[test]
fn empty_buffer_pins_fixed_constant() {
    // effectiveLength = 0, h starts at 1 ^ 0 = 1, no words, no tail,
    // then the avalanche mixing alone.
    assert_eq!(compute_hash(&buffer_from(&[])), 1540447798);
}

#[test]
fn single_byte_exercises_trailing_partial_word() {
    assert_eq!(compute_hash(&buffer_from(&[0x41])), 2761424046);
}

#[test]
fn two_and_three_bytes_stay_in_partial_word() {
    let h2 = compute_hash(&buffer_from(&[0x41, 0x42]));
    let h3 = compute_hash(&buffer_from(&[0x41, 0x42, 0x43]));
    assert_ne!(h2, h3);
}

#[test]
fn four_bytes_exercise_exactly_one_full_word() {
    assert_eq!(compute_hash(&buffer_from(&[0x41, 0x42, 0x43, 0x44])), 479736019);
}

#[test]
fn byte_order_is_significant() {
    let forward = compute_hash(&buffer_from(&[0x41, 0x42, 0x43, 0x44]));
    let reversed = compute_hash(&buffer_from(&[0x44, 0x43, 0x42, 0x41]));
    assert_eq!(forward, 479736019);
    assert_eq!(reversed, 1457168434);
    assert_ne!(forward, reversed);
}

#[test]
fn repeated_calls_are_deterministic() {
    let a = buffer_from(b"some archive contents");
    let b = buffer_from(b"some archive contents");
    let first = compute_hash(&a);
    assert_eq!(compute_hash(&a), first);
    assert_eq!(compute_hash(&b), first);
}

#[test]
fn whitespace_is_elided_from_the_hash() {
    let plain = compute_hash(&buffer_from(b"ABCDE"));
    assert_eq!(plain, 1124742397);
    assert_eq!(compute_hash(&buffer_from(b"AB\nCD\tE")), plain);
    assert_eq!(compute_hash(&buffer_from(b"AB CD E")), plain);
    assert_eq!(compute_hash(&buffer_from(b"\r\nABCDE \t")), plain);
}

#[test]
fn different_non_whitespace_content_hashes_differently() {
    let plain = compute_hash(&buffer_from(b"ABCDE"));
    assert_ne!(compute_hash(&buffer_from(b"ABCDF")), plain);
}

#[test]
fn all_whitespace_buffer_hashes_like_empty() {
    let empty = compute_hash(&buffer_from(&[]));
    assert_eq!(compute_hash(&buffer_from(&[9, 10, 13, 32])), empty);
    assert_eq!(compute_hash(&buffer_from(b"   \r\n\t")), empty);
}

#[test]
fn normalized_length_counts_only_non_whitespace() {
    assert_eq!(compute_normalized_length(&buffer_from(&[])), 0);
    assert_eq!(compute_normalized_length(&buffer_from(b"AB CD E")), 5);
    assert_eq!(compute_normalized_length(&buffer_from(b"\t\r\n ")), 0);
    assert_eq!(compute_normalized_length(&buffer_from(b"ABCD")), 4);
}

#[test]
fn whitespace_characters_are_exactly_the_four() {
    assert!(is_whitespace_character(9));
    assert!(is_whitespace_character(10));
    assert!(is_whitespace_character(13));
    assert!(is_whitespace_character(32));
    assert!(!is_whitespace_character(8));
    assert!(!is_whitespace_character(11));
    assert!(!is_whitespace_character(12));
    assert!(!is_whitespace_character(0x41));
}

#[test]
fn new_buffer_is_zero_filled() {
    let b = Buffer::new(4);
    assert_eq!(b.size(), 4);
    assert_eq!(b.data(), &[0u8, 0, 0, 0]);
}

#[test]
fn data_mut_writes_show_through_data() {
    let mut b = Buffer::new(2);
    b.data_mut()[0] = 0x41;
    b.data_mut()[1] = 0x42;
    assert_eq!(b.data(), b"AB");
    assert_eq!(b.size(), 2);
}
