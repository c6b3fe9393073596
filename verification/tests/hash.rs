use audionautica_core::hash::hash_bytes;

#[test]
fn identical_bytes_same_hash() {
    assert_eq!(hash_bytes(b"loop"), hash_bytes(b"loop"));
}

#[test]
fn different_bytes_different_hash() {
    assert_ne!(hash_bytes(b"loop"), hash_bytes(b"loop "));
}

#[test]
fn hash_of_empty_input_is_known_digest() {
    assert_eq!(
        hash_bytes(b""),
        "af1349b9f5f9a1a6a0404dea36dcc9499bcb25c9adc112b7cc9a93cae41f3262"
    );
    assert_eq!(hash_bytes(b"abc").len(), 64);
}
