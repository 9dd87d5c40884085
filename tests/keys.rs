use transcript_audio::cache::{cache_key_for, compute_transcript_hash, hex_lower};

#[test]
fn hash_of_empty_input() {
    assert_eq!(
        compute_transcript_hash(b""),
        "e3b0c44298fc1c149afbf4c8996fb92427ae41e4649b934ca495991b7852b855"
    );
}

#[test]
fn hash_of_abc() {
    assert_eq!(
        compute_transcript_hash(b"abc"),
        "ba7816bf8f01cfea414140de5dae2223b00361a396177a9cb410ff61f20015ad"
    );
}

#[test]
fn identical_bytes_give_identical_keys() {
    let a = cache_key_for(b"A: hi\nB: yo\n");
    let b = cache_key_for(b"A: hi\nB: yo\n");
    assert_eq!(a.transcript_hash, b.transcript_hash);
}

#[test]
fn one_differing_byte_gives_a_different_key() {
    let a = cache_key_for(b"A: hi\nB: yo\n");
    let b = cache_key_for(b"A: hi\nB: yo \n");
    assert_ne!(a.transcript_hash, b.transcript_hash);
    assert_eq!(a.transcript_hash.len(), 64);
}

#[test]
fn hex_is_lowercase_two_digits_per_byte() {
    assert_eq!(hex_lower(&[0x00, 0x0f, 0xa0, 0xff, 0x7b]), "000fa0ff7b");
    assert_eq!(hex_lower(&[]), "");
}
