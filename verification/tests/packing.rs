use dotrix_render::bytes::{clone_bytes, push_u32_le, u32_from_le, words_from_le_bytes, words_to_le_bytes};

#[test]
fn it_works() {
    let result = 2 + 2;
    assert_eq!(result, 4);
}

#[test]
fn lib_it_works() {
    let result = 2 + 2;
    assert_eq!(result, 4);
}

#[test]
fn word_packs_little_endian() {
    let mut out: Vec<u8> = Vec::new();
    push_u32_le(&mut out, 0x1122_3344);
    assert_eq!(out, vec![0x44, 0x33, 0x22, 0x11]);
}

#[test]
fn word_round_trip() {
    let w = u32_from_le(0xde, 0xad, 0xbe, 0xef);
    assert_eq!(w, 0xefbe_adde);
    let words = vec![0u32, 1, 0xffff_ffff, 0x8000_0000, 12345];
    let bytes = words_to_le_bytes(&words);
    assert_eq!(bytes.len(), 20);
    let back = words_from_le_bytes(&bytes);
    assert_eq!(back, words);
}

#[test]
fn packing_matches_native_cast() {
    // On a little-endian host the packed layout is exactly the
    // in-memory layout the device driver would see.
    let words: Vec<u32> = vec![7, 0xdead_beef, 42, u32::MAX, 0, 0x0102_0304];
    let packed = words_to_le_bytes(&words);
    let raw: &[u8] = bytemuck::cast_slice(words.as_slice());
    assert_eq!(packed.as_slice(), raw);
}

#[test]
fn clone_bytes_copies() {
    let v: Vec<u8> = vec![1, 2, 3, 250];
    let c = clone_bytes(&v);
    assert_eq!(c, v);
}
