use shader_compiler::spirv::{decode_spirv, encode_spirv, SpirvError};

#[test]
fn words_encode_little_endian() {
    let bytes = encode_spirv(&[0x0723_0203, 1]);
    assert_eq!(bytes, vec![0x03, 0x02, 0x23, 0x07, 1, 0, 0, 0]);
}

#[test]
fn round_trip_keeps_words() {
    let words = vec![0x0723_0203u32, 0, 0xdead_beef, u32::MAX];
    let bytes = encode_spirv(&words);
    assert_eq!(bytes.len(), 16);
    assert_eq!(decode_spirv(&bytes), Ok(words));
}

#[test]
fn round_trip_of_nothing() {
    let bytes = encode_spirv(&[]);
    assert!(bytes.is_empty());
    assert_eq!(decode_spirv(&bytes), Ok(Vec::new()));
}

#[test]
fn partial_word_is_refused() {
    assert_eq!(decode_spirv(&[1, 2, 3, 4, 5]), Err(SpirvError::TruncatedWord));
}
