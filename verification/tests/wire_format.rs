use zk_journal::wire::u32_from_be_bytes;
use zk_journal::wire::u32_to_be_bytes;
use zk_journal::wire::u64_from_be_bytes;
use zk_journal::wire::u64_to_be_bytes;

#[test]
fn u32_is_written_most_significant_byte_first() {
    assert_eq!(u32_to_be_bytes(0x0102_0304), [1, 2, 3, 4]);
    assert_eq!(u32_to_be_bytes(89), [0, 0, 0, 89]);
    assert_eq!(u32_to_be_bytes(0), [0, 0, 0, 0]);
    assert_eq!(u32_to_be_bytes(u32::MAX), [255, 255, 255, 255]);
    assert_eq!(u32_to_be_bytes(0x8000_0000), [0x80, 0, 0, 0]);
}

#[test]
fn u64_is_written_most_significant_byte_first() {
    assert_eq!(u64_to_be_bytes(0x0102_0304_0506_0708), [1, 2, 3, 4, 5, 6, 7, 8]);
    assert_eq!(u64_to_be_bytes(0), [0; 8]);
    assert_eq!(u64_to_be_bytes(u64::MAX), [255; 8]);
    assert_eq!(u64_to_be_bytes(1 << 56), [1, 0, 0, 0, 0, 0, 0, 0]);
}

#[test]
fn u32_is_read_most_significant_byte_first() {
    assert_eq!(u32_from_be_bytes([1, 2, 3, 4]), 0x0102_0304);
    assert_eq!(u32_from_be_bytes([0, 0, 0, 0]), 0);
    assert_eq!(u32_from_be_bytes([255, 255, 255, 255]), u32::MAX);
    assert_eq!(u32_from_be_bytes([0, 0, 1, 0]), 256);
}

#[test]
fn u64_is_read_most_significant_byte_first() {
    assert_eq!(u64_from_be_bytes([1, 2, 3, 4, 5, 6, 7, 8]), 0x0102_0304_0506_0708);
    assert_eq!(u64_from_be_bytes([255; 8]), u64::MAX);
    assert_eq!(u64_from_be_bytes([0, 0, 0, 0, 0, 0, 1, 0]), 256);
}

#[test]
fn words_agree_with_the_standard_library() {
    let samples: [u64; 7] = [
        0,
        1,
        0xff,
        0x1234_5678,
        0xdead_beef_cafe_f00d,
        0x8000_0000_0000_0000,
        u64::MAX,
    ];
    for x in samples {
        assert_eq!(u64_to_be_bytes(x), x.to_be_bytes());
        assert_eq!(u64_from_be_bytes(x.to_be_bytes()), x);
        let y = (x >> 17) as u32;
        assert_eq!(u32_to_be_bytes(y), y.to_be_bytes());
        assert_eq!(u32_from_be_bytes(y.to_be_bytes()), y);
    }
}

#[test]
fn distinct_words_have_distinct_encodings() {
    assert_ne!(u32_to_be_bytes(1), u32_to_be_bytes(256));
    assert_ne!(u32_to_be_bytes(0x0100_0000), u32_to_be_bytes(1));
    assert_ne!(u64_to_be_bytes(1), u64_to_be_bytes(1 << 32));
}
