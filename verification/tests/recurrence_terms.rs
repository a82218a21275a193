use zk_journal::recurrence::fibonacci;
use zk_journal::recurrence::recurrence_u32;
use zk_journal::recurrence::recurrence_u64;

#[test]
fn ten_steps_from_zero_one_give_89() {
    assert_eq!(recurrence_u32(0, 1, 10), 89);
    assert_eq!(recurrence_u64(0, 1, 10), 89);
}

#[test]
fn zero_steps_give_the_second_seed() {
    assert_eq!(recurrence_u32(7, 11, 0), 11);
    assert_eq!(recurrence_u64(7, 11, 0), 11);
}

#[test]
fn steps_follow_the_recurrence() {
    // 2, 5, 7, 12, 19, 31
    assert_eq!(recurrence_u32(2, 5, 1), 7);
    assert_eq!(recurrence_u32(2, 5, 2), 12);
    assert_eq!(recurrence_u32(2, 5, 3), 19);
    assert_eq!(recurrence_u64(2, 5, 4), 31);
}

#[test]
fn seeds_one_one_give_144_after_ten_steps() {
    assert_eq!(recurrence_u32(1, 1, 10), 144);
}

#[test]
fn overflow_wraps_in_32_bits() {
    assert_eq!(recurrence_u32(u32::MAX, 1, 1), 0);
    assert_eq!(recurrence_u32(u32::MAX, u32::MAX, 1), u32::MAX - 1);
    // The 48th Fibonacci number is 4807526976, which is 512559680 modulo 2^32.
    assert_eq!(recurrence_u32(0, 1, 47), 512_559_680);
    assert_eq!(recurrence_u32(0, 1, 46), 2_971_215_073);
}

#[test]
fn overflow_wraps_in_64_bits() {
    assert_eq!(recurrence_u64(u64::MAX, 1, 1), 0);
    assert_eq!(recurrence_u64(1, 1, 1000), 9_897_335_391_534_825_784);
}

#[test]
fn fibonacci_of_small_indices() {
    let expected: [u64; 13] = [0, 1, 1, 2, 3, 5, 8, 13, 21, 34, 55, 89, 144];
    for (n, value) in expected.iter().enumerate() {
        assert_eq!(fibonacci(n as u32), *value);
    }
}

#[test]
fn fibonacci_of_every_tenth_index() {
    let expected: [u64; 10] = [
        0,
        55,
        6765,
        832_040,
        102_334_155,
        12_586_269_025,
        1_548_008_755_920,
        190_392_490_709_135,
        23_416_728_348_467_685,
        2_880_067_194_370_816_120,
    ];
    for (i, value) in expected.iter().enumerate() {
        assert_eq!(fibonacci(10 * i as u32), *value);
    }
}

#[test]
fn fibonacci_is_exact_up_to_93_and_wraps_after() {
    assert_eq!(fibonacci(93), 12_200_160_415_121_876_738);
    assert_eq!(fibonacci(94), 1_293_530_146_158_671_551);
    assert_eq!(fibonacci(1000), 817_770_325_994_397_771);
}

#[test]
fn fibonacci_is_the_recurrence_seeded_with_one_zero() {
    for n in [0u32, 1, 2, 17, 90, 93, 94, 500] {
        assert_eq!(fibonacci(n), recurrence_u64(1, 0, n));
    }
}
