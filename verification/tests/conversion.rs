use atoi::{
    atoi, bytes_to_vector, bytes_to_vectors, checked_pow, create_times_table, lanes_add,
    lanes_mul, lanes_sum, lanes_xor, splat, try_atoi, AtoiError, CTOI_TABLE, LANE_WIDTH,
    MAX_BLOCKS, MAX_DIGITS, TIMES_TABLE, ZERO_CODE,
};

#[test]
fn test_create_times_table() {
    assert_eq!(
        create_times_table::<8>(),
        [1000_0000, 100_0000, 10_0000, 1_0000, 1000, 100, 10, 1]
    );
}

#[test]
fn test_bytes_to_vector() {
    // ASCII('0') = 48
    assert_eq!(bytes_to_vector(b"123"), [48, 48, 48, 48, 48, 49, 50, 51]);
}

#[test]
fn test_bytes_to_vectors() {
    let td = {
        let mut td = [['0' as u32; LANE_WIDTH]; MAX_DIGITS / LANE_WIDTH];

        td[6] = [48, 48, 48, 48, 48, 48, 48, 49];
        td[7] = [50, 51, 52, 53, 54, 55, 56, 57];

        td
    };

    assert_eq!(bytes_to_vectors(b"123456789"), td);
}

#[test]
fn test_atoi() {
    assert_eq!(atoi("123456789"), 123456789);
    assert_eq!(atoi("567"), 567);
    assert_eq!(atoi("114514"), 114514);
    assert_eq!(atoi("100002"), 100002);
    assert_eq!(atoi("000004"), 4);
}

#[test]
fn test_times_table() {
    let t = [1, 2, 3, 4, 5, 6, 7, 8];
    assert_eq!(
        lanes_mul(&t, &TIMES_TABLE),
        [10000000, 2000000, 300000, 40000, 5000, 600, 70, 8]
    );

    let t = [0, 0, 0, 0, 0, 1, 2, 3];
    assert_eq!(lanes_mul(&t, &TIMES_TABLE), [0, 0, 0, 0, 0, 100, 20, 3]);
}

#[test]
fn test_ctoi_table() {
    let t = [b'0', b'1', b'2', b'3', b'4', b'5', b'6', b'7'].map(u32::from);
    assert_eq!(lanes_xor(&t, &CTOI_TABLE), [0, 1, 2, 3, 4, 5, 6, 7]);

    let t = [b'0', b'0', b'0', b'0', b'0', b'1', b'2', b'3'].map(u32::from);
    assert_eq!(lanes_xor(&t, &CTOI_TABLE), [0, 0, 0, 0, 0, 1, 2, 3]);
}

#[test]
fn constants_agree() {
    assert_eq!(LANE_WIDTH, 8);
    assert_eq!(MAX_DIGITS, 64);
    assert_eq!(MAX_BLOCKS, 8);
    assert_eq!(MAX_BLOCKS * LANE_WIDTH, MAX_DIGITS);
    assert_eq!(ZERO_CODE, u32::from(b'0'));
    assert_eq!(CTOI_TABLE, [ZERO_CODE; LANE_WIDTH]);
    assert_eq!(TIMES_TABLE, create_times_table::<8>());
}

#[test]
fn times_table_of_other_widths() {
    assert_eq!(create_times_table::<0>(), [0u32; 0]);
    assert_eq!(create_times_table::<1>(), [1]);
    assert_eq!(create_times_table::<3>(), [100, 10, 1]);
    assert_eq!(
        create_times_table::<10>(),
        [1000000000, 100000000, 10000000, 1000000, 100000, 10000, 1000, 100, 10, 1]
    );
}

#[test]
fn checked_pow_small_cases() {
    assert_eq!(checked_pow(10, 0), Some(1));
    assert_eq!(checked_pow(10, 1), Some(10));
    assert_eq!(checked_pow(10, 8), Some(100000000));
    assert_eq!(checked_pow(10, 9), Some(1000000000));
    assert_eq!(checked_pow(0, 0), Some(1));
    assert_eq!(checked_pow(0, 5), Some(0));
    assert_eq!(checked_pow(1, 1000), Some(1));
    assert_eq!(checked_pow(2, 31), Some(2147483648));
    assert_eq!(checked_pow(65535, 2), Some(4294836225));
    assert_eq!(checked_pow(7, 3), Some(343));
}

#[test]
fn checked_pow_reports_overflow() {
    assert_eq!(checked_pow(10, 10), None);
    assert_eq!(checked_pow(10, 16), None);
    assert_eq!(checked_pow(10, 56), None);
    assert_eq!(checked_pow(2, 32), None);
    assert_eq!(checked_pow(65536, 2), None);
    assert_eq!(checked_pow(u32::MAX, 2), None);
}

#[test]
fn checked_pow_matches_the_standard_one() {
    for base in [0u32, 1, 2, 3, 10, 16, 255, 65535, 65536, u32::MAX] {
        for exp in 0u32..70 {
            assert_eq!(checked_pow(base, exp), base.checked_pow(exp));
        }
    }
}

#[test]
fn splat_fills_every_lane() {
    assert_eq!(splat(0), [0; 8]);
    assert_eq!(splat(7), [7, 7, 7, 7, 7, 7, 7, 7]);
    assert_eq!(splat(u32::MAX), [u32::MAX; 8]);
}

#[test]
fn lanes_xor_is_lane_wise() {
    let a = [0, 1, 0xff, 0x30, 0x39, u32::MAX, 0x1234, 0x61];
    let b = [0, 1, 0x0f, 0x30, 0x30, 1, 0x4321, 0x30];
    assert_eq!(
        lanes_xor(&a, &b),
        [0, 0, 0xf0, 0, 9, u32::MAX - 1, 0x5115, 0x51]
    );
}

#[test]
fn lanes_mul_wraps() {
    let a = [0, 1, 65536, 65536, u32::MAX, 3, 100000, 42];
    let b = [5, u32::MAX, 65535, 65536, u32::MAX, 1431655766, 100000, 100000000];
    assert_eq!(
        lanes_mul(&a, &b),
        [0, u32::MAX, 4294901760, 0, 1, 2, 1410065408, 4200000000]
    );
}

#[test]
fn lanes_add_wraps() {
    let a = [0, 1, u32::MAX, u32::MAX, 2147483648, 7, 4000000000, 10];
    let b = [0, 2, 1, u32::MAX, 2147483648, 0, 4000000000, 20];
    assert_eq!(
        lanes_add(&a, &b),
        [0, 3, 0, u32::MAX - 1, 0, 7, 3705032704, 30]
    );
}

#[test]
fn lanes_sum_adds_all_lanes() {
    assert_eq!(lanes_sum(&[0; 8]), 0);
    assert_eq!(lanes_sum(&[1, 2, 3, 4, 5, 6, 7, 8]), 36);
    assert_eq!(lanes_sum(&[10000000, 2000000, 300000, 40000, 5000, 600, 70, 8]), 12345678);
}

#[test]
fn lanes_sum_wraps() {
    assert_eq!(lanes_sum(&[u32::MAX, 1, 0, 0, 0, 0, 0, 0]), 0);
    assert_eq!(lanes_sum(&[u32::MAX; 8]), u32::MAX - 7);
    assert_eq!(lanes_sum(&[2147483648, 0, 0, 2147483648, 0, 0, 0, 5]), 5);
}

#[test]
fn vector_of_no_bytes_is_all_padding() {
    assert_eq!(bytes_to_vector(b""), [48; 8]);
}

#[test]
fn vector_of_one_byte() {
    assert_eq!(bytes_to_vector(b"7"), [48, 48, 48, 48, 48, 48, 48, 55]);
}

#[test]
fn vector_of_a_full_chunk() {
    assert_eq!(
        bytes_to_vector(b"12345678"),
        [49, 50, 51, 52, 53, 54, 55, 56]
    );
}

#[test]
fn vector_keeps_bytes_that_are_no_digits() {
    assert_eq!(
        bytes_to_vector(&[0, 255, b'a', b' ']),
        [48, 48, 48, 48, 0, 255, 97, 32]
    );
}

#[test]
fn grid_of_no_bytes_is_all_padding() {
    assert_eq!(bytes_to_vectors(b""), [[48; 8]; 8]);
}

#[test]
fn grid_of_one_full_chunk() {
    let mut expected = [[48u32; 8]; 8];
    expected[7] = [49, 50, 51, 52, 53, 54, 55, 56];
    assert_eq!(bytes_to_vectors(b"12345678"), expected);
}

#[test]
fn grid_of_nine_bytes_puts_the_first_alone() {
    let grid = bytes_to_vectors(b"987654321");
    for block in grid.iter().take(6) {
        assert_eq!(*block, [48; 8]);
    }
    assert_eq!(grid[6], [48, 48, 48, 48, 48, 48, 48, 57]);
    assert_eq!(grid[7], [56, 55, 54, 53, 52, 51, 50, 49]);
}

#[test]
fn grid_of_a_full_input() {
    let input: Vec<u8> = (0..64).map(|i| b'0' + (i % 10) as u8).collect();
    let grid = bytes_to_vectors(&input);
    for b in 0..8 {
        for j in 0..8 {
            assert_eq!(grid[b][j], u32::from(input[8 * b + j]));
        }
    }
}

#[test]
fn grid_read_row_by_row_is_the_padded_input() {
    let input = b"31415926535897932384626";
    let grid = bytes_to_vectors(input);
    let pad = MAX_DIGITS - input.len();
    for b in 0..MAX_BLOCKS {
        for j in 0..LANE_WIDTH {
            let at = b * LANE_WIDTH + j;
            let expected = if at < pad { 48 } else { u32::from(input[at - pad]) };
            assert_eq!(grid[b][j], expected);
        }
    }
}

#[test]
fn grid_blocks_are_vectors_of_the_chunks() {
    let input = b"1234567890123";
    let grid = bytes_to_vectors(input);
    assert_eq!(grid[7], bytes_to_vector(&input[5..]));
    assert_eq!(grid[6], bytes_to_vector(&input[..5]));
    assert_eq!(grid[5], bytes_to_vector(b""));
}

#[test]
fn atoi_of_the_empty_string_is_zero() {
    assert_eq!(atoi(""), 0);
}

#[test]
fn atoi_of_single_digits() {
    assert_eq!(atoi("0"), 0);
    assert_eq!(atoi("1"), 1);
    assert_eq!(atoi("9"), 9);
}

#[test]
fn atoi_of_sample_strings() {
    assert_eq!(atoi("12345"), 12345);
    assert_eq!(atoi("29291948"), 29291948);
    assert_eq!(atoi("292389411"), 292389411);
}

#[test]
fn atoi_reads_the_largest_value() {
    assert_eq!(atoi("4294967295"), u32::MAX);
    assert_eq!(atoi("4294967294"), u32::MAX - 1);
    assert_eq!(atoi("4000000000"), 4000000000);
}

#[test]
fn atoi_agrees_with_parse_where_the_value_fits() {
    let samples = [
        "0", "7", "10", "99", "100", "12345678", "99999999", "100000000", "100000001",
        "999999999", "1000000000", "2147483647", "2147483648", "4294967295",
    ];
    for s in samples {
        assert_eq!(atoi(s), s.parse::<u32>().unwrap());
    }
}

#[test]
fn atoi_ignores_leading_zeros() {
    assert_eq!(atoi("4"), 4);
    assert_eq!(atoi("000004"), atoi("4"));
    assert_eq!(atoi("0000000000123456789"), 123456789);
    assert_eq!(
        atoi("0000000000000000000000000000000000000000000000000000000123456789"),
        123456789
    );
    assert_eq!(
        atoi("0000000000000000000000000000000000000000000000000000000000000000"),
        0
    );
}

#[test]
fn atoi_ignores_leading_zeros_in_front_of_anything() {
    assert_eq!(atoi("0001:"), atoi("1:"));
    assert_eq!(atoi("00012345678901234567890"), atoi("12345678901234567890"));
}

#[test]
fn atoi_gives_the_same_result_every_time() {
    let input = String::from("123456789");
    let first = atoi(&input);
    let second = atoi(&input);
    assert_eq!(first, second);
    assert_eq!(input, "123456789");
    assert_eq!(atoi("123456789"), first);
}

#[test]
fn atoi_wraps_past_the_largest_value() {
    assert_eq!(atoi("4294967296"), 0);
    assert_eq!(atoi("4294967297"), 1);
    assert_eq!(atoi("9999999999"), 1410065407);
    assert_eq!(atoi("9999999999999999"), 1874919423);
}

#[test]
fn atoi_drops_blocks_whose_scale_does_not_fit() {
    assert_eq!(atoi("10000000000000000"), 0);
    assert_eq!(atoi("10000000000000042"), 42);
    assert_eq!(atoi("12345678901234567890"), 986516178);
    assert_eq!(
        atoi("9999999999999999999999999999999999999999999999999999999999999999"),
        1874919423
    );
    assert_eq!(
        atoi("1111111111111111111111111111111111111111111111111111111111111111"),
        3071635911
    );
}

#[test]
fn atoi_decodes_bytes_that_are_no_digits() {
    assert_eq!(atoi("a"), 81);
    assert_eq!(atoi(":"), 10);
    assert_eq!(atoi("1:"), 20);
    assert_eq!(atoi("-1"), 291);
    assert_eq!(atoi(" 42"), 1642);
}

#[test]
fn try_atoi_converts_what_fits_the_grid() {
    assert_eq!(try_atoi(""), Ok(0));
    assert_eq!(try_atoi("123456789"), Ok(123456789));
    assert_eq!(try_atoi("000004"), Ok(4));
    assert_eq!(try_atoi("4294967296"), Ok(0));
    assert_eq!(try_atoi("1:"), Ok(20));
    for s in ["0", "567", "114514", "100002", "4294967295", "12345678901234567890"] {
        assert_eq!(try_atoi(s), Ok(atoi(s)));
    }
}

#[test]
fn try_atoi_takes_input_of_the_greatest_length() {
    let longest = "0".repeat(MAX_DIGITS - 2) + "42";
    assert_eq!(longest.len(), 64);
    assert_eq!(try_atoi(&longest), Ok(42));
}

#[test]
fn try_atoi_refuses_input_that_is_too_long() {
    let too_long = "0".repeat(MAX_DIGITS - 1) + "42";
    assert_eq!(too_long.len(), 65);
    assert_eq!(try_atoi(&too_long), Err(AtoiError::InputTooLong));
    assert_eq!(try_atoi(&"9".repeat(1000)), Err(AtoiError::InputTooLong));
}

#[test]
fn try_atoi_counts_bytes_not_characters() {
    // Thirty-three two-byte characters are 66 bytes.
    let wide = "\u{e9}".repeat(33);
    assert_eq!(wide.chars().count(), 33);
    assert_eq!(try_atoi(&wide), Err(AtoiError::InputTooLong));
    // 0xc3 ^ 0x30 = 0xf3 = 243 and 0xa9 ^ 0x30 = 0x99 = 153.
    assert_eq!(try_atoi("\u{e9}"), Ok(243 * 10 + 153));
}
