use vai::fpfiles::{fingerprint_file_name, fingerprint_name_of, hash_32, hex_of, names_fingerprint, NameError};
use vai::patterns::{is_word, parse_point, parse_range, point_of, range_of, PointError, RangeError};

#[test]
fn range_of_reads_both_ends() {
    assert_eq!(range_of("0..5"), Ok((0, 5)));
    assert_eq!(range_of("..5"), Ok((0, 5)));
    assert_eq!(range_of("3.."), Ok((3, usize::MAX)));
    assert_eq!(range_of(".."), Ok((0, usize::MAX)));
}

#[test]
fn range_of_refuses_bad_ranges() {
    assert_eq!(range_of("5..3"), Err(RangeError::NotIncreasing));
    assert_eq!(range_of("5..5"), Err(RangeError::NotIncreasing));
    assert_eq!(range_of("abc"), Err(RangeError::NoMatch));
    assert_eq!(range_of("99999999999999999999999..5"), Err(RangeError::BadFrom));
    assert_eq!(range_of("0..99999999999999999999999"), Err(RangeError::BadTo));
}

#[test]
fn parse_range_reads_given_groups() {
    let caps = Some(vec![Some("2..9".to_string()), Some("2".to_string()), Some("9".to_string())]);
    assert_eq!(parse_range(caps), Ok((2, 9)));
    let caps = Some(vec![Some("..9".to_string()), None, Some("9".to_string())]);
    assert_eq!(parse_range(caps), Ok((0, 9)));
    assert_eq!(parse_range(None), Err(RangeError::NoMatch));
}

#[test]
fn point_of_reads_signed_pairs() {
    assert_eq!(point_of("10,-20"), Ok((10, -20)));
    assert_eq!(point_of("-2147483648,2147483647"), Ok((i32::MIN, i32::MAX)));
    assert_eq!(point_of("1,2,3"), Err(PointError::NoMatch));
    assert_eq!(point_of("3000000000,1"), Err(PointError::BadX));
    assert_eq!(point_of("1,3000000000"), Err(PointError::BadY));
    assert_eq!(parse_point(None), Err(PointError::NoMatch));
}

#[test]
fn is_word_accepts_lower_case_words() {
    assert!(is_word("hello"));
    assert!(is_word("blå-bær"));
    assert!(is_word("café"));
    assert!(!is_word("Hello"));
    assert!(!is_word("a-b-c"));
    assert!(!is_word(""));
}

#[test]
fn hash_32_is_the_hex_murmur3() {
    let expected = format!("{:x}", murmur3::murmur3_32(&mut "hello".as_bytes(), 0));
    assert_eq!(hash_32("hello"), expected);
    assert_ne!(hash_32("hello"), "hello");
    assert_eq!(hash_32(""), "0");
}

#[test]
fn fingerprint_file_name_writes_all_parts() {
    assert_eq!(fingerprint_file_name("a", 1, -2, 20, 20, "ff"), "fp_a_x1_y-2_w20_h20_mc0_ff.txt");
}

#[test]
fn names_fingerprint_matches_by_hash() {
    assert!(names_fingerprint("fp_a_x1_y2_w20_h20_mc0_ff.txt", "ff"));
    assert!(names_fingerprint("fp_b_x1_y2_w20_h20_mc7_ff.txt", "ff"));
    assert!(!names_fingerprint("fp_a_x1_y2_w20_h20_mc0_fe.txt", "ff"));
    assert!(!names_fingerprint("xx_ff.txt", "ff"));
}

#[test]
fn fingerprint_name_of_reads_a_stored_name() {
    let n = fingerprint_name_of("fp_a_x1_y-2_w20_h20_mc7_ff.txt").unwrap().unwrap();
    assert_eq!(n.mask, "fp_a_x1_y-2_w20_h20_mc{mc}_ff.txt");
    assert_eq!((n.x, n.y, n.match_count), (1, -2, 7));
    assert!(fingerprint_name_of("readme.txt").is_none());
}

#[test]
fn fingerprint_name_of_refuses_bad_numbers() {
    assert_eq!(
        fingerprint_name_of("fp_a_x1_y2_w20_h20_mc99999999999_ff.txt").unwrap().err(),
        Some(NameError::BadCount)
    );
    assert_eq!(
        fingerprint_name_of("fp_a_x99999999999_y2_w20_h20_mc1_ff.txt").unwrap().err(),
        Some(NameError::BadX)
    );
    assert_eq!(
        fingerprint_name_of("fp_a_x1_y99999999999_w20_h20_mc1_ff.txt").unwrap().err(),
        Some(NameError::BadY)
    );
}

#[test]
fn hex_of_writes_lower_case_hexadecimal() {
    assert_eq!(hex_of(0), "0");
    assert_eq!(hex_of(255), "ff");
    assert_eq!(hex_of(0x248b_fa47), "248bfa47");
    assert_eq!(hex_of(u32::MAX), "ffffffff");
}
