use jp_mesh::code11::{
    code_array_to_code_number, code_number_to_code_array, encode, raw_array_to_code_array,
    raw_array_to_large_number, short_number_to_raw_array, truncate, truncate_and_encode, Code11,
};
use jp_mesh::error::CodeError;

#[test]
fn code11_test_short_number_to_raw_array() {
    assert_eq!(
        short_number_to_raw_array(678954),
        Ok([6, 7, 8, 9, 5, 4, 0, 0, 0, 0, 0])
    );
    assert_eq!(
        short_number_to_raw_array(67895432124),
        Ok([6, 7, 8, 9, 5, 4, 3, 2, 1, 2, 4])
    );
}

#[test]
fn code11_test_raw_array_to_large_number() {
    assert_eq!(
        raw_array_to_large_number([6, 7, 8, 9, 5, 4, 0, 0, 0, 0, 0]),
        67895400000
    );
    assert_eq!(
        raw_array_to_large_number([6, 7, 8, 9, 5, 4, 3, 2, 1, 2, 4]),
        67895432124
    );
}

#[test]
fn code11_test_raw_array_to_code_array() {
    assert_eq!(
        raw_array_to_code_array::<3>([6, 7, 8, 9, 5, 4, 0, 0, 0, 0, 0]),
        [6, 7, 8, 9, 5, 4, 0, 0, 1, 1, 1]
    );
    assert_eq!(
        raw_array_to_code_array::<3>([6, 7, 8, 9, 5, 4, 3, 2, 1, 2, 4]),
        [6, 7, 8, 9, 5, 4, 3, 2, 1, 2, 4]
    );
}

#[test]
fn code11_test_code_array_to_code_number() {
    assert_eq!(
        code_array_to_code_number([6, 7, 8, 9, 5, 4, 0, 0, 1, 1, 1]),
        67895400111
    );
    assert_eq!(
        code_array_to_code_number([6, 7, 8, 9, 5, 4, 3, 2, 1, 2, 4]),
        67895432124
    );
}

#[test]
fn code11_test_encode() {
    assert_eq!(encode::<3>(678954), Ok(67895400111));
    assert_eq!(encode::<3>(67895432100), Ok(67895432111));
    assert_eq!(encode::<3>(67895432124), Ok(67895432124));
}

#[test]
fn code11_test_truncate() {
    assert_eq!(truncate(67895432124, 4), 6789);
    assert_eq!(truncate(67895432124, 10), 6789543212);
}

#[test]
fn code11_test_truncate_and_encode() {
    assert_eq!(truncate_and_encode::<3>(67895432124, 4), Ok(67890000111));
    assert_eq!(truncate_and_encode::<3>(67895432124, 10), Ok(67895432121));
}

#[test]
fn code11_fill_count_is_respected() {
    assert_eq!(
        raw_array_to_code_array::<0>([6, 7, 8, 9, 5, 4, 0, 0, 0, 0, 0]),
        [6, 7, 8, 9, 5, 4, 0, 0, 0, 0, 0]
    );
    assert_eq!(
        raw_array_to_code_array::<1>([6, 7, 8, 9, 5, 4, 0, 0, 0, 0, 0]),
        [6, 7, 8, 9, 5, 4, 0, 0, 0, 0, 1]
    );
    assert_eq!(
        raw_array_to_code_array::<11>([0, 7, 0, 9, 5, 4, 0, 0, 0, 0, 0]),
        [1, 7, 1, 9, 5, 4, 1, 1, 1, 1, 1]
    );
    assert_eq!(encode::<5>(678954), Ok(67895411111));
}

#[test]
fn code11_fill_is_idempotent() {
    let once = raw_array_to_code_array::<3>([6, 7, 8, 9, 5, 4, 0, 0, 0, 2, 0]);
    assert_eq!(once, [6, 7, 8, 9, 5, 4, 0, 0, 1, 2, 1]);
    assert_eq!(raw_array_to_code_array::<3>(once), once);
}

#[test]
fn code11_code_number_to_code_array_keeps_leading_zeros() {
    assert_eq!(
        code_number_to_code_array(67895400000),
        [6, 7, 8, 9, 5, 4, 0, 0, 0, 0, 0]
    );
    assert_eq!(code_number_to_code_array(111), [0, 0, 0, 0, 0, 0, 0, 0, 1, 1, 1]);
}

#[test]
fn code11_zero_is_spelled_as_zeros() {
    assert_eq!(
        short_number_to_raw_array(0),
        Ok([0, 0, 0, 0, 0, 0, 0, 0, 0, 0, 0])
    );
    assert_eq!(
        raw_array_to_large_number(short_number_to_raw_array(0).unwrap()),
        0
    );
    assert_eq!(encode::<3>(0), Ok(111));
    assert_eq!(encode::<0>(0), Ok(0));
    assert_eq!(encode::<11>(0), Ok(11_111_111_111));
    assert_eq!(truncate_and_encode::<3>(99, 0), Ok(111));
    assert_eq!(truncate_and_encode::<3>(0, 11), Ok(111));
}

#[test]
fn code11_rejects_long_numbers() {
    assert_eq!(
        short_number_to_raw_array(100_000_000_000),
        Err(CodeError::TooLong)
    );
    assert_eq!(encode::<3>(123_456_789_012), Err(CodeError::TooLong));
    assert_eq!(
        truncate_and_encode::<3>(1_234_567_890_123, 11),
        Err(CodeError::TooLong)
    );
    assert_eq!(
        short_number_to_raw_array(99_999_999_999),
        Ok([9, 9, 9, 9, 9, 9, 9, 9, 9, 9, 9])
    );
}

#[test]
fn code11_struct_round_trip() {
    let code = Code11::<3>::new([6, 4, 4, 1, 4, 2, 7, 7, 3, 0, 0], 9);
    assert_eq!(code.to_array(), [6, 4, 4, 1, 4, 2, 7, 7, 3, 1, 1]);
    assert_eq!(code.to_number(9), 644142773);
    assert_eq!(code.to_number(8), 64414277);
    assert_eq!(code.to_number(11), 64414277311);

    let parsed = Code11::<3>::from_number(64414277, 8).unwrap();
    assert_eq!(parsed.to_array(), [6, 4, 4, 1, 4, 2, 7, 7, 1, 1, 1]);
    assert_eq!(parsed.to_number(8), 64414277);
    assert_eq!(Code11::<3>::from_number(644142773, 8), Ok(parsed));
    let zero = Code11::<3>::from_number(0, 8).unwrap();
    assert_eq!(zero.to_array(), [0, 0, 0, 0, 0, 0, 0, 0, 1, 1, 1]);
    assert_eq!(zero.to_number(8), 0);
    assert_eq!(Code11::<3>::new([0, 0, 0, 0, 5, 0, 0, 0, 0, 0, 0], 4), zero);
    assert_eq!(
        Code11::<3>::from_number(644_142_773_111_0, 8),
        Err(CodeError::TooLong)
    );
}
