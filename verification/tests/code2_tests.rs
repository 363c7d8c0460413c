use jp_mesh::code2::{
    format_number, formatted_slice_to_formatted_number, number_to_raw_slice,
    raw_slice_to_formatted_slice, raw_slice_to_number, truncate_and_format_number,
    truncate_number, Code2,
};
use jp_mesh::error::CodeError;

#[test]
fn test_number_to_raw_slice() {
    assert_eq!(
        number_to_raw_slice(678954),
        Ok([6, 7, 8, 9, 5, 4, 0, 0, 0, 0, 0])
    );
    assert_eq!(
        number_to_raw_slice(67895432124),
        Ok([6, 7, 8, 9, 5, 4, 3, 2, 1, 2, 4])
    );
}

#[test]
fn test_raw_slice_to_number() {
    assert_eq!(
        raw_slice_to_number([6, 7, 8, 9, 5, 4, 0, 0, 0, 0, 0]),
        67895400000
    );
    assert_eq!(
        raw_slice_to_number([6, 7, 8, 9, 5, 4, 3, 2, 1, 2, 4]),
        67895432124
    );
}

#[test]
fn test_raw_slice_to_formatted_slice() {
    assert_eq!(
        raw_slice_to_formatted_slice([6, 7, 8, 9, 5, 4, 0, 0, 0, 0, 0]),
        [6, 7, 8, 9, 5, 4, 0, 0, 1, 1, 1]
    );
    assert_eq!(
        raw_slice_to_formatted_slice([6, 7, 8, 9, 5, 4, 3, 2, 1, 2, 4]),
        [6, 7, 8, 9, 5, 4, 3, 2, 1, 2, 4]
    );
}

#[test]
fn test_formatted_slice_to_formatted_number() {
    assert_eq!(
        formatted_slice_to_formatted_number([6, 7, 8, 9, 5, 4, 0, 0, 1, 1, 1]),
        67895400111
    );
    assert_eq!(
        formatted_slice_to_formatted_number([6, 7, 8, 9, 5, 4, 3, 2, 1, 2, 4]),
        67895432124
    );
}

#[test]
fn test_format_number() {
    assert_eq!(format_number(678954), Ok(67895400111));
    assert_eq!(format_number(67895432100), Ok(67895432111));
    assert_eq!(format_number(67895432124), Ok(67895432124));
}

#[test]
fn test_truncate_number() {
    assert_eq!(truncate_number(67895432124, 4), 6789);
    assert_eq!(truncate_number(67895432124, 10), 6789543212);
}

#[test]
fn test_truncate_and_format_number() {
    assert_eq!(truncate_and_format_number(67895432124, 4), Ok(67890000111));
    assert_eq!(truncate_and_format_number(67895432124, 10), Ok(67895432121));
}

#[test]
fn code2_format_is_idempotent() {
    let once = raw_slice_to_formatted_slice([5, 3, 3, 9, 4, 6, 1, 1, 0, 3, 0]);
    assert_eq!(once, [5, 3, 3, 9, 4, 6, 1, 1, 1, 3, 1]);
    assert_eq!(raw_slice_to_formatted_slice(once), once);
    assert_eq!(format_number(53394611131), Ok(53394611131));
}

#[test]
fn code2_zero_is_spelled_as_zeros() {
    assert_eq!(
        number_to_raw_slice(0),
        Ok([0, 0, 0, 0, 0, 0, 0, 0, 0, 0, 0])
    );
    assert_eq!(raw_slice_to_number(number_to_raw_slice(0).unwrap()), 0);
    assert_eq!(format_number(0), Ok(111));
    assert_eq!(truncate_and_format_number(5, 4), Ok(111));
    assert_eq!(truncate_and_format_number(0, 11), Ok(111));
}

#[test]
fn code2_rejects_long_numbers() {
    assert_eq!(number_to_raw_slice(100_000_000_000), Err(CodeError::TooLong));
    assert_eq!(format_number(100_000_000_000), Err(CodeError::TooLong));
    assert_eq!(
        truncate_and_format_number(u64::MAX, 11),
        Err(CodeError::TooLong)
    );
}

#[test]
fn code2_struct_round_trip() {
    let code = Code2::new([5, 3, 3, 9, 4, 6, 1, 1, 2, 4, 3], 8);
    assert_eq!(code.to_slice(), [5, 3, 3, 9, 4, 6, 1, 1, 1, 1, 1]);
    assert_eq!(code.to_number(8), 53394611);
    assert_eq!(code.to_number(4), 5339);

    let parsed = Code2::from_number(5339, 4).unwrap();
    assert_eq!(parsed.to_slice(), [5, 3, 3, 9, 0, 0, 0, 0, 1, 1, 1]);
    assert_eq!(parsed.to_number(4), 5339);
    assert_eq!(Code2::from_number(53394611, 4), Ok(parsed));
    let zero = Code2::from_number(0, 4).unwrap();
    assert_eq!(zero.to_slice(), [0, 0, 0, 0, 0, 0, 0, 0, 1, 1, 1]);
    assert_eq!(zero.to_number(4), 0);
    assert_eq!(Code2::new([0, 0, 0, 0, 7, 7, 0, 0, 0, 0, 0], 4), zero);
    assert_eq!(
        Code2::from_number(533_946_111_111, 4),
        Err(CodeError::TooLong)
    );
}
