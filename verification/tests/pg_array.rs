use ttsmagic::utils::sqlx::{DecodeError, ElementError, PgArray1D};

#[test]
fn test_pgarray1d_string() {
    let raw_bytes = &[
        0, 0, 0, 1, 0, 0, 0, 0, 0, 0, 0, 25, 0, 0, 0, 2, 0, 0, 0, 1, 0, 0, 0, 1, 85, 0, 0, 0, 1,
        87,
    ];
    let decoded: Vec<String> = PgArray1D::<String>::decode(raw_bytes).unwrap().get();
    assert_eq!(decoded.len(), 2);
    assert_eq!(decoded[0].as_str(), "U");
    assert_eq!(decoded[1].as_str(), "W");
}

#[test]
fn test_pgarray1d_string_empty() {
    let raw_bytes = &[0, 0, 0, 0, 0, 0, 0, 0, 0, 0, 0, 25];
    let decoded: Vec<String> = PgArray1D::<String>::decode(raw_bytes).unwrap().get();
    assert_eq!(decoded.len(), 0);
}

#[test]
fn test_pgarray1d_i32() {
    let raw_bytes = &[
        0, 0, 0, 1, 0, 0, 0, 0, 0, 0, 0, 23, 0, 0, 0, 4, 0, 0, 0, 1, 0, 0, 0, 4, 0, 0, 0, 1, 0, 0,
        0, 4, 0, 0, 0, 2, 0, 0, 0, 4, 0, 0, 0, 3, 0, 0, 0, 4, 0, 0, 0, 4,
    ];
    let decoded: Vec<i32> = PgArray1D::<i32>::decode(raw_bytes).unwrap().get();
    assert_eq!(decoded.len(), 4);
    assert_eq!(decoded[0], 1);
    assert_eq!(decoded[1], 2);
    assert_eq!(decoded[2], 3);
    assert_eq!(decoded[3], 4);
}

#[test]
fn test_pgarray1d_i32_nulls() {
    let raw_bytes = &[
        0, 0, 0, 1, 0, 0, 0, 1, 0, 0, 0, 23, 0, 0, 0, 4, 0, 0, 0, 1, 0, 0, 0, 4, 0, 0, 0, 1, 255,
        255, 255, 255, 0, 0, 0, 4, 0, 0, 0, 3, 0, 0, 0, 4, 0, 0, 0, 4,
    ];
    let decoded: Vec<Option<i32>> = PgArray1D::<Option<i32>>::decode(raw_bytes).unwrap().get();
    assert_eq!(decoded.len(), 4);
    assert_eq!(decoded[0], Some(1));
    assert_eq!(decoded[1], None);
    assert_eq!(decoded[2], Some(3));
    assert_eq!(decoded[3], Some(4));
}

fn error_of(raw: &[u8]) -> DecodeError {
    assert!(PgArray1D::<i32>::fits(raw));
    assert_eq!(PgArray1D::<i32>::decode(raw).unwrap().get().len(), 0);
    PgArray1D::<i32>::decode_bytes(raw).unwrap_err()
}

#[test]
fn malformed_arrays_are_refused_and_count_as_empty() {
    assert_eq!(error_of(&[0, 0, 0]), DecodeError::TooShort);
    assert_eq!(
        error_of(&[0, 0, 0, 0, 0]),
        DecodeError::EmptyArrayLength(1)
    );
    assert_eq!(error_of(&[0, 0, 0, 2]), DecodeError::Dimensions(2));
    assert_eq!(error_of(&[0, 0, 0, 1, 0, 0, 0, 0]), DecodeError::TooShort);
    assert_eq!(
        error_of(&[0, 0, 0, 1, 0, 0, 0, 0, 0, 0, 0, 25]),
        DecodeError::ElementType {
            expected_type: 23,
            found_type: 25
        }
    );
    let header = [
        0, 0, 0, 1, 0, 0, 0, 0, 0, 0, 0, 23, 0, 0, 0, 1, 0, 0, 0, 1,
    ];
    let with = |rest: &[u8]| [&header[..], rest].concat();
    assert_eq!(
        error_of(&with(&[])),
        DecodeError::Count {
            expected: 1,
            found: 0
        }
    );
    assert_eq!(error_of(&with(&[0, 0])), DecodeError::TooShort);
    assert_eq!(
        error_of(&with(&[255, 255, 255, 255])),
        DecodeError::Element(ElementError::UnexpectedNull)
    );
    assert_eq!(
        error_of(&with(&[0, 0, 0, 2, 0, 0])),
        DecodeError::Element(ElementError::Malformed)
    );
    let negative = PgArray1D::<i32>::decode_bytes(&with(&[0, 0, 0, 4, 255, 255, 255, 254]));
    assert_eq!(negative.unwrap().get(), vec![-2]);
    assert!(!PgArray1D::<i32>::fits(&with(&[0, 0, 0, 5, 1])));
    let overrun = [0, 0, 0, 5, 1];
    let behind = |head: &[u8]| [head, &header[head.len()..], &overrun[..]].concat();
    assert_eq!(error_of(&behind(&[0, 0, 0, 0])), DecodeError::EmptyArrayLength(21));
    assert_eq!(error_of(&behind(&[0, 0, 0, 3])), DecodeError::Dimensions(3));
    assert_eq!(
        error_of(&behind(&[0, 0, 0, 1, 0, 0, 0, 0, 0, 0, 0, 25])),
        DecodeError::ElementType {
            expected_type: 23,
            found_type: 25
        }
    );
    assert_eq!(
        error_of(&with(&[0, 0, 0, 1, 7, 0, 0, 0, 5, 1])),
        DecodeError::Element(ElementError::Malformed)
    );
}
