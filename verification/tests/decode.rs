use crustagent::decode::{decode_data, decode_run};
use crustagent::error::Error;

#[test]
fn rejects_short_input() {
    assert!(decode_data(&[0, 0, 0], 10).is_err());
}

#[test]
fn rejects_nonzero_first_byte() {
    let mut src = vec![0xFFu8; 16];
    src[0] = 1;
    assert!(decode_data(&src, 10).is_err());
}

#[test]
fn rejects_missing_trailing_ff() {
    let src = vec![0u8; 16];
    assert!(decode_data(&src, 10).is_err());
}

#[test]
fn decode_run_is_lenient_where_decode_data_is_strict() {
    let mut bad = vec![0xFFu8; 16];
    bad[0] = 1;
    assert!(decode_run(&bad, 10).is_empty());
    assert!(decode_data(&bad, 10).is_err());
    assert!(decode_run(&[0u8; 3], 100).len() <= 100);
}

#[test]
fn decode_failure_reports_sizes() {
    match decode_data(&[1, 2, 3], 7) {
        Err(Error::DecodeFailed { got, expected }) => assert_eq!((got, expected), (0, 7)),
        _ => panic!("expected a decode failure"),
    }
    assert_eq!(decode_data(&[1, 2, 3], 0).unwrap().len(), 0);
}
