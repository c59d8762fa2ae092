use polodb_core::error::DbErr;
use polodb_core::frame::request_body_size;

#[test]
fn body_size_is_big_endian() {
    assert_eq!(request_body_size(&[0, 0, 1, 2]).unwrap(), 258);
    assert_eq!(request_body_size(&[1, 0, 0, 0, 9]).unwrap(), 16777216);
    assert_eq!(request_body_size(&[0, 0, 0, 0]).unwrap(), 0);
    assert_eq!(request_body_size(&[0xff, 0xff, 0xff, 0xff]).unwrap(), u32::MAX);
}

#[test]
fn short_header_is_refused() {
    assert!(matches!(request_body_size(&[0, 0, 1]), Err(DbErr::UnexpectedEof)));
    assert!(matches!(request_body_size(&[]), Err(DbErr::UnexpectedEof)));
}
