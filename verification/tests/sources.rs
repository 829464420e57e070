use pdf_rendering::source::local_address;
use pdf_rendering::text::append_decimal;

#[test]
fn local_address_names_the_port() {
    assert_eq!(local_address(8080), "http://127.0.0.1:8080");
    assert_eq!(local_address(0), "http://127.0.0.1:0");
    assert_eq!(local_address(7), "http://127.0.0.1:7");
    assert_eq!(local_address(65535), "http://127.0.0.1:65535");
}

#[test]
fn append_decimal_writes_digits_without_leading_zeros() {
    let mut text = String::from("n=");
    append_decimal(&mut text, 0);
    assert_eq!(text, "n=0");
    append_decimal(&mut text, 1002);
    assert_eq!(text, "n=01002");
    let mut empty = String::new();
    append_decimal(&mut empty, 9_999_999);
    assert_eq!(empty, "9999999");
}
