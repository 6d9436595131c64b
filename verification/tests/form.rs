use rocket_csrf::encoding::{decode_secret, decode_transport, encode_transport};
use rocket_csrf::form::{
    extract_token, find_value, parse_form_value, parse_multipart_value, split_lines,
    CSRF_FORM_FIELD_MULTIPART,
};
use rocket_csrf::{CSRF_COOKIE_NAME, CSRF_FORM_FIELD};

#[test]
fn shared_names() {
    assert_eq!(CSRF_FORM_FIELD, "csrf-token");
    assert_eq!(CSRF_COOKIE_NAME, "csrf");
    assert_eq!(
        CSRF_FORM_FIELD_MULTIPART,
        "Content-Disposition: form-data; name=\"csrf-token\""
    );
}

#[test]
fn url_encoded_value_is_found_among_others() {
    let body = b"key1=value1&csrf-token=abc-_123&key2=value2";
    assert_eq!(extract_token(body, false), Some(b"abc-_123".to_vec()));
    assert_eq!(parse_form_value(body, b"key2"), Some(b"value2".to_vec()));
    assert_eq!(parse_form_value(body, b"key"), None);
}

#[test]
fn first_of_two_values_wins() {
    assert_eq!(parse_form_value(b"a=1&a=2", b"a"), Some(b"1".to_vec()));
    assert_eq!(parse_form_value(b"a&a=&a=2", b"a"), Some(b"".to_vec()));
    assert_eq!(parse_form_value(b"a=x=y", b"a"), Some(b"x=y".to_vec()));
}

#[test]
fn missing_value_is_none() {
    assert_eq!(extract_token(b"", false), None);
    assert_eq!(extract_token(b"csrf-token", false), None);
    assert_eq!(extract_token(b"xcsrf-token=1", false), None);
    assert_eq!(extract_token(b"csrf-tokenx=1", false), None);
}

#[test]
fn body_that_is_not_text_holds_no_parameters() {
    assert_eq!(parse_form_value(b"a=1&b=\xff", b"a"), None);
    assert_eq!(parse_form_value(b"a=1&b=\xc3\xa9", b"a"), Some(b"1".to_vec()));
}

#[test]
fn parameters_can_be_searched_directly() {
    let parameters = vec![b"x=1".to_vec(), b"y=2".to_vec()];
    assert_eq!(find_value(&parameters, b"y"), Some(b"2".to_vec()));
    assert_eq!(find_value(&parameters, b"z"), None);
    assert_eq!(find_value(&parameters, b""), None);
}

#[test]
fn multipart_value_follows_its_header() {
    let body = b"-----------------------------9051914041544843365972754266\r\n\
Content-Disposition: form-data; name=\"something\"\r\n\r\nvalue\r\n\
-----------------------------9051914041544843365972754266\r\n\
Content-Disposition: form-data; name=\"csrf-token\"\r\n\r\nTOKENVALUE\r\n\
-----------------------------9051914041544843365972754266--";
    assert_eq!(extract_token(body, true), Some(b"TOKENVALUE".to_vec()));
    assert_eq!(
        parse_multipart_value(body, b"Content-Disposition: form-data; name=\"something\""),
        Some(b"value".to_vec())
    );
    assert_eq!(extract_token(body, false), None);
}

#[test]
fn multipart_without_the_field_or_without_a_value() {
    assert_eq!(extract_token(b"no such header\nvalue", true), None);
    assert_eq!(
        extract_token(b"Content-Disposition: form-data; name=\"csrf-token\"\r\n\r\n", true),
        None
    );
    assert_eq!(extract_token(b"", true), None);
}

#[test]
fn lines_end_at_either_terminator() {
    assert_eq!(
        split_lines(b"a\r\nb\n\n\rc"),
        vec![b"a".to_vec(), b"b".to_vec(), b"c".to_vec()]
    );
    assert_eq!(split_lines(b"\n\r\n"), Vec::<Vec<u8>>::new());
    assert_eq!(split_lines(b"x"), vec![b"x".to_vec()]);
}

#[test]
fn transport_encoding_round_trips() {
    assert_eq!(encode_transport(b"hello"), Some(b"aGVsbG8".to_vec()));
    assert_eq!(decode_transport(b"aGVsbG8"), Some(b"hello".to_vec()));
    assert_eq!(encode_transport(&[0xfb, 0xff]), Some(b"-_8".to_vec()));
    assert_eq!(decode_transport(b"-_8"), Some(vec![0xfb, 0xff]));
    assert_eq!(decode_transport(b""), Some(Vec::new()));
}

#[test]
fn transport_decoding_rejects_other_alphabets_and_padding() {
    assert_eq!(decode_transport(b"aGVsbG8="), None);
    assert_eq!(decode_transport(b"+/8"), None);
    assert_eq!(decode_transport(b"not a token"), None);
    assert_eq!(decode_transport(b"a"), None);
    assert_eq!(decode_transport(b"-_9"), None);
}

#[test]
fn secret_is_read_from_standard_base64() {
    let mut expected = [0u8; 32];
    expected[0] = 4;
    assert_eq!(
        decode_secret(b"BAAAAAAAAAAAAAAAAAAAAAAAAAAAAAAAAAAAAAAAAAA="),
        Some(expected)
    );
    assert_eq!(decode_secret(b"BAAAAAAAAAAAAAAAAAAAAAAAAAAAAAAAAAAAAAAAAA=="), None);
    assert_eq!(decode_secret(b"BAAA"), None);
    assert_eq!(decode_secret(b"BAAAAAAAAAAAAAAAAAAAAAAAAAAAAAAAAAAAAAAAAAA"), None);
    assert_eq!(decode_secret(b"***"), None);
    assert_eq!(decode_secret(b""), None);
}
