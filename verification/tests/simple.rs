use quickjs_regex::flags_from_str;
use quickjs_regex::Flag;
use quickjs_regex::Regex;
use quickjs_regex::UNICODE;

#[test]
fn test_uregex() {
    let compiled = Regex::compile("123", Flag(UNICODE)).unwrap();
    let test123 = Regex::from_static(&compiled.byte_code(), compiled.capture_count());
    assert!(test123.test("123"));
}

#[test]
fn simple_test_regex() {
    let compiled = Regex::compile("123", Flag(UNICODE)).unwrap();
    let test123 = Regex::from_static(&compiled.byte_code(), compiled.capture_count());
    assert!(test123.test("123"));
    assert!(Regex::compile(r"\u{123}", flags_from_str("u"))
        .unwrap()
        .test("\u{123}"));
}
