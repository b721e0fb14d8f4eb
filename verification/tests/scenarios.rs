use quickjs_regex::flags_from_str;
use quickjs_regex::ComplieError;
use quickjs_regex::ExecError;
use quickjs_regex::Flag;
use quickjs_regex::Regex;
use quickjs_regex::DOTALL;
use quickjs_regex::GLOBAL;
use quickjs_regex::IGNORECASE;
use quickjs_regex::MULTILINE;
use quickjs_regex::NAMED_GROUPS;
use quickjs_regex::STICKY;
use quickjs_regex::UNICODE;

#[test]
fn single_replace_with_groups() {
    let regex = Regex::compile("(1)(2)(3)456", Flag(UNICODE | IGNORECASE)).unwrap();
    let result = regex
        .try_replace("123123456123", |m: Vec<String>| {
            format!("x{}{}{}", m[1], m[2], m[3])
        })
        .unwrap();
    assert_eq!(result, "123x123123");
}

#[test]
fn bounded_and_exhaustive_replace() {
    let regex = Regex::compile(r"(\d)", Flag(UNICODE)).unwrap();
    let bounded = regex
        .try_replacen("12345", |m: Vec<String>| format!("x{}", m[1]), 2)
        .unwrap();
    assert_eq!(bounded, "x1x2345");
    let all = regex
        .try_replace_all("12345", |m: Vec<String>| format!("x{}", m[1]))
        .unwrap();
    assert_eq!(all, "x1x2x3x4x5");
}

#[test]
fn match_all_digits() {
    let regex = Regex::compile(r"(\d)", Flag(UNICODE)).unwrap();
    let result = regex.try_match_all("12345").unwrap();
    assert_eq!(result.len(), 5);
    for (i, group) in result.iter().enumerate() {
        let digit = (i + 1).to_string();
        assert_eq!(group.len(), 2);
        assert_eq!(group[0], digit);
        assert_eq!(group[1], digit);
    }
}

#[test]
fn anchored_whole_subject_match() {
    let regex = Regex::compile("^bc(d|e)*$", Flag(UNICODE)).unwrap();
    assert!(regex.test("bcdeeeeeeeeeeeeee"));
    let result = regex.try_match_all("bcdeeeeeeeeeeeeee").unwrap();
    assert_eq!(result.len(), 1);
    assert_eq!(result[0][0], "bcdeeeeeeeeeeeeee");
}

#[test]
fn invalid_pattern_parse_fail() {
    let err = Regex::compile("(abc", Flag(UNICODE)).unwrap_err();
    match err {
        ComplieError::ParseFail(msg) => assert!(!msg.is_empty()),
        _ => panic!("expected a parse failure"),
    }
}

#[test]
fn zero_width_matches_terminate() {
    let regex = Regex::compile("", Flag(UNICODE)).unwrap();
    let result = regex.try_match_all("abc").unwrap();
    // The empty pattern matches at every byte position, the subject end
    // included; the forced one-byte advance after a zero-width match keeps
    // the run finite.
    assert_eq!(result.len(), 4);
    for group in &result {
        assert_eq!(group.len(), 1);
        assert_eq!(group[0], "");
    }
    let replaced = regex.try_replace_all("abc", |_m: Vec<String>| "-".to_string()).unwrap();
    assert_eq!(replaced, "-a-b-c-");
}

#[test]
fn no_match_replace_is_identity() {
    let regex = Regex::compile("z", Flag(UNICODE)).unwrap();
    let out = regex
        .try_replace_all("α123456", |_m: Vec<String>| "BOOM".to_string())
        .unwrap();
    assert_eq!(out, "α123456");
    assert!(matches!(regex.try_match("α123456"), Err(ExecError::NotMatch)));
    assert!(!regex.test("α123456"));
}

#[test]
fn bounded_count_is_prefix_of_match_all() {
    let regex = Regex::compile(r"(\d)", Flag(UNICODE)).unwrap();
    let all = regex.try_match_all("1a2b3c4d5").unwrap();
    assert_eq!(all.len(), 5);
    for n in 0..7 {
        let bounded = regex.try_matchn("1a2b3c4d5", n).unwrap();
        let want = if n < 5 { n } else { 5 };
        assert_eq!(bounded.len(), want);
        assert_eq!(bounded[..], all[..want]);
    }
}

#[test]
fn capture_count_and_unset_groups() {
    let regex = Regex::compile("(a)|(b)", Flag(UNICODE)).unwrap();
    assert_eq!(regex.capture_count(), 3);
    let groups = regex.try_match("b").unwrap();
    assert_eq!(groups.len(), 3);
    assert_eq!(groups[0], "b");
    assert_eq!(groups[1], "");
    assert_eq!(groups[2], "b");
}

#[test]
fn unicode_captures_materialize() {
    let regex = Regex::compile("(Α)123456", Flag(IGNORECASE)).unwrap();
    let groups = regex.try_match("xxα123456yy").unwrap();
    assert_eq!(groups.len(), 2);
    assert_eq!(groups[0], "α123456");
    assert_eq!(groups[1], "α");
}

#[test]
fn byte_code_roundtrip() {
    let compiled = Regex::compile(r"(\d)456", Flag(UNICODE | IGNORECASE)).unwrap();
    let code = compiled.byte_code();
    let count = compiled.capture_count();
    let rebuilt = Regex::from_static(&code, count);
    assert_eq!(rebuilt.capture_count(), count);
    assert_eq!(rebuilt.byte_code(), code);
    let groups = rebuilt.try_match("abc3456").unwrap();
    assert_eq!(groups[0], "3456");
    assert_eq!(groups[1], "3");
}

#[test]
fn checked_reconstruction() {
    let compiled = Regex::compile("(a)(b)", Flag(UNICODE)).unwrap();
    let code = compiled.byte_code();
    let count = compiled.capture_count();
    assert!(Regex::try_from_static(&code, count).is_some());
    // A wrong capture count is rejected.
    assert!(Regex::try_from_static(&code, count + 1).is_none());
    // An empty buffer is rejected.
    assert!(Regex::try_from_static(&[], 1).is_none());
    // A buffer whose pattern bytes are not well-formed UTF-8 is rejected.
    assert!(Regex::try_from_static(&[0x10, 0xff, 0xfe], 1).is_none());
    // A buffer whose pattern does not compile is rejected.
    assert!(Regex::try_from_static(b"\x10(abc", 1).is_none());
    let rebuilt = Regex::try_from_static(&code, count).unwrap();
    assert!(rebuilt.test("zzabzz"));
}

#[test]
fn flag_shorthand_parsing() {
    assert_eq!(flags_from_str("").0, NAMED_GROUPS);
    assert_eq!(flags_from_str("u").0, NAMED_GROUPS | UNICODE);
    assert_eq!(flags_from_str("gi").0, NAMED_GROUPS | GLOBAL | IGNORECASE);
    assert_eq!(
        flags_from_str("ygumi").0,
        NAMED_GROUPS | STICKY | GLOBAL | UNICODE | MULTILINE | IGNORECASE
    );
    // Unrecognized characters are ignored silently.
    assert_eq!(flags_from_str("zq!").0, NAMED_GROUPS);
    assert_eq!(flags_from_str("zgz").0, NAMED_GROUPS | GLOBAL);
}

#[test]
fn flag_or_combines_bits() {
    let combined = Flag(IGNORECASE) | Flag(UNICODE) | Flag(DOTALL);
    assert_eq!(combined.0, IGNORECASE | UNICODE | DOTALL);
    assert_eq!((Flag(GLOBAL) | Flag(GLOBAL)).0, GLOBAL);
    assert_eq!(combined, Flag(DOTALL) | Flag(UNICODE) | Flag(IGNORECASE));
}

#[test]
fn multiline_and_dotall_flags() {
    let plain = Regex::compile("^b", Flag(UNICODE)).unwrap();
    assert!(!plain.test("a\nb"));
    let multi = Regex::compile("^b", Flag(UNICODE | MULTILINE)).unwrap();
    assert!(multi.test("a\nb"));
    let dot = Regex::compile("a.b", Flag(UNICODE)).unwrap();
    assert!(!dot.test("a\nb"));
    let dotall = Regex::compile("a.b", Flag(UNICODE | DOTALL)).unwrap();
    assert!(dotall.test("a\nb"));
}

#[test]
fn empty_subject() {
    let regex = Regex::compile("a", Flag(UNICODE)).unwrap();
    assert!(!regex.test(""));
    assert_eq!(regex.try_match_all("").unwrap().len(), 0);
    assert_eq!(
        regex.try_replace_all("", |_m: Vec<String>| "x".to_string()).unwrap(),
        ""
    );
    let empty = Regex::compile("", Flag(UNICODE)).unwrap();
    assert!(empty.test(""));
    assert_eq!(empty.try_match_all("").unwrap().len(), 1);
}

#[test]
fn matchn_zero_is_empty() {
    let regex = Regex::compile(r"(\d)", Flag(UNICODE)).unwrap();
    assert_eq!(regex.try_matchn("12345", 0).unwrap().len(), 0);
    let out = regex
        .try_replacen("12345", |m: Vec<String>| format!("x{}", m[1]), 0)
        .unwrap();
    assert_eq!(out, "12345");
}

#[test]
fn replacement_length_decomposition() {
    // Each of the five one-byte matches is replaced by two bytes: the output
    // length is the subject length, minus the matched spans, plus the
    // replacements.
    let regex = Regex::compile(r"(\d)", Flag(UNICODE)).unwrap();
    let subject = "1a2b3c4d5";
    let out = regex
        .try_replace_all(subject, |m: Vec<String>| format!("x{}", m[1]))
        .unwrap();
    assert_eq!(out, "x1ax2bx3cx4dx5");
    assert_eq!(out.len(), subject.len() - 5 + 10);
}

#[test]
fn length_decomposition_with_multibyte_subject() {
    // Byte accounting holds with multi-byte characters in the gaps: each
    // one-byte digit span is replaced by two bytes.
    let regex = Regex::compile(r"(\d)", Flag(UNICODE)).unwrap();
    let subject = "α1β2γ";
    let out = regex
        .try_replace_all(subject, |m: Vec<String>| format!("x{}", m[1]))
        .unwrap();
    assert_eq!(out, "αx1βx2γ");
    assert_eq!(out.len(), subject.len() - 2 + 4);
}
