use passlock::random::{gen_pwd, generate_uuid, u128_to_hex};
use passlock::strutil::{contains_chars, parse_usize, str_chars, trim_str, u64_to_string};

#[test]
fn decimal_formatting() {
    assert_eq!(u64_to_string(0), "0");
    assert_eq!(u64_to_string(7), "7");
    assert_eq!(u64_to_string(12345), "12345");
    assert_eq!(u64_to_string(u64::MAX), "18446744073709551615");
}

#[test]
fn hex_formatting() {
    assert_eq!(u128_to_hex(0), "0");
    assert_eq!(u128_to_hex(255), "ff");
    assert_eq!(u128_to_hex(0xdead_beef), "deadbeef");
}

#[test]
fn parsing_mirrors_the_standard_parser() {
    let cases = ["", "0", "42", "+42", "007", "junk", "-1", " 5", "5 ", "99999999999999999999999"];
    for case in cases {
        let expected = case.parse::<usize>().ok();
        let got = parse_usize(&str_chars(case));
        assert_eq!(got, expected, "case {:?}", case);
    }
}

#[test]
fn trimming() {
    assert_eq!(trim_str("  hello \t"), "hello");
    assert_eq!(trim_str("\r\n"), "");
    assert_eq!(trim_str("no-ws"), "no-ws");
    assert_eq!(trim_str(" a b "), "a b");
}

#[test]
fn substring_search() {
    let hay = str_chars("hello world");
    assert!(contains_chars(&hay, &str_chars("lo wo")));
    assert!(contains_chars(&hay, &str_chars("")));
    assert!(!contains_chars(&hay, &str_chars("worlds")));
    assert!(!contains_chars(&str_chars("ab"), &str_chars("abc")));
}

#[test]
fn generated_passwords() {
    let p = gen_pwd(20).unwrap();
    assert_eq!(p.chars().count(), 20);
    for c in p.chars() {
        assert!(c.is_ascii_alphanumeric() || "!@#$%^&*".contains(c));
    }
}

#[test]
fn generated_identifiers_are_hex_and_distinct() {
    let a = generate_uuid().unwrap();
    let b = generate_uuid().unwrap();
    assert!(!a.is_empty());
    assert!(a.chars().all(|c| c.is_ascii_hexdigit()));
    assert_ne!(a, b);
}
