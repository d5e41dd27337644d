use ms_websocket::text::{
    i64_to_decimal, parse_u64, parse_usize, str_eq_ignore_ascii_case, str_equal, u64_to_decimal,
    vec_contains_string, vec_contains_u64,
};

#[test]
fn u64_decimal_matches_to_string() {
    for n in [0u64, 1, 9, 10, 11, 99, 100, 12345, 4294967296, u64::MAX - 1, u64::MAX] {
        assert_eq!(u64_to_decimal(n), n.to_string());
    }
}

#[test]
fn i64_decimal_matches_to_string() {
    for n in [0i64, 7, -7, 10, -10, 123456789, -123456789, i64::MAX, i64::MIN, i64::MIN + 1] {
        assert_eq!(i64_to_decimal(n), n.to_string());
    }
}

#[test]
fn parse_u64_matches_std() {
    let cases = [
        "", "+", "-", "0", "00", "7", "+7", "-7", "42abc", " 42", "42 ", "18446744073709551615",
        "18446744073709551616", "99999999999999999999999", "+18446744073709551615", "1_000",
        "٣", "12:34", "007",
    ];
    for c in cases.iter() {
        assert_eq!(parse_u64(c), c.parse::<u64>().ok(), "input {:?}", c);
    }
}

#[test]
fn parse_usize_matches_std() {
    for c in ["", "1024", "+1", "x", "18446744073709551615", "18446744073709551616"].iter() {
        assert_eq!(parse_usize(c), c.parse::<usize>().ok(), "input {:?}", c);
    }
}

#[test]
fn parse_round_trips_the_decimal_text() {
    for n in [0u64, 5, 600, 123456789012345, u64::MAX] {
        assert_eq!(parse_u64(&u64_to_decimal(n)), Some(n));
    }
}

#[test]
fn eq_ignore_ascii_case_matches_std() {
    let pairs = [
        ("true", "true"), ("TRUE", "true"), ("TrUe", "true"), ("true ", "true"), ("tru", "true"),
        ("", ""), ("Ünï", "ünï"), ("yes", "true"), ("[", "{"),
    ];
    for (a, b) in pairs.iter() {
        assert_eq!(str_eq_ignore_ascii_case(a, b), a.eq_ignore_ascii_case(b), "{:?} {:?}", a, b);
    }
}

#[test]
fn str_equal_compares_strings() {
    assert!(str_equal("abc", "abc"));
    assert!(str_equal("", ""));
    assert!(!str_equal("abc", "abd"));
    assert!(!str_equal("abc", "ab"));
    assert!(str_equal("房间", "房间"));
}

#[test]
fn list_membership() {
    let v = vec!["a".to_string(), "bb".to_string()];
    assert!(vec_contains_string(&v, &"bb".to_string()));
    assert!(!vec_contains_string(&v, &"b".to_string()));
    assert!(vec_contains_u64(&vec![3, 5, 8], 5));
    assert!(!vec_contains_u64(&vec![], 5));
}
