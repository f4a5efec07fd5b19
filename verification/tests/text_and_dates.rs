use autarch_readme::dates::{filter_date, instant_of, is_earlier, rfc2822_day_of, two_years_before, utc_day_of};
use autarch_readme::sorting::{lex_less, stable_order};
use autarch_readme::text::{byte_key_of, decimal_i64, str_eq};

#[test]
fn decimal_writes_like_display() {
    assert_eq!(decimal_i64(0), "0");
    assert_eq!(decimal_i64(42), "42");
    assert_eq!(decimal_i64(-7), "-7");
    assert_eq!(decimal_i64(1000), "1000");
    assert_eq!(decimal_i64(i64::MAX), i64::MAX.to_string());
    assert_eq!(decimal_i64(i64::MIN), i64::MIN.to_string());
}

#[test]
fn str_eq_compares_text() {
    assert!(str_eq("autarch", "autarch"));
    assert!(!str_eq("autarch", "Autarch"));
    assert!(!str_eq("", "a"));
}

#[test]
fn byte_key_is_utf8() {
    assert_eq!(byte_key_of("A"), vec![65]);
    assert_eq!(byte_key_of("é"), vec![0xc3, 0xa9]);
}

#[test]
fn lex_order_compares_first_difference() {
    assert!(lex_less(&vec![1, 2], &vec![1, 3]));
    assert!(lex_less(&vec![1], &vec![1, 0]));
    assert!(!lex_less(&vec![2], &vec![1, 9]));
    assert!(!lex_less(&vec![1, 2], &vec![1, 2]));
}

#[test]
fn stable_order_keeps_ties_in_order() {
    let keys = vec![vec![1], vec![3], vec![1], vec![2]];
    assert_eq!(stable_order(&keys, true), vec![1, 3, 0, 2]);
    assert_eq!(stable_order(&keys, false), vec![0, 2, 3, 1]);
    assert_eq!(stable_order(&Vec::new(), true), Vec::<usize>::new());
}

#[test]
fn instants_of_timestamps() {
    let a = instant_of("2021-03-04T05:06:07Z").ok().unwrap();
    let b = instant_of("2021-03-04T06:06:07+01:00").ok().unwrap();
    assert_eq!(a, b);
    assert_eq!(a.0, 1614834367);
    assert!(instant_of("yesterday").is_err());
    assert_eq!(instant_of("yesterday").err().unwrap().text, "yesterday");
    let c = instant_of("2021-03-04T05:06:07.5Z").ok().unwrap();
    assert!(is_earlier(a, c));
    assert!(!is_earlier(c, a));
    assert!(!is_earlier(a, a));
}

#[test]
fn utc_day_moves_to_utc() {
    assert_eq!(utc_day_of("2021-03-04T23:30:00-05:00"), "2021-03-05");
    assert_eq!(utc_day_of("2021-03-04T00:30:00Z"), "2021-03-04");
}

#[test]
fn rfc2822_day_keeps_its_offset() {
    assert_eq!(rfc2822_day_of("Wed, 18 Feb 2015 23:16:09 -0500").ok().unwrap(), "2015-02-18");
    assert_eq!(rfc2822_day_of("18 February 2015").err().unwrap().text, "18 February 2015");
}

#[test]
fn two_years_before_a_moment() {
    let t = two_years_before(2024, "05-06T07:08:09Z").unwrap();
    assert_eq!(t, instant_of("2022-05-06T07:08:09Z").ok().unwrap());
    assert!(two_years_before(2026, "02-29T00:00:00Z").is_some());
    assert!(two_years_before(2027, "02-29T00:00:00Z").is_none());
    assert!(two_years_before(2024, "not a date").is_none());
    assert!(two_years_before(i32::MIN, "05-06T07:08:09Z").is_none());
}

#[test]
fn filter_date_is_in_the_past() {
    if let Some(t) = filter_date() {
        let now = instant_of("2020-01-01T00:00:00Z").ok().unwrap();
        assert!(is_earlier(now, t) || t.0 > 0);
    }
}
