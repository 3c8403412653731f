use std::collections::BTreeMap;

use goose::util::{
    gcd, is_valid_host, median, ms_timer_expired, ms_timer_expired_after, parse_timespan,
    timer_expired, timer_expired_after, truncate_string,
};

#[test]
fn timespan() {
    assert_eq!(parse_timespan("0"), 0);
    assert_eq!(parse_timespan("foo"), 0);
    assert_eq!(parse_timespan("1"), 1);
    assert_eq!(parse_timespan("1s"), 1);
    assert_eq!(parse_timespan("1m"), 60);
    assert_eq!(parse_timespan("61"), 61);
    assert_eq!(parse_timespan("1m1s"), 61);
    assert_eq!(parse_timespan("10m"), 600);
    assert_eq!(parse_timespan("10m5s"), 605);
    assert_eq!(parse_timespan("15mins"), 900);
    assert_eq!(parse_timespan("60m"), 3600);
    assert_eq!(parse_timespan("1h"), 3600);
    assert_eq!(parse_timespan("1h15s"), 3615);
    assert_eq!(parse_timespan("1h5m"), 3900);
    assert_eq!(parse_timespan("1h5m13s"), 3913);
    assert_eq!(parse_timespan("2h3min"), 7380);
    assert_eq!(parse_timespan("3h3m"), 10980);
    assert_eq!(parse_timespan("3h3m5s"), 10985);
    assert_eq!(parse_timespan("5hours"), 18000);
    assert_eq!(parse_timespan("450m"), 27000);
    assert_eq!(parse_timespan("24h"), 86400);
    assert_eq!(parse_timespan("88h88m88s"), 322168);
    assert_eq!(parse_timespan("100hourblah"), 360000);
}

#[test]
fn greatest_common_divisor() {
    assert_eq!(gcd(2, 4), 2);
    assert_eq!(gcd(1, 4), 1);
    assert_eq!(gcd(9, 102), 3);
    assert_eq!(gcd(12345, 98765), 5);
    assert_eq!(gcd(2, 99), 1);
    // More complicated two-part GCD
    assert_eq!(gcd(gcd(30, 90), 60), 30);
    assert_eq!(gcd(gcd(25, 7425), gcd(15, 9025)), 5);
}

#[test]
fn gcd_edges() {
    assert_eq!(gcd(0, 0), 0);
    assert_eq!(gcd(7, 7), 7);
    assert_eq!(gcd(4, 2), 2);
    assert_eq!(gcd(1, 1), 1);
}

#[test]
fn median_test() {
    // Simple median test - add 3 numbers and pick the middle one.
    let mut btree: BTreeMap<usize, usize> = BTreeMap::new();
    btree.insert(1, 1);
    btree.insert(2, 1);
    btree.insert(3, 1);
    // 1: 1, 2: 1, 3: 1
    assert_eq!(median(&btree, 3, 1, 3), 2);
    assert_eq!(median(&btree, 3, 1, 1), 1);
    assert_eq!(median(&btree, 3, 3, 3), 3);
    btree.insert(1, 2);
    // 1: 2, 2: 1, 3: 1
    // We don't do a true median, we find the first value that is positioned >= 1/2 way
    // into the total btree size
    assert_eq!(median(&btree, 3, 1, 3), 1);
    btree.insert(4, 1);
    btree.insert(5, 1);
    // 1: 2, 2: 1, 3: 1, 4: 1, 5: 1
    assert_eq!(median(&btree, 6, 1, 5), 2);
    btree.insert(6, 1);
    btree.insert(7, 2);
    btree.insert(8, 1);
    btree.insert(9, 2);
    // 1: 2, 2: 1, 3: 1, 4: 1, 5: 1, 6: 1, 7: 2, 8: 1, 9: 2
    assert_eq!(median(&btree, 12, 1, 9), 5);

    // Confirm we're counting and not just returning the key.
    let mut btree: BTreeMap<usize, usize> = BTreeMap::new();
    btree.insert(2, 1);
    btree.insert(5, 1);
    btree.insert(25, 1);
    // 2: 1, 5: 1, 25: 1
    assert_eq!(median(&btree, 3, 2, 25), 5);
    btree.insert(5, 3);
    // 2: 1, 5: 3, 25: 1
    assert_eq!(median(&btree, 4, 2, 25), 5);
    btree.insert(25, 10);
    // 2: 1, 5: 3, 25: 10
    assert_eq!(median(&btree, 14, 2, 25), 25);
    btree.insert(100, 5);
    // 2: 1, 5: 3, 25: 10, 100: 5
    assert_eq!(median(&btree, 19, 2, 100), 25);
    btree.insert(100, 20);
    // 2: 1, 5: 3, 25: 20, 100: 5
    assert_eq!(median(&btree, 29, 2, 100), 100);

    // We round response times, be sure we return min or max when appropriate.
    let mut btree: BTreeMap<usize, usize> = BTreeMap::new();
    btree.insert(100, 3);
    btree.insert(210, 1);
    btree.insert(240, 1);
    // 100: 3, 210: 1, 240: 1
    // Minimum is more than median, use minimum.
    assert_eq!(median(&btree, 5, 101, 243), 101);
    btree.insert(240, 1);
    // 100: 3, 210: 1, 240: 5
    // Maximum is less than median, use maximum.
    assert_eq!(median(&btree, 9, 101, 239), 239);
}

#[test]
fn median_of_empty_is_zero() {
    let btree: BTreeMap<usize, usize> = BTreeMap::new();
    assert_eq!(median(&btree, 0, 0, 0), 0);
    assert_eq!(median(&btree, 10, 1, 5), 0);
}

#[test]
fn truncate() {
    assert_eq!(
        truncate_string("the quick brown fox", 25),
        "the quick brown fox"
    );
    assert_eq!(truncate_string("the quick brown fox", 10), "the quic..");
    assert_eq!(truncate_string("abcde", 5), "abcde");
    assert_eq!(truncate_string("abcde", 4), "ab..");
    assert_eq!(truncate_string("abcde", 3), "a..");
    assert_eq!(truncate_string("abcde", 2), "..");
    assert_eq!(truncate_string("これはテストだ", 10), "これはテストだ");
    assert_eq!(truncate_string("これはテストだ", 3), "こ..");
    assert_eq!(truncate_string("这是一个测试。", 10), "这是一个测试。");
    assert_eq!(truncate_string("这是一个测试。", 3), "这..");
    assert_eq!(
        truncate_string("이것은 테스트입니다.", 15),
        "이것은 테스트입니다."
    );
    assert_eq!(truncate_string("이것은 테스트입니다.", 3), "이..");
}

#[test]
fn timer() {
    let started = std::time::Instant::now();

    // 60 second timer has not expired.
    assert!(!timer_expired(started, 60));

    // Timer is disabled.
    assert!(!timer_expired(started, 0));

    // Timer expires once the run time has passed.
    assert!(timer_expired_after(1, 1));
    assert!(!timer_expired_after(0, 1));
    assert!(!timer_expired_after(100, 0));
}

#[test]
fn ms_timer() {
    let started = std::time::Instant::now();
    assert!(!ms_timer_expired(started, 60_000));
    assert!(!ms_timer_expired(started, 0));
    assert!(ms_timer_expired_after(1500, 1500));
    assert!(!ms_timer_expired_after(1499, 1500));
    assert!(!ms_timer_expired_after(5, 0));
}

#[test]
fn valid_host() {
    assert!(is_valid_host("http://example.com").is_ok());
    assert!(is_valid_host("example.com").is_err());
    assert!(is_valid_host("http://example.com/").is_ok());
    assert!(is_valid_host("example.com/").is_err());
    assert!(is_valid_host("https://www.example.com/and/with/path").is_ok());
    assert!(is_valid_host("www.example.com/and/with/path").is_err());
    assert!(is_valid_host("foo://example.com").is_ok());
    assert!(is_valid_host("file:///path/to/file").is_ok());
    assert!(is_valid_host("/path/to/file").is_err());
    assert!(is_valid_host("http://").is_err());
    assert!(is_valid_host("http://foo").is_ok());
    assert!(is_valid_host("http:///example.com").is_ok());
    assert!(is_valid_host("http:// example.com").is_err());
}

#[test]
fn timespans_with_other_letters_are_read_from_their_start() {
    assert_eq!(parse_timespan("é"), 0);
    assert_eq!(parse_timespan("5é"), 0);
    assert_eq!(parse_timespan("2mé"), 120);
    assert_eq!(parse_timespan("1h中"), 3600);
}
