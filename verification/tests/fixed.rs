use hifi_wifi::fixed::{Ema, MICRO_LIMIT, PPM};
use hifi_wifi::text::{contains, decimal};

#[test]
fn constants() {
    assert_eq!(PPM, 1_000_000);
    assert_eq!(MICRO_LIMIT, u64::MAX as u128 * 1_000_000);
}

#[test]
fn first_sample_seeds() {
    let mut ema = Ema::new(100_000);
    assert!(!ema.is_seeded());
    assert_eq!(ema.rounded(), 0);
    ema.observe(42);
    assert!(ema.is_seeded());
    assert_eq!(ema.rounded(), 42);
}

#[test]
fn later_samples_are_blended() {
    let mut ema = Ema::new(300_000);
    ema.observe(1_000);
    ema.observe(2_000);
    assert_eq!(ema.rounded(), 1_300);
    ema.observe(0);
    assert_eq!(ema.rounded(), 910);
    ema.observe(0);
    assert_eq!(ema.rounded(), 637);
}

#[test]
fn halves_round_up() {
    let mut ema = Ema::new(500_000);
    ema.observe(100);
    ema.observe(50);
    assert_eq!(ema.rounded(), 75);
    ema.observe(50);
    // 62.5
    assert_eq!(ema.rounded(), 63);
    ema.observe(50);
    // 56.25
    assert_eq!(ema.rounded(), 56);
}

#[test]
fn weight_zero_and_one() {
    let mut frozen = Ema::new(0);
    frozen.observe(10);
    frozen.observe(1_000);
    assert_eq!(frozen.rounded(), 10);
    let mut eager = Ema::new(PPM);
    eager.observe(10);
    eager.observe(1_000);
    assert_eq!(eager.rounded(), 1_000);
}

#[test]
fn equal_samples_do_not_drift() {
    let mut ema = Ema::new(333_333);
    for _ in 0..1_000 {
        ema.observe(77);
    }
    assert_eq!(ema.rounded(), 77);
}

#[test]
fn largest_sample_fits() {
    let mut ema = Ema::new(500_000);
    ema.observe(u64::MAX);
    ema.observe(u64::MAX);
    assert_eq!(ema.rounded(), u64::MAX);
    ema.observe(0);
    assert_eq!(ema.rounded(), u64::MAX / 2 + 1);
}

#[test]
fn decimal_text() {
    assert_eq!(decimal(0), "0");
    assert_eq!(decimal(7), "7");
    assert_eq!(decimal(10), "10");
    assert_eq!(decimal(85), "85");
    assert_eq!(decimal(1_000), "1000");
    assert_eq!(decimal(u32::MAX), "4294967295");
    for n in [0u32, 9, 10, 99, 100, 12_345, 909_090, u32::MAX - 1] {
        assert_eq!(decimal(n), n.to_string());
    }
}

#[test]
fn substring_search() {
    assert!(contains("abc", ""));
    assert!(contains("", ""));
    assert!(!contains("", "a"));
    assert!(contains("abc", "abc"));
    assert!(contains("abc", "bc"));
    assert!(contains("aab", "ab"));
    assert!(!contains("abc", "abcd"));
    assert!(!contains("abc", "ca"));
    assert!(contains("日本語WLAN", "WLAN"));
    assert!(contains("ääx", "äx"));
}
