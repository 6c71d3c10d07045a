use hifi_wifi::network::tc::{CakeProfile, EthtoolManager, TcManager};

fn strings(words: &[&str]) -> Vec<String> {
    words.iter().map(|w| w.to_string()).collect()
}

#[test]
fn test_median_smoothing() {
    // A weight of 0.5 reacts fast enough for a test.
    let mut tc = TcManager::new(500_000, 25, 200_000);

    // First 2 samples: warming up (need 3 samples minimum)
    assert!(!tc.update_bandwidth(100));
    assert!(!tc.update_bandwidth(100));

    // From sample 3 on the count of stable ticks runs; it needs 3.
    assert!(!tc.update_bandwidth(100));
    assert!(!tc.update_bandwidth(100));
    assert!(tc.update_bandwidth(100));

    tc.set_last_applied(100);

    // Small changes do not trigger (< 25 Mbit and < 20%)
    assert!(!tc.update_bandwidth(110));
    assert!(!tc.update_bandwidth(115));

    for _ in 0..5 {
        tc.update_bandwidth(50);
    }

    let mut triggered = false;
    for _ in 0..5 {
        if tc.update_bandwidth(50) {
            triggered = true;
            break;
        }
    }
    assert!(triggered, "Large change should eventually trigger");
}

#[test]
fn test_median_filters_outliers() {
    let mut tc = TcManager::new(100_000, 25, 200_000);

    tc.update_bandwidth(100);
    tc.update_bandwidth(100);
    tc.update_bandwidth(100);
    tc.update_bandwidth(100);
    tc.update_bandwidth(100);

    tc.update_bandwidth(500);

    // Median of [100, 100, 100, 100, 500] = 100
    assert!(tc.get_smoothed_mbit() < 150);
}

#[test]
fn test_hysteresis_prevents_flapping() {
    let mut tc = TcManager::new(500_000, 25, 200_000);

    for _ in 0..5 {
        tc.update_bandwidth(100);
    }
    tc.set_last_applied(100);

    assert!(!tc.update_bandwidth(50));
    assert!(!tc.update_bandwidth(150));
    assert!(!tc.update_bandwidth(50));
    assert!(!tc.update_bandwidth(150));
}

#[test]
fn warm_up_never_approves() {
    for sample in [1u32, 100, 5_000, u32::MAX] {
        let mut tc = TcManager::new(1_000_000, 0, 0);
        assert!(!tc.update_bandwidth(sample));
        assert!(!tc.update_bandwidth(sample));
        assert_eq!(tc.get_smoothed_mbit(), 0);
    }
}

#[test]
fn exactly_one_approval_in_five_equal_samples() {
    let mut tc = TcManager::new(500_000, 25, 200_000);
    let results: Vec<bool> = (0..5).map(|_| tc.update_bandwidth(100)).collect();
    assert_eq!(results, vec![false, false, false, false, true]);
}

#[test]
fn zero_sample_is_ignored() {
    let mut tc = TcManager::new(500_000, 25, 200_000);
    assert!(!tc.update_bandwidth(0));
    assert_eq!(tc.median(), None);
    tc.update_bandwidth(100);
    tc.update_bandwidth(100);
    assert!(!tc.update_bandwidth(0));
    assert_eq!(tc.median(), Some(100));
    // The two samples are still the only ones: the next is the third.
    assert!(!tc.update_bandwidth(100));
    assert_eq!(tc.get_smoothed_mbit(), 100);
}

#[test]
fn median_of_odd_and_even_windows() {
    let mut tc = TcManager::new(500_000, 25, 200_000);
    assert_eq!(tc.median(), None);
    tc.update_bandwidth(30);
    assert_eq!(tc.median(), Some(30));
    tc.update_bandwidth(10);
    assert_eq!(tc.median(), Some(20));
    tc.update_bandwidth(20);
    assert_eq!(tc.median(), Some(20));
    tc.update_bandwidth(41);
    // sorted: 10 20 30 41, mean of the middle two rounded down
    assert_eq!(tc.median(), Some(25));
    tc.update_bandwidth(50);
    assert_eq!(tc.median(), Some(30));
    // the oldest sample (30) leaves: 10 20 41 50 60
    tc.update_bandwidth(60);
    assert_eq!(tc.median(), Some(41));
}

#[test]
fn median_of_huge_samples_does_not_overflow() {
    let mut tc = TcManager::new(500_000, 25, 200_000);
    tc.update_bandwidth(u32::MAX);
    tc.update_bandwidth(u32::MAX - 2);
    assert_eq!(tc.median(), Some(u32::MAX - 1));
}

#[test]
fn average_follows_the_formula() {
    // weight 0.5: 100, then (100 + 50) / 2 = 75, then 62.5 -> 63, then 56.25 -> 56
    let mut tc = TcManager::new(500_000, 25, 200_000);
    for _ in 0..3 {
        tc.update_bandwidth(100);
    }
    assert_eq!(tc.get_smoothed_mbit(), 100);
    tc.update_bandwidth(50);
    tc.update_bandwidth(50);
    // window 100 100 100 50 50: median still 100
    assert_eq!(tc.get_smoothed_mbit(), 100);
    tc.update_bandwidth(50);
    assert_eq!(tc.get_smoothed_mbit(), 75);
    tc.update_bandwidth(50);
    assert_eq!(tc.get_smoothed_mbit(), 63);
    tc.update_bandwidth(50);
    assert_eq!(tc.get_smoothed_mbit(), 56);
}

#[test]
fn average_with_default_weight() {
    // weight 0.1: 100, then 0.1 * 200 + 0.9 * 100 = 110
    let mut tc = TcManager::default();
    for _ in 0..3 {
        tc.update_bandwidth(100);
    }
    tc.update_bandwidth(200);
    tc.update_bandwidth(200);
    assert_eq!(tc.get_smoothed_mbit(), 100);
    tc.update_bandwidth(200);
    assert_eq!(tc.get_smoothed_mbit(), 110);
    assert_eq!(tc.current_target(), 110);
}

#[test]
fn target_is_at_least_one() {
    let tc = TcManager::new(500_000, 25, 200_000);
    assert_eq!(tc.get_smoothed_mbit(), 0);
    assert_eq!(tc.current_target(), 1);
}

#[test]
fn relative_threshold_alone_can_qualify() {
    // 10 -> 12 is only 2 Mbit but 20 percent.
    let mut tc = TcManager::new(1_000_000, 25, 200_000);
    tc.set_last_applied(10);
    let results: Vec<bool> = (0..5).map(|_| tc.update_bandwidth(12)).collect();
    assert_eq!(results, vec![false, false, false, false, true]);

    // 10 -> 11 is 10 percent: never.
    let mut tc = TcManager::new(1_000_000, 25, 200_000);
    tc.set_last_applied(10);
    for _ in 0..10 {
        assert!(!tc.update_bandwidth(11));
    }
}

#[test]
fn absolute_threshold_alone_can_qualify() {
    // 1000 -> 1025 is 2.5 percent but 25 Mbit.
    let mut tc = TcManager::new(1_000_000, 25, 200_000);
    tc.set_last_applied(1000);
    let results: Vec<bool> = (0..5).map(|_| tc.update_bandwidth(1025)).collect();
    assert_eq!(results, vec![false, false, false, false, true]);

    let mut tc = TcManager::new(1_000_000, 25, 200_000);
    tc.set_last_applied(1000);
    for _ in 0..10 {
        assert!(!tc.update_bandwidth(1024));
    }
}

#[test]
fn applied_zero_counts_any_other_target() {
    let mut tc = TcManager::new(1_000_000, 25, 200_000);
    tc.set_last_applied(0);
    let results: Vec<bool> = (0..5).map(|_| tc.update_bandwidth(1)).collect();
    assert_eq!(results, vec![false, false, false, false, true]);
}

#[test]
fn reversal_restarts_the_count() {
    // Weight 1: the target is the median itself.
    let mut tc = TcManager::new(1_000_000, 25, 200_000);
    tc.set_last_applied(100);
    tc.update_bandwidth(150);
    tc.update_bandwidth(50);
    // window 150 50 150: median 150 above 100, count 1
    assert!(!tc.update_bandwidth(150));
    // window 150 50 150 50: median 100, no change worth it, count dropped
    assert!(!tc.update_bandwidth(50));
    // window 150 50 150 50 50: median 50 below 100, count 1
    assert!(!tc.update_bandwidth(50));
    // window 50 150 50 50 160: median 50, count 2
    assert!(!tc.update_bandwidth(160));
    // window 150 50 50 160 160: median 150: the other side, count back to 1
    assert!(!tc.update_bandwidth(160));
    // window 50 50 160 160 160: median 160, count 2
    assert!(!tc.update_bandwidth(160));
    // count 3
    assert!(tc.update_bandwidth(160));
}

#[test]
fn unapplied_change_is_proposed_again() {
    let mut tc = TcManager::new(500_000, 25, 200_000);
    let first: Vec<bool> = (0..5).map(|_| tc.update_bandwidth(100)).collect();
    assert_eq!(first, vec![false, false, false, false, true]);
    // Nothing was recorded as applied: three ticks later it is approved again.
    let again: Vec<bool> = (0..3).map(|_| tc.update_bandwidth(100)).collect();
    assert_eq!(again, vec![false, false, true]);
}

#[test]
fn full_profile_command() {
    let command = TcManager::apply_cake("wlan0", 85, CakeProfile::Full);
    assert_eq!(command.program, "tc");
    assert_eq!(
        command.args,
        strings(&[
            "qdisc",
            "replace",
            "dev",
            "wlan0",
            "root",
            "cake",
            "bandwidth",
            "85mbit",
            "diffserv4",
            "dual-dsthost",
            "nat",
            "wash",
            "ack-filter",
        ])
    );
}

#[test]
fn minimal_profile_command() {
    let command = TcManager::apply_cake("wlp3s0", 4_294_967_295, CakeProfile::Minimal);
    assert_eq!(command.program, "tc");
    assert_eq!(
        command.args,
        strings(&[
            "qdisc",
            "replace",
            "dev",
            "wlp3s0",
            "root",
            "cake",
            "bandwidth",
            "4294967295mbit",
            "besteffort",
            "nat",
        ])
    );
}

#[test]
fn fallback_order() {
    assert_eq!(CakeProfile::primary(), CakeProfile::Full);
    assert_eq!(CakeProfile::Full.fallback(), Some(CakeProfile::Minimal));
    assert_eq!(CakeProfile::Minimal.fallback(), None);
}

#[test]
fn remove_command() {
    let command = TcManager::remove_cake("wlan0");
    assert_eq!(command.program, "tc");
    assert_eq!(command.args, strings(&["qdisc", "del", "dev", "wlan0", "root"]));
}

#[test]
fn coalescing_commands() {
    let on = EthtoolManager::enable_coalescing("wlan0");
    assert_eq!(on.program, "ethtool");
    assert_eq!(on.args, strings(&["-C", "wlan0", "adaptive-rx", "on"]));
    let off = EthtoolManager::disable_coalescing("wlan0");
    assert_eq!(off.program, "ethtool");
    assert_eq!(off.args, strings(&["-C", "wlan0", "adaptive-rx", "off"]));
}
