use hifi_wifi::config::WifiConfig;
use hifi_wifi::network::roam::{best_candidate, AccessPoint, Band, RoamTracker};

fn ap(bssid: &str, ssid: &str, signal_strength: i32, band: Band) -> AccessPoint {
    AccessPoint { bssid: bssid.to_string(), ssid: ssid.to_string(), signal_strength, band }
}

fn wifi() -> WifiConfig {
    WifiConfig { band_bias_5ghz: 10, band_bias_6ghz: 20, min_signal_dbm: -75 }
}

#[test]
fn score_adds_the_band_bias() {
    assert_eq!(ap("a", "n", -60, Band::Ghz2_4).score(10, 20), -60);
    assert_eq!(ap("a", "n", -60, Band::Ghz5).score(10, 20), -50);
    assert_eq!(ap("a", "n", -60, Band::Ghz6).score(10, 20), -40);
    assert_eq!(ap("a", "n", -60, Band::Unknown).score(10, 20), -60);
    assert_eq!(ap("a", "n", i32::MAX, Band::Ghz5).score(i32::MAX, 0), 2 * (i32::MAX as i64));
    assert_eq!(ap("a", "n", i32::MIN, Band::Ghz6).score(0, i32::MIN), 2 * (i32::MIN as i64));
}

#[test]
fn only_same_network_other_ap_strong_enough() {
    let current = ap("00:00", "home", -70, Band::Ghz2_4);
    let visible = vec![
        ap("00:00", "home", -10, Band::Ghz6),
        ap("00:01", "cafe", -20, Band::Ghz6),
        ap("00:02", "home", -80, Band::Ghz6),
        ap("00:03", "home", -75, Band::Ghz2_4),
    ];
    assert_eq!(best_candidate(&current, &visible, &wifi()), Some(3));
    assert_eq!(best_candidate(&current, &visible[..3].to_vec(), &wifi()), None);
    assert_eq!(best_candidate(&current, &Vec::new(), &wifi()), None);
}

#[test]
fn highest_score_wins() {
    let current = ap("00:00", "home", -70, Band::Ghz2_4);
    let visible = vec![
        ap("00:01", "home", -50, Band::Ghz2_4),
        ap("00:02", "home", -55, Band::Ghz5),
        ap("00:03", "home", -65, Band::Ghz6),
    ];
    // scores -50, -45, -45: the first of the two best
    assert_eq!(best_candidate(&current, &visible, &wifi()), Some(1));
}

#[test]
fn first_seen_wins_a_tie() {
    let current = ap("00:00", "home", -70, Band::Ghz2_4);
    let a = ap("00:0a", "home", -40, Band::Ghz2_4);
    let b = ap("00:0b", "home", -50, Band::Ghz5);
    assert_eq!(a.score(10, 20), b.score(10, 20));
    assert_eq!(best_candidate(&current, &vec![a.clone(), b.clone()], &wifi()), Some(0));
    assert_eq!(best_candidate(&current, &vec![b, a], &wifi()), Some(0));
}

#[test]
fn roam_after_leading_for_the_threshold() {
    let current = ap("00:00", "home", -70, Band::Ghz2_4);
    let visible = vec![ap("00:01", "home", -60, Band::Ghz5)];
    let mut tracker = RoamTracker::new(3);
    assert_eq!(tracker.observe(&current, &visible, &wifi()), None);
    let candidate = tracker.candidate().unwrap();
    assert_eq!(candidate.bssid, "00:01");
    assert_eq!(candidate.score, -50);
    assert_eq!(candidate.consecutive_ticks, 1);
    assert_eq!(tracker.observe(&current, &visible, &wifi()), None);
    assert_eq!(tracker.candidate().unwrap().consecutive_ticks, 2);
    assert_eq!(tracker.observe(&current, &visible, &wifi()), Some("00:01".to_string()));
    assert!(tracker.candidate().is_none());
    // The same leader starts from nothing.
    assert_eq!(tracker.observe(&current, &visible, &wifi()), None);
    assert_eq!(tracker.candidate().unwrap().consecutive_ticks, 1);
}

#[test]
fn no_better_ap_clears_the_candidate() {
    let current = ap("00:00", "home", -50, Band::Ghz5);
    let better = vec![ap("00:01", "home", -45, Band::Ghz6)];
    let equal = vec![ap("00:01", "home", -60, Band::Ghz6)];
    let mut tracker = RoamTracker::new(3);
    assert_eq!(tracker.observe(&current, &better, &wifi()), None);
    assert_eq!(tracker.observe(&current, &better, &wifi()), None);
    // Same score as the current one is not better.
    assert_eq!(tracker.observe(&current, &equal, &wifi()), None);
    assert!(tracker.candidate().is_none());
    assert_eq!(tracker.observe(&current, &better, &wifi()), None);
    assert_eq!(tracker.observe(&current, &better, &wifi()), None);
    assert_eq!(tracker.observe(&current, &better, &wifi()), Some("00:01".to_string()));
}

#[test]
fn a_new_leader_restarts_the_count() {
    let current = ap("00:00", "home", -70, Band::Ghz2_4);
    let first = vec![ap("00:01", "home", -60, Band::Ghz5)];
    let second = vec![ap("00:01", "home", -60, Band::Ghz5), ap("00:02", "home", -40, Band::Ghz5)];
    let mut tracker = RoamTracker::new(2);
    assert_eq!(tracker.observe(&current, &first, &wifi()), None);
    assert_eq!(tracker.observe(&current, &second, &wifi()), None);
    let candidate = tracker.candidate().unwrap();
    assert_eq!(candidate.bssid, "00:02");
    assert_eq!(candidate.score, -30);
    assert_eq!(candidate.consecutive_ticks, 1);
    assert_eq!(tracker.observe(&current, &second, &wifi()), Some("00:02".to_string()));
    tracker.reset();
    assert!(tracker.candidate().is_none());
}

#[test]
fn score_of_the_candidate_follows_the_leader() {
    let current = ap("00:00", "home", -70, Band::Ghz2_4);
    let mut tracker = RoamTracker::new(5);
    tracker.observe(&current, &vec![ap("00:01", "home", -60, Band::Ghz5)], &wifi());
    tracker.observe(&current, &vec![ap("00:01", "home", -55, Band::Ghz5)], &wifi());
    let candidate = tracker.candidate().unwrap();
    assert_eq!(candidate.score, -45);
    assert_eq!(candidate.consecutive_ticks, 2);
}
