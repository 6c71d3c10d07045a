use hifi_wifi::config::{GovernorConfig, WifiConfig};
use hifi_wifi::network::governor::{
    should_coalesce, Actions, Governor, InterfaceState, Observation,
};
use hifi_wifi::network::roam::{AccessPoint, Band};
use hifi_wifi::network::stats::NetStats;

const SECOND: u64 = 1_000_000_000;

fn config() -> GovernorConfig {
    GovernorConfig {
        tick_interval_secs: 2,
        breathing_cake_enabled: true,
        cake_ema_alpha_ppm: 500_000,
        cake_change_threshold_mbit: 25,
        cake_change_threshold_pct_ppm: 200_000,
        cake_overhead_factor_ppm: 850_000,
        cpu_avg_window_size: 3,
        cpu_coalescing_enabled: true,
        cpu_coalescing_threshold_ppm: 900_000,
        game_mode_enabled: true,
        game_mode_pps_threshold: 200,
        game_mode_cooldown_secs: 30,
        band_steering_enabled: true,
        roam_hysteresis_ticks: 3,
    }
}

fn wifi() -> WifiConfig {
    WifiConfig { band_bias_5ghz: 10, band_bias_6ghz: 20, min_signal_dbm: 0 }
}

fn quiet(now_nanos: u64) -> Observation {
    Observation {
        now_nanos,
        counters: None,
        bitrate_kbit: 0,
        cpu_load_ppm: 0,
        on_battery: false,
        active_ap: None,
        access_points: None,
    }
}

fn ap(bssid: &str, signal_strength: i32, band: Band) -> AccessPoint {
    AccessPoint { bssid: bssid.to_string(), ssid: "home".to_string(), signal_strength, band }
}

fn nothing(actions: &Actions) -> bool {
    actions.apply_bandwidth.is_none()
        && actions.set_coalescing.is_none()
        && actions.set_power_save.is_none()
        && actions.roam_to.is_none()
}

#[test]
fn settings_are_checked() {
    assert!(config().is_valid());
    let mut bad = config();
    bad.cake_ema_alpha_ppm = 1_000_001;
    assert!(!bad.is_valid());
    bad.cake_ema_alpha_ppm = 1_000_000;
    assert!(bad.is_valid());
}

#[test]
fn roam_fires_on_the_third_tick_and_clears_the_candidate() {
    let mut governor = Governor::new(config(), wifi());
    let mut seen = quiet(0);
    // current: 60 + 10 = 70, candidate: 65 + 20 = 85
    seen.active_ap = Some(ap("aa:00", 60, Band::Ghz5));
    seen.access_points = Some(vec![ap("aa:00", 60, Band::Ghz5), ap("aa:01", 65, Band::Ghz6)]);

    assert_eq!(governor.tick("wlan0", &seen).roam_to, None);
    assert_eq!(governor.roam_candidate("wlan0").unwrap().consecutive_ticks, 1);
    assert_eq!(governor.tick("wlan0", &seen).roam_to, None);
    let candidate = governor.roam_candidate("wlan0").unwrap();
    assert_eq!(candidate.bssid, "aa:01");
    assert_eq!(candidate.score, 85);
    assert_eq!(candidate.consecutive_ticks, 2);
    assert_eq!(governor.tick("wlan0", &seen).roam_to, Some("aa:01".to_string()));
    assert!(governor.roam_candidate("wlan0").is_none());
    assert_eq!(governor.tick("wlan0", &seen).roam_to, None);
    assert_eq!(governor.roam_candidate("wlan0").unwrap().consecutive_ticks, 1);
}

#[test]
fn steering_needs_an_association_and_a_listing() {
    let mut governor = Governor::new(config(), wifi());
    let mut seen = quiet(0);
    seen.active_ap = Some(ap("aa:00", 60, Band::Ghz5));
    seen.access_points = Some(vec![ap("aa:01", 65, Band::Ghz6)]);
    governor.tick("wlan0", &seen);
    governor.tick("wlan0", &seen);
    // The listing fails: the tick is skipped for steering, the count stays.
    let mut unlisted = seen.clone();
    unlisted.access_points = None;
    assert_eq!(governor.tick("wlan0", &unlisted).roam_to, None);
    assert_eq!(governor.roam_candidate("wlan0").unwrap().consecutive_ticks, 2);
    let mut unassociated = seen.clone();
    unassociated.active_ap = None;
    assert_eq!(governor.tick("wlan0", &unassociated).roam_to, None);
    assert_eq!(governor.roam_candidate("wlan0").unwrap().consecutive_ticks, 2);
    assert_eq!(governor.tick("wlan0", &seen).roam_to, Some("aa:01".to_string()));
}

#[test]
fn steering_can_be_switched_off() {
    let mut off = config();
    off.band_steering_enabled = false;
    let mut governor = Governor::new(off, wifi());
    let mut seen = quiet(0);
    seen.active_ap = Some(ap("aa:00", 60, Band::Ghz5));
    seen.access_points = Some(vec![ap("aa:01", 65, Band::Ghz6)]);
    for _ in 0..5 {
        assert_eq!(governor.tick("wlan0", &seen).roam_to, None);
    }
    assert!(governor.roam_candidate("wlan0").is_none());
}

#[test]
fn coalescing_policy() {
    // (in game, high cpu) -> wanted
    for (in_game, high_cpu, wanted) in
        [(true, false, false), (true, true, true), (false, false, true), (false, true, true)]
    {
        let mut state = InterfaceState::new(&config());
        if in_game {
            state.observe_traffic(&config(), Some(NetStats { rx_packets: 0, tx_packets: 0 }), 0);
            state.observe_traffic(
                &config(),
                Some(NetStats { rx_packets: 1_000, tx_packets: 0 }),
                SECOND,
            );
        }
        assert_eq!(state.in_game_mode(2 * SECOND), in_game);
        // Start from the opposite setting, so that the wanted one has to be proposed.
        state.coalescing_applied(!wanted);
        let load = if high_cpu { 900_001 } else { 900_000 };
        assert_eq!(state.coalesce(&config(), 2 * SECOND, load), None);
        assert_eq!(state.coalesce(&config(), 2 * SECOND, load), Some(wanted));
    }
}

#[test]
fn coalescing_is_switched_after_two_ticks() {
    let mut governor = Governor::new(config(), wifi());
    // Out of game mode coalescing is wanted; it starts out off.
    assert_eq!(governor.tick("wlan0", &quiet(0)).set_coalescing, None);
    assert_eq!(governor.tick("wlan0", &quiet(2 * SECOND)).set_coalescing, Some(true));
    // The host did not report success: proposed again.
    assert_eq!(governor.tick("wlan0", &quiet(4 * SECOND)).set_coalescing, None);
    assert_eq!(governor.tick("wlan0", &quiet(6 * SECOND)).set_coalescing, Some(true));
    governor.coalescing_applied("wlan0", true);
    for tick in 4..8 {
        assert_eq!(governor.tick("wlan0", &quiet(tick * 2 * SECOND)).set_coalescing, None);
    }
}

#[test]
fn power_save_is_switched_after_three_ticks() {
    let mut governor = Governor::new(config(), wifi());
    let mut seen = quiet(0);
    seen.on_battery = true;
    assert_eq!(governor.tick("wlan0", &seen).set_power_save, None);
    assert_eq!(governor.tick("wlan0", &seen).set_power_save, None);
    assert_eq!(governor.tick("wlan0", &seen).set_power_save, Some(true));
    governor.power_save_applied("wlan0", true);
    assert_eq!(governor.tick("wlan0", &seen).set_power_save, None);
    // A brief spell on mains does not switch it off.
    seen.on_battery = false;
    assert_eq!(governor.tick("wlan0", &seen).set_power_save, None);
    assert_eq!(governor.tick("wlan0", &seen).set_power_save, None);
    seen.on_battery = true;
    assert_eq!(governor.tick("wlan0", &seen).set_power_save, None);
    seen.on_battery = false;
    assert_eq!(governor.tick("wlan0", &seen).set_power_save, None);
    assert_eq!(governor.tick("wlan0", &seen).set_power_save, None);
    assert_eq!(governor.tick("wlan0", &seen).set_power_save, Some(false));
}

#[test]
fn power_save_off_is_applied_once_at_start() {
    // Power save starts out unknown, so "off" is a change too.
    let mut governor = Governor::new(config(), wifi());
    assert_eq!(governor.tick("wlan0", &quiet(0)).set_power_save, None);
    assert_eq!(governor.tick("wlan0", &quiet(0)).set_power_save, None);
    assert_eq!(governor.tick("wlan0", &quiet(0)).set_power_save, Some(false));
    governor.power_save_applied("wlan0", false);
    for _ in 0..5 {
        assert_eq!(governor.tick("wlan0", &quiet(0)).set_power_save, None);
    }
}

#[test]
fn bandwidth_is_scaled_smoothed_and_committed() {
    let mut governor = Governor::new(config(), wifi());
    let mut seen = quiet(0);
    // 100 Mbit link: 85 Mbit usable
    seen.bitrate_kbit = 100_999;
    let applied: Vec<Option<u32>> =
        (0..5).map(|_| governor.tick("wlan0", &seen).apply_bandwidth).collect();
    assert_eq!(applied, vec![None, None, None, None, Some(85)]);
    governor.bandwidth_applied("wlan0", 85);
    for _ in 0..5 {
        assert_eq!(governor.tick("wlan0", &seen).apply_bandwidth, None);
    }
    // The link drops to 40 Mbit: 34 usable.
    seen.bitrate_kbit = 40_000;
    let applied: Vec<Option<u32>> =
        (0..5).map(|_| governor.tick("wlan0", &seen).apply_bandwidth).collect();
    // medians 85 85 34 34 34; average 85 85 59.5 46.75 40.375
    assert_eq!(applied, vec![None, None, None, None, Some(40)]);
}

#[test]
fn unknown_bitrate_is_not_sampled() {
    let mut governor = Governor::new(config(), wifi());
    let mut seen = quiet(0);
    seen.bitrate_kbit = 100_000;
    governor.tick("wlan0", &seen);
    governor.tick("wlan0", &seen);
    for _ in 0..3 {
        assert_eq!(governor.tick("wlan0", &quiet(0)).apply_bandwidth, None);
    }
    // Rates below 1 Mbit are no reading either.
    seen.bitrate_kbit = 999;
    assert_eq!(governor.tick("wlan0", &seen).apply_bandwidth, None);
    seen.bitrate_kbit = 100_000;
    assert_eq!(governor.tick("wlan0", &seen).apply_bandwidth, None);
    assert_eq!(governor.tick("wlan0", &seen).apply_bandwidth, None);
    assert_eq!(governor.tick("wlan0", &seen).apply_bandwidth, Some(85));
}

#[test]
fn shaping_can_be_switched_off() {
    let mut off = config();
    off.breathing_cake_enabled = false;
    let mut governor = Governor::new(off, wifi());
    let mut seen = quiet(0);
    seen.bitrate_kbit = 100_000;
    for _ in 0..8 {
        assert_eq!(governor.tick("wlan0", &seen).apply_bandwidth, None);
    }
}

#[test]
fn game_mode_lasts_for_the_cooldown_and_is_only_extended() {
    let mut governor = Governor::new(config(), wifi());
    let mut seen = quiet(0);
    seen.counters = Some(NetStats { rx_packets: 0, tx_packets: 0 });
    governor.tick("wlan0", &seen);
    assert!(!governor.in_game_mode("wlan0", 0));
    // 1000 pps at second 2
    seen.now_nanos = 2 * SECOND;
    seen.counters = Some(NetStats { rx_packets: 2_000, tx_packets: 0 });
    governor.tick("wlan0", &seen);
    assert!(governor.in_game_mode("wlan0", 2 * SECOND));
    assert!(governor.in_game_mode("wlan0", 32 * SECOND - 1));
    assert!(!governor.in_game_mode("wlan0", 32 * SECOND));
    // No packets at second 4: the smoothed rate is 700, still high.
    seen.now_nanos = 4 * SECOND;
    governor.tick("wlan0", &seen);
    assert!(governor.in_game_mode("wlan0", 34 * SECOND - 1));
    assert!(!governor.in_game_mode("wlan0", 34 * SECOND));
    // Quiet ticks until the rate is below the threshold: 490, 343, 240, 168.
    for tick in 3..7 {
        seen.now_nanos = tick * 2 * SECOND;
        governor.tick("wlan0", &seen);
    }
    // The rate was last high at second 10 (240 pps); the low reading at 12 shortens nothing.
    assert!(governor.in_game_mode("wlan0", 40 * SECOND - 1));
    assert!(!governor.in_game_mode("wlan0", 40 * SECOND));
}

#[test]
fn game_mode_favours_latency_unless_the_cpu_is_busy() {
    let mut governor = Governor::new(config(), wifi());
    let mut seen = quiet(0);
    seen.counters = Some(NetStats { rx_packets: 0, tx_packets: 0 });
    // Coalescing comes on while idle.
    assert_eq!(governor.tick("wlan0", &seen).set_coalescing, None);
    seen.now_nanos = 2 * SECOND;
    assert_eq!(governor.tick("wlan0", &seen).set_coalescing, Some(true));
    governor.coalescing_applied("wlan0", true);
    // Traffic picks up: game mode, coalescing goes off after two ticks.
    seen.now_nanos = 4 * SECOND;
    seen.counters = Some(NetStats { rx_packets: 10_000, tx_packets: 0 });
    assert_eq!(governor.tick("wlan0", &seen).set_coalescing, None);
    seen.now_nanos = 6 * SECOND;
    seen.counters = Some(NetStats { rx_packets: 20_000, tx_packets: 0 });
    assert_eq!(governor.tick("wlan0", &seen).set_coalescing, Some(false));
    governor.coalescing_applied("wlan0", false);
    // The CPU comes under pressure: coalescing goes back on.
    seen.cpu_load_ppm = 950_000;
    seen.now_nanos = 8 * SECOND;
    assert_eq!(governor.tick("wlan0", &seen).set_coalescing, None);
    seen.now_nanos = 10 * SECOND;
    assert_eq!(governor.tick("wlan0", &seen).set_coalescing, Some(true));
}

#[test]
fn game_mode_deadline_saturates() {
    let mut long = config();
    long.game_mode_cooldown_secs = u64::MAX;
    let mut governor = Governor::new(long, wifi());
    let mut seen = quiet(0);
    seen.counters = Some(NetStats { rx_packets: 0, tx_packets: 0 });
    governor.tick("wlan0", &seen);
    seen.now_nanos = SECOND;
    seen.counters = Some(NetStats { rx_packets: 1_000, tx_packets: 0 });
    governor.tick("wlan0", &seen);
    assert!(governor.in_game_mode("wlan0", u64::MAX - 1));
    assert!(!governor.in_game_mode("wlan0", u64::MAX));
}

#[test]
fn game_mode_can_be_switched_off() {
    let mut off = config();
    off.game_mode_enabled = false;
    let mut governor = Governor::new(off, wifi());
    let mut seen = quiet(0);
    seen.counters = Some(NetStats { rx_packets: 0, tx_packets: 0 });
    governor.tick("wlan0", &seen);
    seen.now_nanos = SECOND;
    seen.counters = Some(NetStats { rx_packets: 100_000, tx_packets: 0 });
    governor.tick("wlan0", &seen);
    assert!(!governor.in_game_mode("wlan0", SECOND));
}

#[test]
fn interfaces_are_kept_apart_and_in_order() {
    let mut governor = Governor::new(config(), wifi());
    assert!(governor.stop().is_empty());
    assert!(!governor.is_tracked("wlan0"));
    let mut battery = quiet(0);
    battery.on_battery = true;
    governor.tick("wlan1", &battery);
    governor.tick("wlan0", &quiet(0));
    governor.tick("wlan1", &battery);
    governor.tick("wlan0", &quiet(0));
    assert!(governor.is_tracked("wlan0"));
    assert!(governor.is_tracked("wlan1"));
    assert!(!governor.is_tracked("wlan"));
    assert_eq!(governor.stop(), vec!["wlan1".to_string(), "wlan0".to_string()]);
    assert_eq!(governor.tick("wlan1", &battery).set_power_save, Some(true));
    assert_eq!(governor.tick("wlan0", &quiet(0)).set_power_save, Some(false));
    assert_eq!(governor.stop().len(), 2);
}

#[test]
fn reports_for_unknown_interfaces_are_dropped() {
    let mut governor = Governor::new(config(), wifi());
    governor.bandwidth_applied("wlan9", 50);
    governor.coalescing_applied("wlan9", true);
    governor.power_save_applied("wlan9", true);
    assert!(!governor.is_tracked("wlan9"));
    assert!(governor.roam_candidate("wlan9").is_none());
    assert!(!governor.in_game_mode("wlan9", 0));
    // A first tick starts from a fresh state all the same.
    let first = governor.tick("wlan9", &quiet(0));
    assert!(nothing(&first));
    assert_eq!(governor.tick("wlan9", &quiet(0)).set_coalescing, Some(true));
}

#[test]
fn one_tick_can_ask_for_everything() {
    let mut cfg = config();
    cfg.roam_hysteresis_ticks = 5;
    let mut governor = Governor::new(cfg, wifi());
    let mut seen = quiet(0);
    seen.bitrate_kbit = 200_000;
    seen.on_battery = true;
    seen.active_ap = Some(ap("aa:00", 60, Band::Ghz2_4));
    seen.access_points = Some(vec![ap("aa:01", 61, Band::Ghz2_4)]);
    let mut last = governor.tick("wlan0", &seen);
    for _ in 0..4 {
        last = governor.tick("wlan0", &seen);
    }
    assert_eq!(last.apply_bandwidth, Some(170));
    assert_eq!(last.set_power_save, None);
    assert_eq!(last.roam_to, Some("aa:01".to_string()));
    assert_eq!(governor.config().roam_hysteresis_ticks, 5);
    assert_eq!(governor.wifi_config().band_bias_6ghz, 20);
}

#[test]
fn coalescing_truth_table() {
    assert!(!should_coalesce(true, false));
    assert!(should_coalesce(true, true));
    assert!(should_coalesce(false, false));
    assert!(should_coalesce(false, true));
}
