//! What the daemon is configured with. Nothing here changes while it runs.
//!
//! Fractions are held in parts per million: a weight of 0.1 is `100_000`.

use crate::fixed::PPM;
use vstd::prelude::*;

verus! {

/// Settings of the control loop.
#[derive(Debug, Clone, Copy)]
pub struct GovernorConfig {
    /// Seconds between two ticks.
    pub tick_interval_secs: u64,
    /// Whether the shaping bandwidth follows the link's bitrate.
    pub breathing_cake_enabled: bool,
    /// Weight of a new median in the smoothed bandwidth, in parts per million.
    pub cake_ema_alpha_ppm: u32,
    /// Smallest change of the bandwidth, in Mbit, that is worth applying.
    pub cake_change_threshold_mbit: u32,
    /// Smallest relative change of the bandwidth that is worth applying, in
    /// parts per million.
    pub cake_change_threshold_pct_ppm: u32,
    /// Share of the link's bitrate that is usable after protocol overhead, in
    /// parts per million.
    pub cake_overhead_factor_ppm: u32,
    /// Readings the CPU monitor averages over.
    pub cpu_avg_window_size: usize,
    /// Whether interrupt coalescing follows the load.
    pub cpu_coalescing_enabled: bool,
    /// CPU load above which the CPU counts as under pressure, in parts per
    /// million of full load.
    pub cpu_coalescing_threshold_ppm: u32,
    /// Whether a high packet rate switches an interface to game mode.
    pub game_mode_enabled: bool,
    /// Packets per second above which an interface is in game mode.
    pub game_mode_pps_threshold: u64,
    /// Seconds an interface stays in game mode after the rate was last high.
    pub game_mode_cooldown_secs: u64,
    /// Whether a better access point of the same network is roamed to.
    pub band_steering_enabled: bool,
    /// Consecutive ticks a better access point must lead before a roam.
    pub roam_hysteresis_ticks: u32,
}

impl GovernorConfig {
    /// A smoothing weight is at most one whole.
    pub open spec fn valid(&self) -> bool {
        self.cake_ema_alpha_ppm <= PPM
    }

    /// Whether the settings can be run with.
    pub fn is_valid(&self) -> (valid: bool)
        ensures
            valid == self.valid(),
    {
        self.cake_ema_alpha_ppm <= PPM
    }
}

/// Settings of band steering.
#[derive(Debug, Clone, Copy)]
pub struct WifiConfig {
    /// Added to the score of an access point on the 5 GHz band.
    pub band_bias_5ghz: i32,
    /// Added to the score of an access point on the 6 GHz band.
    pub band_bias_6ghz: i32,
    /// Weakest signal, in dBm, of an access point worth roaming to.
    pub min_signal_dbm: i32,
}

} // verus!
