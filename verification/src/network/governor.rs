//! The governor: what happens on one tick.
//!
//! For every active wireless interface the host hands in what it observed on
//! this tick. The governor advances the interface's filters and gates in a
//! fixed order (game mode, shaping bandwidth, interrupt coalescing, power
//! save, band steering) and hands back what is to be done. The host carries
//! that out and reports each success, so that a change that failed is
//! proposed again by the ticks that follow.

use crate::config::{GovernorConfig, WifiConfig};
use crate::fixed::portion;
use crate::gate::{Gate, HysteresisGate};
use crate::network::roam::{AccessPoint, RoamCandidate, RoamTracker, Steering};
use crate::network::stats::{NetStats, PpsMonitor, Sampler};
use crate::network::tc::{lemma_update_wf, Smoother, TcManager};
use vstd::prelude::*;

verus! {

/// Nanoseconds in a second.
pub const NANOS_PER_SEC: u64 = 1_000_000_000;

/// Ticks a coalescing setting must be wanted before it is applied.
pub const COALESCING_TICKS: u32 = 2;

/// Ticks a power-save setting must be wanted before it is applied.
pub const POWER_SAVE_TICKS: u32 = 3;

/// When game mode ends if the packet rate was high at `now`: `cooldown_secs`
/// later, or at the end of time where that is out of range.
pub open spec fn deadline_after(now: u64, cooldown_secs: u64) -> u64 {
    let deadline = now + cooldown_secs * NANOS_PER_SEC;
    if deadline > u64::MAX {
        u64::MAX
    } else {
        deadline as u64
    }
}

/// The later of the deadline that stands and a new one.
pub open spec fn extended(standing: Option<u64>, deadline: u64) -> Option<u64> {
    match standing {
        Some(until) => if until >= deadline {
            Some(until)
        } else {
            Some(deadline)
        },
        None => Some(deadline),
    }
}

/// Whether an interface is in game mode at `now`.
pub open spec fn in_game_mode(game_mode_until: Option<u64>, now: u64) -> bool {
    match game_mode_until {
        Some(until) => now < until,
        None => false,
    }
}

/// Whether interrupts are to be coalesced: always, except in game mode while
/// the CPU is not under pressure, when latency counts for more.
pub open spec fn coalescing_desired(in_game: bool, high_cpu: bool) -> bool {
    !(in_game && !high_cpu)
}

/// The bandwidth (Mbit) that a link of `bitrate_kbit` can carry after
/// protocol overhead: whole Mbit of the bitrate times the overhead factor,
/// rounded down.
pub open spec fn usable_mbit(bitrate_kbit: u32, overhead_factor_ppm: u32) -> u32 {
    let scaled = portion(bitrate_kbit as int / 1000, overhead_factor_ppm as int);
    if scaled > u32::MAX {
        u32::MAX
    } else {
        scaled as u32
    }
}

/// What the host observed of one interface on one tick.
#[derive(Debug, Clone)]
pub struct Observation {
    /// The time of the tick on a monotonic clock, in nanoseconds.
    pub now_nanos: u64,
    /// The interface's packet counters, `None` where they could not be read.
    pub counters: Option<NetStats>,
    /// The link's bitrate in kbit/s; 0 where it is not known.
    pub bitrate_kbit: u32,
    /// The CPU load in parts per million of full load.
    pub cpu_load_ppm: u32,
    /// Whether the machine runs on battery.
    pub on_battery: bool,
    /// The access point the interface is associated with.
    pub active_ap: Option<AccessPoint>,
    /// The access points in sight, `None` where they could not be listed.
    pub access_points: Option<Vec<AccessPoint>>,
}

/// What the host is to do for one interface after a tick.
#[derive(Debug, Clone)]
pub struct Actions {
    /// Set the shaper to this bandwidth (Mbit).
    pub apply_bandwidth: Option<u32>,
    /// Switch interrupt coalescing on or off.
    pub set_coalescing: Option<bool>,
    /// Switch power save on or off.
    pub set_power_save: Option<bool>,
    /// Ask for a scan, to roam to the access point with this address.
    pub roam_to: Option<String>,
}

/// `Actions`, as contracts see them.
pub struct Plan {
    pub apply_bandwidth: Option<u32>,
    pub set_coalescing: Option<bool>,
    pub set_power_save: Option<bool>,
    pub roam_to: Option<Seq<char>>,
}

impl View for Actions {
    type V = Plan;

    open spec fn view(&self) -> Plan {
        Plan {
            apply_bandwidth: self.apply_bandwidth,
            set_coalescing: self.set_coalescing,
            set_power_save: self.set_power_save,
            roam_to: match self.roam_to {
                Some(bssid) => Some(bssid@),
                None => None,
            },
        }
    }
}

/// The state kept for one interface, as contracts see it.
pub struct InterfaceModel {
    pub sampler: Sampler,
    pub smoother: Smoother,
    pub steering: Steering,
    /// Until when the interface is in game mode.
    pub game_mode_until: Option<u64>,
    pub coalescing: Gate<bool>,
    /// Power save starts out unknown: `None` is in effect until a setting has
    /// been applied.
    pub power_save: Gate<Option<bool>>,
}

impl InterfaceModel {
    /// What holds of every interface between two calls.
    pub open spec fn wf(self) -> bool {
        &&& self.smoother.wf()
        &&& self.steering.wf()
        &&& self.coalescing.wf()
        &&& self.power_save.wf()
    }

    /// The state of an interface that is seen for the first time.
    pub open spec fn fresh(config: GovernorConfig) -> InterfaceModel {
        InterfaceModel {
            sampler: Sampler::fresh(),
            smoother: Smoother::fresh(
                config.cake_ema_alpha_ppm as int,
                config.cake_change_threshold_mbit as int,
                config.cake_change_threshold_pct_ppm as int,
            ),
            steering: Steering::idle(config.roam_hysteresis_ticks as nat),
            game_mode_until: None,
            coalescing: Gate::idle(false, COALESCING_TICKS as nat),
            power_save: Gate::idle(None, POWER_SAVE_TICKS as nat),
        }
    }

    /// Game mode: the packet counters are sampled, and a smoothed rate above
    /// the threshold moves the end of game mode to a cooldown from now. The
    /// end is never moved back.
    pub open spec fn observe_traffic(
        self,
        config: GovernorConfig,
        reading: Option<NetStats>,
        now: u64,
    ) -> InterfaceModel {
        if config.game_mode_enabled {
            let sampler = self.sampler.sample(reading, now);
            InterfaceModel {
                sampler,
                game_mode_until: if sampler.smoothed_pps() > config.game_mode_pps_threshold {
                    extended(
                        self.game_mode_until,
                        deadline_after(now, config.game_mode_cooldown_secs),
                    )
                } else {
                    self.game_mode_until
                },
                ..self
            }
        } else {
            self
        }
    }

    /// Shaping: a known bitrate, less the overhead, enters the smoother, and
    /// an approved change asks for the smoother's target.
    pub open spec fn shape(self, config: GovernorConfig, bitrate_kbit: u32) -> (
        InterfaceModel,
        Option<u32>,
    ) {
        if config.breathing_cake_enabled && bitrate_kbit > 0 {
            let (smoother, approved) = self.smoother.update(
                usable_mbit(bitrate_kbit, config.cake_overhead_factor_ppm),
            );
            (
                InterfaceModel { smoother, ..self },
                if approved {
                    Some(smoother.target() as u32)
                } else {
                    None
                },
            )
        } else {
            (self, None)
        }
    }

    /// Coalescing: the setting wanted at this load is proposed to its gate.
    pub open spec fn coalesce(self, config: GovernorConfig, now: u64, cpu_load_ppm: u32) -> (
        InterfaceModel,
        Option<bool>,
    ) {
        if config.cpu_coalescing_enabled {
            let desired = coalescing_desired(
                in_game_mode(self.game_mode_until, now),
                cpu_load_ppm > config.cpu_coalescing_threshold_ppm,
            );
            (
                InterfaceModel { coalescing: self.coalescing.propose(desired), ..self },
                if self.coalescing.fires(desired) {
                    Some(desired)
                } else {
                    None
                },
            )
        } else {
            (self, None)
        }
    }

    /// Power save: on battery it is wanted on, otherwise off; the wish is
    /// proposed to its gate.
    pub open spec fn save_power(self, on_battery: bool) -> (InterfaceModel, Option<bool>) {
        (
            InterfaceModel { power_save: self.power_save.propose(Some(on_battery)), ..self },
            if self.power_save.fires(Some(on_battery)) {
                Some(on_battery)
            } else {
                None
            },
        )
    }

    /// Band steering: runs only while the interface is associated and the
    /// access points could be listed.
    pub open spec fn steer(
        self,
        config: GovernorConfig,
        wifi: WifiConfig,
        active_ap: Option<AccessPoint>,
        access_points: Option<Vec<AccessPoint>>,
    ) -> (InterfaceModel, Option<Seq<char>>) {
        if config.band_steering_enabled && active_ap is Some && access_points is Some {
            let current = active_ap->0;
            let visible = access_points->0@;
            (
                InterfaceModel { steering: self.steering.observe(current, visible, wifi), ..self },
                self.steering.roam_target(current, visible, wifi),
            )
        } else {
            (self, None)
        }
    }

    /// One tick: the five steps in their order, each on the state the one
    /// before it left.
    pub open spec fn tick(self, config: GovernorConfig, wifi: WifiConfig, seen: Observation) -> (
        InterfaceModel,
        Plan,
    ) {
        let sampled = self.observe_traffic(config, seen.counters, seen.now_nanos);
        let (shaped, apply_bandwidth) = sampled.shape(config, seen.bitrate_kbit);
        let (coalesced, set_coalescing) = shaped.coalesce(
            config,
            seen.now_nanos,
            seen.cpu_load_ppm,
        );
        let (saved, set_power_save) = coalesced.save_power(seen.on_battery);
        let (steered, roam_to) = saved.steer(config, wifi, seen.active_ap, seen.access_points);
        (steered, Plan { apply_bandwidth, set_coalescing, set_power_save, roam_to })
    }

    /// The state after the shaper was set to `mbit`.
    pub open spec fn bandwidth_applied(self, mbit: u32) -> InterfaceModel {
        InterfaceModel { smoother: self.smoother.commit(mbit), ..self }
    }

    /// The state after coalescing was switched.
    pub open spec fn coalescing_applied(self, enabled: bool) -> InterfaceModel {
        InterfaceModel { coalescing: self.coalescing.commit(enabled), ..self }
    }

    /// The state after power save was switched.
    pub open spec fn power_save_applied(self, enabled: bool) -> InterfaceModel {
        InterfaceModel { power_save: self.power_save.commit(Some(enabled)), ..self }
    }
}

/// Interrupts are coalesced unless the interface is in game mode and the CPU
/// is not under pressure.
pub proof fn lemma_coalescing_policy()
    ensures
        coalescing_desired(true, false) == false,
        coalescing_desired(true, true) == true,
        coalescing_desired(false, false) == true,
        coalescing_desired(false, true) == true,
{
}

/// The end of game mode never moves back, whatever the packet rate.
pub proof fn lemma_game_mode_only_extends(
    state: InterfaceModel,
    config: GovernorConfig,
    reading: Option<NetStats>,
    now: u64,
)
    ensures
        state.game_mode_until matches Some(until) ==> {
            &&& state.observe_traffic(config, reading, now).game_mode_until is Some
            &&& state.observe_traffic(config, reading, now).game_mode_until->0 >= until
        },
{
}

/// A step changes nothing of the other subsystems: shaping leaves the gates
/// alone, and so on. This is why a failure in one of them needs no rollback.
pub proof fn lemma_steps_independent(
    state: InterfaceModel,
    config: GovernorConfig,
    wifi: WifiConfig,
    seen: Observation,
)
    ensures
        state.shape(config, seen.bitrate_kbit).0 == (InterfaceModel {
            smoother: state.shape(config, seen.bitrate_kbit).0.smoother,
            ..state
        }),
        state.coalesce(config, seen.now_nanos, seen.cpu_load_ppm).0 == (InterfaceModel {
            coalescing: state.coalesce(config, seen.now_nanos, seen.cpu_load_ppm).0.coalescing,
            ..state
        }),
        state.save_power(seen.on_battery).0 == (InterfaceModel {
            power_save: state.save_power(seen.on_battery).0.power_save,
            ..state
        }),
        state.steer(config, wifi, seen.active_ap, seen.access_points).0 == (InterfaceModel {
            steering: state.steer(config, wifi, seen.active_ap, seen.access_points).0.steering,
            ..state
        }),
{
}

/// Whether interrupts are to be coalesced.
pub fn should_coalesce(in_game: bool, high_cpu: bool) -> (desired: bool)
    ensures
        desired == coalescing_desired(in_game, high_cpu),
{
    if in_game && high_cpu {
        true
    } else if in_game {
        false
    } else {
        true
    }
}

/// Everything the governor keeps for one interface.
pub struct InterfaceState {
    pps_monitor: PpsMonitor,
    tc_manager: TcManager,
    roam_candidate: RoamTracker,
    game_mode_until: Option<u64>,
    coalescing: HysteresisGate<bool>,
    power_save: HysteresisGate<Option<bool>>,
}

impl View for InterfaceState {
    type V = InterfaceModel;

    closed spec fn view(&self) -> InterfaceModel {
        InterfaceModel {
            sampler: self.pps_monitor@,
            smoother: self.tc_manager@,
            steering: self.roam_candidate@,
            game_mode_until: self.game_mode_until,
            coalescing: self.coalescing@,
            power_save: self.power_save@,
        }
    }
}

impl InterfaceState {
    /// What holds of every interface between two calls.
    pub closed spec fn wf(&self) -> bool {
        &&& self@.wf()
        &&& self.pps_monitor.wf()
        &&& self.tc_manager.wf()
    }

    /// The state of an interface that is seen for the first time: nothing
    /// sampled, coalescing off, power save unknown, no access point tracked.
    pub fn new(config: &GovernorConfig) -> (state: InterfaceState)
        requires
            config.valid(),
        ensures
            state.wf(),
            state@ == InterfaceModel::fresh(*config),
    {
        InterfaceState {
            pps_monitor: PpsMonitor::new(),
            tc_manager: TcManager::new(
                config.cake_ema_alpha_ppm,
                config.cake_change_threshold_mbit,
                config.cake_change_threshold_pct_ppm,
            ),
            roam_candidate: RoamTracker::new(config.roam_hysteresis_ticks),
            game_mode_until: None,
            coalescing: HysteresisGate::new(false, COALESCING_TICKS),
            power_save: HysteresisGate::new(None, POWER_SAVE_TICKS),
        }
    }

    /// Game-mode step of a tick.
    pub fn observe_traffic(
        &mut self,
        config: &GovernorConfig,
        reading: Option<NetStats>,
        now_nanos: u64,
    )
        requires
            old(self).wf(),
        ensures
            final(self).wf(),
            final(self)@ == old(self)@.observe_traffic(*config, reading, now_nanos),
    {
        if config.game_mode_enabled {
            let pps: u64 = self.pps_monitor.sample(reading, now_nanos);
            if pps > config.game_mode_pps_threshold {
                let deadline: u64 = match config.game_mode_cooldown_secs.checked_mul(
                    NANOS_PER_SEC,
                ) {
                    Some(cooldown) => match now_nanos.checked_add(cooldown) {
                        Some(deadline) => deadline,
                        None => u64::MAX,
                    },
                    None => u64::MAX,
                };
                self.game_mode_until = match self.game_mode_until {
                    Some(until) => if until >= deadline {
                        Some(until)
                    } else {
                        Some(deadline)
                    },
                    None => Some(deadline),
                };
            }
        }
    }

    /// Whether the interface is in game mode at `now_nanos`.
    pub fn in_game_mode(&self, now_nanos: u64) -> (in_game: bool)
        ensures
            in_game == in_game_mode(self@.game_mode_until, now_nanos),
    {
        match self.game_mode_until {
            Some(until) => now_nanos < until,
            None => false,
        }
    }

    /// Shaping step of a tick. Returns the bandwidth (Mbit) to set the shaper
    /// to, if a change is approved.
    pub fn shape(&mut self, config: &GovernorConfig, bitrate_kbit: u32) -> (apply: Option<u32>)
        requires
            old(self).wf(),
        ensures
            final(self).wf(),
            final(self)@ == old(self)@.shape(*config, bitrate_kbit).0,
            apply == old(self)@.shape(*config, bitrate_kbit).1,
    {
        if config.breathing_cake_enabled && bitrate_kbit > 0 {
            let bitrate_mbit: u64 = (bitrate_kbit / 1000) as u64;
            assert(bitrate_mbit * config.cake_overhead_factor_ppm as u64 <= 0xffff_ffff
                * 0xffff_ffff) by (nonlinear_arith)
                requires
                    bitrate_mbit <= 0xffff_ffff,
                    config.cake_overhead_factor_ppm <= 0xffff_ffff,
            ;
            let scaled: u64 = bitrate_mbit * config.cake_overhead_factor_ppm as u64 / 1_000_000;
            let scaled_mbit: u32 = if scaled > u32::MAX as u64 {
                u32::MAX
            } else {
                scaled as u32
            };
            let approved: bool = self.tc_manager.update_bandwidth(scaled_mbit);
            proof {
                self.tc_manager.lemma_wf_model();
            }
            if approved {
                Some(self.tc_manager.current_target())
            } else {
                None
            }
        } else {
            None
        }
    }

    /// Coalescing step of a tick. Returns the setting to switch to, if its
    /// gate fires.
    pub fn coalesce(&mut self, config: &GovernorConfig, now_nanos: u64, cpu_load_ppm: u32) -> (set:
        Option<bool>)
        requires
            old(self).wf(),
        ensures
            final(self).wf(),
            final(self)@ == old(self)@.coalesce(*config, now_nanos, cpu_load_ppm).0,
            set == old(self)@.coalesce(*config, now_nanos, cpu_load_ppm).1,
    {
        if config.cpu_coalescing_enabled {
            let in_game: bool = self.in_game_mode(now_nanos);
            let high_cpu: bool = cpu_load_ppm > config.cpu_coalescing_threshold_ppm;
            let desired: bool = should_coalesce(in_game, high_cpu);
            if self.coalescing.propose(desired) {
                Some(desired)
            } else {
                None
            }
        } else {
            None
        }
    }

    /// Power-save step of a tick. Returns the setting to switch to, if its
    /// gate fires.
    pub fn save_power(&mut self, on_battery: bool) -> (set: Option<bool>)
        requires
            old(self).wf(),
        ensures
            final(self).wf(),
            final(self)@ == old(self)@.save_power(on_battery).0,
            set == old(self)@.save_power(on_battery).1,
    {
        if self.power_save.propose(Some(on_battery)) {
            Some(on_battery)
        } else {
            None
        }
    }

    /// Band-steering step of a tick. Returns the address of the access point
    /// to roam to, if the time for a roam has come.
    pub fn steer(
        &mut self,
        config: &GovernorConfig,
        wifi: &WifiConfig,
        active_ap: &Option<AccessPoint>,
        access_points: &Option<Vec<AccessPoint>>,
    ) -> (roam_to: Option<String>)
        requires
            old(self).wf(),
        ensures
            final(self).wf(),
            final(self)@ == old(self)@.steer(*config, *wifi, *active_ap, *access_points).0,
            match roam_to {
                Some(bssid) => old(self)@.steer(*config, *wifi, *active_ap, *access_points).1
                    == Some(bssid@),
                None => old(self)@.steer(*config, *wifi, *active_ap, *access_points).1 is None,
            },
    {
        if !config.band_steering_enabled {
            return None;
        }
        match (active_ap, access_points) {
            (Some(current), Some(visible)) => self.roam_candidate.observe(current, visible, wifi),
            _ => None,
        }
    }

    /// One tick of this interface.
    pub fn tick(&mut self, config: &GovernorConfig, wifi: &WifiConfig, seen: &Observation) -> (actions:
        Actions)
        requires
            old(self).wf(),
        ensures
            final(self).wf(),
            final(self)@ == old(self)@.tick(*config, *wifi, *seen).0,
            actions@ == old(self)@.tick(*config, *wifi, *seen).1,
    {
        self.observe_traffic(config, seen.counters, seen.now_nanos);
        let apply_bandwidth: Option<u32> = self.shape(config, seen.bitrate_kbit);
        let set_coalescing: Option<bool> = self.coalesce(config, seen.now_nanos, seen.cpu_load_ppm);
        let set_power_save: Option<bool> = self.save_power(seen.on_battery);
        let roam_to: Option<String> = self.steer(config, wifi, &seen.active_ap, &seen.access_points);
        Actions { apply_bandwidth, set_coalescing, set_power_save, roam_to }
    }

    /// Records that the shaper was set to `mbit`.
    pub fn bandwidth_applied(&mut self, mbit: u32)
        requires
            old(self).wf(),
        ensures
            final(self).wf(),
            final(self)@ == old(self)@.bandwidth_applied(mbit),
    {
        self.tc_manager.set_last_applied(mbit);
        proof {
            self.tc_manager.lemma_wf_model();
        }
    }

    /// Records that coalescing was switched.
    pub fn coalescing_applied(&mut self, enabled: bool)
        requires
            old(self).wf(),
        ensures
            final(self).wf(),
            final(self)@ == old(self)@.coalescing_applied(enabled),
    {
        self.coalescing.commit(enabled);
    }

    /// Records that power save was switched.
    pub fn power_save_applied(&mut self, enabled: bool)
        requires
            old(self).wf(),
        ensures
            final(self).wf(),
            final(self)@ == old(self)@.power_save_applied(enabled),
    {
        self.power_save.commit(Some(enabled));
    }

    /// The access point that is tracked for a roam, if there is one.
    pub fn roam_candidate(&self) -> (candidate: Option<RoamCandidate>)
        ensures
            match candidate {
                Some(c) => self@.steering.candidate() == Some(
                    (c.bssid@, c.score as int, c.consecutive_ticks as nat),
                ),
                None => self@.steering.candidate() is None,
            },
    {
        self.roam_candidate.candidate()
    }
}

/// An interface the governor keeps state for, as contracts see it.
pub struct Entry {
    pub name: Seq<char>,
    pub state: InterfaceModel,
}

/// The governor, as contracts see it: its settings and the interfaces it has
/// seen, in the order in which it first saw them.
pub struct Fleet {
    pub config: GovernorConfig,
    pub wifi: WifiConfig,
    pub entries: Seq<Entry>,
}

impl Fleet {
    /// The settings are valid, every interface is well formed, and no
    /// interface is kept twice.
    pub open spec fn wf(self) -> bool {
        &&& self.config.valid()
        &&& forall|i: int| 0 <= i < self.entries.len() ==> (#[trigger] self.entries[i]).state.wf()
        &&& forall|i: int, j: int|
            0 <= i < j < self.entries.len() ==> (#[trigger] self.entries[i]).name != (
            #[trigger] self.entries[j]).name
    }

    /// A governor that has seen no interface.
    pub open spec fn empty(config: GovernorConfig, wifi: WifiConfig) -> Fleet {
        Fleet { config, wifi, entries: Seq::empty() }
    }

    /// Whether the entry at `index` is the interface `name`.
    pub open spec fn tracks(self, name: Seq<char>, index: int) -> bool {
        0 <= index < self.entries.len() && self.entries[index].name == name
    }

    /// Where the interface `name` is kept, if it is.
    pub open spec fn position(self, name: Seq<char>) -> Option<int> {
        if exists|i: int| self.tracks(name, i) {
            Some(choose|i: int| self.tracks(name, i))
        } else {
            None
        }
    }

    /// The state of the interface `name`: the one kept, or that of an
    /// interface seen for the first time.
    pub open spec fn state_of(self, name: Seq<char>) -> InterfaceModel {
        match self.position(name) {
            Some(index) => self.entries[index].state,
            None => InterfaceModel::fresh(self.config),
        }
    }

    /// The governor with `state` kept for the interface `name`. An interface
    /// that is new is added behind the others.
    pub open spec fn with_state(self, name: Seq<char>, state: InterfaceModel) -> Fleet {
        let entry = Entry { name, state };
        match self.position(name) {
            Some(index) => Fleet { entries: self.entries.update(index, entry), ..self },
            None => Fleet { entries: self.entries.push(entry), ..self },
        }
    }

    /// One tick of the interface `name`. Only that interface changes.
    pub open spec fn tick(self, name: Seq<char>, seen: Observation) -> (Fleet, Plan) {
        let (state, plan) = self.state_of(name).tick(self.config, self.wifi, seen);
        (self.with_state(name, state), plan)
    }

    /// The governor after the shaper of `name` was set to `mbit`. Of an
    /// interface that is not kept nothing is recorded.
    pub open spec fn bandwidth_applied(self, name: Seq<char>, mbit: u32) -> Fleet {
        if self.position(name) is Some {
            self.with_state(name, self.state_of(name).bandwidth_applied(mbit))
        } else {
            self
        }
    }

    /// The governor after coalescing was switched on `name`.
    pub open spec fn coalescing_applied(self, name: Seq<char>, enabled: bool) -> Fleet {
        if self.position(name) is Some {
            self.with_state(name, self.state_of(name).coalescing_applied(enabled))
        } else {
            self
        }
    }

    /// The governor after power save was switched on `name`.
    pub open spec fn power_save_applied(self, name: Seq<char>, enabled: bool) -> Fleet {
        if self.position(name) is Some {
            self.with_state(name, self.state_of(name).power_save_applied(enabled))
        } else {
            self
        }
    }

    /// The names of the interfaces, in the order in which they were first
    /// seen.
    pub open spec fn names(self) -> Seq<Seq<char>> {
        Seq::new(self.entries.len(), |i: int| self.entries[i].name)
    }
}

/// An interface is kept at one place at most.
pub proof fn lemma_position_unique(fleet: Fleet, name: Seq<char>, index: int)
    requires
        fleet.wf(),
        fleet.tracks(name, index),
    ensures
        fleet.position(name) == Some(index),
{
    let chosen = choose|i: int| fleet.tracks(name, i);
    if chosen < index {
        assert(fleet.entries[chosen].name != fleet.entries[index].name);
    } else if index < chosen {
        assert(fleet.entries[index].name != fleet.entries[chosen].name);
    }
}

/// A tick of one interface leaves the state of every other interface as it
/// was: interfaces share nothing.
pub proof fn lemma_tick_isolated(fleet: Fleet, name: Seq<char>, seen: Observation, other: Seq<char>)
    requires
        fleet.wf(),
        other != name,
    ensures
        fleet.tick(name, seen).0.position(other) == fleet.position(other),
        fleet.tick(name, seen).0.state_of(other) == fleet.state_of(other),
{
    let after = fleet.tick(name, seen).0;
    assert(after.config == fleet.config);
    assert forall|i: int| fleet.tracks(other, i) implies after.tracks(other, i) by {}
    assert forall|i: int| after.tracks(other, i) implies fleet.tracks(other, i) by {}
    lemma_tick_wf(fleet, name, seen);
    if exists|i: int| fleet.tracks(other, i) {
        let i = choose|i: int| fleet.tracks(other, i);
        assert(after.tracks(other, i));
        lemma_position_unique(after, other, i);
    } else {
        assert forall|i: int| !after.tracks(other, i) by {
            if after.tracks(other, i) {
                assert(fleet.tracks(other, i));
            }
        }
    }
}

/// An interface that has had a tick is kept from then on, and no tick drops
/// an interface: at most one is added.
pub proof fn lemma_tick_keeps_interfaces(fleet: Fleet, name: Seq<char>, seen: Observation)
    requires
        fleet.wf(),
    ensures
        fleet.tick(name, seen).0.position(name) is Some,
        fleet.tick(name, seen).0.state_of(name) == fleet.state_of(name).tick(
            fleet.config,
            fleet.wifi,
            seen,
        ).0,
        fleet.position(name) is Some ==> fleet.tick(name, seen).0.names() == fleet.names(),
        fleet.position(name) is None ==> fleet.tick(name, seen).0.names() == fleet.names().push(
            name,
        ),
{
    let after = fleet.tick(name, seen).0;
    lemma_tick_wf(fleet, name, seen);
    match fleet.position(name) {
        Some(index) => {
            assert(after.tracks(name, index));
            lemma_position_unique(after, name, index);
            assert(after.names() =~= fleet.names());
        },
        None => {
            let index = fleet.entries.len() as int;
            assert(after.tracks(name, index));
            lemma_position_unique(after, name, index);
            assert(after.names() =~= fleet.names().push(name));
        },
    }
}

/// A step of one interface keeps it well formed.
pub proof fn lemma_interface_tick_wf(
    state: InterfaceModel,
    config: GovernorConfig,
    wifi: WifiConfig,
    seen: Observation,
)
    requires
        state.wf(),
    ensures
        state.tick(config, wifi, seen).0.wf(),
{
    let sampled = state.observe_traffic(config, seen.counters, seen.now_nanos);
    lemma_update_wf(
        sampled.smoother,
        usable_mbit(seen.bitrate_kbit, config.cake_overhead_factor_ppm),
    );
}

/// A tick keeps the governor well formed.
pub proof fn lemma_tick_wf(fleet: Fleet, name: Seq<char>, seen: Observation)
    requires
        fleet.wf(),
    ensures
        fleet.tick(name, seen).0.wf(),
{
    let after = fleet.tick(name, seen).0;
    let before = fleet.state_of(name);
    assert(before.wf());
    lemma_interface_tick_wf(before, fleet.config, fleet.wifi, seen);
    match fleet.position(name) {
        Some(index) => {},
        None => {
            assert forall|i: int| 0 <= i < fleet.entries.len() implies (
            #[trigger] fleet.entries[i]).name != name by {
                assert(!fleet.tracks(name, i));
            }
        },
    }
}

/// State kept for one interface under its name.
struct TrackedInterface {
    name: String,
    state: InterfaceState,
}

/// The network governor: the settings and the state of every interface that
/// was ever seen active. Nothing else holds on to that state.
pub struct Governor {
    config: GovernorConfig,
    wifi_config: WifiConfig,
    interface_states: Vec<TrackedInterface>,
}

impl View for Governor {
    type V = Fleet;

    closed spec fn view(&self) -> Fleet {
        Fleet {
            config: self.config,
            wifi: self.wifi_config,
            entries: Seq::new(
                self.interface_states@.len(),
                |i: int|
                    Entry {
                        name: self.interface_states@[i].name@,
                        state: self.interface_states@[i].state@,
                    },
            ),
        }
    }
}

impl Governor {
    /// What holds of every governor between two calls.
    pub closed spec fn wf(&self) -> bool {
        &&& self@.wf()
        &&& forall|i: int|
            0 <= i < self.interface_states@.len() ==> (#[trigger] self.interface_states@[i]).state.wf()
    }

    /// The model of a well-formed governor is well formed.
    pub proof fn lemma_wf_model(&self)
        requires
            self.wf(),
        ensures
            self@.wf(),
    {
    }

    /// A governor with the given settings that has seen no interface.
    pub fn new(config: GovernorConfig, wifi_config: WifiConfig) -> (governor: Governor)
        requires
            config.valid(),
        ensures
            governor.wf(),
            governor@ == Fleet::empty(config, wifi_config),
    {
        let governor = Governor { config, wifi_config, interface_states: Vec::new() };
        assert(governor@.entries =~= Seq::empty());
        governor
    }

    /// The settings of the control loop.
    pub fn config(&self) -> (config: &GovernorConfig)
        ensures
            *config == self@.config,
    {
        &self.config
    }

    /// The settings of band steering.
    pub fn wifi_config(&self) -> (wifi: &WifiConfig)
        ensures
            *wifi == self@.wifi,
    {
        &self.wifi_config
    }

    /// Where the state of `interface` is kept, if it is.
    fn find(&self, interface: &String) -> (found: Option<usize>)
        requires
            self.wf(),
        ensures
            found matches Some(index) ==> index < self.interface_states@.len(),
            match found {
                Some(index) => self@.position(interface@) == Some(index as int),
                None => self@.position(interface@) is None,
            },
    {
        let mut i: usize = 0;
        while i < self.interface_states.len()
            invariant
                self.wf(),
                i <= self.interface_states@.len(),
                forall|j: int| 0 <= j < i ==> !self@.tracks(interface@, j),
            decreases self.interface_states@.len() - i,
        {
            if self.interface_states[i].name == *interface {
                proof {
                    assert(self@.tracks(interface@, i as int));
                    lemma_position_unique(self@, interface@, i as int);
                }
                return Some(i);
            }
            i += 1;
        }
        None
    }

    /// Whether state is kept for `interface`.
    pub fn is_tracked(&self, interface: &str) -> (known: bool)
        requires
            self.wf(),
        ensures
            known == self@.position(interface@).is_some(),
    {
        let name: String = interface.to_owned();
        self.find(&name).is_some()
    }

    /// One tick of `interface`, which the host found active: takes what was
    /// observed of it and returns what is to be done. An interface that is
    /// seen for the first time starts from a fresh state.
    pub fn tick(&mut self, interface: &str, seen: &Observation) -> (actions: Actions)
        requires
            old(self).wf(),
        ensures
            final(self).wf(),
            final(self)@ == old(self)@.tick(interface@, *seen).0,
            actions@ == old(self)@.tick(interface@, *seen).1,
    {
        let name: String = interface.to_owned();
        let config: GovernorConfig = self.config;
        let wifi: WifiConfig = self.wifi_config;
        let found: Option<usize> = self.find(&name);
        let index: usize = match found {
            Some(index) => index,
            None => {
                self.interface_states.push(
                    TrackedInterface { name, state: InterfaceState::new(&config) },
                );
                self.interface_states.len() - 1
            },
        };
        let ghost before = self.interface_states@;
        let actions: Actions = self.interface_states[index].state.tick(&config, &wifi, seen);
        proof {
            let expected = old(self)@.tick(interface@, *seen).0;
            assert(self.interface_states@.len() == before.len());
            assert forall|i: int| 0 <= i < before.len() && i != index implies self.interface_states@[i]
                == before[i] by {}
            assert(self.interface_states@[index as int].name == before[index as int].name);
            assert(self@.entries =~= expected.entries);
            lemma_tick_wf(old(self)@, interface@, *seen);
        }
        actions
    }

    /// Records that the shaper of `interface` was set to `mbit`.
    pub fn bandwidth_applied(&mut self, interface: &str, mbit: u32)
        requires
            old(self).wf(),
        ensures
            final(self).wf(),
            final(self)@ == old(self)@.bandwidth_applied(interface@, mbit),
    {
        let name: String = interface.to_owned();
        match self.find(&name) {
            Some(index) => {
                let ghost before = self.interface_states@;
                self.interface_states[index].state.bandwidth_applied(mbit);
                proof {
                    assert(self.interface_states@[index as int].name == before[index as int].name);
                    assert(self@.entries =~= old(self)@.bandwidth_applied(
                        interface@,
                        mbit,
                    ).entries);
                }
            },
            None => {},
        }
    }

    /// Records that coalescing was switched on `interface`.
    pub fn coalescing_applied(&mut self, interface: &str, enabled: bool)
        requires
            old(self).wf(),
        ensures
            final(self).wf(),
            final(self)@ == old(self)@.coalescing_applied(interface@, enabled),
    {
        let name: String = interface.to_owned();
        match self.find(&name) {
            Some(index) => {
                let ghost before = self.interface_states@;
                self.interface_states[index].state.coalescing_applied(enabled);
                proof {
                    assert(self.interface_states@[index as int].name == before[index as int].name);
                    assert(self@.entries =~= old(self)@.coalescing_applied(
                        interface@,
                        enabled,
                    ).entries);
                }
            },
            None => {},
        }
    }

    /// Records that power save was switched on `interface`.
    pub fn power_save_applied(&mut self, interface: &str, enabled: bool)
        requires
            old(self).wf(),
        ensures
            final(self).wf(),
            final(self)@ == old(self)@.power_save_applied(interface@, enabled),
    {
        let name: String = interface.to_owned();
        match self.find(&name) {
            Some(index) => {
                let ghost before = self.interface_states@;
                self.interface_states[index].state.power_save_applied(enabled);
                proof {
                    assert(self.interface_states@[index as int].name == before[index as int].name);
                    assert(self@.entries =~= old(self)@.power_save_applied(
                        interface@,
                        enabled,
                    ).entries);
                }
            },
            None => {},
        }
    }

    /// The access point that `interface` is tracking for a roam, if any.
    pub fn roam_candidate(&self, interface: &str) -> (candidate: Option<RoamCandidate>)
        requires
            self.wf(),
        ensures
            match candidate {
                Some(c) => self@.state_of(interface@).steering.candidate() == Some(
                    (c.bssid@, c.score as int, c.consecutive_ticks as nat),
                ),
                None => self@.state_of(interface@).steering.candidate() is None,
            },
    {
        let name: String = interface.to_owned();
        match self.find(&name) {
            Some(index) => self.interface_states[index].state.roam_candidate(),
            None => None,
        }
    }

    /// Whether `interface` is in game mode at `now_nanos`.
    pub fn in_game_mode(&self, interface: &str, now_nanos: u64) -> (in_game: bool)
        requires
            self.wf(),
        ensures
            in_game == in_game_mode(self@.state_of(interface@).game_mode_until, now_nanos),
    {
        let name: String = interface.to_owned();
        match self.find(&name) {
            Some(index) => self.interface_states[index].state.in_game_mode(now_nanos),
            None => false,
        }
    }

    /// Stops the governor: returns the interfaces whose shaper is to be
    /// removed, which is every interface that was ever seen.
    pub fn stop(&self) -> (interfaces: Vec<String>)
        ensures
            interfaces@.len() == self@.names().len(),
            forall|i: int| 0 <= i < interfaces@.len() ==> (#[trigger] interfaces@[i])@ == self@.names()[i],
    {
        let mut interfaces: Vec<String> = Vec::new();
        let mut i: usize = 0;
        while i < self.interface_states.len()
            invariant
                i <= self.interface_states@.len(),
                interfaces@.len() == i,
                forall|j: int| 0 <= j < i ==> (#[trigger] interfaces@[j])@ == self@.names()[j],
            decreases self.interface_states@.len() - i,
        {
            interfaces.push(self.interface_states[i].name.clone());
            i += 1;
        }
        interfaces
    }
}

} // verus!
