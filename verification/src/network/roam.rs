//! Band steering: which access point is worth roaming to, and when.
//!
//! Every visible access point has a score, its signal strength plus a bonus
//! for its band. Among the access points of the network the interface is on,
//! the best-scoring one leads; of several with the best score the one listed
//! first does. A leader that beats the current access point must keep leading
//! for a number of ticks before a roam is asked for.

use crate::config::WifiConfig;
use crate::gate::{lemma_fires_at_threshold, Gate, HysteresisGate};
use vstd::prelude::*;

verus! {

/// The radio band of an access point.
#[derive(Debug, Clone, Copy, PartialEq, Eq, Structural)]
pub enum Band {
    Ghz2_4,
    Ghz5,
    Ghz6,
    Unknown,
}

/// An access point as it was seen during one tick.
#[derive(Debug, Clone)]
pub struct AccessPoint {
    /// Hardware address of the access point.
    pub bssid: String,
    /// Name of the network it serves.
    pub ssid: String,
    /// Signal strength in dBm.
    pub signal_strength: i32,
    /// The band it transmits on.
    pub band: Band,
}

/// The bonus of a band.
pub open spec fn band_bias(band: Band, bias_5ghz: i32, bias_6ghz: i32) -> int {
    match band {
        Band::Ghz5 => bias_5ghz as int,
        Band::Ghz6 => bias_6ghz as int,
        _ => 0,
    }
}

impl AccessPoint {
    /// The score: signal strength plus the bonus of the band.
    pub open spec fn score_of(&self, bias_5ghz: i32, bias_6ghz: i32) -> int {
        self.signal_strength + band_bias(self.band, bias_5ghz, bias_6ghz)
    }

    /// The score under the settings `wifi`.
    pub open spec fn rating(&self, wifi: WifiConfig) -> int {
        self.score_of(wifi.band_bias_5ghz, wifi.band_bias_6ghz)
    }

    /// Whether the interface could roam from `current` to this access point:
    /// it serves the same network, it is another access point, and its signal
    /// is not below `min_signal`.
    pub open spec fn eligible(&self, current: AccessPoint, min_signal: i32) -> bool {
        &&& self.ssid@ == current.ssid@
        &&& self.bssid@ != current.bssid@
        &&& self.signal_strength >= min_signal
    }

    /// The score of the access point.
    pub fn score(&self, bias_5ghz: i32, bias_6ghz: i32) -> (score: i64)
        ensures
            score == self.score_of(bias_5ghz, bias_6ghz),
    {
        let bias: i64 = match self.band {
            Band::Ghz5 => bias_5ghz as i64,
            Band::Ghz6 => bias_6ghz as i64,
            _ => 0,
        };
        self.signal_strength as i64 + bias
    }

    /// Whether the interface could roam from `current` to this access point.
    pub fn is_eligible(&self, current: &AccessPoint, min_signal: i32) -> (eligible: bool)
        ensures
            eligible == self.eligible(*current, min_signal),
    {
        self.ssid == current.ssid && self.bssid != current.bssid && self.signal_strength
            >= min_signal
    }
}

/// Whether the access point at `index` leads: it is eligible, none that is
/// eligible scores higher, and none listed before it scores as high.
pub open spec fn leads(
    visible: Seq<AccessPoint>,
    current: AccessPoint,
    wifi: WifiConfig,
    index: int,
) -> bool {
    &&& 0 <= index < visible.len()
    &&& visible[index].eligible(current, wifi.min_signal_dbm)
    &&& forall|j: int|
        0 <= j < visible.len() && (#[trigger] visible[j]).eligible(current, wifi.min_signal_dbm)
            ==> visible[j].rating(wifi) <= visible[index].rating(wifi)
    &&& forall|j: int|
        0 <= j < index && (#[trigger] visible[j]).eligible(current, wifi.min_signal_dbm)
            ==> visible[j].rating(wifi) < visible[index].rating(wifi)
}

/// The index of the access point that leads, if any is eligible.
pub open spec fn leader(visible: Seq<AccessPoint>, current: AccessPoint, wifi: WifiConfig) -> Option<
    int,
> {
    if exists|i: int| leads(visible, current, wifi, i) {
        Some(choose|i: int| leads(visible, current, wifi, i))
    } else {
        None
    }
}

/// At most one access point leads.
pub proof fn lemma_leader_unique(
    visible: Seq<AccessPoint>,
    current: AccessPoint,
    wifi: WifiConfig,
    a: int,
    b: int,
)
    requires
        leads(visible, current, wifi, a),
        leads(visible, current, wifi, b),
    ensures
        a == b,
{
    if a < b {
        assert(visible[a].rating(wifi) < visible[b].rating(wifi));
        assert(visible[b].rating(wifi) <= visible[a].rating(wifi));
    } else if b < a {
        assert(visible[b].rating(wifi) < visible[a].rating(wifi));
        assert(visible[a].rating(wifi) <= visible[b].rating(wifi));
    }
}

/// Of two eligible access points that share the highest score, the one listed
/// first leads, provided that none listed before it has that score too.
pub proof fn lemma_first_seen_wins(
    visible: Seq<AccessPoint>,
    current: AccessPoint,
    wifi: WifiConfig,
    first: int,
    second: int,
)
    requires
        0 <= first < second < visible.len(),
        visible[first].eligible(current, wifi.min_signal_dbm),
        visible[second].eligible(current, wifi.min_signal_dbm),
        visible[first].rating(wifi) == visible[second].rating(wifi),
        forall|j: int|
            0 <= j < visible.len() && (#[trigger] visible[j]).eligible(current, wifi.min_signal_dbm)
                ==> visible[j].rating(wifi) <= visible[first].rating(wifi),
        forall|j: int|
            0 <= j < first && (#[trigger] visible[j]).eligible(current, wifi.min_signal_dbm)
                ==> visible[j].rating(wifi) < visible[first].rating(wifi),
    ensures
        leader(visible, current, wifi) == Some(first),
        !leads(visible, current, wifi, second),
{
    assert(leads(visible, current, wifi, first));
    let chosen = choose|i: int| leads(visible, current, wifi, i);
    lemma_leader_unique(visible, current, wifi, chosen, first);
}

/// The access point to roam to from `current`: the index in `visible` of the
/// one that leads, `None` where none is eligible.
pub fn best_candidate(current: &AccessPoint, visible: &Vec<AccessPoint>, wifi: &WifiConfig) -> (best:
    Option<usize>)
    ensures
        match best {
            Some(index) => leads(visible@, *current, *wifi, index as int),
            None => forall|j: int|
                0 <= j < visible@.len() ==> !(#[trigger] visible@[j]).eligible(
                    *current,
                    wifi.min_signal_dbm,
                ),
        },
        match best {
            Some(index) => leader(visible@, *current, *wifi) == Some(index as int),
            None => leader(visible@, *current, *wifi).is_none(),
        },
{
    let mut best: Option<usize> = None;
    let mut best_score: i64 = 0;
    let mut i: usize = 0;
    while i < visible.len()
        invariant
            i <= visible@.len(),
            match best {
                Some(index) => {
                    &&& index < i
                    &&& leads(visible@.subrange(0, i as int), *current, *wifi, index as int)
                    &&& best_score == visible@[index as int].rating(*wifi)
                },
                None => forall|j: int|
                    0 <= j < i ==> !(#[trigger] visible@[j]).eligible(*current, wifi.min_signal_dbm),
            },
        decreases visible@.len() - i,
    {
        let ghost seen = visible@.subrange(0, i as int);
        let ghost grown = visible@.subrange(0, i + 1);
        let ap = &visible[i];
        if ap.is_eligible(current, wifi.min_signal_dbm) {
            let score: i64 = ap.score(wifi.band_bias_5ghz, wifi.band_bias_6ghz);
            let better: bool = match best {
                Some(_) => score > best_score,
                None => true,
            };
            if better {
                proof {
                    assert forall|j: int|
                        0 <= j < grown.len() && (#[trigger] grown[j]).eligible(
                            *current,
                            wifi.min_signal_dbm,
                        ) implies grown[j].rating(*wifi) <= grown[i as int].rating(*wifi) by {
                        if j < i {
                            assert(seen[j] == grown[j]);
                        }
                    }
                    assert forall|j: int|
                        0 <= j < i && (#[trigger] grown[j]).eligible(
                            *current,
                            wifi.min_signal_dbm,
                        ) implies grown[j].rating(*wifi) < grown[i as int].rating(*wifi) by {
                        assert(seen[j] == grown[j]);
                    }
                }
                best = Some(i);
                best_score = score;
            } else {
                proof {
                    let index = best->0 as int;
                    assert forall|j: int|
                        0 <= j < grown.len() && (#[trigger] grown[j]).eligible(
                            *current,
                            wifi.min_signal_dbm,
                        ) implies grown[j].rating(*wifi) <= grown[index].rating(*wifi) by {
                        if j < i {
                            assert(seen[j] == grown[j]);
                        }
                    }
                    assert forall|j: int|
                        0 <= j < index && (#[trigger] grown[j]).eligible(
                            *current,
                            wifi.min_signal_dbm,
                        ) implies grown[j].rating(*wifi) < grown[index].rating(*wifi) by {
                        assert(seen[j] == grown[j]);
                    }
                }
            }
        } else {
            proof {
                if best is Some {
                    let index = best->0 as int;
                    assert forall|j: int|
                        0 <= j < grown.len() && (#[trigger] grown[j]).eligible(
                            *current,
                            wifi.min_signal_dbm,
                        ) implies grown[j].rating(*wifi) <= grown[index].rating(*wifi) by {
                        if j < i {
                            assert(seen[j] == grown[j]);
                        }
                    }
                    assert forall|j: int|
                        0 <= j < index && (#[trigger] grown[j]).eligible(
                            *current,
                            wifi.min_signal_dbm,
                        ) implies grown[j].rating(*wifi) < grown[index].rating(*wifi) by {
                        assert(seen[j] == grown[j]);
                    }
                }
            }
        }
        i += 1;
    }
    proof {
        assert(visible@.subrange(0, i as int) =~= visible@);
        match best {
            Some(index) => {
                let chosen = choose|k: int| leads(visible@, *current, *wifi, k);
                lemma_leader_unique(visible@, *current, *wifi, chosen, index as int);
            },
            None => {
                assert forall|k: int| !leads(visible@, *current, *wifi, k) by {
                    if 0 <= k < visible@.len() {
                        assert(!visible@[k].eligible(*current, wifi.min_signal_dbm));
                    }
                }
            },
        }
    }
    best
}

/// The access point that leads, and for how long it has led.
#[derive(Debug, Clone)]
pub struct RoamCandidate {
    /// Hardware address of the leader.
    pub bssid: String,
    /// Its latest score.
    pub score: i64,
    /// Consecutive ticks it has led.
    pub consecutive_ticks: u32,
}

/// The state of band steering on one interface, as contracts see it.
pub struct Steering {
    /// Counts the ticks of the leader. Nothing is ever in effect on it: it
    /// serves as a counter only.
    pub gate: Gate<Option<Seq<char>>>,
    /// The latest score of the leader.
    pub score: int,
}

/// What a tick proposes to roam to: the hardware address and the score of
/// the access point that leads, if it scores higher than the current one.
pub open spec fn proposal(current: AccessPoint, visible: Seq<AccessPoint>, wifi: WifiConfig) -> Option<
    (Seq<char>, int),
> {
    match leader(visible, current, wifi) {
        Some(index) => if visible[index].rating(wifi) > current.rating(wifi) {
            Some((visible[index].bssid@, visible[index].rating(wifi)))
        } else {
            None
        },
        None => None,
    }
}

impl Steering {
    /// Nothing is in effect, and what waits is an access point.
    pub open spec fn wf(self) -> bool {
        &&& self.gate.wf()
        &&& self.gate.applied is None
        &&& self.gate.pending matches Some(waiting) ==> waiting is Some
    }

    /// Steering that tracks no access point.
    pub open spec fn idle(hysteresis_ticks: nat) -> Steering {
        Steering { gate: Gate::idle(None, hysteresis_ticks), score: 0 }
    }

    /// Steering after a tick on which no access point beat the current one,
    /// or after a roam: no access point is tracked.
    pub open spec fn reset(self) -> Steering {
        Steering { gate: self.gate.cleared(), ..self }
    }

    /// Steering after a tick. An access point that beats the current one is
    /// proposed to its gate; without one the tracking starts over.
    pub open spec fn observe(
        self,
        current: AccessPoint,
        visible: Seq<AccessPoint>,
        wifi: WifiConfig,
    ) -> Steering {
        match proposal(current, visible, wifi) {
            Some((bssid, score)) => Steering { gate: self.gate.propose(Some(bssid)), score },
            None => self.reset(),
        }
    }

    /// The access point to roam to on this tick: the one proposed, if the
    /// proposal fires its gate.
    pub open spec fn roam_target(
        self,
        current: AccessPoint,
        visible: Seq<AccessPoint>,
        wifi: WifiConfig,
    ) -> Option<Seq<char>> {
        match proposal(current, visible, wifi) {
            Some((bssid, _)) => if self.gate.fires(Some(bssid)) {
                Some(bssid)
            } else {
                None
            },
            None => None,
        }
    }

    /// The tracked access point as `(bssid, score, consecutive ticks)`.
    pub open spec fn candidate(self) -> Option<(Seq<char>, int, nat)> {
        match self.gate.pending {
            Some(Some(bssid)) => Some((bssid, self.score, self.gate.stable_ticks)),
            _ => None,
        }
    }
}

/// After a roam was asked for, no access point is tracked: the count starts
/// over even if the same access point leads again.
pub proof fn lemma_roam_clears_candidate(
    steering: Steering,
    current: AccessPoint,
    visible: Seq<AccessPoint>,
    wifi: WifiConfig,
)
    requires
        steering.wf(),
        steering.roam_target(current, visible, wifi) is Some,
    ensures
        steering.observe(current, visible, wifi).candidate() is None,
        steering.observe(current, visible, wifi).gate.stable_ticks == 0,
{
}

impl Steering {
    /// Steering after the same access points have been seen on `ticks` ticks
    /// in a row.
    pub open spec fn observe_repeatedly(
        self,
        current: AccessPoint,
        visible: Seq<AccessPoint>,
        wifi: WifiConfig,
        ticks: nat,
    ) -> Steering
        decreases ticks,
    {
        if ticks == 0 {
            self
        } else {
            self.observe_repeatedly(current, visible, wifi, (ticks - 1) as nat).observe(
                current,
                visible,
                wifi,
            )
        }
    }
}

/// An access point that beats the current one and keeps leading is roamed to
/// on the tick that completes the threshold, and on none before. Until then
/// it is tracked with the number of ticks it has led; with the roam the
/// tracking is cleared.
pub proof fn lemma_roam_fires_at_threshold(
    steering: Steering,
    current: AccessPoint,
    visible: Seq<AccessPoint>,
    wifi: WifiConfig,
    tick: nat,
)
    requires
        steering.wf(),
        steering.candidate() is None,
        steering.gate.threshold >= 1,
        proposal(current, visible, wifi) is Some,
        1 <= tick <= steering.gate.threshold,
    ensures
        ({
            let (bssid, score) = proposal(current, visible, wifi)->0;
            let before = steering.observe_repeatedly(current, visible, wifi, (tick - 1) as nat);
            let after = steering.observe_repeatedly(current, visible, wifi, tick);
            &&& after.gate == steering.gate.propose_repeatedly(Some(bssid), tick)
            &&& tick < steering.gate.threshold ==> {
                &&& before.roam_target(current, visible, wifi) is None
                &&& after.candidate() == Some((bssid, score, tick))
            }
            &&& tick == steering.gate.threshold ==> {
                &&& before.roam_target(current, visible, wifi) == Some(bssid)
                &&& after.candidate() is None
            }
        }),
    decreases tick,
{
    let (bssid, score) = proposal(current, visible, wifi)->0;
    reveal_with_fuel(Steering::observe_repeatedly, 2);
    reveal_with_fuel(Gate::propose_repeatedly, 2);
    if tick > 1 {
        lemma_roam_fires_at_threshold(steering, current, visible, wifi, (tick - 1) as nat);
        lemma_fires_at_threshold(steering.gate, Some(bssid), (tick - 1) as nat);
    }
    lemma_fires_at_threshold(steering.gate, Some(bssid), tick);
}

/// Tracks the access point that leads on one interface.
pub struct RoamTracker {
    gate: HysteresisGate<Option<String>>,
    score: i64,
}

impl View for RoamTracker {
    type V = Steering;

    closed spec fn view(&self) -> Steering {
        Steering { gate: self.gate@, score: self.score as int }
    }
}

impl RoamTracker {
    /// A tracker that asks for a roam once an access point has led for
    /// `hysteresis_ticks` ticks in a row.
    pub fn new(hysteresis_ticks: u32) -> (tracker: RoamTracker)
        ensures
            tracker@ == Steering::idle(hysteresis_ticks as nat),
            tracker@.wf(),
    {
        RoamTracker { gate: HysteresisGate::new(None, hysteresis_ticks), score: 0 }
    }

    /// Takes the access points seen on this tick and returns the hardware
    /// address of the one to roam to, if the time for a roam has come.
    pub fn observe(
        &mut self,
        current: &AccessPoint,
        visible: &Vec<AccessPoint>,
        wifi: &WifiConfig,
    ) -> (roam_to: Option<String>)
        requires
            old(self)@.wf(),
        ensures
            final(self)@.wf(),
            final(self)@ == old(self)@.observe(*current, visible@, *wifi),
            match roam_to {
                Some(bssid) => old(self)@.roam_target(*current, visible@, *wifi) == Some(bssid@),
                None => old(self)@.roam_target(*current, visible@, *wifi) is None,
            },
    {
        let current_score: i64 = current.score(wifi.band_bias_5ghz, wifi.band_bias_6ghz);
        match best_candidate(current, visible, wifi) {
            Some(index) => {
                let best = &visible[index];
                let candidate_score: i64 = best.score(wifi.band_bias_5ghz, wifi.band_bias_6ghz);
                if candidate_score > current_score {
                    self.score = candidate_score;
                    let fire: bool = self.gate.propose(Some(best.bssid.clone()));
                    if fire {
                        Some(best.bssid.clone())
                    } else {
                        None
                    }
                } else {
                    self.gate.clear();
                    None
                }
            },
            None => {
                self.gate.clear();
                None
            },
        }
    }

    /// Stops tracking.
    pub fn reset(&mut self)
        ensures
            final(self)@ == old(self)@.reset(),
    {
        self.gate.clear();
    }

    /// The tracked access point, if there is one.
    pub fn candidate(&self) -> (candidate: Option<RoamCandidate>)
        ensures
            match candidate {
                Some(c) => self@.candidate() == Some(
                    (c.bssid@, c.score as int, c.consecutive_ticks as nat),
                ),
                None => self@.candidate() is None,
            },
    {
        match self.gate.pending() {
            Some(Some(bssid)) => Some(
                RoamCandidate {
                    bssid: bssid.clone(),
                    score: self.score,
                    consecutive_ticks: self.gate.stable_ticks(),
                },
            ),
            _ => None,
        }
    }
}

} // verus!
