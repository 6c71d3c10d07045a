//! Packet counters of an interface and the packet rate derived from them.
//!
//! The kernel exposes, per interface, cumulative counters of the packets
//! received and sent, each as a decimal number in a text file. The host reads
//! the two files and the clock; this module parses the text and turns two
//! readings into a smoothed rate of packets per second.

use crate::fixed::{ema_next, Ema};
use vstd::prelude::*;
use vstd::string::StringExecFns;

verus! {

/// Weight of a new rate in the smoothed rate: 0.3, in parts per million.
pub const PPS_EMA_ALPHA_PPM: u32 = 300_000;

/// White space as Unicode defines it.
pub open spec fn is_whitespace(c: char) -> bool {
    let code = c as u32;
    ||| 0x09 <= code <= 0x0d
    ||| code == 0x20
    ||| code == 0x85
    ||| code == 0xa0
    ||| code == 0x1680
    ||| 0x2000 <= code <= 0x200a
    ||| code == 0x2028
    ||| code == 0x2029
    ||| code == 0x202f
    ||| code == 0x205f
    ||| code == 0x3000
}

/// A decimal digit, `0` to `9`.
pub open spec fn is_digit(c: char) -> bool {
    0x30 <= c as u32 <= 0x39
}

/// `text` without the white space it begins with.
pub open spec fn trim_start(text: Seq<char>) -> Seq<char>
    decreases text.len(),
{
    if text.len() > 0 && is_whitespace(text[0]) {
        trim_start(text.drop_first())
    } else {
        text
    }
}

/// `text` without the white space it ends with.
pub open spec fn trim_end(text: Seq<char>) -> Seq<char>
    decreases text.len(),
{
    if text.len() > 0 && is_whitespace(text.last()) {
        trim_end(text.drop_last())
    } else {
        text
    }
}

/// The number that a sequence of decimal digits writes.
pub open spec fn decimal_value(digits: Seq<char>) -> int
    decreases digits.len(),
{
    if digits.len() == 0 {
        0
    } else {
        decimal_value(digits.drop_last()) * 10 + (digits.last() as u32 - 0x30)
    }
}

/// Whether every character of `text` is a decimal digit.
pub open spec fn all_digits(text: Seq<char>) -> bool {
    forall|i: int| 0 <= i < text.len() ==> is_digit(#[trigger] text[i])
}

/// The counter that `text` holds. White space around the number is ignored,
/// and one `+` may stand before it. The number is written with at least one
/// decimal digit, with nothing but digits, and fits in 64 bits.
pub open spec fn parse_counter(text: Seq<char>) -> Option<u64> {
    let trimmed = trim_end(trim_start(text));
    let digits = if trimmed.len() > 0 && trimmed[0] == '+' {
        trimmed.drop_first()
    } else {
        trimmed
    };
    counter_of_digits(digits)
}

/// The counter that `digits` write: there is none unless there is at least
/// one character, each is a decimal digit, and the number fits in 64 bits.
pub open spec fn counter_of_digits(digits: Seq<char>) -> Option<u64> {
    if digits.len() > 0 && all_digits(digits) && decimal_value(digits) <= u64::MAX {
        Some(decimal_value(digits) as u64)
    } else {
        None
    }
}

/// Dropping leading white space leaves the text from its first character
/// that is none.
pub proof fn lemma_trim_start(text: Seq<char>, start: int)
    requires
        0 <= start <= text.len(),
        forall|i: int| 0 <= i < start ==> is_whitespace(#[trigger] text[i]),
        start < text.len() ==> !is_whitespace(text[start]),
    ensures
        trim_start(text) == text.subrange(start, text.len() as int),
    decreases start,
{
    if start == 0 {
        assert(text.subrange(0, text.len() as int) =~= text);
    } else {
        assert(is_whitespace(text[0]));
        let rest = text.drop_first();
        assert forall|i: int| 0 <= i < start - 1 implies is_whitespace(#[trigger] rest[i]) by {
            assert(rest[i] == text[i + 1]);
        }
        lemma_trim_start(rest, start - 1);
        assert(rest.subrange(start - 1, rest.len() as int) =~= text.subrange(
            start,
            text.len() as int,
        ));
    }
}

/// Dropping trailing white space leaves the text up to its last character
/// that is none.
pub proof fn lemma_trim_end(text: Seq<char>, end: int)
    requires
        0 <= end <= text.len(),
        forall|i: int| end <= i < text.len() ==> is_whitespace(#[trigger] text[i]),
        0 < end ==> !is_whitespace(text[end - 1]),
    ensures
        trim_end(text) == text.subrange(0, end),
    decreases text.len() - end,
{
    if end == text.len() {
        assert(text.subrange(0, end) =~= text);
    } else {
        assert(is_whitespace(text.last()));
        let rest = text.drop_last();
        assert forall|i: int| end <= i < rest.len() implies is_whitespace(#[trigger] rest[i]) by {
            assert(rest[i] == text[i]);
        }
        lemma_trim_end(rest, end);
        assert(rest.subrange(0, end) =~= text.subrange(0, end));
    }
}

/// A number written in digits is at least the number that any of its
/// beginnings writes.
pub proof fn lemma_decimal_prefix(digits: Seq<char>, len: int)
    requires
        all_digits(digits),
        0 <= len <= digits.len(),
    ensures
        0 <= decimal_value(digits.subrange(0, len)) <= decimal_value(digits),
    decreases digits.len() - len,
{
    if len == digits.len() {
        assert(digits.subrange(0, len) =~= digits);
        lemma_decimal_nonnegative(digits);
    } else {
        let shorter = digits.drop_last();
        assert(all_digits(shorter)) by {
            assert forall|i: int| 0 <= i < shorter.len() implies is_digit(#[trigger] shorter[i]) by {
                assert(shorter[i] == digits[i]);
            }
        }
        lemma_decimal_prefix(shorter, len);
        assert(shorter.subrange(0, len) =~= digits.subrange(0, len));
        assert(is_digit(digits.last()));
        lemma_decimal_nonnegative(shorter);
    }
}

/// A number written in digits is not negative.
pub proof fn lemma_decimal_nonnegative(digits: Seq<char>)
    requires
        all_digits(digits),
    ensures
        0 <= decimal_value(digits),
    decreases digits.len(),
{
    if digits.len() > 0 {
        let shorter = digits.drop_last();
        assert forall|i: int| 0 <= i < shorter.len() implies is_digit(#[trigger] shorter[i]) by {
            assert(shorter[i] == digits[i]);
        }
        lemma_decimal_nonnegative(shorter);
        assert(is_digit(digits.last()));
    }
}

/// Whether `c` is white space.
fn char_is_whitespace(c: char) -> (white: bool)
    ensures
        white == is_whitespace(c),
{
    let code: u32 = c as u32;
    (0x09 <= code && code <= 0x0d) || code == 0x20 || code == 0x85 || code == 0xa0 || code
        == 0x1680 || (0x2000 <= code && code <= 0x200a) || code == 0x2028 || code == 0x2029 || code
        == 0x202f || code == 0x205f || code == 0x3000
}

/// One of the kernel's packet counters of an interface.
#[derive(Debug, Clone, Copy, PartialEq, Eq, Structural)]
pub enum Counter {
    RxPackets,
    TxPackets,
}

impl Counter {
    /// The name of the counter's file.
    pub open spec fn file_name(self) -> Seq<char> {
        match self {
            Counter::RxPackets => "rx_packets"@,
            Counter::TxPackets => "tx_packets"@,
        }
    }
}

/// The path of the file in which the kernel exposes a counter of `interface`.
pub open spec fn counter_path(interface: Seq<char>, counter: Counter) -> Seq<char> {
    "/sys/class/net/"@ + interface + "/statistics/"@ + counter.file_name()
}

/// Cumulative packet counters of one interface.
#[derive(Debug, Clone, Copy, PartialEq, Eq, Structural)]
pub struct NetStats {
    pub rx_packets: u64,
    pub tx_packets: u64,
}

impl NetStats {
    /// Packets received and sent, as a mathematical sum.
    pub open spec fn total(&self) -> int {
        self.rx_packets + self.tx_packets
    }

    /// The path of the file the host reads a counter of `interface` from.
    pub fn stat_path(interface: &str, counter: Counter) -> (path: String)
        ensures
            path@ == counter_path(interface@, counter),
    {
        let mut path: String = "/sys/class/net/".to_owned();
        path.append(interface);
        path.append("/statistics/");
        match counter {
            Counter::RxPackets => path.append("rx_packets"),
            Counter::TxPackets => path.append("tx_packets"),
        }
        path
    }

    /// The counters that the two counter files hold: `rx_text` is the content
    /// of the file of received packets, `tx_text` that of sent packets. There
    /// are none unless both hold a counter.
    pub fn read(rx_text: &str, tx_text: &str) -> (stats: Option<NetStats>)
        ensures
            stats == match (parse_counter(rx_text@), parse_counter(tx_text@)) {
                (Some(rx), Some(tx)) => Some(NetStats { rx_packets: rx, tx_packets: tx }),
                _ => None,
            },
    {
        let rx_packets: u64 = match NetStats::read_stat(rx_text) {
            Some(rx) => rx,
            None => {
                return None;
            },
        };
        let tx_packets: u64 = match NetStats::read_stat(tx_text) {
            Some(tx) => tx,
            None => {
                return None;
            },
        };
        Some(NetStats { rx_packets, tx_packets })
    }

    /// The counter that the content of one counter file holds.
    pub fn read_stat(text: &str) -> (value: Option<u64>)
        ensures
            value == parse_counter(text@),
    {
        let len: usize = text.unicode_len();
        let mut start: usize = 0;
        while start < len && char_is_whitespace(text.get_char(start))
            invariant
                len == text@.len(),
                start <= len,
                forall|i: int| 0 <= i < start ==> is_whitespace(#[trigger] text@[i]),
            decreases len - start,
        {
            start += 1;
        }
        let mut end: usize = len;
        while end > start && char_is_whitespace(text.get_char(end - 1))
            invariant
                len == text@.len(),
                start <= end <= len,
                forall|i: int| end <= i < len ==> is_whitespace(#[trigger] text@[i]),
            decreases end,
        {
            end -= 1;
        }
        let ghost front = text@.subrange(start as int, len as int);
        let ghost trimmed = text@.subrange(start as int, end as int);
        proof {
            lemma_trim_start(text@, start as int);
            assert forall|i: int| end - start <= i < front.len() implies is_whitespace(
                #[trigger] front[i],
            ) by {
                assert(front[i] == text@[start + i]);
            }
            lemma_trim_end(front, end - start);
            assert(front.subrange(0, end - start) =~= trimmed);
            assert(trim_end(trim_start(text@)) == trimmed);
        }
        let mut pos: usize = start;
        if pos < end && text.get_char(pos) == '+' {
            pos += 1;
        }
        let ghost digits = text@.subrange(pos as int, end as int);
        proof {
            if pos > start {
                assert(trimmed[0] == '+');
                assert(trimmed.drop_first() =~= digits);
            } else {
                assert(trimmed =~= digits);
                if trimmed.len() > 0 {
                    assert(trimmed[0] == text@[start as int]);
                }
            }
        }
        if pos == end {
            return None;
        }
        let first: usize = pos;
        let mut value: u64 = 0;
        assert(digits.subrange(0, 0) =~= Seq::<char>::empty());
        while pos < end
            invariant
                len == text@.len(),
                first <= pos <= end <= len,
                digits == text@.subrange(first as int, end as int),
                parse_counter(text@) == counter_of_digits(digits),
                all_digits(digits.subrange(0, pos - first)),
                value == decimal_value(digits.subrange(0, pos - first)),
            decreases end - pos,
        {
            let code: u32 = text.get_char(pos) as u32;
            let ghost seen = digits.subrange(0, pos - first);
            let ghost next = digits.subrange(0, pos - first + 1);
            assert(next.drop_last() =~= seen);
            assert(next.last() == text@[pos as int]);
            if code < 0x30 || code > 0x39 {
                assert(!is_digit(digits[pos - first]));
                return None;
            }
            assert(all_digits(next)) by {
                assert forall|i: int| 0 <= i < next.len() implies is_digit(#[trigger] next[i]) by {
                    if i < seen.len() {
                        assert(next[i] == seen[i]);
                    }
                }
            }
            let digit: u64 = (code - 0x30) as u64;
            if value > (u64::MAX - digit) / 10 {
                proof {
                    assert(decimal_value(next) > u64::MAX);
                    if all_digits(digits) {
                        lemma_decimal_prefix(digits, pos - first + 1);
                    }
                }
                return None;
            }
            value = value * 10 + digit;
            pos += 1;
        }
        assert(digits.subrange(0, end - first) =~= digits);
        Some(value)
    }

    /// Total packets (rx + tx).
    pub fn total_packets(&self) -> (total: u64)
        requires
            self.total() <= u64::MAX,
        ensures
            total == self.total(),
    {
        self.rx_packets + self.tx_packets
    }
}

/// Packets counted between two readings. Counters that went down, as they do
/// when an interface is replaced, count as no packets.
pub open spec fn packet_delta(previous: NetStats, current: NetStats) -> int {
    if current.total() >= previous.total() {
        current.total() - previous.total()
    } else {
        0
    }
}

/// Packets per second when `packets` were counted in `elapsed_nanos`
/// nanoseconds, rounded to the nearest whole number (a half rounds up) and
/// capped at `u64::MAX`.
pub open spec fn packet_rate(packets: int, elapsed_nanos: int) -> int {
    let rate = (packets * 1_000_000_000 + elapsed_nanos / 2) / elapsed_nanos;
    if rate > u64::MAX {
        u64::MAX as int
    } else {
        rate
    }
}

/// The state of a packet-rate monitor, as contracts see it.
pub struct Sampler {
    /// The counters of the latest reading.
    pub last_stats: Option<NetStats>,
    /// When the latest reading was taken, in nanoseconds.
    pub last_sample_time: Option<u64>,
    /// The rate between the two latest readings that were apart in time.
    pub current_pps: u64,
    /// The smoothed rate in millionths of a packet per second; `None` until a
    /// rate has been measured.
    pub smoothed: Option<int>,
}

impl Sampler {
    /// A monitor without a reading.
    pub open spec fn fresh() -> Sampler {
        Sampler { last_stats: None, last_sample_time: None, current_pps: 0, smoothed: None }
    }

    /// The rate that a reading taken at `now` measures: none without an
    /// earlier reading, and none unless time has passed since.
    pub open spec fn measured(self, stats: NetStats, now: u64) -> Option<int> {
        match (self.last_stats, self.last_sample_time) {
            (Some(previous), Some(then)) => if now > then {
                Some(packet_rate(packet_delta(previous, stats), now - then))
            } else {
                None
            },
            _ => None,
        }
    }

    /// The monitor after a reading at `now`. A failed reading changes
    /// nothing. Any other is remembered, and the rate it measures, if it
    /// measures one, enters the smoothed rate.
    pub open spec fn sample(self, reading: Option<NetStats>, now: u64) -> Sampler {
        match reading {
            None => self,
            Some(stats) => match self.measured(stats, now) {
                None => Sampler { last_stats: Some(stats), last_sample_time: Some(now), ..self },
                Some(rate) => Sampler {
                    last_stats: Some(stats),
                    last_sample_time: Some(now),
                    current_pps: rate as u64,
                    smoothed: Some(ema_next(PPS_EMA_ALPHA_PPM as int, self.smoothed, rate)),
                },
            },
        }
    }

    /// The smoothed rate in whole packets per second; 0 until a rate has been
    /// measured.
    pub open spec fn smoothed_pps(self) -> int {
        match self.smoothed {
            None => 0,
            Some(m) => crate::fixed::round_micro(m),
        }
    }
}

/// Counters that went down between two readings measure a rate of 0.
pub proof fn lemma_counter_reset_is_zero(sampler: Sampler, stats: NetStats, now: u64)
    requires
        sampler.last_stats is Some,
        sampler.last_sample_time is Some,
        now > sampler.last_sample_time->0,
        stats.total() < sampler.last_stats->0.total(),
    ensures
        sampler.measured(stats, now) == Some(0int),
        sampler.sample(Some(stats), now).current_pps == 0,
{
    let elapsed = now - sampler.last_sample_time->0;
    vstd::arithmetic::div_mod::lemma_basic_div(elapsed / 2, elapsed);
}

/// Packets-per-second monitor of one interface.
pub struct PpsMonitor {
    last_stats: Option<NetStats>,
    last_sample_time: Option<u64>,
    current_pps: u64,
    smoothed_pps: Ema,
}

impl View for PpsMonitor {
    type V = Sampler;

    closed spec fn view(&self) -> Sampler {
        Sampler {
            last_stats: self.last_stats,
            last_sample_time: self.last_sample_time,
            current_pps: self.current_pps,
            smoothed: self.smoothed_pps.value(),
        }
    }
}

impl PpsMonitor {
    /// What holds of every monitor between two calls.
    pub closed spec fn wf(&self) -> bool {
        &&& self.smoothed_pps.wf()
        &&& self.smoothed_pps.alpha() == PPS_EMA_ALPHA_PPM
    }

    /// A monitor without a reading.
    pub fn new() -> (monitor: PpsMonitor)
        ensures
            monitor.wf(),
            monitor@ == Sampler::fresh(),
    {
        PpsMonitor {
            last_stats: None,
            last_sample_time: None,
            current_pps: 0,
            smoothed_pps: Ema::new(PPS_EMA_ALPHA_PPM),
        }
    }

    /// Takes the counters read at `now_nanos` on a monotonic clock, `None`
    /// where they could not be read, and returns the smoothed packet rate.
    pub fn sample(&mut self, reading: Option<NetStats>, now_nanos: u64) -> (pps: u64)
        requires
            old(self).wf(),
        ensures
            final(self).wf(),
            final(self)@ == old(self)@.sample(reading, now_nanos),
            pps == final(self)@.smoothed_pps(),
    {
        let stats: NetStats = match reading {
            Some(stats) => stats,
            None => {
                return self.smoothed_pps.rounded();
            },
        };
        match (self.last_stats, self.last_sample_time) {
            (Some(previous), Some(then)) => {
                if now_nanos > then {
                    let elapsed: u128 = (now_nanos - then) as u128;
                    let current_total: u128 = stats.rx_packets as u128 + stats.tx_packets as u128;
                    let previous_total: u128 = previous.rx_packets as u128
                        + previous.tx_packets as u128;
                    let packet_delta: u128 = if current_total >= previous_total {
                        current_total - previous_total
                    } else {
                        0
                    };
                    let rate: u128 = (packet_delta * 1_000_000_000 + elapsed / 2) / elapsed;
                    self.current_pps = if rate > u64::MAX as u128 {
                        u64::MAX
                    } else {
                        rate as u64
                    };
                    self.smoothed_pps.observe(self.current_pps);
                }
            },
            _ => {},
        }
        self.last_stats = Some(stats);
        self.last_sample_time = Some(now_nanos);
        self.smoothed_pps.rounded()
    }

    /// The smoothed packet rate as of the latest sample.
    pub fn smoothed_pps(&self) -> (pps: u64)
        requires
            self.wf(),
        ensures
            pps == self@.smoothed_pps(),
    {
        self.smoothed_pps.rounded()
    }

    /// The rate between the two latest readings, not smoothed.
    pub fn current_pps(&self) -> (pps: u64)
        ensures
            pps == self@.current_pps,
    {
        self.current_pps
    }
}

impl Default for PpsMonitor {
    fn default() -> (monitor: PpsMonitor)
        ensures
            monitor.wf(),
            monitor@ == Sampler::fresh(),
    {
        PpsMonitor::new()
    }
}

} // verus!
