//! Per-hop statistics: bounded RTT and jitter histories, derived metrics
//! (best/worst/average/exponential moving average), loss accounting, the
//! chronological packet-outcome timeline, and multi-path bookkeeping.
//!
//! Times are nanosecond counts; the loss percentage and the smoothing
//! factor are held in thousandths (milli-percent and milli-units), so all
//! arithmetic is exact integer arithmetic.

use vstd::prelude::*;

use crate::addr::IpAddress;

verus! {

/// Bound on every per-hop history: RTTs, jitters and packet outcomes each
/// keep only this many entries, oldest evicted first.
pub const HISTORY_CAP: usize = 100;

/// The outcome of one sent probe, kept in chronological order.
#[derive(Debug, Clone, Copy, PartialEq, Eq, Structural)]
pub enum PacketOutcome {
    /// Answered, with the measured round-trip time in nanoseconds.
    Received(u64),
    /// Timed out with no response.
    Lost,
    /// Sent but not yet resolved.
    Pending,
}

/// A secondary responding address seen on a hop that load-balances or
/// flaps between routes.
#[derive(Debug, Clone)]
pub struct AlternatePath {
    pub addr: IpAddress,
    pub hostname: Option<String>,
    pub frequency: usize,
    /// When this address last answered, in nanoseconds of the session clock.
    pub last_seen: u64,
    /// Last round-trip time from this address, in nanoseconds.
    pub last_rtt: Option<u64>,
    pub avg_rtt: Option<u64>,
}

impl AlternatePath {
    pub fn new(addr: IpAddress, now: u64) -> (r: AlternatePath)
        ensures
            r.addr == addr,
            r.hostname is None,
            r.frequency == 1,
            r.last_seen == now,
            r.last_rtt is None,
            r.avg_rtt is None,
    {
        AlternatePath {
            addr,
            hostname: None,
            frequency: 1,
            last_seen: now,
            last_rtt: None,
            avg_rtt: None,
        }
    }

    pub fn update(&mut self, rtt: u64, now: u64)
        requires
            old(self).frequency < usize::MAX,
        ensures
            final(self).addr == old(self).addr,
            final(self).hostname == old(self).hostname,
            final(self).frequency == old(self).frequency + 1,
            final(self).last_seen == now,
            final(self).last_rtt == Some(rtt),
            final(self).avg_rtt == Some(rtt),
    {
        self.frequency = self.frequency + 1;
        self.last_seen = now;
        self.last_rtt = Some(rtt);
        self.avg_rtt = Some(rtt);
    }
}

/// Sum of a sequence of nanosecond counts.
pub open spec fn sum_ns(s: Seq<u64>) -> int
    decreases s.len(),
{
    if s.len() == 0 {
        0
    } else {
        sum_ns(s.drop_last()) + s.last()
    }
}

pub proof fn lemma_sum_ns_bounds(s: Seq<u64>)
    ensures
        0 <= sum_ns(s) <= s.len() * (u64::MAX as int),
    decreases s.len(),
{
    if s.len() > 0 {
        lemma_sum_ns_bounds(s.drop_last());
    }
}

/// Push onto a history that keeps at most `HISTORY_CAP` entries: the
/// oldest entry is evicted once the bound would be exceeded.
pub open spec fn push_capped<T>(s: Seq<T>, x: T) -> Seq<T> {
    let t = s.push(x);
    if t.len() > HISTORY_CAP {
        t.drop_first()
    } else {
        t
    }
}

/// Append to a bounded history, evicting the oldest entry at the cap.
fn push_capped_deque<T>(q: &mut std::collections::VecDeque<T>, x: T)
    requires
        old(q)@.len() <= HISTORY_CAP,
    ensures
        final(q)@ == push_capped(old(q)@, x),
        final(q)@.len() <= HISTORY_CAP,
{
    q.push_back(x);
    if q.len() > HISTORY_CAP {
        let ghost before = q@;
        let popped = q.pop_front();
        proof {
            assert(q@ =~= before.drop_first());
        }
    }
}

/// Whether any entry of the timeline is still pending.
pub open spec fn has_pending(s: Seq<PacketOutcome>) -> bool {
    exists|i: int| 0 <= i < s.len() && s[i] is Pending
}

/// How a timeline changes when its oldest pending entry is resolved to
/// `r`: exactly that entry is replaced, everything else is untouched; a
/// timeline without a pending entry does not change at all.
pub open spec fn resolves_oldest_pending(
    s: Seq<PacketOutcome>,
    r: PacketOutcome,
    t: Seq<PacketOutcome>,
) -> bool {
    if has_pending(s) {
        exists|i: int|
            0 <= i < s.len() && s[i] is Pending && (forall|k: int|
                0 <= k < i ==> !(s[k] is Pending)) && t == s.update(i, r)
    } else {
        t == s
    }
}

/// Replace the oldest pending entry of the timeline with `r`; reports
/// whether there was one.
fn resolve_oldest_pending(
    q: &mut std::collections::VecDeque<PacketOutcome>,
    r: PacketOutcome,
) -> (changed: bool)
    ensures
        resolves_oldest_pending(old(q)@, r, final(q)@),
        changed == has_pending(old(q)@),
        final(q)@.len() == old(q)@.len(),
{
    let n = q.len();
    let mut j: usize = 0;
    while j < n
        invariant
            0 <= j <= n,
            n == q@.len(),
            q@ == old(q)@,
            forall|k: int| 0 <= k < j ==> !(q@[k] is Pending),
        decreases n - j,
    {
        let cur = q[j];
        if matches!(cur, PacketOutcome::Pending) {
            let ghost before = q@;
            q.remove(j);
            q.insert(j, r);
            proof {
                assert(q@ =~= before.update(j as int, r));
            }
            return true;
        }
        j = j + 1;
    }
    proof {
        assert(!has_pending(q@));
    }
    false
}

/// Loss in thousandths of a percent: lost probes over sent probes, with
/// the received count clamped to the sent count; zero before anything was
/// sent.
pub open spec fn loss_milli_of(sent: int, received: int) -> int {
    if sent <= 0 {
        0
    } else {
        let r = if received <= sent {
            received
        } else {
            sent
        };
        ((sent - r) * 100_000) / sent
    }
}

pub proof fn lemma_loss_milli_bounds(sent: int, received: int)
    requires
        sent >= 0,
        received >= 0,
    ensures
        0 <= loss_milli_of(sent, received) <= 100_000,
{
    if sent > 0 {
        let r = if received <= sent {
            received
        } else {
            sent
        };
        let lost = sent - r;
        assert(0 <= lost <= sent);
        vstd::arithmetic::mul::lemma_mul_inequality(lost, sent, 100_000);
        vstd::arithmetic::div_mod::lemma_div_is_ordered(lost * 100_000, sent * 100_000, sent);
        vstd::arithmetic::div_mod::lemma_div_by_multiple(100_000, sent);
        vstd::arithmetic::div_mod::lemma_div_pos_is_pos(lost * 100_000, sent);
        vstd::arithmetic::mul::lemma_mul_nonnegative(lost, 100_000);
    }
}

/// One step of the exponential moving average with smoothing factor
/// `alpha_milli` thousandths: `alpha * rtt + (1 - alpha) * prev`.
pub open spec fn ema_next(alpha_milli: u32, rtt: u64, prev: u64) -> int {
    (alpha_milli * rtt + (1000 - alpha_milli) * prev) / 1000
}

proof fn lemma_ema_next_bounds(alpha_milli: u32, rtt: u64, prev: u64)
    requires
        alpha_milli <= 1000,
    ensures
        0 <= ema_next(alpha_milli, rtt, prev) <= u64::MAX,
{
    let m: int = if rtt >= prev {
        rtt as int
    } else {
        prev as int
    };
    vstd::arithmetic::mul::lemma_mul_upper_bound(alpha_milli as int, 1000, rtt as int, m);
    vstd::arithmetic::mul::lemma_mul_upper_bound(
        1000 - alpha_milli as int,
        1000,
        prev as int,
        m,
    );
    vstd::arithmetic::mul::lemma_mul_is_distributive_add_other_way(
        m,
        alpha_milli as int,
        1000 - alpha_milli as int,
    );
    vstd::arithmetic::mul::lemma_mul_upper_bound(alpha_milli as int, alpha_milli as int, rtt as int, m);
    assert(alpha_milli * rtt + (1000 - alpha_milli) * prev <= 1000 * m) by {
        vstd::arithmetic::mul::lemma_mul_inequality(rtt as int, m, alpha_milli as int);
        vstd::arithmetic::mul::lemma_mul_inequality(prev as int, m, 1000 - alpha_milli as int);
        vstd::arithmetic::mul::lemma_mul_is_commutative(alpha_milli as int, rtt as int);
        vstd::arithmetic::mul::lemma_mul_is_commutative(1000 - alpha_milli as int, prev as int);
        vstd::arithmetic::mul::lemma_mul_is_commutative(1000, m);
    }
    vstd::arithmetic::div_mod::lemma_div_is_ordered(
        alpha_milli * rtt + (1000 - alpha_milli) * prev,
        1000 * m,
        1000,
    );
    vstd::arithmetic::div_mod::lemma_div_by_multiple(m, 1000);
    vstd::arithmetic::mul::lemma_mul_nonnegative(alpha_milli as int, rtt as int);
    vstd::arithmetic::mul::lemma_mul_nonnegative(1000 - alpha_milli as int, prev as int);
    vstd::arithmetic::div_mod::lemma_div_pos_is_pos(
        alpha_milli * rtt + (1000 - alpha_milli) * prev,
        1000,
    );
}

/// One exact step of the exponential moving average.
fn ema_step(alpha_milli: u32, rtt: u64, prev: u64) -> (r: u64)
    requires
        alpha_milli <= 1000,
    ensures
        r as int == ema_next(alpha_milli, rtt, prev),
{
    proof {
        lemma_ema_next_bounds(alpha_milli, rtt, prev);
    }
    let acc: u128 = (alpha_milli as u128) * (rtt as u128) + (1000 - alpha_milli as u128) * (prev
        as u128);
    (acc / 1000) as u64
}

/// Arithmetic mean of a non-empty history, truncated to nanoseconds.
fn average_ns(q: &std::collections::VecDeque<u64>) -> (r: u64)
    requires
        q@.len() > 0,
        q@.len() <= HISTORY_CAP,
    ensures
        r as int == sum_ns(q@) / q@.len() as int,
{
    let n = q.len();
    let mut sum: u128 = 0;
    let mut j: usize = 0;
    proof {
        lemma_sum_ns_bounds(q@);
    }
    while j < n
        invariant
            0 <= j <= n,
            n == q@.len() <= HISTORY_CAP,
            sum == sum_ns(q@.take(j as int)),
            0 <= sum_ns(q@) <= q@.len() * (u64::MAX as int),
            0 <= sum <= sum_ns(q@),
        decreases n - j,
    {
        let x = q[j];
        proof {
            assert(q@.take(j as int + 1).drop_last() =~= q@.take(j as int));
            assert(q@.take(j as int + 1).last() == q@[j as int]);
            lemma_sum_ns_bounds(q@.take(j as int + 1));
            lemma_sum_prefix_le(q@, j as int + 1);
        }
        sum = sum + x as u128;
        j = j + 1;
    }
    proof {
        assert(q@.take(n as int) =~= q@);
        vstd::arithmetic::div_mod::lemma_div_is_ordered(
            sum_ns(q@),
            q@.len() * (u64::MAX as int),
            q@.len() as int,
        );
        vstd::arithmetic::div_mod::lemma_div_by_multiple(u64::MAX as int, q@.len() as int);
        vstd::arithmetic::mul::lemma_mul_is_commutative(q@.len() as int, u64::MAX as int);
        vstd::arithmetic::div_mod::lemma_div_pos_is_pos(sum_ns(q@), q@.len() as int);
    }
    (sum / (n as u128)) as u64
}

proof fn lemma_sum_prefix_le(s: Seq<u64>, i: int)
    requires
        0 <= i <= s.len(),
    ensures
        sum_ns(s.take(i)) <= sum_ns(s),
    decreases s.len() - i,
{
    if i < s.len() {
        lemma_sum_prefix_le(s, i + 1);
        assert(s.take(i + 1).drop_last() =~= s.take(i));
    } else {
        assert(s.take(i) =~= s);
    }
}

/// No address occurs twice in an observation-count table.
pub open spec fn unique_counts(s: Seq<(IpAddress, usize)>) -> bool {
    forall|i: int, j: int| 0 <= i < j < s.len() ==> s[i].0 != s[j].0
}

/// How often address `a` has been observed according to the table; zero
/// if the table has no entry for it.
pub open spec fn count_for(s: Seq<(IpAddress, usize)>, a: IpAddress) -> int {
    if exists|i: int| 0 <= i < s.len() && s[i].0 == a {
        let i = choose|i: int| 0 <= i < s.len() && s[i].0 == a;
        s[i].1 as int
    } else {
        0
    }
}

/// Total of all observation counts in the table.
pub open spec fn sum_counts(s: Seq<(IpAddress, usize)>) -> int
    decreases s.len(),
{
    if s.len() == 0 {
        0
    } else {
        sum_counts(s.drop_last()) + s.last().1
    }
}

proof fn lemma_sum_counts_nonneg(s: Seq<(IpAddress, usize)>)
    ensures
        sum_counts(s) >= 0,
    decreases s.len(),
{
    if s.len() > 0 {
        lemma_sum_counts_nonneg(s.drop_last());
    }
}

proof fn lemma_sum_counts_update(s: Seq<(IpAddress, usize)>, k: int, e: (IpAddress, usize))
    requires
        0 <= k < s.len(),
    ensures
        sum_counts(s.update(k, e)) == sum_counts(s) - s[k].1 + e.1,
    decreases s.len(),
{
    if k == s.len() - 1 {
        assert(s.update(k, e).drop_last() =~= s.drop_last());
    } else {
        assert(s.update(k, e).drop_last() =~= s.drop_last().update(k, e));
        lemma_sum_counts_update(s.drop_last(), k, e);
    }
}

proof fn lemma_count_le_sum(s: Seq<(IpAddress, usize)>, k: int)
    requires
        0 <= k < s.len(),
    ensures
        s[k].1 <= sum_counts(s),
    decreases s.len(),
{
    lemma_sum_counts_nonneg(s.drop_last());
    if k < s.len() - 1 {
        lemma_count_le_sum(s.drop_last(), k);
    }
}

/// No address occurs twice among the alternate paths.
pub open spec fn unique_alts(s: Seq<AlternatePath>) -> bool {
    forall|i: int, j: int| 0 <= i < j < s.len() ==> s[i].addr != s[j].addr
}

/// Whether some alternate path records address `a`.
pub open spec fn has_alt(s: Seq<AlternatePath>, a: IpAddress) -> bool {
    exists|i: int| 0 <= i < s.len() && s[i].addr == a
}

/// Total of the alternate paths' observation frequencies.
pub open spec fn sum_alt_freqs(s: Seq<AlternatePath>) -> int
    decreases s.len(),
{
    if s.len() == 0 {
        0
    } else {
        sum_alt_freqs(s.drop_last()) + s.last().frequency
    }
}

proof fn lemma_sum_alt_freqs_nonneg(s: Seq<AlternatePath>)
    ensures
        sum_alt_freqs(s) >= 0,
    decreases s.len(),
{
    if s.len() > 0 {
        lemma_sum_alt_freqs_nonneg(s.drop_last());
    }
}

proof fn lemma_sum_alt_freqs_update(s: Seq<AlternatePath>, k: int, e: AlternatePath)
    requires
        0 <= k < s.len(),
    ensures
        sum_alt_freqs(s.update(k, e)) == sum_alt_freqs(s) - s[k].frequency + e.frequency,
    decreases s.len(),
{
    if k == s.len() - 1 {
        assert(s.update(k, e).drop_last() =~= s.drop_last());
    } else {
        assert(s.update(k, e).drop_last() =~= s.drop_last().update(k, e));
        lemma_sum_alt_freqs_update(s.drop_last(), k, e);
    }
}

proof fn lemma_sum_alt_freqs_remove(s: Seq<AlternatePath>, k: int)
    requires
        0 <= k < s.len(),
    ensures
        sum_alt_freqs(s.remove(k)) == sum_alt_freqs(s) - s[k].frequency,
    decreases s.len(),
{
    if k == s.len() - 1 {
        assert(s.remove(k) =~= s.drop_last());
    } else {
        assert(s.remove(k).drop_last() =~= s.drop_last().remove(k));
        lemma_sum_alt_freqs_remove(s.drop_last(), k);
        assert(s.remove(k).last() == s.last());
    }
}

proof fn lemma_alt_freq_le_sum(s: Seq<AlternatePath>, k: int)
    requires
        0 <= k < s.len(),
    ensures
        s[k].frequency <= sum_alt_freqs(s),
    decreases s.len(),
{
    lemma_sum_alt_freqs_nonneg(s.drop_last());
    if k < s.len() - 1 {
        lemma_alt_freq_le_sum(s.drop_last(), k);
    }
}

/// Aggregate statistics for one hop of the path.
#[derive(Debug, Clone)]
pub struct HopStats {
    /// Hop number, 1-based (equals the time-to-live of its probes).
    pub hop: u8,
    /// Primary responding address: first seen, or the most frequent one.
    pub addr: Option<IpAddress>,
    pub hostname: Option<String>,
    pub sent: usize,
    pub received: usize,
    /// All round-trip times and jitters are nanosecond counts.
    pub last_rtt: Option<u64>,
    pub best_rtt: Option<u64>,
    pub worst_rtt: Option<u64>,
    pub avg_rtt: Option<u64>,
    pub ema_rtt: Option<u64>,
    pub jitter_avg: Option<u64>,
    pub last_jitter: Option<u64>,
    pub jitters: std::collections::VecDeque<u64>,
    pub rtts: std::collections::VecDeque<u64>,
    /// Chronological outcome of each sent probe, bounded like the rest.
    pub packet_history: std::collections::VecDeque<PacketOutcome>,
    /// Loss in thousandths of a percent, between 0 and 100000.
    pub loss_percent_milli: u64,
    /// Smoothing factor of the moving average, in thousandths (0 to 1000).
    pub ema_alpha_milli: u32,
    /// Secondary responding addresses, none of them the primary address.
    pub alternate_paths: Vec<AlternatePath>,
    /// Observation count per responding address, primary included.
    pub path_frequency: Vec<(IpAddress, usize)>,
    /// Set when the hop answered with a destination-unreachable error.
    pub icmp_error: bool,
}

impl HopStats {
    /// Internal consistency: bounded histories, clamped percentages, a
    /// duplicate-free path table whose counts never outrun the received
    /// total, and no alternate path shadowing the primary address.
    pub open spec fn wf(self) -> bool {
        &&& self.rtts@.len() <= HISTORY_CAP
        &&& self.jitters@.len() <= HISTORY_CAP
        &&& self.packet_history@.len() <= HISTORY_CAP
        &&& self.ema_alpha_milli <= 1000
        &&& self.loss_percent_milli <= 100_000
        &&& unique_counts(self.path_frequency@)
        &&& unique_alts(self.alternate_paths@)
        &&& sum_counts(self.path_frequency@) <= self.received
        &&& sum_alt_freqs(self.alternate_paths@) <= self.received
        &&& (forall|i: int|
            0 <= i < self.alternate_paths@.len() ==> Some(self.alternate_paths@[i].addr)
                != self.addr)
        &&& (self.alternate_paths@.len() > 0 ==> self.addr is Some)
    }

    /// Fresh statistics for hop number `hop`: all counters zero, all
    /// metrics unknown, the default smoothing factor of one tenth.
    pub fn new(hop: u8) -> (r: HopStats)
        ensures
            r.wf(),
            r.hop == hop,
            r.addr is None,
            r.hostname is None,
            r.sent == 0,
            r.received == 0,
            r.last_rtt is None,
            r.best_rtt is None,
            r.worst_rtt is None,
            r.avg_rtt is None,
            r.ema_rtt is None,
            r.jitter_avg is None,
            r.last_jitter is None,
            r.jitters@.len() == 0,
            r.rtts@.len() == 0,
            r.packet_history@.len() == 0,
            r.loss_percent_milli == 0,
            r.ema_alpha_milli == 100,
            r.alternate_paths@.len() == 0,
            r.path_frequency@.len() == 0,
            !r.icmp_error,
    {
        HopStats {
            hop,
            addr: None,
            hostname: None,
            sent: 0,
            received: 0,
            last_rtt: None,
            best_rtt: None,
            worst_rtt: None,
            avg_rtt: None,
            ema_rtt: None,
            jitter_avg: None,
            last_jitter: None,
            jitters: std::collections::VecDeque::new(),
            rtts: std::collections::VecDeque::new(),
            packet_history: std::collections::VecDeque::new(),
            loss_percent_milli: 0,
            ema_alpha_milli: 100,
            alternate_paths: Vec::new(),
            path_frequency: Vec::new(),
            icmp_error: false,
        }
    }

    /// Set the smoothing factor, in thousandths, clamped into [0, 1000].
    pub fn set_ema_alpha(&mut self, alpha_milli: i64)
        ensures
            *final(self) == (HopStats {
                ema_alpha_milli: if alpha_milli < 0 {
                    0u32
                } else if alpha_milli > 1000 {
                    1000u32
                } else {
                    alpha_milli as u32
                },
                ..*old(self)
            }),
            final(self).ema_alpha_milli <= 1000,
    {
        self.ema_alpha_milli = if alpha_milli < 0 {
            0
        } else if alpha_milli > 1000 {
            1000
        } else {
            alpha_milli as u32
        };
    }

    /// Mark that this hop answered with a destination-unreachable error.
    pub fn set_icmp_error(&mut self)
        ensures
            *final(self) == (HopStats { icmp_error: true, ..*old(self) }),
    {
        self.icmp_error = true;
    }

    /// Recompute the loss percentage from the sent and received counters.
    pub fn update_loss_percent(&mut self)
        ensures
            *final(self) == (HopStats {
                loss_percent_milli: loss_milli_of(
                    old(self).sent as int,
                    old(self).received as int,
                ) as u64,
                ..*old(self)
            }),
            final(self).loss_percent_milli <= 100_000,
    {
        proof {
            lemma_loss_milli_bounds(self.sent as int, self.received as int);
        }
        if self.sent > 0 {
            let actual_received = if self.received <= self.sent {
                self.received
            } else {
                self.sent
            };
            let lost = (self.sent - actual_received) as u128;
            self.loss_percent_milli = (lost * 100_000 / (self.sent as u128)) as u64;
        } else {
            self.loss_percent_milli = 0;
        }
    }

    /// What counting one sent probe does: the sent counter moves up by
    /// one, a pending entry joins the timeline (evicting the oldest at
    /// the cap), the loss percentage is refreshed, nothing else changes.
    pub open spec fn sent_counted(pre: HopStats, post: HopStats) -> bool {
        &&& post == (HopStats {
            sent: (pre.sent + 1) as usize,
            packet_history: post.packet_history,
            loss_percent_milli: post.loss_percent_milli,
            ..pre
        })
        &&& post.packet_history@ == push_capped(pre.packet_history@, PacketOutcome::Pending)
        &&& post.loss_percent_milli == loss_milli_of(pre.sent + 1, pre.received as int)
        &&& post.wf() == pre.wf()
    }

    /// Count one more sent probe: append a pending entry to the timeline
    /// (evicting the oldest at the cap) and refresh the loss percentage.
    pub fn increment_sent(&mut self)
        requires
            old(self).wf(),
            old(self).sent < usize::MAX,
        ensures
            final(self).wf(),
            *final(self) == (HopStats {
                sent: (old(self).sent + 1) as usize,
                packet_history: final(self).packet_history,
                loss_percent_milli: final(self).loss_percent_milli,
                ..*old(self)
            }),
            final(self).packet_history@ == push_capped(
                old(self).packet_history@,
                PacketOutcome::Pending,
            ),
            final(self).loss_percent_milli == loss_milli_of(
                old(self).sent + 1,
                old(self).received as int,
            ),
            HopStats::sent_counted(*old(self), *final(self)),
    {
        self.sent = self.sent + 1;
        push_capped_deque(&mut self.packet_history, PacketOutcome::Pending);
        self.update_loss_percent();
        proof {
            lemma_loss_milli_bounds(old(self).sent + 1, old(self).received as int);
        }
    }

    /// What counting a timeout does: the oldest pending timeline entry
    /// turns lost, the loss percentage is refreshed, nothing else changes.
    pub open spec fn timeout_counted(pre: HopStats, post: HopStats) -> bool {
        &&& post == (HopStats {
            packet_history: post.packet_history,
            loss_percent_milli: post.loss_percent_milli,
            ..pre
        })
        &&& resolves_oldest_pending(
            pre.packet_history@,
            PacketOutcome::Lost,
            post.packet_history@,
        )
        &&& post.packet_history@.len() == pre.packet_history@.len()
        &&& post.loss_percent_milli == loss_milli_of(pre.sent as int, pre.received as int)
    }

    /// What counting `k` timeouts in a row does: `k` chained
    /// applications of `timeout_counted`, so `k` oldest-pending timeline
    /// entries were resolved as lost and nothing else was touched.
    pub open spec fn timeouts_applied(pre: HopStats, post: HopStats, k: int) -> bool
        decreases k,
    {
        if k <= 0 {
            post == pre
        } else {
            exists|mid: HopStats|
                #![trigger HopStats::timeout_counted(mid, post)]
                HopStats::timeouts_applied(pre, mid, k - 1) && HopStats::timeout_counted(
                    mid,
                    post,
                )
        }
    }

    /// Resolve the oldest pending probe of the timeline as lost; the RTT
    /// and jitter state is untouched, the loss percentage is refreshed.
    pub fn add_timeout(&mut self)
        requires
            old(self).wf(),
        ensures
            final(self).wf(),
            *final(self) == (HopStats {
                packet_history: final(self).packet_history,
                loss_percent_milli: final(self).loss_percent_milli,
                ..*old(self)
            }),
            resolves_oldest_pending(
                old(self).packet_history@,
                PacketOutcome::Lost,
                final(self).packet_history@,
            ),
            final(self).rtts == old(self).rtts,
            final(self).received == old(self).received,
            final(self).sent == old(self).sent,
            final(self).loss_percent_milli == loss_milli_of(
                old(self).sent as int,
                old(self).received as int,
            ),
            HopStats::timeout_counted(*old(self), *final(self)),
    {
        resolve_oldest_pending(&mut self.packet_history, PacketOutcome::Lost);
        self.update_loss_percent();
        proof {
            lemma_loss_milli_bounds(old(self).sent as int, old(self).received as int);
        }
    }

    /// What recording one round-trip time does to the statistics fields:
    /// the received counter, the RTT and jitter histories with their
    /// derived metrics, the packet timeline, and the loss percentage.
    /// The addressing fields are not covered here; the functions that
    /// record a sample state them separately.
    pub open spec fn rtt_recorded(pre: HopStats, post: HopStats, rtt: u64) -> bool {
        &&& post.hop == pre.hop
        &&& post.hostname == pre.hostname
        &&& post.sent == pre.sent
        &&& post.ema_alpha_milli == pre.ema_alpha_milli
        &&& post.icmp_error == pre.icmp_error
        &&& post.received == pre.received + 1
        &&& post.last_rtt == Some(rtt)
        &&& match pre.last_rtt {
            None => {
                &&& post.last_jitter == pre.last_jitter
                &&& post.jitter_avg == pre.jitter_avg
                &&& post.jitters@ == pre.jitters@
            },
            Some(prev) => {
                let j = if rtt >= prev {
                    (rtt - prev) as u64
                } else {
                    (prev - rtt) as u64
                };
                &&& post.last_jitter == Some(j)
                &&& post.jitters@ == push_capped(pre.jitters@, j)
                &&& post.jitter_avg == Some(
                    (sum_ns(post.jitters@) / post.jitters@.len() as int) as u64,
                )
            },
        }
        &&& post.rtts@ == push_capped(pre.rtts@, rtt)
        &&& resolves_oldest_pending(
            pre.packet_history@,
            PacketOutcome::Received(rtt),
            post.packet_history@,
        )
        &&& post.best_rtt == Some(
            match pre.best_rtt {
                None => rtt,
                Some(b) => if rtt < b {
                    rtt
                } else {
                    b
                },
            },
        )
        &&& post.worst_rtt == Some(
            match pre.worst_rtt {
                None => rtt,
                Some(w) => if rtt > w {
                    rtt
                } else {
                    w
                },
            },
        )
        &&& post.avg_rtt == Some((sum_ns(post.rtts@) / post.rtts@.len() as int) as u64)
        &&& post.ema_rtt == Some(
            match pre.ema_rtt {
                None => rtt,
                Some(prev) => ema_next(pre.ema_alpha_milli, rtt, prev) as u64,
            },
        )
        &&& post.loss_percent_milli == loss_milli_of(pre.sent as int, pre.received + 1)
    }

    /// Record one round-trip time: count it, compute the jitter against
    /// the previous sample, append to the bounded histories, refresh
    /// best/worst/average and the exponential moving average, resolve the
    /// oldest pending timeline entry, and recompute the loss percentage.
    pub fn add_rtt(&mut self, rtt: u64)
        requires
            old(self).wf(),
            old(self).received < usize::MAX,
        ensures
            final(self).wf(),
            HopStats::rtt_recorded(*old(self), *final(self), rtt),
            final(self).addr == old(self).addr,
            final(self).alternate_paths == old(self).alternate_paths,
            final(self).path_frequency == old(self).path_frequency,
    {
        self.received = self.received + 1;
        self.record_sample(rtt);
    }

    /// What recording a sample does once the received counter is already
    /// bumped: everything of `rtt_recorded` except the counter itself.
    pub open spec fn sample_recorded(pre: HopStats, post: HopStats, rtt: u64) -> bool {
        &&& post.hop == pre.hop
        &&& post.hostname == pre.hostname
        &&& post.sent == pre.sent
        &&& post.ema_alpha_milli == pre.ema_alpha_milli
        &&& post.icmp_error == pre.icmp_error
        &&& post.received == pre.received
        &&& post.last_rtt == Some(rtt)
        &&& match pre.last_rtt {
            None => {
                &&& post.last_jitter == pre.last_jitter
                &&& post.jitter_avg == pre.jitter_avg
                &&& post.jitters@ == pre.jitters@
            },
            Some(prev) => {
                let j = if rtt >= prev {
                    (rtt - prev) as u64
                } else {
                    (prev - rtt) as u64
                };
                &&& post.last_jitter == Some(j)
                &&& post.jitters@ == push_capped(pre.jitters@, j)
                &&& post.jitter_avg == Some(
                    (sum_ns(post.jitters@) / post.jitters@.len() as int) as u64,
                )
            },
        }
        &&& post.rtts@ == push_capped(pre.rtts@, rtt)
        &&& resolves_oldest_pending(
            pre.packet_history@,
            PacketOutcome::Received(rtt),
            post.packet_history@,
        )
        &&& post.best_rtt == Some(
            match pre.best_rtt {
                None => rtt,
                Some(b) => if rtt < b {
                    rtt
                } else {
                    b
                },
            },
        )
        &&& post.worst_rtt == Some(
            match pre.worst_rtt {
                None => rtt,
                Some(w) => if rtt > w {
                    rtt
                } else {
                    w
                },
            },
        )
        &&& post.avg_rtt == Some((sum_ns(post.rtts@) / post.rtts@.len() as int) as u64)
        &&& post.ema_rtt == Some(
            match pre.ema_rtt {
                None => rtt,
                Some(prev) => ema_next(pre.ema_alpha_milli, rtt, prev) as u64,
            },
        )
        &&& post.loss_percent_milli == loss_milli_of(pre.sent as int, pre.received as int)
    }

    /// Record a sample whose receipt is already counted.
    fn record_sample(&mut self, rtt: u64)
        requires
            old(self).wf(),
        ensures
            final(self).wf(),
            HopStats::sample_recorded(*old(self), *final(self), rtt),
            final(self).addr == old(self).addr,
            final(self).alternate_paths == old(self).alternate_paths,
            final(self).path_frequency == old(self).path_frequency,
    {
        if let Some(prev) = self.last_rtt {
            let j = if rtt >= prev {
                rtt - prev
            } else {
                prev - rtt
            };
            self.last_jitter = Some(j);
            push_capped_deque(&mut self.jitters, j);
            let jitter_mean = average_ns(&self.jitters);
            self.jitter_avg = Some(jitter_mean);
        }
        self.last_rtt = Some(rtt);
        push_capped_deque(&mut self.rtts, rtt);
        resolve_oldest_pending(&mut self.packet_history, PacketOutcome::Received(rtt));
        self.best_rtt = Some(
            match self.best_rtt {
                None => rtt,
                Some(b) => if rtt < b {
                    rtt
                } else {
                    b
                },
            },
        );
        self.worst_rtt = Some(
            match self.worst_rtt {
                None => rtt,
                Some(w) => if rtt > w {
                    rtt
                } else {
                    w
                },
            },
        );
        let mean = average_ns(&self.rtts);
        self.avg_rtt = Some(mean);
        self.ema_rtt = Some(
            match self.ema_rtt {
                None => rtt,
                Some(prev_ema) => ema_step(self.ema_alpha_milli, rtt, prev_ema),
            },
        );
        self.update_loss_percent();
        proof {
            lemma_loss_milli_bounds(old(self).sent as int, old(self).received as int);
        }
    }

    /// Whether an observation from `addr` makes it the primary address:
    /// it already is, no primary exists yet, or its observation count
    /// (with the new observation included) strictly exceeds the current
    /// primary's.
    pub open spec fn becomes_primary(pre: HopStats, addr: IpAddress) -> bool {
        match pre.addr {
            None => true,
            Some(p) => p == addr || count_for(pre.path_frequency@, addr) + 1 > count_for(
                pre.path_frequency@,
                p,
            ),
        }
    }

    /// What recording a sample from `addr` does, multi-path resolution
    /// included: the address's observation count moves up by one, and the
    /// sample either promotes `addr` to primary (discarding its alternate
    /// entry) and flows into the hop statistics, or refreshes the
    /// alternate path for `addr` while still counting as received.
    pub open spec fn rtt_from_addr_recorded(
        pre: HopStats,
        post: HopStats,
        addr: IpAddress,
        rtt: u64,
        now: u64,
    ) -> bool {
        &&& post.received == pre.received + 1
        &&& count_for(post.path_frequency@, addr) == count_for(pre.path_frequency@, addr) + 1
        &&& (forall|b: IpAddress|
            b != addr ==> count_for(post.path_frequency@, b) == count_for(pre.path_frequency@, b))
        &&& if HopStats::becomes_primary(pre, addr) {
            &&& post.addr == Some(addr)
            &&& HopStats::rtt_recorded(pre, post, rtt)
            &&& !has_alt(post.alternate_paths@, addr)
            &&& forall|b: IpAddress|
                b != addr ==> ((has_alt(post.alternate_paths@, b) <==> has_alt(
                    pre.alternate_paths@,
                    b,
                )) && (has_alt(pre.alternate_paths@, b) ==> alt_for(post.alternate_paths@, b)
                    == alt_for(pre.alternate_paths@, b)))
        } else {
            &&& post.addr == pre.addr
            &&& alt_observed(pre.alternate_paths@, post.alternate_paths@, addr, rtt, now)
            &&& post.loss_percent_milli == loss_milli_of(pre.sent as int, pre.received + 1)
            &&& post.sent == pre.sent
            &&& post.hop == pre.hop
            &&& post.ema_alpha_milli == pre.ema_alpha_milli
            &&& post.icmp_error == pre.icmp_error
            &&& post.hostname == pre.hostname
            &&& post.last_rtt == pre.last_rtt
            &&& post.best_rtt == pre.best_rtt
            &&& post.worst_rtt == pre.worst_rtt
            &&& post.avg_rtt == pre.avg_rtt
            &&& post.ema_rtt == pre.ema_rtt
            &&& post.last_jitter == pre.last_jitter
            &&& post.jitter_avg == pre.jitter_avg
            &&& post.jitters@ == pre.jitters@
            &&& post.rtts@ == pre.rtts@
            &&& post.packet_history@ == pre.packet_history@
        }
    }

    /// Record a round-trip time that arrived from `addr`, resolving
    /// multi-path routing: the sample either promotes `addr` to primary
    /// and flows into the hop statistics, or is booked on an alternate
    /// path (still counted as received).
    #[verifier::rlimit(60)]
    pub fn add_rtt_from_addr(&mut self, addr: IpAddress, rtt: u64, now: u64)
        requires
            old(self).wf(),
            old(self).received < usize::MAX,
        ensures
            final(self).wf(),
            HopStats::rtt_from_addr_recorded(*old(self), *final(self), addr, rtt, now),
    {
        self.received = self.received + 1;

        // Book the observation in the per-address frequency table.
        let bumped = match find_count_index(&self.path_frequency, addr) {
            Some(k) => {
                let entry = self.path_frequency[k];
                proof {
                    lemma_count_le_sum(self.path_frequency@, k as int);
                }
                let ghost pre_counts = self.path_frequency@;
                self.path_frequency.set(k, (addr, entry.1 + 1));
                proof {
                    lemma_sum_counts_update(pre_counts, k as int, (addr, (entry.1 + 1) as usize));
                    lemma_count_for_update(pre_counts, k as int, (entry.1 + 1) as usize);
                }
                entry.1 + 1
            },
            None => {
                let ghost pre_counts = self.path_frequency@;
                self.path_frequency.push((addr, 1));
                proof {
                    assert(self.path_frequency@.drop_last() =~= pre_counts);
                    lemma_count_for_push(pre_counts, addr, 1);
                }
                1
            },
        };

        proof {
            assert(count_for(self.path_frequency@, addr) == count_for(
                old(self).path_frequency@,
                addr,
            ) + 1);
            assert(bumped == count_for(old(self).path_frequency@, addr) + 1);
        }

        // Decide whether this observation makes `addr` the primary
        // address; the comparison uses the just-bumped count, as the
        // current primary keeps its old one.
        let is_primary = match self.addr {
            None => true,
            Some(p) => {
                if p == addr {
                    true
                } else {
                    let primary_count = get_count(&self.path_frequency, p);
                    bumped > primary_count
                }
            },
        };

        proof {
            assert(is_primary == HopStats::becomes_primary(*old(self), addr));
        }
        if is_primary {
            self.addr = Some(addr);
            // A promoted address stops being an alternate path: its old
            // entry is discarded rather than left to shadow the primary.
            match find_alt_index(&self.alternate_paths, addr) {
                Some(j) => {
                    let ghost pre_alts = self.alternate_paths@;
                    self.alternate_paths.remove(j);
                    proof {
                        lemma_sum_alt_freqs_remove(pre_alts, j as int);
                        lemma_sum_alt_freqs_nonneg(pre_alts.remove(j as int));
                        lemma_alt_remove_others(pre_alts, j as int);
                    }
                },
                None => {},
            }
            self.record_sample(rtt);
        } else {
            // Book the sample on the alternate path for `addr`.
            match find_alt_index(&self.alternate_paths, addr) {
                Some(j) => {
                    let ghost pre_alts = self.alternate_paths@;
                    let mut entry = self.alternate_paths.remove(j);
                    proof {
                        lemma_alt_freq_le_sum(pre_alts, j as int);
                        lemma_sum_alt_freqs_remove(pre_alts, j as int);
                        lemma_sum_alt_freqs_nonneg(pre_alts.remove(j as int));
                    }
                    entry.update(rtt, now);
                    let ghost mid_alts = self.alternate_paths@;
                    self.alternate_paths.insert(j, entry);
                    proof {
                        assert(self.alternate_paths@.remove(j as int) =~= mid_alts);
                        lemma_sum_alt_freqs_remove(self.alternate_paths@, j as int);
                        assert(self.alternate_paths@ =~= pre_alts.update(
                            j as int,
                            self.alternate_paths@[j as int],
                        ));
                        lemma_sum_alt_freqs_update(
                            pre_alts,
                            j as int,
                            self.alternate_paths@[j as int],
                        );
                    }
                },
                None => {
                    let ghost pre_alts = self.alternate_paths@;
                    let mut entry = AlternatePath::new(addr, now);
                    entry.last_rtt = Some(rtt);
                    entry.avg_rtt = Some(rtt);
                    self.alternate_paths.push(entry);
                    proof {
                        assert(self.alternate_paths@.drop_last() =~= pre_alts);
                    }
                },
            }
            self.update_loss_percent();
            proof {
                lemma_loss_milli_bounds(self.sent as int, self.received as int);
            }
        }
    }
}

/// Index of the entry for address `a` in the frequency table, if any.
fn find_count_index(v: &Vec<(IpAddress, usize)>, a: IpAddress) -> (r: Option<usize>)
    ensures
        match r {
            Some(k) => k < v@.len() && v@[k as int].0 == a,
            None => forall|i: int| 0 <= i < v@.len() ==> v@[i].0 != a,
        },
{
    let n = v.len();
    let mut j: usize = 0;
    while j < n
        invariant
            0 <= j <= n,
            n == v@.len(),
            forall|i: int| 0 <= i < j ==> v@[i].0 != a,
        decreases n - j,
    {
        if v[j].0 == a {
            return Some(j);
        }
        j = j + 1;
    }
    None
}

/// The observation count booked for address `a`.
fn get_count(v: &Vec<(IpAddress, usize)>, a: IpAddress) -> (r: usize)
    requires
        unique_counts(v@),
    ensures
        r as int == count_for(v@, a),
{
    match find_count_index(v, a) {
        Some(k) => v[k].1,
        None => 0,
    }
}

/// Index of the alternate path recording address `a`, if any.
fn find_alt_index(v: &Vec<AlternatePath>, a: IpAddress) -> (r: Option<usize>)
    ensures
        match r {
            Some(k) => k < v@.len() && v@[k as int].addr == a,
            None => forall|i: int| 0 <= i < v@.len() ==> v@[i].addr != a,
        },
{
    let n = v.len();
    let mut j: usize = 0;
    while j < n
        invariant
            0 <= j <= n,
            n == v@.len(),
            forall|i: int| 0 <= i < j ==> v@[i].addr != a,
        decreases n - j,
    {
        if v[j].addr == a {
            return Some(j);
        }
        j = j + 1;
    }
    None
}

/// The alternate path recording address `a` (meaningful when one exists).
pub open spec fn alt_for(s: Seq<AlternatePath>, a: IpAddress) -> AlternatePath {
    s[choose|i: int| 0 <= i < s.len() && s[i].addr == a]
}

/// How the alternate-path list changes when a sample from `a` is booked
/// on it: the existing entry is refreshed in place, or a fresh entry with
/// frequency one is appended.
pub open spec fn alt_observed(
    pre: Seq<AlternatePath>,
    post: Seq<AlternatePath>,
    a: IpAddress,
    rtt: u64,
    now: u64,
) -> bool {
    if has_alt(pre, a) {
        exists|k: int|
            0 <= k < pre.len() && pre[k].addr == a && post == pre.update(
                k,
                AlternatePath {
                    addr: pre[k].addr,
                    hostname: pre[k].hostname,
                    frequency: (pre[k].frequency + 1) as usize,
                    last_seen: now,
                    last_rtt: Some(rtt),
                    avg_rtt: Some(rtt),
                },
            )
    } else {
        post == pre.push(
            AlternatePath {
                addr: a,
                hostname: None,
                frequency: 1,
                last_seen: now,
                last_rtt: Some(rtt),
                avg_rtt: Some(rtt),
            },
        )
    }
}

proof fn lemma_count_for_update(s: Seq<(IpAddress, usize)>, k: int, c: usize)
    requires
        unique_counts(s),
        0 <= k < s.len(),
    ensures
        count_for(s.update(k, (s[k].0, c)), s[k].0) == c,
        count_for(s, s[k].0) == s[k].1,
        forall|b: IpAddress|
            b != s[k].0 ==> count_for(s.update(k, (s[k].0, c)), b) == count_for(s, b),
        unique_counts(s.update(k, (s[k].0, c))),
{
    let t = s.update(k, (s[k].0, c));
    let a = s[k].0;
    assert(t[k].0 == a && t[k].1 == c);
    assert(count_for(s, a) == s[k].1) by {
        let i = choose|i: int| 0 <= i < s.len() && s[i].0 == a;
        assert(0 <= k < s.len() && s[k].0 == a);
    }
    assert(count_for(t, a) == c) by {
        let i = choose|i: int| 0 <= i < t.len() && t[i].0 == a;
        assert(0 <= k < t.len() && t[k].0 == a);
        assert(forall|i: int, j: int| 0 <= i < j < t.len() ==> t[i].0 != t[j].0);
    }
    assert forall|b: IpAddress| b != a implies count_for(t, b) == count_for(s, b) by {
        if exists|i: int| 0 <= i < s.len() && s[i].0 == b {
            let i = choose|i: int| 0 <= i < s.len() && s[i].0 == b;
            assert(t[i].0 == b);
            let i2 = choose|i2: int| 0 <= i2 < t.len() && t[i2].0 == b;
            assert(t[i2] == s[i2]);
        } else {
            assert(forall|i: int| 0 <= i < t.len() ==> t[i].0 != b);
        }
    }
}

proof fn lemma_count_for_push(s: Seq<(IpAddress, usize)>, a: IpAddress, c: usize)
    requires
        unique_counts(s),
        forall|i: int| 0 <= i < s.len() ==> s[i].0 != a,
    ensures
        count_for(s.push((a, c)), a) == c,
        forall|b: IpAddress| b != a ==> count_for(s.push((a, c)), b) == count_for(s, b),
        unique_counts(s.push((a, c))),
        count_for(s, a) == 0,
{
    let t = s.push((a, c));
    assert(t[s.len() as int].0 == a);
    assert(count_for(t, a) == c) by {
        let i = choose|i: int| 0 <= i < t.len() && t[i].0 == a;
        if i < s.len() {
            assert(s[i].0 == a);
        }
    }
    assert forall|b: IpAddress| b != a implies count_for(t, b) == count_for(s, b) by {
        if exists|i: int| 0 <= i < s.len() && s[i].0 == b {
            let i = choose|i: int| 0 <= i < s.len() && s[i].0 == b;
            assert(t[i].0 == b);
            let i2 = choose|i2: int| 0 <= i2 < t.len() && t[i2].0 == b;
            assert(i2 < s.len());
            assert(t[i2] == s[i2]);
        } else {
            assert(forall|i: int| 0 <= i < t.len() ==> t[i].0 != b);
        }
    }
}

proof fn lemma_alt_remove_others(s: Seq<AlternatePath>, k: int)
    requires
        unique_alts(s),
        0 <= k < s.len(),
    ensures
        !has_alt(s.remove(k), s[k].addr),
        forall|b: IpAddress|
            b != s[k].addr ==> ((has_alt(s.remove(k), b) <==> has_alt(s, b)) && (has_alt(s, b)
                ==> alt_for(s.remove(k), b) == alt_for(s, b))),
        unique_alts(s.remove(k)),
{
    let t = s.remove(k);
    let a = s[k].addr;
    assert forall|i: int| 0 <= i < t.len() implies t[i].addr != a by {
        if i < k {
            assert(t[i] == s[i]);
        } else {
            assert(t[i] == s[i + 1]);
        }
    }
    assert forall|b: IpAddress| b != a implies ((has_alt(t, b) <==> has_alt(s, b)) && (has_alt(
        s,
        b,
    ) ==> alt_for(t, b) == alt_for(s, b))) by {
        if has_alt(s, b) {
            let i = choose|i: int| 0 <= i < s.len() && s[i].addr == b;
            if i < k {
                assert(t[i] == s[i]);
            } else {
                assert(i > k);
                assert(t[i - 1] == s[i]);
            }
            assert(has_alt(t, b));
            let i2 = choose|i2: int| 0 <= i2 < t.len() && t[i2].addr == b;
            let i3 = choose|i3: int| 0 <= i3 < s.len() && s[i3].addr == b;
            if i2 < k {
                assert(t[i2] == s[i2]);
                assert(i3 == i2);
            } else {
                assert(t[i2] == s[i2 + 1]);
                assert(i3 == i2 + 1);
            }
        } else {
            if has_alt(t, b) {
                let i2 = choose|i2: int| 0 <= i2 < t.len() && t[i2].addr == b;
                if i2 < k {
                    assert(s[i2].addr == b);
                } else {
                    assert(s[i2 + 1].addr == b);
                }
            }
        }
    }
}


impl HopStats {
    /// Whether this hop has answered from more than one address.
    pub fn has_multiple_paths(&self) -> (r: bool)
        ensures
            r == (self.alternate_paths@.len() != 0),
    {
        self.alternate_paths.len() != 0
    }

    /// The primary address whose observations the frequency table is
    /// consulted for: the hop's address, or the all-zero address while
    /// none is known.
    pub open spec fn primary_address(self) -> IpAddress {
        match self.addr {
            Some(a) => a,
            None => IpAddress::V4(0u8, 0u8, 0u8, 0u8),
        }
    }

    /// Observations across all paths: the primary address's booked count
    /// plus the frequencies of every alternate path.
    pub open spec fn total_frequency_spec(self) -> int {
        count_for(self.path_frequency@, self.primary_address()) + sum_alt_freqs(
            self.alternate_paths@,
        )
    }

    /// Total observation frequency across the primary and all alternate
    /// paths.
    pub fn get_total_frequency(&self) -> (r: usize)
        requires
            self.wf(),
            self.received <= usize::MAX / 2,
        ensures
            r as int == self.total_frequency_spec(),
    {
        let primary = match self.addr {
            Some(a) => a,
            None => IpAddress::unspecified(),
        };
        let primary_count = get_count(&self.path_frequency, primary);
        proof {
            if exists|i: int|
                0 <= i < self.path_frequency@.len() && self.path_frequency@[i].0 == primary {
                let i = choose|i: int|
                    0 <= i < self.path_frequency@.len() && self.path_frequency@[i].0 == primary;
                lemma_count_le_sum(self.path_frequency@, i);
            }
            lemma_sum_counts_nonneg(self.path_frequency@);
        }
        let alt_total = sum_alt_frequencies(&self.alternate_paths);
        proof {
            lemma_sum_alt_freqs_nonneg(self.alternate_paths@);
        }
        primary_count + alt_total
    }

    /// Share of the traffic booked on the given alternate path, in
    /// thousandths of a percent of all observations; zero while nothing
    /// was observed.
    pub fn get_path_percentage(&self, path: &AlternatePath) -> (r: u64)
        requires
            self.wf(),
            self.received <= usize::MAX / 2,
            path.frequency as int <= self.total_frequency_spec(),
        ensures
            r as int == if self.total_frequency_spec() > 0 {
                (path.frequency * 100_000) as int / self.total_frequency_spec()
            } else {
                0
            },
            r <= 100_000,
    {
        let total = self.get_total_frequency();
        if total > 0 {
            proof {
                vstd::arithmetic::mul::lemma_mul_inequality(
                    path.frequency as int,
                    total as int,
                    100_000,
                );
                vstd::arithmetic::div_mod::lemma_div_is_ordered(
                    path.frequency as int * 100_000,
                    total as int * 100_000,
                    total as int,
                );
                vstd::arithmetic::div_mod::lemma_div_by_multiple(100_000, total as int);
                vstd::arithmetic::mul::lemma_mul_nonnegative(path.frequency as int, 100_000);
                vstd::arithmetic::div_mod::lemma_div_pos_is_pos(
                    path.frequency as int * 100_000,
                    total as int,
                );
                vstd::arithmetic::mul::lemma_mul_is_commutative(path.frequency as int, 100_000);
                vstd::arithmetic::mul::lemma_mul_is_commutative(total as int, 100_000);
            }
            ((path.frequency as u128) * 100_000 / (total as u128)) as u64
        } else {
            0
        }
    }

    /// Share of the traffic that answered from the primary address, in
    /// thousandths of a percent; a hop without any frequency data counts
    /// as fully primary.
    pub fn get_primary_path_percentage(&self) -> (r: u64)
        requires
            self.wf(),
            self.received <= usize::MAX / 2,
        ensures
            r as int == if self.total_frequency_spec() > 0 {
                (count_for(self.path_frequency@, self.primary_address()) * 100_000)
                    / self.total_frequency_spec()
            } else {
                100_000
            },
            r <= 100_000,
    {
        let total = self.get_total_frequency();
        if total > 0 {
            let primary = match self.addr {
                Some(a) => a,
                None => IpAddress::unspecified(),
            };
            let primary_count = get_count(&self.path_frequency, primary);
            proof {
                lemma_sum_alt_freqs_nonneg(self.alternate_paths@);
                vstd::arithmetic::mul::lemma_mul_inequality(
                    primary_count as int,
                    total as int,
                    100_000,
                );
                vstd::arithmetic::div_mod::lemma_div_is_ordered(
                    primary_count as int * 100_000,
                    total as int * 100_000,
                    total as int,
                );
                vstd::arithmetic::div_mod::lemma_div_by_multiple(100_000, total as int);
                vstd::arithmetic::mul::lemma_mul_nonnegative(primary_count as int, 100_000);
                vstd::arithmetic::div_mod::lemma_div_pos_is_pos(
                    primary_count as int * 100_000,
                    total as int,
                );
                vstd::arithmetic::mul::lemma_mul_is_commutative(primary_count as int, 100_000);
                vstd::arithmetic::mul::lemma_mul_is_commutative(total as int, 100_000);
            }
            ((primary_count as u128) * 100_000 / (total as u128)) as u64
        } else {
            100_000
        }
    }

    /// Attach a resolved hostname to the address it belongs to: the hop
    /// itself when `addr` is the primary address, else the matching
    /// alternate path; a name for an unknown address is dropped, and no
    /// other address's name is ever touched.
    pub fn set_hostname_for_addr(&mut self, addr: IpAddress, hostname: String)
        requires
            old(self).wf(),
        ensures
            final(self).wf(),
            if old(self).addr == Some(addr) {
                *final(self) == (HopStats { hostname: Some(hostname), ..*old(self) })
            } else if has_alt(old(self).alternate_paths@, addr) {
                &&& *final(self) == (HopStats {
                    alternate_paths: final(self).alternate_paths,
                    ..*old(self)
                })
                &&& exists|k: int|
                    0 <= k < old(self).alternate_paths@.len()
                        && old(self).alternate_paths@[k].addr == addr
                        && final(self).alternate_paths@ == old(self).alternate_paths@.update(
                        k,
                        AlternatePath {
                            hostname: Some(hostname),
                            ..old(self).alternate_paths@[k]
                        },
                    )
            } else {
                *final(self) == *old(self)
            },
    {
        let is_primary = match self.addr {
            Some(a) => a == addr,
            None => false,
        };
        if is_primary {
            self.hostname = Some(hostname);
        } else {
            match find_alt_index(&self.alternate_paths, addr) {
                Some(k) => {
                    let ghost pre_alts = self.alternate_paths@;
                    let mut entry = self.alternate_paths.remove(k);
                    proof {
                        lemma_sum_alt_freqs_remove(pre_alts, k as int);
                        lemma_sum_alt_freqs_nonneg(pre_alts.remove(k as int));
                    }
                    entry.hostname = Some(hostname);
                    let ghost mid_alts = self.alternate_paths@;
                    self.alternate_paths.insert(k, entry);
                    proof {
                        assert(self.alternate_paths@.remove(k as int) =~= mid_alts);
                        assert(self.alternate_paths@ =~= pre_alts.update(
                            k as int,
                            self.alternate_paths@[k as int],
                        ));
                        lemma_sum_alt_freqs_update(
                            pre_alts,
                            k as int,
                            self.alternate_paths@[k as int],
                        );
                    }
                },
                None => {},
            }
        }
    }
}

/// Prefix sums of alternate-path frequencies never exceed the total.
proof fn lemma_sum_alt_prefix_le(s: Seq<AlternatePath>, i: int)
    requires
        0 <= i <= s.len(),
    ensures
        sum_alt_freqs(s.take(i)) <= sum_alt_freqs(s),
        sum_alt_freqs(s.take(i)) >= 0,
    decreases s.len() - i,
{
    lemma_sum_alt_freqs_nonneg(s.take(i));
    if i < s.len() {
        lemma_sum_alt_prefix_le(s, i + 1);
        assert(s.take(i + 1).drop_last() =~= s.take(i));
    } else {
        assert(s.take(i) =~= s);
    }
}

/// Total of the alternate paths' frequencies.
fn sum_alt_frequencies(v: &Vec<AlternatePath>) -> (r: usize)
    requires
        sum_alt_freqs(v@) <= usize::MAX,
    ensures
        r as int == sum_alt_freqs(v@),
{
    let n = v.len();
    let mut total: usize = 0;
    let mut j: usize = 0;
    while j < n
        invariant
            0 <= j <= n,
            n == v@.len(),
            total == sum_alt_freqs(v@.take(j as int)),
            sum_alt_freqs(v@) <= usize::MAX,
        decreases n - j,
    {
        proof {
            lemma_sum_alt_prefix_le(v@, j as int + 1);
            assert(v@.take(j as int + 1).drop_last() =~= v@.take(j as int));
            assert(v@.take(j as int + 1).last() == v@[j as int]);
        }
        total = total + v[j].frequency;
        j = j + 1;
    }
    proof {
        assert(v@.take(n as int) =~= v@);
    }
    total
}

/// The mathematical content of an alternate path: its address, hostname
/// characters, frequency and timing fields.
pub open spec fn alt_model(p: AlternatePath) -> (
    IpAddress,
    Option<Seq<char>>,
    int,
    u64,
    Option<u64>,
    Option<u64>,
) {
    (
        p.addr,
        match p.hostname {
            Some(h) => Some(h@),
            None => None,
        },
        p.frequency as int,
        p.last_seen,
        p.last_rtt,
        p.avg_rtt,
    )
}

/// The models of a list of alternate paths, in order.
pub open spec fn alt_models(s: Seq<AlternatePath>) -> Seq<
    (IpAddress, Option<Seq<char>>, int, u64, Option<u64>, Option<u64>),
>
    decreases s.len(),
{
    if s.len() == 0 {
        Seq::empty()
    } else {
        alt_models(s.drop_last()).push(alt_model(s.last()))
    }
}

proof fn lemma_alt_models_len(s: Seq<AlternatePath>)
    ensures
        alt_models(s).len() == s.len(),
        forall|i: int| 0 <= i < s.len() ==> alt_models(s)[i] == alt_model(#[trigger] s[i]),
    decreases s.len(),
{
    if s.len() > 0 {
        lemma_alt_models_len(s.drop_last());
        assert forall|i: int| 0 <= i < s.len() implies alt_models(s)[i] == alt_model(
            #[trigger] s[i],
        ) by {
            if i < s.len() - 1 {
                assert(s.drop_last()[i] == s[i]);
            }
        }
    }
}

proof fn lemma_alt_models_remove(s: Seq<AlternatePath>, k: int)
    requires
        0 <= k < s.len(),
    ensures
        alt_models(s.remove(k)) =~= alt_models(s).remove(k),
    decreases s.len(),
{
    lemma_alt_models_len(s);
    lemma_alt_models_len(s.remove(k));
    assert(alt_models(s.remove(k)).len() == alt_models(s).remove(k).len());
    assert forall|i: int|
        0 <= i < alt_models(s.remove(k)).len() implies alt_models(s.remove(k))[i] == alt_models(
        s,
    ).remove(k)[i] by {
        if i < k {
            assert(s.remove(k)[i] == s[i]);
        } else {
            assert(s.remove(k)[i] == s[i + 1]);
        }
    }
}

/// Clone an optional hostname, preserving its characters.
fn clone_opt_string(s: &Option<String>) -> (r: Option<String>)
    ensures
        match (s, &r) {
            (Some(a), Some(b)) => a@ == b@,
            (None, None) => true,
            _ => false,
        },
{
    match s {
        Some(a) => Some(a.clone()),
        None => None,
    }
}

/// Clone an alternate path, preserving its mathematical content.
fn clone_alt(p: &AlternatePath) -> (r: AlternatePath)
    ensures
        alt_model(r) == alt_model(*p),
{
    AlternatePath {
        addr: p.addr,
        hostname: clone_opt_string(&p.hostname),
        frequency: p.frequency,
        last_seen: p.last_seen,
        last_rtt: p.last_rtt,
        avg_rtt: p.avg_rtt,
    }
}

/// Index of an entry with the largest frequency.
fn find_max_freq_index(v: &Vec<AlternatePath>) -> (m: usize)
    requires
        v@.len() > 0,
    ensures
        m < v@.len(),
        forall|j: int| 0 <= j < v@.len() ==> v@[j].frequency <= v@[m as int].frequency,
{
    let n = v.len();
    let mut m: usize = 0;
    let mut j: usize = 1;
    while j < n
        invariant
            0 <= m < j <= n || (j <= n && m == 0),
            m < n,
            n == v@.len(),
            forall|i: int| 0 <= i < j ==> v@[i].frequency <= v@[m as int].frequency,
        decreases n - j,
    {
        if v[j].frequency > v[m].frequency {
            m = j;
        }
        j = j + 1;
    }
    m
}

impl HopStats {
    /// All alternate paths of this hop, most frequent first.  The result
    /// holds the same paths (same address, hostname, frequency and
    /// timing), reordered by descending frequency.
    pub fn get_alternate_paths(&self) -> (r: Vec<AlternatePath>)
        ensures
            alt_models(r@).to_multiset() == alt_models(self.alternate_paths@).to_multiset(),
            forall|i: int, j: int|
                0 <= i < j < r@.len() ==> (#[trigger] r@[i]).frequency >= (
                #[trigger] r@[j]).frequency,
    {
        broadcast use vstd::seq_lib::group_to_multiset_ensures;
        broadcast use vstd::multiset::group_multiset_axioms;

        let n = self.alternate_paths.len();
        // Working copy with the same models.
        let mut work: Vec<AlternatePath> = Vec::new();
        let mut i: usize = 0;
        while i < n
            invariant
                0 <= i <= n,
                n == self.alternate_paths@.len(),
                work@.len() == i,
                alt_models(work@) =~= alt_models(self.alternate_paths@.take(i as int)),
            decreases n - i,
        {
            let ghost pre = work@;
            work.push(clone_alt(&self.alternate_paths[i]));
            proof {
                assert(work@.drop_last() =~= pre);
                assert(self.alternate_paths@.take(i as int + 1).drop_last()
                    =~= self.alternate_paths@.take(i as int));
                assert(self.alternate_paths@.take(i as int + 1).last()
                    == self.alternate_paths@[i as int]);
            }
            i = i + 1;
        }
        proof {
            assert(self.alternate_paths@.take(n as int) =~= self.alternate_paths@);
        }

        let ghost whole = alt_models(self.alternate_paths@).to_multiset();
        let mut out: Vec<AlternatePath> = Vec::new();
        while work.len() > 0
            invariant
                alt_models(out@).to_multiset().add(alt_models(work@).to_multiset()) =~= whole,
                forall|i: int, j: int|
                    0 <= i < j < out@.len() ==> (#[trigger] out@[i]).frequency >= (
                    #[trigger] out@[j]).frequency,
                forall|i: int, j: int|
                    0 <= i < out@.len() && 0 <= j < work@.len() ==> (
                    #[trigger] out@[i]).frequency >= (#[trigger] work@[j]).frequency,
            decreases work@.len(),
        {
            let m = find_max_freq_index(&work);
            let ghost pre_work = work@;
            let ghost pre_out = out@;
            let x = work.remove(m);
            proof {
                lemma_alt_models_remove(pre_work, m as int);
                lemma_alt_models_len(pre_work);
                assert(alt_models(work@) =~= alt_models(pre_work).remove(m as int));
                assert(alt_models(pre_work)[m as int] == alt_model(x));
                vstd::seq_lib::to_multiset_remove(alt_models(pre_work), m as int);
                vstd::seq_lib::to_multiset_contains(alt_models(pre_work), alt_model(x));
                assert(alt_models(pre_work).contains(alt_model(x)));
            }
            out.push(x);
            proof {
                assert(out@.drop_last() =~= pre_out);
                assert(out@.last() == x);
                assert(alt_models(out@) =~= alt_models(pre_out).push(alt_model(x)));
                vstd::seq_lib::to_multiset_build(alt_models(pre_out), alt_model(x));
                assert(alt_models(out@).to_multiset() =~= alt_models(pre_out).to_multiset().insert(
                    alt_model(x),
                ));
                assert(alt_models(out@).to_multiset().add(alt_models(work@).to_multiset())
                    =~= whole);
                assert forall|i: int, j: int|
                    0 <= i < out@.len() && 0 <= j < work@.len() implies (
                #[trigger] out@[i]).frequency >= (#[trigger] work@[j]).frequency by {
                    if j < m {
                        assert(work@[j] == pre_work[j]);
                    } else {
                        assert(work@[j] == pre_work[j + 1]);
                    }
                }
            }
        }
        proof {
            assert(alt_models(work@).to_multiset() =~= vstd::multiset::Multiset::empty());
            assert(alt_models(out@).to_multiset() =~= whole);
        }
        out
    }
}

/// Chaining one more timeout onto a run of `k` applied timeouts gives a
/// run of `k + 1`.
pub proof fn lemma_timeouts_applied_step(pre: HopStats, mid: HopStats, post: HopStats, k: int)
    requires
        k >= 0,
        HopStats::timeouts_applied(pre, mid, k),
        HopStats::timeout_counted(mid, post),
    ensures
        HopStats::timeouts_applied(pre, post, k + 1),
{
    assert(HopStats::timeouts_applied(pre, mid, k) && HopStats::timeout_counted(mid, post));
}

/// Every history of a well-formed hop is bounded: the RTT, jitter and
/// packet-outcome buffers never hold more than `HISTORY_CAP` entries;
/// `push_capped` states that at the cap the oldest entry is evicted first.
pub proof fn lemma_history_bounded(h: HopStats)
    requires
        h.wf(),
    ensures
        h.rtts@.len() <= HISTORY_CAP,
        h.jitters@.len() <= HISTORY_CAP,
        h.packet_history@.len() <= HISTORY_CAP,
{
}

} // verus!
