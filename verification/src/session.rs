//! The session controller: owns the per-hop statistics and the table of
//! outstanding probes, allocates sequence numbers, routes each response or
//! timeout to the hop it belongs to, and applies the hop-discovery policy.
//!
//! The controller never touches a socket or a clock: the code around the
//! library sends the packets it builds, hands back raw captures, and
//! supplies the current time in nanoseconds.

use vstd::prelude::*;
use vstd::string::StringExecFns;

use crate::addr::IpAddress;
use crate::args::{Column, ProbeProtocol, SparklineScale};
use crate::codec;
use crate::hop_stats::HopStats;
use crate::probe::{IcmpResponseType, ProbeResponse};

verus! {

/// First sequence number a probe can carry.
pub const MIN_SEQUENCE: u16 = 32768;

/// Last sequence number before the counter wraps back to the start; the
/// range steers clear of common ephemeral-port ranges and stays non-zero.
pub const MAX_SEQUENCE: u16 = 60999;

/// Probes unresolved for this long (in nanoseconds) are evicted from the
/// sequence table and counted as synthetic timeouts, bounding the table
/// and guarding against sequence-number reuse.
pub const STALENESS_WINDOW_NS: u64 = 5_000_000_000;

/// The record kept for one outstanding probe, keyed by its sequence
/// number.
#[derive(Debug, Clone, Copy, PartialEq, Eq, Structural)]
pub struct SequenceEntry {
    /// Hop index the probe belongs to (zero-based).
    pub index: usize,
    /// Whether the probe is still in transit.
    pub transit: bool,
    /// The hop's sent counter when the probe left, kept for diagnostics.
    pub saved_seq: u32,
    /// When the probe was sent, in nanoseconds of the session clock.
    pub send_time: u64,
    /// How long to wait for an answer, in nanoseconds.
    pub timeout: u64,
}

/// How many outstanding probes the table holds for hop `hop`.
pub open spec fn entries_for(s: Seq<(u16, SequenceEntry)>, hop: int) -> int
    decreases s.len(),
{
    if s.len() == 0 {
        0
    } else {
        entries_for(s.drop_last(), hop) + if s.last().1.index == hop {
            1int
        } else {
            0int
        }
    }
}

pub proof fn lemma_entries_for_nonneg(s: Seq<(u16, SequenceEntry)>, hop: int)
    ensures
        entries_for(s, hop) >= 0,
    decreases s.len(),
{
    if s.len() > 0 {
        lemma_entries_for_nonneg(s.drop_last(), hop);
    }
}

pub proof fn lemma_entries_for_remove(s: Seq<(u16, SequenceEntry)>, k: int, hop: int)
    requires
        0 <= k < s.len(),
    ensures
        entries_for(s.remove(k), hop) == entries_for(s, hop) - if s[k].1.index == hop {
            1int
        } else {
            0int
        },
    decreases s.len(),
{
    if k == s.len() - 1 {
        assert(s.remove(k) =~= s.drop_last());
    } else {
        assert(s.remove(k).drop_last() =~= s.drop_last().remove(k));
        lemma_entries_for_remove(s.drop_last(), k, hop);
        assert(s.remove(k).last() == s.last());
    }
}

/// No sequence number keys two entries at once.
pub open spec fn unique_seqs(s: Seq<(u16, SequenceEntry)>) -> bool {
    forall|i: int, j: int| 0 <= i < j < s.len() ==> s[i].0 != s[j].0
}

/// Whether the table holds an entry for sequence number `seq`.
pub open spec fn has_seq(s: Seq<(u16, SequenceEntry)>, seq: u16) -> bool {
    exists|i: int| 0 <= i < s.len() && s[i].0 == seq
}

/// The entry keyed by `seq` (meaningful when one exists).
pub open spec fn entry_for(s: Seq<(u16, SequenceEntry)>, seq: u16) -> SequenceEntry {
    s[choose|i: int| 0 <= i < s.len() && s[i].0 == seq].1
}

/// The configuration a session is built from, all plain values.
#[derive(Debug, Clone)]
pub struct SessionConfig {
    /// Target host as given on the command line.
    pub target: String,
    /// How many rounds to run; unbounded when absent.
    pub count: Option<usize>,
    /// Wait between rounds, in milliseconds.
    pub interval_ms: u64,
    /// Number of hops probed at most.
    pub max_hops: u8,
    /// Report mode instead of the interactive display.
    pub report: bool,
    /// Show numeric addresses, skipping name resolution.
    pub numeric: bool,
    pub sparkline_scale: SparklineScale,
    /// Smoothing factor for the moving average, in thousandths; clamped
    /// into [0, 1000] when handed to the hops.
    pub ema_alpha_milli: i64,
    /// Explicit column selection, if any.
    pub fields: Option<Vec<Column>>,
    /// Show every column, jitter metrics included.
    pub show_all: bool,
    /// Generate simulated traffic instead of probing the network.
    pub simulate: bool,
    pub protocol: ProbeProtocol,
}

impl SessionConfig {
    /// The columns to display: all of them, the explicit selection, or
    /// the default set.
    pub fn get_columns(&self) -> (r: Vec<Column>)
        ensures
            r@ == if self.show_all {
                crate::args::all_columns()
            } else {
                match self.fields {
                    Some(f) => f@,
                    None => crate::args::default_column_seq(),
                }
            },
    {
        if self.show_all {
            Column::all()
        } else {
            match &self.fields {
                Some(f) => f.clone(),
                None => Column::default_columns(),
            }
        }
    }
}

/// One traced session: the target, one statistics record per hop, the
/// sequence counter and the table of outstanding probes, and the
/// hop-discovery state.
#[derive(Debug, Clone)]
pub struct MtrSession {
    pub target: String,
    pub target_addr: IpAddress,
    pub hops: Vec<HopStats>,
    pub config: SessionConfig,
    /// Session-scoped identifier stamped into every probe packet.
    pub packet_id: u16,
    /// Next sequence number to hand out.
    pub next_sequence: u16,
    /// Outstanding probes by sequence number.
    pub sequence_table: Vec<(u16, SequenceEntry)>,
    /// How many hops are actively probed; clamped once the target
    /// answers.
    pub num_hosts: usize,
}

impl MtrSession {
    /// Internal consistency: every hop is well-formed and numbered by its
    /// position, the sequence counter stays in its range, the table keys
    /// are unique and point at real hops, and no hop has more received
    /// answers plus outstanding probes than probes sent.
    pub open spec fn wf(self) -> bool {
        &&& forall|i: int| 0 <= i < self.hops@.len() ==> (#[trigger] self.hops@[i]).wf()
        &&& forall|i: int| 0 <= i < self.hops@.len() ==> (#[trigger] self.hops@[i]).hop == i + 1
        &&& MIN_SEQUENCE <= self.next_sequence <= MAX_SEQUENCE
        &&& unique_seqs(self.sequence_table@)
        &&& forall|k: int|
            0 <= k < self.sequence_table@.len() ==> (#[trigger] self.sequence_table@[k]).1.index
                < self.hops@.len()
        &&& forall|h: int|
            0 <= h < self.hops@.len() ==> (#[trigger] self.hops@[h]).received + entries_for(
                self.sequence_table@,
                h,
            ) <= self.hops@[h].sent
    }

    /// Build a session for `target_addr`: one fresh hop record per
    /// configured hop, each with the configured smoothing factor, an
    /// empty sequence table, and the initial discovery guess of ten
    /// active hops.
    pub fn new(config: SessionConfig, target_addr: IpAddress, packet_id: u16) -> (r: MtrSession)
        ensures
            r.wf(),
            r.target@ == config.target@,
            r.target_addr == target_addr,
            r.hops@.len() == config.max_hops as int,
            forall|i: int|
                0 <= i < r.hops@.len() ==> {
                    let h = #[trigger] r.hops@[i];
                    &&& h.hop == i + 1
                    &&& h.sent == 0
                    &&& h.received == 0
                    &&& h.addr is None
                    &&& h.hostname is None
                    &&& h.last_rtt is None
                    &&& h.best_rtt is None
                    &&& h.worst_rtt is None
                    &&& h.avg_rtt is None
                    &&& h.ema_rtt is None
                    &&& h.jitter_avg is None
                    &&& h.last_jitter is None
                    &&& h.rtts@.len() == 0
                    &&& h.jitters@.len() == 0
                    &&& h.packet_history@.len() == 0
                    &&& h.loss_percent_milli == 0
                    &&& h.alternate_paths@.len() == 0
                    &&& h.path_frequency@.len() == 0
                    &&& !h.icmp_error
                    &&& h.ema_alpha_milli == if config.ema_alpha_milli < 0 {
                        0int
                    } else if config.ema_alpha_milli > 1000 {
                        1000int
                    } else {
                        config.ema_alpha_milli as int
                    }
                },
            r.packet_id == packet_id,
            r.next_sequence == MIN_SEQUENCE,
            r.sequence_table@.len() == 0,
            r.num_hosts == 10,
            r.config == config,
    {
        let max_hops = config.max_hops;
        let ema_alpha_milli = config.ema_alpha_milli;
        let target = clone_string(&config.target);
        let mut hops: Vec<HopStats> = Vec::new();
        let mut i: usize = 0;
        while i < max_hops as usize
            invariant
                0 <= i <= max_hops as usize,
                hops@.len() == i,
                max_hops <= 255,
                forall|j: int|
                    0 <= j < i ==> {
                        let h = #[trigger] hops@[j];
                        &&& h.wf()
                        &&& h.hop == j + 1
                        &&& h.sent == 0
                        &&& h.received == 0
                        &&& h.addr is None
                        &&& h.hostname is None
                        &&& h.last_rtt is None
                        &&& h.best_rtt is None
                        &&& h.worst_rtt is None
                        &&& h.avg_rtt is None
                        &&& h.ema_rtt is None
                        &&& h.jitter_avg is None
                        &&& h.last_jitter is None
                        &&& h.rtts@.len() == 0
                        &&& h.jitters@.len() == 0
                        &&& h.packet_history@.len() == 0
                        &&& h.loss_percent_milli == 0
                        &&& h.alternate_paths@.len() == 0
                        &&& h.path_frequency@.len() == 0
                        &&& !h.icmp_error
                        &&& h.ema_alpha_milli == if ema_alpha_milli < 0 {
                            0int
                        } else if ema_alpha_milli > 1000 {
                            1000int
                        } else {
                            ema_alpha_milli as int
                        }
                    },
            decreases max_hops as usize - i,
        {
            let mut hop = HopStats::new((i + 1) as u8);
            hop.set_ema_alpha(ema_alpha_milli);
            hops.push(hop);
            i = i + 1;
        }
        let session = MtrSession {
            target,
            target_addr,
            hops,
            config,
            packet_id,
            next_sequence: MIN_SEQUENCE,
            sequence_table: Vec::new(),
            num_hosts: 10,
        };
        proof {
            assert forall|h: int| 0 <= h < session.hops@.len() implies (
            #[trigger] session.hops@[h]).received + entries_for(session.sequence_table@, h)
                <= session.hops@[h].sent by {
                lemma_entries_for_nonneg(session.sequence_table@, h);
                assert(entries_for(session.sequence_table@, h) == 0);
            }
        }
        session
    }

    /// Allocate the next sequence number and count the probe as sent on
    /// hop `index`: the number stays within [32768, 60999] and restarts
    /// at the lower bound after the upper one.
    pub fn prepare_sequence(&mut self, index: usize) -> (seq: u16)
        requires
            old(self).wf(),
            index < old(self).hops@.len(),
            old(self).hops@[index as int].sent < usize::MAX,
        ensures
            final(self).wf(),
            seq == old(self).next_sequence,
            MIN_SEQUENCE <= seq <= MAX_SEQUENCE,
            final(self).next_sequence == if seq == MAX_SEQUENCE {
                MIN_SEQUENCE as int
            } else {
                seq + 1
            },
            final(self).hops@.len() == old(self).hops@.len(),
            crate::hop_stats::HopStats::sent_counted(
                old(self).hops@[index as int],
                final(self).hops@[index as int],
            ),
            forall|j: int|
                0 <= j < old(self).hops@.len() && j != index ==> final(self).hops@[j] == old(
                    self,
                ).hops@[j],
            final(self).sequence_table@ == old(self).sequence_table@,
            final(self).hops@[index as int].received + entries_for(
                final(self).sequence_table@,
                index as int,
            ) < final(self).hops@[index as int].sent,
            final(self).target == old(self).target,
            final(self).target_addr == old(self).target_addr,
            final(self).config == old(self).config,
            final(self).packet_id == old(self).packet_id,
            final(self).num_hosts == old(self).num_hosts,
    {
        let seq = self.next_sequence;
        self.next_sequence = if seq == MAX_SEQUENCE {
            MIN_SEQUENCE
        } else {
            seq + 1
        };
        let ghost pre_hops = self.hops@;
        let mut hop = self.hops.remove(index);
        hop.increment_sent();
        self.hops.insert(index, hop);
        proof {
            assert(self.hops@.remove(index as int) =~= pre_hops.remove(index as int));
            assert(self.hops@ =~= pre_hops.update(index as int, self.hops@[index as int]));
            lemma_entries_for_nonneg(self.sequence_table@, index as int);
        }
        seq
    }

    /// Record an outstanding probe for hop `index` under sequence number
    /// `seq`; an old entry under the same number (a wrapped-around
    /// sequence) is discarded first rather than trusted later.
    pub fn save_sequence_with_send_time(
        &mut self,
        index: usize,
        seq: u16,
        send_time: u64,
        timeout: u64,
    )
        requires
            old(self).wf(),
            index < old(self).hops@.len(),
            old(self).hops@[index as int].received + entries_for(
                old(self).sequence_table@,
                index as int,
            ) < old(self).hops@[index as int].sent,
        ensures
            final(self).wf(),
            !has_seq(old(self).sequence_table@, seq) ==> final(self).sequence_table@ == old(
                self,
            ).sequence_table@.push(
                (
                    seq,
                    SequenceEntry {
                        index,
                        transit: true,
                        saved_seq: old(self).hops@[index as int].sent as u32,
                        send_time,
                        timeout,
                    },
                ),
            ),
            has_seq(final(self).sequence_table@, seq),
            entry_for(final(self).sequence_table@, seq) == (SequenceEntry {
                index,
                transit: true,
                saved_seq: old(self).hops@[index as int].sent as u32,
                send_time,
                timeout,
            }),
            final(self).hops@ == old(self).hops@,
            final(self).target == old(self).target,
            final(self).target_addr == old(self).target_addr,
            final(self).config == old(self).config,
            final(self).packet_id == old(self).packet_id,
            final(self).num_hosts == old(self).num_hosts,
            final(self).next_sequence == old(self).next_sequence,
    {
        let entry = SequenceEntry {
            index,
            transit: true,
            saved_seq: self.hops[index].sent as u32,
            send_time,
            timeout,
        };
        // Discard a colliding entry left over from a wrapped-around
        // sequence counter.
        match find_seq_index(&self.sequence_table, seq) {
            Some(k) => {
                let ghost pre_table = self.sequence_table@;
                self.sequence_table.remove(k);
                proof {
                    lemma_remove_keeps_unique(pre_table, k as int);
                    assert forall|h: int| 0 <= h < self.hops@.len() implies (
                    #[trigger] self.hops@[h]).received + entries_for(self.sequence_table@, h)
                        <= self.hops@[h].sent by {
                        lemma_entries_for_remove(pre_table, k as int, h);
                    }
                    assert forall|h: int|
                        0 <= h < self.hops@.len() implies entries_for(self.sequence_table@, h)
                        <= entries_for(pre_table, h) by {
                        lemma_entries_for_remove(pre_table, k as int, h);
                    }
                }
            },
            None => {},
        }
        let ghost mid_table = self.sequence_table@;
        self.sequence_table.push((seq, entry));
        proof {
            assert(self.sequence_table@.drop_last() =~= mid_table);
            assert(self.sequence_table@.last() == (seq, entry));
            let t = self.sequence_table@;
            assert(t[t.len() - 1].0 == seq);
            assert(has_seq(t, seq));
            assert(entry_for(t, seq) == entry) by {
                let i = choose|i: int| 0 <= i < t.len() && t[i].0 == seq;
                if i < t.len() - 1 {
                    assert(mid_table[i].0 == seq);
                    assert(!has_seq(mid_table, seq));
                }
            }
            assert forall|h: int| 0 <= h < self.hops@.len() implies (
            #[trigger] self.hops@[h]).received + entries_for(self.sequence_table@, h)
                <= self.hops@[h].sent by {
                assert(entries_for(t, h) == entries_for(mid_table, h) + if entry.index == h {
                    1int
                } else {
                    0int
                });
                lemma_entries_for_nonneg(mid_table, h);
            }
        }
    }
}

/// Addition that stops at the largest representable instant instead of
/// wrapping.
pub open spec fn sat_add_u64(a: u64, b: u64) -> u64 {
    if a + b <= u64::MAX {
        (a + b) as u64
    } else {
        u64::MAX
    }
}

impl MtrSession {
    /// What dispatching one response does to the hops and the discovery
    /// state: an out-of-range hop index changes nothing; an answer is
    /// booked on its hop with multi-path resolution, and an echo reply
    /// from the target clamps the active hop count; an unreachable error
    /// flags the hop; a timeout resolves its oldest pending probe as
    /// lost.  The sequence table is never touched here.
    pub open spec fn response_applied(
        pre_hops: Seq<HopStats>,
        pre_num_hosts: int,
        target_addr: IpAddress,
        post_hops: Seq<HopStats>,
        post_num_hosts: int,
        response: ProbeResponse,
    ) -> bool {
        &&& post_hops.len() == pre_hops.len()
        &&& if response.hop >= pre_hops.len() {
            post_hops == pre_hops && post_num_hosts == pre_num_hosts
        } else {
            let h = response.hop as int;
            &&& (forall|j: int| 0 <= j < pre_hops.len() && j != h ==> post_hops[j] == pre_hops[j])
            &&& match response.icmp_type {
                IcmpResponseType::TimeExceeded | IcmpResponseType::EchoReply => {
                    &&& HopStats::rtt_from_addr_recorded(
                        pre_hops[h],
                        post_hops[h],
                        response.source_addr,
                        response.rtt,
                        sat_add_u64(response.send_time, response.rtt),
                    )
                    &&& post_num_hosts == if response.icmp_type is EchoReply
                        && response.source_addr == target_addr && h + 1 < pre_num_hosts {
                        h + 1
                    } else {
                        pre_num_hosts
                    }
                },
                IcmpResponseType::DestinationUnreachable => {
                    &&& post_hops[h] == (HopStats {
                        icmp_error: true,
                        addr: if pre_hops[h].addr is None {
                            Some(response.source_addr)
                        } else {
                            pre_hops[h].addr
                        },
                        ..pre_hops[h]
                    })
                    &&& post_num_hosts == pre_num_hosts
                },
                IcmpResponseType::Timeout => {
                    &&& HopStats::timeout_counted(pre_hops[h], post_hops[h])
                    &&& post_num_hosts == pre_num_hosts
                },
            }
        }
    }

    /// Route one probe response to the hop it belongs to: answers feed
    /// the statistics through multi-path resolution (an echo reply from
    /// the target also clamps the active hop count), unreachable errors
    /// flag the hop while still giving it a visible address, and timeouts
    /// resolve the oldest pending probe as lost.  A response for a hop
    /// index beyond the table is discarded.
    pub fn process_probe_response(&mut self, response: ProbeResponse)
        requires
            old(self).wf(),
            (response.icmp_type == IcmpResponseType::TimeExceeded || response.icmp_type
                == IcmpResponseType::EchoReply) && response.hop < old(self).hops@.len() ==> old(
                self,
            ).hops@[response.hop as int].received + entries_for(
                old(self).sequence_table@,
                response.hop as int,
            ) < old(self).hops@[response.hop as int].sent,
        ensures
            final(self).wf(),
            MtrSession::response_applied(
                old(self).hops@,
                old(self).num_hosts as int,
                old(self).target_addr,
                final(self).hops@,
                final(self).num_hosts as int,
                response,
            ),
            final(self).sequence_table@ == old(self).sequence_table@,
            final(self).target == old(self).target,
            final(self).target_addr == old(self).target_addr,
            final(self).config == old(self).config,
            final(self).packet_id == old(self).packet_id,
            final(self).next_sequence == old(self).next_sequence,
    {
        let hop_index = response.hop;
        if hop_index >= self.hops.len() {
            return ;
        }
        match response.icmp_type {
            IcmpResponseType::TimeExceeded | IcmpResponseType::EchoReply => {
                let now = if u64::MAX - response.send_time >= response.rtt {
                    response.send_time + response.rtt
                } else {
                    u64::MAX
                };
                proof {
                    lemma_entries_for_nonneg(self.sequence_table@, hop_index as int);
                }
                let ghost pre_hops = self.hops@;
                let mut hop = self.hops.remove(hop_index);
                hop.add_rtt_from_addr(response.source_addr, response.rtt, now);
                self.hops.insert(hop_index, hop);
                proof {
                    assert(self.hops@.remove(hop_index as int) =~= pre_hops.remove(
                        hop_index as int,
                    ));
                    assert(self.hops@ =~= pre_hops.update(
                        hop_index as int,
                        self.hops@[hop_index as int],
                    ));
                }
                let is_echo = matches!(response.icmp_type, IcmpResponseType::EchoReply);
                if is_echo && response.source_addr == self.target_addr && hop_index + 1
                    < self.num_hosts {
                    self.num_hosts = hop_index + 1;
                }
            },
            IcmpResponseType::DestinationUnreachable => {
                let ghost pre_hops = self.hops@;
                let mut hop = self.hops.remove(hop_index);
                hop.icmp_error = true;
                if hop.addr.is_none() {
                    hop.addr = Some(response.source_addr);
                }
                self.hops.insert(hop_index, hop);
                proof {
                    assert(self.hops@.remove(hop_index as int) =~= pre_hops.remove(
                        hop_index as int,
                    ));
                    assert(self.hops@ =~= pre_hops.update(
                        hop_index as int,
                        self.hops@[hop_index as int],
                    ));
                }
            },
            IcmpResponseType::Timeout => {
                let ghost pre_hops = self.hops@;
                let mut hop = self.hops.remove(hop_index);
                hop.add_timeout();
                self.hops.insert(hop_index, hop);
                proof {
                    assert(self.hops@.remove(hop_index as int) =~= pre_hops.remove(
                        hop_index as int,
                    ));
                    assert(self.hops@ =~= pre_hops.update(
                        hop_index as int,
                        self.hops@[hop_index as int],
                    ));
                }
            },
        }
    }

    /// What matching one incoming answer does: an unmatched sequence
    /// changes nothing; a matched one leaves the table, is measured
    /// against its send time, and is dispatched to its hop.
    pub open spec fn response_matched(
        pre: MtrSession,
        post: MtrSession,
        seq: u16,
        icmp_type: IcmpResponseType,
        source: IpAddress,
        now: u64,
        r: Option<ProbeResponse>,
    ) -> bool {
        &&& (!has_seq(pre.sequence_table@, seq) ==> r is None && post == pre)
        &&& (has_seq(pre.sequence_table@, seq) ==> {
            let e = entry_for(pre.sequence_table@, seq);
            let resp = ProbeResponse {
                hop: e.index,
                seq,
                source_addr: source,
                icmp_type,
                rtt: if now >= e.send_time {
                    (now - e.send_time) as u64
                } else {
                    0u64
                },
                send_time: e.send_time,
            };
            &&& r == Some(resp)
            &&& (exists|k: int|
                0 <= k < pre.sequence_table@.len() && pre.sequence_table@[k].0 == seq
                    && post.sequence_table@ == pre.sequence_table@.remove(k))
            &&& MtrSession::response_applied(
                pre.hops@,
                pre.num_hosts as int,
                pre.target_addr,
                post.hops@,
                post.num_hosts as int,
                resp,
            )
        })
        &&& post.target == pre.target
        &&& post.target_addr == pre.target_addr
        &&& post.config == pre.config
        &&& post.packet_id == pre.packet_id
        &&& post.next_sequence == pre.next_sequence
    }

    /// Match an incoming response to its outstanding probe by sequence
    /// number alone: an unmatched sequence is discarded untouched, a
    /// matched one leaves the table, is measured against its send time,
    /// and is dispatched to its hop.  Returns the response that was
    /// dispatched, if any.
    pub fn handle_response(
        &mut self,
        seq: u16,
        icmp_type: IcmpResponseType,
        source: IpAddress,
        now: u64,
    ) -> (r: Option<ProbeResponse>)
        requires
            old(self).wf(),
        ensures
            final(self).wf(),
            MtrSession::response_matched(
                *old(self),
                *final(self),
                seq,
                icmp_type,
                source,
                now,
                r,
            ),
    {
        match find_seq_index(&self.sequence_table, seq) {
            None => None,
            Some(k) => {
                let entry = self.sequence_table[k].1;
                let ghost pre_table = self.sequence_table@;
                self.sequence_table.remove(k);
                proof {
                    lemma_remove_keeps_unique(pre_table, k as int);
                    assert(entry_for(pre_table, seq) == entry) by {
                        let i = choose|i: int|
                            0 <= i < pre_table.len() && pre_table[i].0 == seq;
                        assert(pre_table[k as int].0 == seq);
                    }
                    assert forall|h: int| 0 <= h < self.hops@.len() implies (
                    #[trigger] self.hops@[h]).received + entries_for(self.sequence_table@, h)
                        <= self.hops@[h].sent by {
                        lemma_entries_for_remove(pre_table, k as int, h);
                        lemma_entries_for_nonneg(self.sequence_table@, h);
                    }
                    lemma_entries_for_remove(pre_table, k as int, entry.index as int);
                }
                let rtt = if now >= entry.send_time {
                    now - entry.send_time
                } else {
                    0
                };
                let response = ProbeResponse {
                    hop: entry.index,
                    seq,
                    source_addr: source,
                    icmp_type,
                    rtt,
                    send_time: entry.send_time,
                };
                self.process_probe_response(response);
                Some(response)
            },
        }
    }

    /// Decode a raw ICMPv4 capture (source address included in its bytes)
    /// and dispatch what it answers; a truncated or unrecognised capture,
    /// or an unmatched sequence, changes nothing.
    pub fn handle_datagram_v4(&mut self, buf: &[u8], now: u64) -> (r: Option<ProbeResponse>)
        requires
            old(self).wf(),
        ensures
            final(self).wf(),
            match codec::decode_v4_spec(buf@) {
                None => r is None && *final(self) == *old(self),
                Some(d) => MtrSession::response_matched(
                    *old(self),
                    *final(self),
                    d.seq,
                    d.icmp_type,
                    d.source,
                    now,
                    r,
                ),
            },
    {
        match codec::decode_response_v4(buf) {
            None => None,
            Some(d) => self.handle_response(d.seq, d.icmp_type, d.source, now),
        }
    }

    /// Decode a raw ICMPv6 capture (the socket layer reports the source
    /// address separately) and dispatch what it answers; a truncated or
    /// unrecognised capture, or an unmatched sequence, changes nothing.
    pub fn handle_datagram_v6(&mut self, buf: &[u8], source: IpAddress, now: u64) -> (r: Option<
        ProbeResponse,
    >)
        requires
            old(self).wf(),
        ensures
            final(self).wf(),
            match codec::decode_v6_spec(buf@) {
                None => r is None && *final(self) == *old(self),
                Some(d) => MtrSession::response_matched(
                    *old(self),
                    *final(self),
                    d.1,
                    d.0,
                    source,
                    now,
                    r,
                ),
            },
    {
        match codec::decode_response_v6(buf) {
            None => None,
            Some((icmp_type, seq)) => self.handle_response(seq, icmp_type, source, now),
        }
    }
}

/// Whether a table entry is still within its wait at instant `now`: its
/// own timeout, or the given staleness window.
pub open spec fn still_waiting(p: (u16, SequenceEntry), now: u64, window: Option<u64>) -> bool {
    now - p.1.send_time < match window {
        Some(w) => w as int,
        None => p.1.timeout as int,
    }
}

/// The table entries still within their wait at instant `now`, in order.
pub open spec fn waiting_entries(
    s: Seq<(u16, SequenceEntry)>,
    now: u64,
    window: Option<u64>,
) -> Seq<(u16, SequenceEntry)>
    decreases s.len(),
{
    if s.len() == 0 {
        s
    } else {
        let rest = waiting_entries(s.drop_last(), now, window);
        if still_waiting(s.last(), now, window) {
            rest.push(s.last())
        } else {
            rest
        }
    }
}

/// The synthetic response that reports one evicted probe as timed out:
/// it carries the probe's own sequence, hop and send time, the probe's
/// configured timeout as its round-trip time, and the all-zero source.
pub open spec fn timeout_response(p: (u16, SequenceEntry)) -> ProbeResponse {
    ProbeResponse {
        hop: p.1.index,
        seq: p.0,
        source_addr: IpAddress::V4(0u8, 0u8, 0u8, 0u8),
        icmp_type: IcmpResponseType::Timeout,
        rtt: p.1.timeout,
        send_time: p.1.send_time,
    }
}

/// One synthetic timeout per table entry whose wait has run out at
/// instant `now`, in table order.
pub open spec fn expired_responses(
    s: Seq<(u16, SequenceEntry)>,
    now: u64,
    window: Option<u64>,
) -> Seq<ProbeResponse>
    decreases s.len(),
{
    if s.len() == 0 {
        Seq::empty()
    } else {
        let rest = expired_responses(s.drop_last(), now, window);
        if still_waiting(s.last(), now, window) {
            rest
        } else {
            rest.push(timeout_response(s.last()))
        }
    }
}

/// How many of the responses report hop `hop`.
pub open spec fn timeouts_for(rs: Seq<ProbeResponse>, hop: int) -> int
    decreases rs.len(),
{
    if rs.len() == 0 {
        0
    } else {
        timeouts_for(rs.drop_last(), hop) + if rs.last().hop == hop {
            1int
        } else {
            0int
        }
    }
}

pub proof fn lemma_timeouts_for_nonneg(rs: Seq<ProbeResponse>, hop: int)
    ensures
        timeouts_for(rs, hop) >= 0,
    decreases rs.len(),
{
    if rs.len() > 0 {
        lemma_timeouts_for_nonneg(rs.drop_last(), hop);
    }
}

/// A hop's outstanding probes split exactly into those still waiting and
/// those reported by the synthetic timeouts.
proof fn lemma_expired_counts(s: Seq<(u16, SequenceEntry)>, now: u64, window: Option<u64>, h: int)
    ensures
        entries_for(s, h) == entries_for(waiting_entries(s, now, window), h) + timeouts_for(
            expired_responses(s, now, window),
            h,
        ),
    decreases s.len(),
{
    if s.len() > 0 {
        let d = s.drop_last();
        lemma_expired_counts(d, now, window, h);
        if still_waiting(s.last(), now, window) {
            assert(waiting_entries(s, now, window) == waiting_entries(d, now, window).push(
                s.last(),
            ));
            assert(waiting_entries(s, now, window).drop_last() =~= waiting_entries(
                d,
                now,
                window,
            ));
            assert(expired_responses(s, now, window) == expired_responses(d, now, window));
        } else {
            assert(expired_responses(s, now, window) == expired_responses(d, now, window).push(
                timeout_response(s.last()),
            ));
            assert(expired_responses(s, now, window).drop_last() =~= expired_responses(
                d,
                now,
                window,
            ));
            assert(waiting_entries(s, now, window) == waiting_entries(d, now, window));
        }
    }
}

proof fn lemma_waiting_entries(s: Seq<(u16, SequenceEntry)>, now: u64, window: Option<u64>)
    ensures
        forall|i: int|
            0 <= i < waiting_entries(s, now, window).len() ==> s.contains(
                #[trigger] waiting_entries(s, now, window)[i],
            ),
        unique_seqs(s) ==> unique_seqs(waiting_entries(s, now, window)),
        forall|h: int|
            entries_for(waiting_entries(s, now, window), h) <= #[trigger] entries_for(s, h),
        waiting_entries(s, now, window).len() <= s.len(),
    decreases s.len(),
{
    if s.len() == 0 {
    } else {
        let d = s.drop_last();
        let w = waiting_entries(s, now, window);
        let dw = waiting_entries(d, now, window);
        lemma_waiting_entries(d, now, window);
        assert(forall|i: int| 0 <= i < d.len() ==> d[i] == s[i]);
        assert forall|i: int| 0 <= i < dw.len() implies s.contains(#[trigger] dw[i]) by {
            assert(d.contains(dw[i]));
            let m = choose|m: int| 0 <= m < d.len() && d[m] == dw[i];
            assert(s[m] == d[m]);
        }
        if still_waiting(s.last(), now, window) {
            assert(w == dw.push(s.last()));
            assert(s.contains(s.last())) by {
                assert(s[s.len() - 1] == s.last());
            }
            if unique_seqs(s) {
                assert forall|i: int, j: int| 0 <= i < j < w.len() implies w[i].0 != w[j].0 by {
                    if j < w.len() - 1 {
                    } else {
                        assert(d.contains(dw[i]));
                        let m = choose|m: int| 0 <= m < d.len() && d[m] == dw[i];
                        assert(s[m] == dw[i]);
                        assert(w[j] == s.last());
                        assert(s[m].0 != s[s.len() - 1].0);
                    }
                }
            }
            assert forall|h: int| entries_for(w, h) <= #[trigger] entries_for(s, h) by {
                assert(entries_for(dw, h) <= entries_for(d, h));
                assert(w.drop_last() =~= dw);
                assert(w.last() == s.last());
            }
        } else {
            assert(w == dw);
            assert forall|h: int| entries_for(w, h) <= #[trigger] entries_for(s, h) by {
                assert(entries_for(dw, h) <= entries_for(d, h));
                lemma_entries_for_nonneg(w, h);
            }
        }
    }
}

impl MtrSession {
    /// Drop every table entry whose wait has run out at instant `now`
    /// (its own timeout, or the staleness window if one is given) and
    /// hand back one synthetic timeout response per dropped probe, ready
    /// to be dispatched.
    fn remove_expired(&mut self, now: u64, window: Option<u64>) -> (r: Vec<ProbeResponse>)
        requires
            old(self).wf(),
            forall|k: int|
                0 <= k < old(self).sequence_table@.len() ==> (#[trigger] old(
                    self,
                ).sequence_table@[k]).1.send_time <= now,
        ensures
            final(self).wf(),
            final(self).sequence_table@ == waiting_entries(
                old(self).sequence_table@,
                now,
                window,
            ),
            r@.len() == old(self).sequence_table@.len() - final(self).sequence_table@.len(),
            forall|i: int|
                0 <= i < r@.len() ==> (#[trigger] r@[i]).icmp_type == IcmpResponseType::Timeout
                    && r@[i].hop < final(self).hops@.len(),
            r@ == expired_responses(old(self).sequence_table@, now, window),
            final(self).hops@ == old(self).hops@,
            final(self).target == old(self).target,
            final(self).target_addr == old(self).target_addr,
            final(self).config == old(self).config,
            final(self).packet_id == old(self).packet_id,
            final(self).next_sequence == old(self).next_sequence,
            final(self).num_hosts == old(self).num_hosts,
    {
        let ghost table0 = self.sequence_table@;
        let n = self.sequence_table.len();
        let mut kept: Vec<(u16, SequenceEntry)> = Vec::new();
        let mut out: Vec<ProbeResponse> = Vec::new();
        let mut j: usize = 0;
        proof {
            assert(table0.take(0) =~= Seq::<(u16, SequenceEntry)>::empty());
        }
        while j < n
            invariant
                0 <= j <= n,
                n == self.sequence_table@.len(),
                self.sequence_table@ == table0,
                forall|k: int|
                    0 <= k < table0.len() ==> (#[trigger] table0[k]).1.send_time <= now,
                forall|k: int|
                    0 <= k < table0.len() ==> (#[trigger] table0[k]).1.index
                        < self.hops@.len(),
                kept@ == waiting_entries(table0.take(j as int), now, window),
                out@.len() == j - kept@.len(),
                forall|i: int|
                    0 <= i < out@.len() ==> (#[trigger] out@[i]).icmp_type
                        == IcmpResponseType::Timeout && out@[i].hop < self.hops@.len(),
                out@ == expired_responses(table0.take(j as int), now, window),
            decreases n - j,
        {
            let (seq, entry) = self.sequence_table[j];
            let keep = match window {
                Some(w) => now - entry.send_time < w,
                None => now - entry.send_time < entry.timeout,
            };
            proof {
                assert(table0.take(j as int + 1).drop_last() =~= table0.take(j as int));
                assert(table0.take(j as int + 1).last() == table0[j as int]);
                assert(keep == still_waiting(table0[j as int], now, window));
            }
            if keep {
                kept.push((seq, entry));
            } else {
                out.push(
                    ProbeResponse {
                        hop: entry.index,
                        seq,
                        source_addr: IpAddress::unspecified(),
                        icmp_type: IcmpResponseType::Timeout,
                        rtt: entry.timeout,
                        send_time: entry.send_time,
                    },
                );
            }
            j = j + 1;
        }
        proof {
            assert(table0.take(n as int) =~= table0);
            lemma_waiting_entries(table0, now, window);
        }
        self.sequence_table = kept;
        proof {
            assert forall|k: int|
                0 <= k < self.sequence_table@.len() implies (
            #[trigger] self.sequence_table@[k]).1.index < self.hops@.len() by {
                assert(table0.contains(self.sequence_table@[k]));
                let m = choose|m: int|
                    0 <= m < table0.len() && table0[m] == self.sequence_table@[k];
            }
        }
        out
    }

    /// Synthesize a timeout for every outstanding probe whose own timeout
    /// has elapsed at instant `now`, and count each on its hop: every
    /// expired probe yields exactly one response carrying its own
    /// sequence, hop, send time and timeout, and its hop's oldest
    /// pending timeline entry turns lost.
    pub fn collect_timeouts(&mut self, now: u64) -> (r: Vec<ProbeResponse>)
        requires
            old(self).wf(),
            forall|k: int|
                0 <= k < old(self).sequence_table@.len() ==> (#[trigger] old(
                    self,
                ).sequence_table@[k]).1.send_time <= now,
        ensures
            final(self).wf(),
            final(self).sequence_table@ == waiting_entries(old(self).sequence_table@, now, None),
            r@ == expired_responses(old(self).sequence_table@, now, None),
            r@.len() == old(self).sequence_table@.len() - final(self).sequence_table@.len(),
            forall|i: int|
                0 <= i < r@.len() ==> (#[trigger] r@[i]).icmp_type == IcmpResponseType::Timeout,
            final(self).hops@.len() == old(self).hops@.len(),
            forall|h: int|
                0 <= h < old(self).hops@.len() ==> HopStats::timeouts_applied(
                    old(self).hops@[h],
                    #[trigger] final(self).hops@[h],
                    entries_for(old(self).sequence_table@, h) - entries_for(
                        final(self).sequence_table@,
                        h,
                    ),
                ),
            forall|h: int|
                0 <= h < old(self).hops@.len() ==> {
                    let pre = #[trigger] old(self).hops@[h];
                    let post = final(self).hops@[h];
                    &&& post.received == pre.received
                    &&& post.sent == pre.sent
                    &&& post.rtts@ == pre.rtts@
                    &&& post.jitters@ == pre.jitters@
                    &&& post.packet_history@.len() == pre.packet_history@.len()
                    &&& post.addr == pre.addr
                    &&& post.hostname == pre.hostname
                },
            final(self).target == old(self).target,
            final(self).target_addr == old(self).target_addr,
            final(self).config == old(self).config,
            final(self).packet_id == old(self).packet_id,
            final(self).next_sequence == old(self).next_sequence,
            final(self).num_hosts == old(self).num_hosts,
    {
        let out = self.remove_expired(now, None);
        proof {
            assert forall|h: int| 0 <= h < self.hops@.len() implies timeouts_for(out@, h)
                == entries_for(old(self).sequence_table@, h) - entries_for(
                self.sequence_table@,
                h,
            ) by {
                lemma_expired_counts(old(self).sequence_table@, now, None, h);
            }
        }
        self.dispatch_timeouts(&out);
        out
    }

    /// Evict every table entry older than the staleness window at instant
    /// `now`, counting each as a synthetic timeout on its hop: this
    /// bounds the table under sustained loss and keeps a wrapped-around
    /// sequence number from matching a stale probe.
    pub fn evict_stale(&mut self, now: u64) -> (r: Vec<ProbeResponse>)
        requires
            old(self).wf(),
            forall|k: int|
                0 <= k < old(self).sequence_table@.len() ==> (#[trigger] old(
                    self,
                ).sequence_table@[k]).1.send_time <= now,
        ensures
            final(self).wf(),
            final(self).sequence_table@ == waiting_entries(
                old(self).sequence_table@,
                now,
                Some(STALENESS_WINDOW_NS),
            ),
            r@ == expired_responses(old(self).sequence_table@, now, Some(STALENESS_WINDOW_NS)),
            r@.len() == old(self).sequence_table@.len() - final(self).sequence_table@.len(),
            final(self).hops@.len() == old(self).hops@.len(),
            forall|h: int|
                0 <= h < old(self).hops@.len() ==> HopStats::timeouts_applied(
                    old(self).hops@[h],
                    #[trigger] final(self).hops@[h],
                    entries_for(old(self).sequence_table@, h) - entries_for(
                        final(self).sequence_table@,
                        h,
                    ),
                ),
            forall|h: int|
                0 <= h < old(self).hops@.len() ==> {
                    let pre = #[trigger] old(self).hops@[h];
                    let post = final(self).hops@[h];
                    &&& post.received == pre.received
                    &&& post.sent == pre.sent
                    &&& post.rtts@ == pre.rtts@
                    &&& post.jitters@ == pre.jitters@
                    &&& post.packet_history@.len() == pre.packet_history@.len()
                    &&& post.addr == pre.addr
                    &&& post.hostname == pre.hostname
                },
            final(self).target == old(self).target,
            final(self).target_addr == old(self).target_addr,
            final(self).config == old(self).config,
            final(self).packet_id == old(self).packet_id,
            final(self).next_sequence == old(self).next_sequence,
            final(self).num_hosts == old(self).num_hosts,
    {
        let out = self.remove_expired(now, Some(STALENESS_WINDOW_NS));
        proof {
            assert forall|h: int| 0 <= h < self.hops@.len() implies timeouts_for(out@, h)
                == entries_for(old(self).sequence_table@, h) - entries_for(
                self.sequence_table@,
                h,
            ) by {
                lemma_expired_counts(
                    old(self).sequence_table@,
                    now,
                    Some(STALENESS_WINDOW_NS),
                    h,
                );
            }
        }
        self.dispatch_timeouts(&out);
        out
    }

    /// Count each synthetic timeout on its hop: a hop ends with as many
    /// oldest-pending entries turned lost as it has responses in the
    /// batch.
    fn dispatch_timeouts(&mut self, responses: &Vec<ProbeResponse>)
        requires
            old(self).wf(),
            forall|i: int|
                0 <= i < responses@.len() ==> (#[trigger] responses@[i]).icmp_type
                    == IcmpResponseType::Timeout && responses@[i].hop < old(self).hops@.len(),
        ensures
            final(self).wf(),
            final(self).sequence_table@ == old(self).sequence_table@,
            final(self).hops@.len() == old(self).hops@.len(),
            forall|h: int|
                0 <= h < old(self).hops@.len() ==> HopStats::timeouts_applied(
                    old(self).hops@[h],
                    #[trigger] final(self).hops@[h],
                    timeouts_for(responses@, h),
                ),
            forall|h: int|
                0 <= h < old(self).hops@.len() ==> {
                    let pre = #[trigger] old(self).hops@[h];
                    let post = final(self).hops@[h];
                    &&& post.received == pre.received
                    &&& post.sent == pre.sent
                    &&& post.rtts@ == pre.rtts@
                    &&& post.jitters@ == pre.jitters@
                    &&& post.packet_history@.len() == pre.packet_history@.len()
                    &&& post.addr == pre.addr
                    &&& post.hostname == pre.hostname
                },
            final(self).target == old(self).target,
            final(self).target_addr == old(self).target_addr,
            final(self).config == old(self).config,
            final(self).packet_id == old(self).packet_id,
            final(self).next_sequence == old(self).next_sequence,
            final(self).num_hosts == old(self).num_hosts,
    {
        let n = responses.len();
        let mut i: usize = 0;
        while i < n
            invariant
                0 <= i <= n,
                n == responses@.len(),
                self.wf(),
                forall|k: int|
                    0 <= k < responses@.len() ==> (#[trigger] responses@[k]).icmp_type
                        == IcmpResponseType::Timeout && responses@[k].hop < old(
                        self,
                    ).hops@.len(),
                self.sequence_table@ == old(self).sequence_table@,
                self.hops@.len() == old(self).hops@.len(),
                forall|h: int|
                    0 <= h < old(self).hops@.len() ==> HopStats::timeouts_applied(
                        old(self).hops@[h],
                        #[trigger] self.hops@[h],
                        timeouts_for(responses@.take(i as int), h),
                    ),
                forall|h: int|
                    0 <= h < old(self).hops@.len() ==> {
                        let pre = #[trigger] old(self).hops@[h];
                        let post = self.hops@[h];
                        &&& post.received == pre.received
                        &&& post.sent == pre.sent
                        &&& post.rtts@ == pre.rtts@
                        &&& post.jitters@ == pre.jitters@
                        &&& post.packet_history@.len() == pre.packet_history@.len()
                        &&& post.addr == pre.addr
                        &&& post.hostname == pre.hostname
                    },
                self.target == old(self).target,
                self.target_addr == old(self).target_addr,
                self.config == old(self).config,
                self.packet_id == old(self).packet_id,
                self.next_sequence == old(self).next_sequence,
                self.num_hosts == old(self).num_hosts,
            decreases n - i,
        {
            proof {
                assert(responses@.take(0) =~= Seq::<ProbeResponse>::empty());
            }
            let response = responses[i];
            let ghost mid_hops = self.hops@;
            self.process_probe_response(response);
            proof {
                assert(responses@.take(i as int + 1).drop_last() =~= responses@.take(i as int));
                assert(responses@.take(i as int + 1).last() == responses@[i as int]);
                assert forall|h: int|
                    0 <= h < old(self).hops@.len() implies HopStats::timeouts_applied(
                    old(self).hops@[h],
                    #[trigger] self.hops@[h],
                    timeouts_for(responses@.take(i as int + 1), h),
                ) by {
                    lemma_timeouts_for_nonneg(responses@.take(i as int), h);
                    if h == response.hop {
                        crate::hop_stats::lemma_timeouts_applied_step(
                            old(self).hops@[h],
                            mid_hops[h],
                            self.hops@[h],
                            timeouts_for(responses@.take(i as int), h),
                        );
                    } else {
                        assert(self.hops@[h] == mid_hops[h]);
                    }
                }
            }
            i = i + 1;
        }
        proof {
            assert(responses@.take(n as int) =~= responses@);
        }
    }

    /// How many hops the next round probes: the discovered host count,
    /// bounded by the configured maximum.
    pub fn active_hop_count(&self) -> (r: usize)
        ensures
            r == if self.num_hosts > 0 {
                crate::utils::min_spec(self.num_hosts as int, self.config.max_hops as int)
            } else {
                crate::utils::min_spec(10, self.config.max_hops as int)
            },
    {
        if self.num_hosts > 0 {
            crate::utils::min_with_safety(self.num_hosts, self.config.max_hops as usize)
        } else {
            crate::utils::min_with_safety(10, self.config.max_hops as usize)
        }
    }
}

impl MtrSession {
    /// Book one probe as sent to hop `index` at instant `now`: stale
    /// table entries are first evicted (each counted as a synthetic
    /// timeout on its hop), a sequence number is allocated, the hop's
    /// sent counter moves up, and the probe is recorded as outstanding
    /// with the given timeout.  The caller encodes and transmits the
    /// matching echo request.
    pub fn net_send_query(&mut self, index: usize, now: u64, timeout: u64) -> (seq: u16)
        requires
            old(self).wf(),
            index < old(self).hops@.len(),
            old(self).hops@[index as int].sent < usize::MAX,
            forall|k: int|
                0 <= k < old(self).sequence_table@.len() ==> (#[trigger] old(
                    self,
                ).sequence_table@[k]).1.send_time <= now,
        ensures
            final(self).wf(),
            seq == old(self).next_sequence,
            MIN_SEQUENCE <= seq <= MAX_SEQUENCE,
            final(self).next_sequence == if seq == MAX_SEQUENCE {
                MIN_SEQUENCE as int
            } else {
                seq + 1
            },
            has_seq(final(self).sequence_table@, seq),
            entry_for(final(self).sequence_table@, seq).index == index,
            entry_for(final(self).sequence_table@, seq).send_time == now,
            entry_for(final(self).sequence_table@, seq).timeout == timeout,
            final(self).hops@.len() == old(self).hops@.len(),
            final(self).hops@[index as int].sent == old(self).hops@[index as int].sent + 1,
            final(self).hops@[index as int].received == old(self).hops@[index as int].received,
            forall|j: int|
                0 <= j < old(self).hops@.len() ==> (#[trigger] final(self).hops@[j]).sent == old(
                    self,
                ).hops@[j].sent + if j == index {
                    1int
                } else {
                    0int
                },
            // the entries older than the staleness window left the table:
            // whatever survives beside the new probe was still waiting
            !has_seq(
                waiting_entries(old(self).sequence_table@, now, Some(STALENESS_WINDOW_NS)),
                seq,
            ) ==> final(self).sequence_table@ == waiting_entries(
                old(self).sequence_table@,
                now,
                Some(STALENESS_WINDOW_NS),
            ).push(
                (
                    seq,
                    SequenceEntry {
                        index,
                        transit: true,
                        saved_seq: (old(self).hops@[index as int].sent + 1) as u32,
                        send_time: now,
                        timeout,
                    },
                ),
            ),
            // and each evicted probe was counted as a timeout on its hop
            forall|h: int|
                0 <= h < old(self).hops@.len() && h != index ==> HopStats::timeouts_applied(
                    old(self).hops@[h],
                    #[trigger] final(self).hops@[h],
                    entries_for(old(self).sequence_table@, h) - entries_for(
                        waiting_entries(old(self).sequence_table@, now, Some(STALENESS_WINDOW_NS)),
                        h,
                    ),
                ),
            exists|mid: HopStats|
                HopStats::timeouts_applied(
                    old(self).hops@[index as int],
                    mid,
                    entries_for(old(self).sequence_table@, index as int) - entries_for(
                        waiting_entries(old(self).sequence_table@, now, Some(STALENESS_WINDOW_NS)),
                        index as int,
                    ),
                ) && HopStats::sent_counted(mid, #[trigger] final(self).hops@[index as int]),
            final(self).target == old(self).target,
            final(self).target_addr == old(self).target_addr,
            final(self).config == old(self).config,
            final(self).packet_id == old(self).packet_id,
    {
        self.evict_stale(now);
        let ghost mid_hops = self.hops@;
        let seq = self.prepare_sequence(index);
        self.save_sequence_with_send_time(index, seq, now, timeout);
        proof {
            assert(HopStats::timeouts_applied(
                old(self).hops@[index as int],
                mid_hops[index as int],
                entries_for(old(self).sequence_table@, index as int) - entries_for(
                    waiting_entries(old(self).sequence_table@, now, Some(STALENESS_WINDOW_NS)),
                    index as int,
                ),
            ) && HopStats::sent_counted(
                mid_hops[index as int],
                self.hops@[index as int],
            ));
        }
        seq
    }

    /// What one simulated probe does to its hop: it is counted as sent,
    /// and then either lost to a timeout, or answered with a plausible
    /// round-trip time (base latency growing with the hop number plus
    /// jitter below fifty milliseconds), assigning the hop its fixed
    /// simulated address and, unless numeric display is asked for, its
    /// hostname, if it had none yet.
    pub open spec fn simulated_step(pre: HopStats, post: HopStats, numeric: bool) -> bool {
        exists|mid: HopStats|
            #![trigger HopStats::sent_counted(pre, mid)]
            HopStats::sent_counted(pre, mid) && (HopStats::timeout_counted(mid, post) || (exists|
                j: u64,
                answered: HopStats,
            |
                #![trigger HopStats::rtt_recorded(mid, answered, simulated_rtt_ns(pre.hop, j))]
                j < 50 && HopStats::rtt_recorded(mid, answered, simulated_rtt_ns(pre.hop, j)) && (
                if answered.addr is Some {
                    post == answered
                } else {
                    &&& post == (HopStats {
                        addr: Some(simulated_address_spec(pre.hop)),
                        hostname: post.hostname,
                        ..answered
                    })
                    &&& if numeric {
                        post.hostname is None
                    } else {
                        match post.hostname {
                            Some(h) => h@ == simulated_hostname_spec(pre.hop),
                            None => false,
                        }
                    }
                })))
    }

    /// Step one hop of a simulated round: the probe is
    /// counted as sent and, depending on the drawn randomness, either
    /// answered with a plausible round-trip time (latency growing with
    /// the hop number, the fixed simulated addresses and, unless numeric
    /// display is asked for, hostnames) or lost to a timeout.  The
    /// simulated loss chance grows with the hop number.
    pub fn simulate_hop(&mut self, hop_index: usize)
        requires
            old(self).wf(),
            hop_index < old(self).hops@.len(),
            old(self).hops@[hop_index as int].sent < usize::MAX,
            old(self).hops@[hop_index as int].received < usize::MAX,
        ensures
            final(self).wf(),
            final(self).hops@.len() == old(self).hops@.len(),
            forall|j: int|
                0 <= j < old(self).hops@.len() && j != hop_index ==> final(self).hops@[j] == old(
                    self,
                ).hops@[j],
            final(self).hops@[hop_index as int].sent == old(self).hops@[hop_index as int].sent
                + 1,
            final(self).hops@[hop_index as int].received == old(
                self,
            ).hops@[hop_index as int].received || final(self).hops@[hop_index as int].received
                == old(self).hops@[hop_index as int].received + 1,
            MtrSession::simulated_step(
                old(self).hops@[hop_index as int],
                final(self).hops@[hop_index as int],
                old(self).config.numeric,
            ),
            final(self).sequence_table@ == old(self).sequence_table@,
            final(self).target == old(self).target,
            final(self).target_addr == old(self).target_addr,
            final(self).config == old(self).config,
            final(self).packet_id == old(self).packet_id,
            final(self).next_sequence == old(self).next_sequence,
            final(self).num_hosts == old(self).num_hosts,
    {
        let numeric = self.config.numeric;
        let ghost pre_hops = self.hops@;
        let mut hop = self.hops.remove(hop_index);
        proof {
            lemma_entries_for_nonneg(self.sequence_table@, hop_index as int);
        }
        hop.increment_sent();
        let ghost counted = hop;

        let hop_number = hop.hop;
        // Base latency grows with the hop; jitter and loss are drawn.
        let base_latency_ms: u64 = (hop_number as u64) * 10 + 20;
        let jitter_ms: u64 = random_u64() % 50;
        let chance_milli: u64 = if (hop_number as u64) * 50 < 250 {
            (hop_number as u64) * 50
        } else {
            250
        };

        let answered = random_u64() % 1000 >= chance_milli;
        let ghost mut sample: HopStats = counted;
        if answered {
            let rtt_ns = (base_latency_ms + jitter_ms) * 1_000_000;
            hop.add_rtt(rtt_ns);
            proof {
                sample = hop;
            }
            if hop.addr.is_none() {
                hop.addr = Some(simulated_address(hop_number));
                hop.hostname = if !numeric {
                    Some(simulated_hostname(hop_number))
                } else {
                    None
                };
            }
        } else {
            hop.add_timeout();
        }

        self.hops.insert(hop_index, hop);
        proof {
            assert(self.hops@.remove(hop_index as int) =~= pre_hops.remove(hop_index as int));
            assert(self.hops@ =~= pre_hops.update(hop_index as int, self.hops@[hop_index as int]));
            let pre = old(self).hops@[hop_index as int];
            let post = self.hops@[hop_index as int];
            assert(HopStats::sent_counted(pre, counted));
            if answered {
                assert(jitter_ms < 50 && HopStats::rtt_recorded(
                    counted,
                    sample,
                    simulated_rtt_ns(pre.hop, jitter_ms),
                ));
            } else {
                assert(HopStats::timeout_counted(counted, post));
            }
            assert(MtrSession::simulated_step(pre, post, old(self).config.numeric));
        }
    }
}

/// The simulated round-trip time for a hop: a base latency growing with
/// the hop number plus the drawn jitter, in nanoseconds.
pub open spec fn simulated_rtt_ns(hop_number: u8, jitter_ms: u64) -> u64 {
    (((hop_number as int) * 10 + 20 + jitter_ms) * 1_000_000) as u64
}

/// The fixed address the simulation gives each hop.
pub open spec fn simulated_address_spec(hop_number: u8) -> IpAddress {
    if hop_number == 1 {
        IpAddress::V4(192u8, 168u8, 1u8, 1u8)
    } else if 2 <= hop_number && hop_number <= 3 {
        IpAddress::V4(10u8, 0u8, hop_number, 1u8)
    } else if hop_number >= 8 {
        IpAddress::V4(8u8, 8u8, 8u8, 8u8)
    } else {
        IpAddress::V4(8u8, 8u8, 8u8, hop_number)
    }
}

/// The hostname text the simulation pairs with each simulated address.
pub open spec fn simulated_hostname_spec(hop_number: u8) -> Seq<char> {
    if hop_number == 1 {
        "gateway.local"@
    } else if 2 <= hop_number && hop_number <= 3 {
        "core-"@ + crate::utils::dec_digits(hop_number as int) + ".isp.net"@
    } else {
        "dns.google"@
    }
}

/// Relies on rand::random: draws a uniformly distributed random value.
#[verifier::external_body]
fn random_u64() -> u64 {
    rand::random::<u64>()
}

/// The fixed address the simulation gives hop `hop_number`: the local
/// gateway first, private core routers next, a public resolver beyond.
fn simulated_address(hop_number: u8) -> (r: IpAddress)
    ensures
        r == simulated_address_spec(hop_number),
{
    if hop_number == 1 {
        IpAddress::V4(192, 168, 1, 1)
    } else if hop_number >= 2 && hop_number <= 3 {
        IpAddress::V4(10, 0, hop_number, 1)
    } else {
        let final_octet = if hop_number >= 8 {
            8
        } else {
            hop_number
        };
        IpAddress::V4(8, 8, 8, final_octet)
    }
}

/// The hostname the simulation pairs with each simulated address.
fn simulated_hostname(hop_number: u8) -> (r: String)
    ensures
        r@ == simulated_hostname_spec(hop_number),
{
    if hop_number == 1 {
        String::from_str("gateway.local")
    } else if hop_number >= 2 && hop_number <= 3 {
        let mut s = String::from_str("core-");
        s.append(crate::utils::u64_to_dec_string(hop_number as u64).as_str());
        s.append(".isp.net");
        proof {
            assert(s@ =~= simulated_hostname_spec(hop_number));
        }
        s
    } else {
        String::from_str("dns.google")
    }
}

/// For every hop of a well-formed session, the received count never
/// exceeds the sent count, and the loss percentage lies between zero and
/// one hundred percent.
pub proof fn lemma_received_le_sent(s: MtrSession, h: int)
    requires
        s.wf(),
        0 <= h < s.hops@.len(),
    ensures
        s.hops@[h].received <= s.hops@[h].sent,
        s.hops@[h].loss_percent_milli <= 100_000,
{
    lemma_entries_for_nonneg(s.sequence_table@, h);
}

/// In a well-formed session the next sequence number always lies within
/// [32768, 60999]; `prepare_sequence` states that after handing out 60999
/// the counter restarts at 32768.
pub proof fn lemma_sequence_range(s: MtrSession)
    requires
        s.wf(),
    ensures
        MIN_SEQUENCE <= s.next_sequence <= MAX_SEQUENCE,
{
}

/// Index of the table entry keyed by `seq`, if any.
fn find_seq_index(v: &Vec<(u16, SequenceEntry)>, seq: u16) -> (r: Option<usize>)
    ensures
        match r {
            Some(k) => k < v@.len() && v@[k as int].0 == seq,
            None => !has_seq(v@, seq),
        },
{
    let n = v.len();
    let mut j: usize = 0;
    while j < n
        invariant
            0 <= j <= n,
            n == v@.len(),
            forall|i: int| 0 <= i < j ==> v@[i].0 != seq,
        decreases n - j,
    {
        if v[j].0 == seq {
            return Some(j);
        }
        j = j + 1;
    }
    None
}

proof fn lemma_remove_keeps_unique(s: Seq<(u16, SequenceEntry)>, k: int)
    requires
        unique_seqs(s),
        0 <= k < s.len(),
    ensures
        unique_seqs(s.remove(k)),
        forall|i: int| 0 <= i < s.remove(k).len() ==> has_seq(s, (#[trigger] s.remove(k)[i]).0),
{
    let t = s.remove(k);
    assert forall|i: int, j: int| 0 <= i < j < t.len() implies t[i].0 != t[j].0 by {
        let si = if i < k {
            i
        } else {
            i + 1
        };
        let sj = if j < k {
            j
        } else {
            j + 1
        };
        assert(t[i] == s[si] && t[j] == s[sj]);
    }
    assert forall|i: int| 0 <= i < t.len() implies has_seq(s, (#[trigger] t[i]).0) by {
        let si = if i < k {
            i
        } else {
            i + 1
        };
        assert(t[i] == s[si]);
    }
}

/// Clone a string, preserving its characters.
fn clone_string(s: &String) -> (r: String)
    ensures
        r@ == s@,
{
    s.clone()
}

} // verus!
