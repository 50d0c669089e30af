use mtr_ng::args::{ProbeProtocol, SparklineScale};
use mtr_ng::probe::{IcmpResponseType, ProbeInfo};
use mtr_ng::session::{MAX_SEQUENCE, MIN_SEQUENCE};
use mtr_ng::{IpAddress, MtrSession, SessionConfig};

const MS: u64 = 1_000_000;

fn test_config(target: &str, max_hops: u8) -> SessionConfig {
    SessionConfig {
        target: target.to_string(),
        count: Some(5),
        interval_ms: 500,
        max_hops,
        report: false,
        numeric: true,
        sparkline_scale: SparklineScale::Logarithmic,
        ema_alpha_milli: 100,
        fields: None,
        show_all: false,
        simulate: false,
        protocol: ProbeProtocol::Icmp,
    }
}

fn test_session(max_hops: u8) -> MtrSession {
    MtrSession::new(
        test_config("192.168.1.1", max_hops),
        IpAddress::V4(192, 168, 1, 1),
        4242,
    )
}

#[test]
fn test_mtr_session_new_with_ip() {
    let session = test_session(20);
    assert_eq!(session.target, "192.168.1.1");
    assert_eq!(session.target_addr, IpAddress::V4(192, 168, 1, 1));
    assert_eq!(session.hops.len(), 20);
    assert_eq!(session.config.count, Some(5));
    assert_eq!(session.config.interval_ms, 500);
    for (i, hop) in session.hops.iter().enumerate() {
        assert_eq!(hop.hop as usize, i + 1);
        assert_eq!(hop.sent, 0);
        assert_eq!(hop.ema_alpha_milli, 100);
    }
}

#[test]
fn test_mtr_session_clone() {
    let config = test_config("example.com", 30);
    let config_clone = config.clone();
    assert_eq!(config.target, config_clone.target);
    assert_eq!(config.count, config_clone.count);

    let session = test_session(30);
    let session_clone = session.clone();
    assert_eq!(session.target, session_clone.target);
    assert_eq!(session.hops.len(), session_clone.hops.len());
}

#[test]
fn test_sequence_allocation_range_and_wrap() {
    let mut session = test_session(5);
    assert_eq!(session.next_sequence, MIN_SEQUENCE);

    let seq = session.prepare_sequence(0);
    assert_eq!(seq, MIN_SEQUENCE);
    assert_eq!(session.next_sequence, MIN_SEQUENCE + 1);
    assert!((MIN_SEQUENCE..=MAX_SEQUENCE).contains(&seq));

    // after handing out the top of the range the counter restarts
    session.next_sequence = MAX_SEQUENCE;
    let seq = session.prepare_sequence(0);
    assert_eq!(seq, MAX_SEQUENCE);
    assert_eq!(session.next_sequence, MIN_SEQUENCE);
}

#[test]
fn test_probe_timeout_produces_one_lost_entry() {
    let mut session = test_session(5);
    let now = 1_000_000_000u64;
    let timeout = 200 * MS;

    let _seq = session.net_send_query(0, now, timeout);
    assert_eq!(session.sequence_table.len(), 1);
    assert_eq!(session.hops[0].sent, 1);

    // nothing arrives before the timeout elapses
    let responses = session.collect_timeouts(now + timeout + 1);
    assert_eq!(responses.len(), 1);
    assert_eq!(responses[0].icmp_type, IcmpResponseType::Timeout);
    assert_eq!(responses[0].hop, 0);
    assert_eq!(responses[0].rtt, timeout);
    assert_eq!(responses[0].send_time, now);
    assert_eq!(responses[0].source_addr, IpAddress::V4(0, 0, 0, 0));
    assert_eq!(session.sequence_table.len(), 0);

    // exactly one lost entry, and no round-trip sample at all
    let lost = session.hops[0]
        .packet_history
        .iter()
        .filter(|o| matches!(o, mtr_ng::hop_stats::PacketOutcome::Lost))
        .count();
    assert_eq!(lost, 1);
    assert_eq!(session.hops[0].rtts.len(), 0);
    assert_eq!(session.hops[0].received, 0);
}

#[test]
fn test_end_to_end_loss_percentage() {
    let mut session = test_session(5);
    let now = 1_000u64;
    let timeout = 200 * MS;
    let source = IpAddress::V4(10, 0, 0, 1);

    let mut seqs = Vec::new();
    for _ in 0..10 {
        seqs.push(session.net_send_query(0, now, timeout));
    }
    assert_eq!(session.hops[0].sent, 10);

    // eight answers arrive, two probes never answer
    for &seq in seqs.iter().take(8) {
        let r = session.handle_response(seq, IcmpResponseType::TimeExceeded, source, now + 50 * MS);
        assert!(r.is_some());
    }
    let timed_out = session.collect_timeouts(now + timeout + 1);
    assert_eq!(timed_out.len(), 2);

    assert_eq!(session.hops[0].sent, 10);
    assert_eq!(session.hops[0].received, 8);
    assert_eq!(session.hops[0].loss_percent_milli, 20_000);
}

#[test]
fn test_malformed_packet_rejected_without_state_change() {
    let mut session = test_session(5);
    let now = 1_000u64;
    let _seq = session.net_send_query(0, now, 200 * MS);
    let table_before = session.sequence_table.len();
    let next_before = session.next_sequence;

    // shorter than any valid ICMP capture
    let short = [0u8; 7];
    let r = session.handle_datagram_v4(&short, now + 1);
    assert!(r.is_none());
    let r = session.handle_datagram_v6(&short, IpAddress::V6(1), now + 1);
    assert!(r.is_none());

    assert_eq!(session.sequence_table.len(), table_before);
    assert_eq!(session.next_sequence, next_before);
    assert_eq!(session.hops[0].received, 0);
}

#[test]
fn test_unmatched_sequence_discarded() {
    let mut session = test_session(5);
    let r = session.handle_response(
        40000,
        IcmpResponseType::EchoReply,
        IpAddress::V4(10, 0, 0, 1),
        1_000,
    );
    assert!(r.is_none());
    assert_eq!(session.hops[0].received, 0);
}

#[test]
fn test_echo_reply_from_target_clamps_hop_count() {
    let mut session = test_session(10);
    let now = 1_000u64;
    assert_eq!(session.num_hosts, 10);

    let seq = session.net_send_query(3, now, 200 * MS);
    let r = session.handle_response(
        seq,
        IcmpResponseType::EchoReply,
        IpAddress::V4(192, 168, 1, 1),
        now + 10 * MS,
    );
    assert!(r.is_some());
    assert_eq!(session.num_hosts, 4);
    assert_eq!(session.active_hop_count(), 4);
}

#[test]
fn test_destination_unreachable_flags_hop() {
    let mut session = test_session(5);
    let now = 1_000u64;
    let seq = session.net_send_query(2, now, 200 * MS);
    let source = IpAddress::V4(10, 9, 9, 9);
    session.handle_response(seq, IcmpResponseType::DestinationUnreachable, source, now + 1);

    assert!(session.hops[2].icmp_error);
    assert_eq!(session.hops[2].addr, Some(source));
    // the error does not touch the round-trip statistics
    assert_eq!(session.hops[2].received, 0);
    assert_eq!(session.hops[2].rtts.len(), 0);
}

#[test]
fn test_evict_stale_converts_to_timeouts() {
    let mut session = test_session(5);
    let now = 1_000u64;
    let _seq = session.net_send_query(0, now, 60_000_000_000);

    // far past the staleness window, the entry is evicted even though
    // its own generous timeout has not elapsed
    let evicted = session.evict_stale(now + 6_000_000_000);
    assert_eq!(evicted.len(), 1);
    assert_eq!(evicted[0].icmp_type, IcmpResponseType::Timeout);
    assert_eq!(evicted[0].hop, 0);
    assert_eq!(evicted[0].seq, _seq);
    assert_eq!(evicted[0].send_time, now);
    assert_eq!(evicted[0].rtt, 60_000_000_000);
    assert_eq!(session.sequence_table.len(), 0);

    // the eviction counted as a loss on the hop's timeline
    let lost = session.hops[0]
        .packet_history
        .iter()
        .filter(|o| matches!(o, mtr_ng::hop_stats::PacketOutcome::Lost))
        .count();
    assert_eq!(lost, 1);
}

#[test]
fn test_response_rtt_measured_from_send_time() {
    let mut session = test_session(5);
    let now = 1_000_000u64;
    let seq = session.net_send_query(0, now, 200 * MS);
    let source = IpAddress::V4(10, 0, 0, 1);
    let r = session
        .handle_response(seq, IcmpResponseType::TimeExceeded, source, now + 42 * MS)
        .unwrap();
    assert_eq!(r.rtt, 42 * MS);
    assert_eq!(r.hop, 0);
    assert_eq!(r.seq, seq);
    assert_eq!(session.hops[0].last_rtt, Some(42 * MS));
    assert_eq!(session.hops[0].addr, Some(source));
}

#[test]
fn test_simulate_hop_counts_sent() {
    let mut session = test_session(5);
    session.simulate_hop(0);
    assert_eq!(session.hops[0].sent, 1);
    assert!(session.hops[0].received <= 1);
    session.simulate_hop(0);
    assert_eq!(session.hops[0].sent, 2);
}

#[test]
fn test_probe_info_timed_out() {
    let probe = ProbeInfo { hop: 0, sent_at: 1_000, timeout: 500 };
    assert!(!probe.timed_out(1_400));
    assert!(probe.timed_out(1_500));
    assert!(probe.timed_out(2_000));
}

#[test]
fn test_get_columns_selection() {
    let mut config = test_config("example.com", 5);
    let defaults = config.get_columns();
    assert_eq!(defaults.len(), 10);

    config.show_all = true;
    let all = config.get_columns();
    assert_eq!(all.len(), 12);

    config.show_all = false;
    config.fields = Some(vec![mtr_ng::args::Column::Hop, mtr_ng::args::Column::Loss]);
    let chosen = config.get_columns();
    assert_eq!(chosen.len(), 2);
}
