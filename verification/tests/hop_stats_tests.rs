use mtr_ng::hop_stats::{HopStats, PacketOutcome};
use mtr_ng::IpAddress;

const MS: u64 = 1_000_000;

#[test]
fn test_hop_stats_new() {
    let hop = HopStats::new(5);
    assert_eq!(hop.hop, 5);
    assert_eq!(hop.sent, 0);
    assert_eq!(hop.received, 0);
    assert_eq!(hop.loss_percent_milli, 0);
    assert!(hop.addr.is_none());
    assert!(hop.hostname.is_none());
    assert!(hop.last_rtt.is_none());
    assert!(hop.best_rtt.is_none());
    assert!(hop.worst_rtt.is_none());
    assert!(hop.avg_rtt.is_none());
    assert!(hop.ema_rtt.is_none());
    assert!(hop.jitter_avg.is_none());
    assert!(hop.last_jitter.is_none());
    assert!(hop.rtts.is_empty());
}

#[test]
fn test_hop_stats_add_rtt() {
    let mut hop = HopStats::new(1);

    let rtt1 = 100 * MS;
    hop.add_rtt(rtt1);

    assert_eq!(hop.received, 1);
    assert_eq!(hop.last_rtt, Some(rtt1));
    assert_eq!(hop.best_rtt, Some(rtt1));
    assert_eq!(hop.worst_rtt, Some(rtt1));
    assert_eq!(hop.avg_rtt, Some(rtt1));
    assert_eq!(hop.ema_rtt, Some(rtt1));
    assert!(hop.jitter_avg.is_none());
    assert!(hop.last_jitter.is_none());
    assert_eq!(hop.rtts.len(), 1);

    let rtt2 = 50 * MS;
    hop.add_rtt(rtt2);

    assert_eq!(hop.received, 2);
    assert_eq!(hop.last_rtt, Some(rtt2));
    assert_eq!(hop.best_rtt, Some(rtt2));
    assert_eq!(hop.worst_rtt, Some(rtt1));
    assert_eq!(hop.avg_rtt, Some(75 * MS));
    assert_eq!(hop.rtts.len(), 2);

    let rtt3 = 200 * MS;
    hop.add_rtt(rtt3);

    assert_eq!(hop.received, 3);
    assert_eq!(hop.last_rtt, Some(rtt3));
    assert_eq!(hop.best_rtt, Some(rtt2));
    assert_eq!(hop.worst_rtt, Some(rtt3));
    // mean of 100, 50 and 200 milliseconds, truncated to nanoseconds
    assert_eq!(hop.avg_rtt, Some(116_666_666));
    assert_eq!(hop.rtts.len(), 3);
}

#[test]
fn test_hop_stats_loss_calculation() {
    let mut hop = HopStats::new(1);

    assert_eq!(hop.loss_percent_milli, 0);

    for _ in 0..8 {
        hop.increment_sent();
        hop.add_rtt(100 * MS);
    }
    for _ in 0..2 {
        hop.increment_sent();
        hop.add_timeout();
    }

    assert_eq!(hop.sent, 10);
    assert_eq!(hop.received, 8);
    assert_eq!(hop.loss_percent_milli, 20_000);
}

#[test]
fn test_hop_stats_rtts_capacity_limit() {
    let mut hop = HopStats::new(1);

    for i in 0..150u64 {
        hop.add_rtt(i * MS);
    }

    assert_eq!(hop.rtts.len(), 100);
    assert_eq!(hop.received, 150);

    assert_eq!(hop.rtts.front(), Some(&(50 * MS)));
    assert_eq!(hop.rtts.back(), Some(&(149 * MS)));
}

#[test]
fn test_hop_stats_clone() {
    let mut original = HopStats::new(3);
    original.add_rtt(150 * MS);
    original.increment_sent();
    original.addr = Some(IpAddress::V4(192, 168, 1, 3));
    original.hostname = Some("gateway.local".to_string());

    let cloned = original.clone();

    assert_eq!(original.hop, cloned.hop);
    assert_eq!(original.sent, cloned.sent);
    assert_eq!(original.received, cloned.received);
    assert_eq!(original.addr, cloned.addr);
    assert_eq!(original.hostname, cloned.hostname);
    assert_eq!(original.last_rtt, cloned.last_rtt);
    assert_eq!(original.rtts.len(), cloned.rtts.len());
}

#[test]
fn test_hop_stats_update_loss_percent_edge_cases() {
    let mut hop = HopStats::new(1);

    hop.update_loss_percent();
    assert_eq!(hop.loss_percent_milli, 0);

    hop.sent = 5;
    hop.received = 0;
    hop.update_loss_percent();
    assert_eq!(hop.loss_percent_milli, 100_000);

    hop.received = 5;
    hop.update_loss_percent();
    assert_eq!(hop.loss_percent_milli, 0);

    hop.sent = 10;
    hop.received = 7;
    hop.update_loss_percent();
    assert_eq!(hop.loss_percent_milli, 30_000);
}

#[test]
fn test_hop_stats_increment_sent() {
    let mut hop = HopStats::new(1);

    assert_eq!(hop.sent, 0);
    assert_eq!(hop.loss_percent_milli, 0);

    hop.increment_sent();
    assert_eq!(hop.sent, 1);
    assert_eq!(hop.loss_percent_milli, 100_000);

    hop.add_rtt(100 * MS);
    assert_eq!(hop.sent, 1);
    assert_eq!(hop.received, 1);
    assert_eq!(hop.loss_percent_milli, 0);
}

#[test]
fn test_large_rtt_values() {
    let mut hop = HopStats::new(1);

    let large_rtt = 5_000_000_000u64;
    hop.add_rtt(large_rtt);

    assert_eq!(hop.best_rtt, Some(large_rtt));
    assert_eq!(hop.worst_rtt, Some(large_rtt));
    assert_eq!(hop.avg_rtt, Some(large_rtt));

    let small_rtt = 10 * MS;
    hop.add_rtt(small_rtt);

    assert_eq!(hop.best_rtt, Some(small_rtt));
    assert_eq!(hop.worst_rtt, Some(large_rtt));
}

#[test]
fn test_hop_stats_add_timeout() {
    let mut hop = HopStats::new(1);

    hop.increment_sent();
    hop.add_rtt(100 * MS);
    hop.increment_sent();
    hop.add_rtt(150 * MS);

    assert_eq!(hop.sent, 2);
    assert_eq!(hop.received, 2);
    assert_eq!(hop.loss_percent_milli, 0);

    hop.increment_sent();
    hop.add_timeout();

    assert_eq!(hop.sent, 3);
    assert_eq!(hop.received, 2);
    assert_eq!(hop.loss_percent_milli, 33_333);
}

#[test]
fn test_rtt_statistics_accuracy() {
    let mut hop = HopStats::new(1);

    let rtts = vec![50u64, 100, 75, 200, 25];

    for &rtt_ms in &rtts {
        hop.add_rtt(rtt_ms * MS);
    }

    assert_eq!(hop.best_rtt, Some(25 * MS));
    assert_eq!(hop.worst_rtt, Some(200 * MS));
    assert_eq!(hop.last_rtt, Some(25 * MS));

    assert_eq!(hop.avg_rtt, Some(90 * MS));
}

#[test]
fn test_exponential_moving_average() {
    let mut hop = HopStats::new(1);
    hop.set_ema_alpha(500);

    hop.add_rtt(100 * MS);
    assert_eq!(hop.ema_rtt, Some(100 * MS));

    hop.add_rtt(200 * MS);
    assert_eq!(hop.ema_rtt, Some(150 * MS));

    hop.add_rtt(100 * MS);
    assert_eq!(hop.ema_rtt, Some(125 * MS));
}

#[test]
fn test_ema_alpha_clamping() {
    let mut hop = HopStats::new(1);

    hop.set_ema_alpha(-500);
    assert_eq!(hop.ema_alpha_milli, 0);

    hop.set_ema_alpha(1500);
    assert_eq!(hop.ema_alpha_milli, 1000);

    hop.set_ema_alpha(300);
    assert_eq!(hop.ema_alpha_milli, 300);
}

#[test]
fn test_jitter_calculation() {
    let mut hop = HopStats::new(1);

    hop.add_rtt(100 * MS);
    assert!(hop.jitter_avg.is_none());
    assert!(hop.last_jitter.is_none());

    hop.add_rtt(120 * MS);
    assert_eq!(hop.last_jitter, Some(20 * MS));
    assert_eq!(hop.jitter_avg, Some(20 * MS));
    assert_eq!(hop.jitters.len(), 1);

    hop.add_rtt(110 * MS);
    assert_eq!(hop.last_jitter, Some(10 * MS));
    assert_eq!(hop.jitter_avg, Some(15 * MS));
    assert_eq!(hop.jitters.len(), 2);

    hop.add_rtt(150 * MS);
    assert_eq!(hop.last_jitter, Some(40 * MS));
    // mean of 20, 10 and 40 milliseconds, truncated to nanoseconds
    assert_eq!(hop.jitter_avg, Some(23_333_333));
    assert_eq!(hop.jitters.len(), 3);
}

#[test]
fn test_history_caps_all_buffers() {
    let mut hop = HopStats::new(1);
    // one more sample than the cap: the oldest entry is evicted
    for i in 0..101u64 {
        hop.increment_sent();
        hop.add_rtt(i * MS);
    }
    assert_eq!(hop.rtts.len(), 100);
    assert_eq!(hop.rtts.front(), Some(&MS));
    assert_eq!(hop.packet_history.len(), 100);
    // jitters started one sample later, so they are exactly at the cap
    assert_eq!(hop.jitters.len(), 100);

    hop.increment_sent();
    hop.add_rtt(200 * MS);
    assert_eq!(hop.jitters.len(), 100);
    assert_eq!(hop.jitters.front(), Some(&MS));
}

#[test]
fn test_timeout_marks_exactly_one_entry_lost() {
    let mut hop = HopStats::new(1);
    hop.increment_sent();
    hop.increment_sent();
    hop.add_timeout();

    let lost = hop
        .packet_history
        .iter()
        .filter(|o| matches!(o, PacketOutcome::Lost))
        .count();
    let pending = hop
        .packet_history
        .iter()
        .filter(|o| matches!(o, PacketOutcome::Pending))
        .count();
    assert_eq!(lost, 1);
    assert_eq!(pending, 1);
    assert_eq!(hop.rtts.len(), 0);
    assert_eq!(hop.received, 0);
}

#[test]
fn test_multipath_promotion() {
    let mut hop = HopStats::new(1);
    let a = IpAddress::V4(10, 0, 0, 1);
    let b = IpAddress::V4(10, 0, 0, 2);

    for i in 0..10u64 {
        hop.add_rtt_from_addr(a, 10 * MS, i);
    }
    assert_eq!(hop.addr, Some(a));
    assert!(!hop.has_multiple_paths());

    // B observed ten times: tied with A, still an alternate
    for i in 0..10u64 {
        hop.add_rtt_from_addr(b, 20 * MS, 100 + i);
    }
    assert_eq!(hop.addr, Some(a));
    assert!(hop.has_multiple_paths());
    let alts = hop.get_alternate_paths();
    assert_eq!(alts.len(), 1);
    assert_eq!(alts[0].addr, b);
    assert_eq!(alts[0].frequency, 10);

    // the eleventh observation pushes B strictly past A: promotion, and
    // B's alternate entry is discarded rather than duplicated
    hop.add_rtt_from_addr(b, 20 * MS, 200);
    assert_eq!(hop.addr, Some(b));
    let alts = hop.get_alternate_paths();
    assert!(alts.iter().all(|p| p.addr != b));
    assert_eq!(alts.len(), 0);
}

#[test]
fn test_multipath_received_counted_for_alternates() {
    let mut hop = HopStats::new(1);
    let a = IpAddress::V4(10, 0, 0, 1);
    let b = IpAddress::V4(10, 0, 0, 2);

    hop.increment_sent();
    hop.add_rtt_from_addr(a, 10 * MS, 0);
    hop.increment_sent();
    hop.add_rtt_from_addr(b, 30 * MS, 1);

    assert_eq!(hop.received, 2);
    assert_eq!(hop.sent, 2);
    assert_eq!(hop.loss_percent_milli, 0);
    // the alternate sample does not disturb the primary statistics
    assert_eq!(hop.last_rtt, Some(10 * MS));
}

#[test]
fn test_multipath_percentages() {
    let mut hop = HopStats::new(1);
    let a = IpAddress::V4(10, 0, 0, 1);
    let b = IpAddress::V4(10, 0, 0, 2);

    for i in 0..3u64 {
        hop.add_rtt_from_addr(a, 10 * MS, i);
    }
    hop.add_rtt_from_addr(b, 20 * MS, 10);

    assert_eq!(hop.get_total_frequency(), 4);
    assert_eq!(hop.get_primary_path_percentage(), 75_000);
    let alts = hop.get_alternate_paths();
    assert_eq!(hop.get_path_percentage(&alts[0]), 25_000);
}

#[test]
fn test_set_hostname_for_addr() {
    let mut hop = HopStats::new(1);
    let a = IpAddress::V4(10, 0, 0, 1);
    let b = IpAddress::V4(10, 0, 0, 2);
    let c = IpAddress::V4(10, 0, 0, 3);

    hop.add_rtt_from_addr(a, 10 * MS, 0);
    hop.add_rtt_from_addr(a, 10 * MS, 1);
    hop.add_rtt_from_addr(b, 20 * MS, 2);

    hop.set_hostname_for_addr(a, "primary.example".to_string());
    assert_eq!(hop.hostname.as_deref(), Some("primary.example"));

    hop.set_hostname_for_addr(b, "alternate.example".to_string());
    let alts = hop.get_alternate_paths();
    assert_eq!(alts[0].hostname.as_deref(), Some("alternate.example"));

    // a name for an unknown address changes nothing
    hop.set_hostname_for_addr(c, "nowhere.example".to_string());
    assert_eq!(hop.hostname.as_deref(), Some("primary.example"));
}

#[test]
fn test_get_alternate_paths_sorted() {
    let mut hop = HopStats::new(1);
    let a = IpAddress::V4(10, 0, 0, 1);
    let b = IpAddress::V4(10, 0, 0, 2);
    let c = IpAddress::V4(10, 0, 0, 3);

    for i in 0..10u64 {
        hop.add_rtt_from_addr(a, 10 * MS, i);
    }
    for i in 0..2u64 {
        hop.add_rtt_from_addr(b, 20 * MS, 20 + i);
    }
    for i in 0..5u64 {
        hop.add_rtt_from_addr(c, 30 * MS, 40 + i);
    }

    let alts = hop.get_alternate_paths();
    assert_eq!(alts.len(), 2);
    assert_eq!(alts[0].addr, c);
    assert_eq!(alts[0].frequency, 5);
    assert_eq!(alts[1].addr, b);
    assert_eq!(alts[1].frequency, 2);
}
