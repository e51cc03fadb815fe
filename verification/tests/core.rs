use icmp_pacer::address::Address;
use icmp_pacer::checksum::icmp_checksum;
use icmp_pacer::coordinator::rate_share;
use icmp_pacer::coordinator::worker_count;
use icmp_pacer::dispatch::count_failures;
use icmp_pacer::dispatch::plan_batch;
use icmp_pacer::dispatch::select_index;
use icmp_pacer::packet::build_echo_request;
use icmp_pacer::pacer::Pacer;
use icmp_pacer::worker::PingWorker;
use icmp_pacer::worker::Phase;

#[test]
fn checksum_echo_header_vector() {
    // 64-byte echo request with type=8, code=0, everything else zero:
    // the only nonzero word is 0x0800, so the checksum is !0x0800 = 0xf7ff.
    let mut pkt = [0u8; 64];
    pkt[0] = 8;
    assert_eq!(icmp_checksum(&pkt), 0xf7ff);
}

#[test]
fn checksum_self_verification() {
    let mut pkt = [0u8; 64];
    pkt[0] = 8;
    let c = icmp_checksum(&pkt);
    pkt[2..4].copy_from_slice(&c.to_be_bytes());
    assert_eq!(icmp_checksum(&pkt), 0);
}

#[test]
fn checksum_odd_length() {
    // words: 0x0102 and 0x0300 (trailing byte zero-padded)
    let data = [0x01u8, 0x02, 0x03];
    assert_eq!(icmp_checksum(&data), !0x0402u16);
}

#[test]
fn checksum_carry_folding() {
    // 0xffff + 0xffff = 0x1fffe folds to 0xffff, whose complement is 0.
    let data = [0xffu8, 0xff, 0xff, 0xff];
    assert_eq!(icmp_checksum(&data), 0);
}

#[test]
fn checksum_empty() {
    assert_eq!(icmp_checksum(&[]), 0xffff);
}

#[test]
fn echo_request_layout() {
    let pkt = build_echo_request();
    assert_eq!(pkt.len(), 64);
    assert_eq!(pkt[0], 8);
    assert_eq!(pkt[1], 0);
    for i in 4..64 {
        assert_eq!(pkt[i], 0);
    }
    // the completed packet checksums to zero
    assert_eq!(icmp_checksum(&pkt), 0);
}

#[test]
fn rate_partition_even() {
    assert_eq!(rate_share(2500, 4), 625);
}

#[test]
fn rate_partition_remainder_dropped() {
    let share = rate_share(2501, 4);
    assert_eq!(share, 625);
    // achieved aggregate rate never exceeds the request
    assert_eq!(share * 4, 2500);
    assert!(share * 4 <= 2501);
}

#[test]
fn worker_count_clamped() {
    assert_eq!(worker_count(0), 1);
    assert_eq!(worker_count(1), 1);
    assert_eq!(worker_count(8), 8);
    assert_eq!(worker_count(16), 16);
    assert_eq!(worker_count(64), 16);
}

#[test]
fn pacer_on_time_ticks() {
    let mut p = Pacer::new(1000, 0);
    // consumer keeps up: ticks fire on consecutive boundaries
    assert_eq!(p.tick(0), 1000);
    assert_eq!(p.tick(1000), 2000);
    assert_eq!(p.tick(2000), 3000);
}

#[test]
fn pacer_skips_missed_ticks() {
    let mut p = Pacer::new(1000, 0);
    assert_eq!(p.tick(0), 1000);
    // the consumer overruns well past several boundaries; the late tick
    // fires once, immediately
    let late = p.tick(3500);
    assert_eq!(late, 3500);
    // the next tick waits for the next boundary of the original schedule:
    // no second immediate firing
    let next = p.tick(3500);
    assert_eq!(next, 4000);
    assert!(next > late);
    assert_eq!(next % 1000, 0);
}

#[test]
fn worker_stops_at_duration() {
    let pool = vec![Address::V4(0x0a000001)];
    let mut w = PingWorker::new(pool);
    assert_eq!(w.phase, Phase::Idle);
    w.begin_run(0);
    assert_eq!(w.phase, Phase::Running);
    // duration of 3 ticks' worth of time, one tick per unit
    assert!(w.on_tick(0, 3));
    w.record_batch(10);
    assert!(w.on_tick(1, 3));
    w.record_batch(10);
    assert!(w.on_tick(2, 3));
    w.record_batch(10);
    // elapsed reached the duration: no further batch is dispatched
    assert!(!w.on_tick(3, 3));
    assert_eq!(w.phase, Phase::Completed);
    assert_eq!(w.stats.batches_sent, 3);
    assert_eq!(w.stats.total_requests, 30);
}

#[test]
fn worker_records_batches_and_reports() {
    let pool = vec![Address::V4(0x0a000001)];
    let mut w = PingWorker::new(pool);
    w.begin_run(0);
    for k in 1..=120usize {
        let report = w.record_batch(5);
        assert_eq!(report, k % 60 == 0);
    }
    assert_eq!(w.stats.batches_sent, 120);
    assert_eq!(w.stats.total_requests, 600);
}

#[test]
fn select_index_reduces_draw() {
    assert_eq!(select_index(7, 3), 1);
    assert_eq!(select_index(0, 5), 0);
    assert_eq!(select_index(u64::MAX, 1), 0);
}

#[test]
fn batch_issues_exactly_n() {
    let pool = vec![Address::V4(1), Address::V4(2), Address::V4(3)];
    let batch = plan_batch(&pool, 25);
    assert_eq!(batch.len(), 25);
    for t in &batch {
        assert!(pool.contains(t));
    }
    let empty = plan_batch(&pool, 0);
    assert_eq!(empty.len(), 0);
}

#[test]
fn failures_are_counted_not_propagated() {
    let outcomes = vec![true, false, true, false, false];
    assert_eq!(count_failures(&outcomes), 3);
    assert_eq!(count_failures(&vec![]), 0);
    assert_eq!(count_failures(&vec![true, true]), 0);
}
