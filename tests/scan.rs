use netprobe::limiter::Limiter;
use netprobe::probe::{
    capacity_for, probe_target, Platform, ProbeConfig, ProbeOutcome, CAPACITY_CONSTRAINED,
    CAPACITY_DEFAULT, PROBE_PORT, PROBE_TIMEOUT_MS,
};
use netprobe::scan::{Scan, Slot, Step};
use std::collections::VecDeque;

fn strings(xs: &[&str]) -> Vec<String> {
    xs.iter().map(|s| s.to_string()).collect()
}

/// Drives a scan to the end, answering each probe with `probe`; completes the
/// oldest probe in flight whenever the scan says to wait. Returns the result
/// and the largest number of probes seen in flight at once.
fn drive(addresses: Vec<String>, capacity: usize, probe: impl Fn(&str) -> bool) -> (Vec<String>, usize) {
    let mut scan = Scan::new(addresses, capacity);
    let mut in_flight: VecDeque<usize> = VecDeque::new();
    let mut max_seen = 0;
    loop {
        match scan.next_step() {
            Step::Launch(i) => {
                in_flight.push_back(i);
                max_seen = max_seen.max(scan.in_flight());
                assert_eq!(scan.in_flight(), in_flight.len());
            }
            Step::Wait => {
                let i = in_flight.pop_front().expect("waiting with nothing in flight");
                let outcome = if probe(scan.address(i)) {
                    ProbeOutcome::Connected
                } else {
                    ProbeOutcome::Failed
                };
                scan.complete(i, outcome);
            }
            Step::Done => break,
        }
    }
    assert!(scan.is_finished());
    (scan.online(), max_seen)
}

#[test]
fn concrete_scenario() {
    let request = strings(&["10.0.0.1", "10.0.0.2", "10.0.0.3"]);
    let (mut online, _) = drive(request, 16, |a| a == "10.0.0.1" || a == "10.0.0.3");
    online.sort();
    assert_eq!(online, strings(&["10.0.0.1", "10.0.0.3"]));
}

#[test]
fn empty_request_is_done_at_once() {
    let mut scan = Scan::new(Vec::new(), 4);
    assert!(scan.is_finished());
    assert_eq!(scan.next_step(), Step::Done);
    assert_eq!(scan.in_flight(), 0);
    assert!(scan.online().is_empty());
}

#[test]
fn all_unreachable_gives_empty_result() {
    let request = strings(&["a", "b", "c", "d"]);
    let (online, _) = drive(request, 2, |_| false);
    assert!(online.is_empty());
}

#[test]
fn all_reachable_keeps_input_order() {
    let request = strings(&["c", "a", "b"]);
    let (online, _) = drive(request.clone(), 1, |_| true);
    assert_eq!(online, request);
}

#[test]
fn duplicates_are_reported_twice() {
    let request = strings(&["10.0.0.7", "10.0.0.8", "10.0.0.7"]);
    let (online, _) = drive(request, 8, |a| a == "10.0.0.7");
    assert_eq!(online, strings(&["10.0.0.7", "10.0.0.7"]));
}

#[test]
fn result_is_exactly_the_reachable_subset() {
    let request: Vec<String> = (0..50).map(|i| format!("192.168.1.{}", i)).collect();
    let reachable = |a: &str| a.ends_with('3') || a.ends_with('7');
    let (online, _) = drive(request.clone(), 7, reachable);
    let expected: Vec<String> = request.iter().filter(|a| reachable(a)).cloned().collect();
    assert_eq!(online, expected);
    for a in &online {
        assert!(request.contains(a));
    }
}

#[test]
fn concurrency_never_exceeds_capacity() {
    let request: Vec<String> = (0..100).map(|i| format!("h{}", i)).collect();
    let (_, max_seen) = drive(request, 5, |_| true);
    assert_eq!(max_seen, 5);
    let (_, max_small) = drive(strings(&["x", "y"]), 5, |_| true);
    assert_eq!(max_small, 2);
}

#[test]
fn launches_wait_for_a_free_permit() {
    let mut scan = Scan::new(strings(&["a", "b", "c"]), 2);
    assert_eq!(scan.next_step(), Step::Launch(0));
    assert_eq!(scan.next_step(), Step::Launch(1));
    assert_eq!(scan.next_step(), Step::Wait);
    assert_eq!(scan.slot(2), Slot::Pending);
    scan.complete(1, ProbeOutcome::TimedOut);
    assert_eq!(scan.slot(1), Slot::Unreachable);
    assert_eq!(scan.next_step(), Step::Launch(2));
    assert_eq!(scan.next_step(), Step::Wait);
    scan.complete(0, ProbeOutcome::Connected);
    scan.complete(2, ProbeOutcome::Connected);
    assert_eq!(scan.next_step(), Step::Done);
    assert_eq!(scan.online(), strings(&["a", "c"]));
}

#[test]
fn failed_task_is_omitted() {
    let mut scan = Scan::new(strings(&["a", "b"]), 4);
    assert_eq!(scan.next_step(), Step::Launch(0));
    assert_eq!(scan.next_step(), Step::Launch(1));
    scan.fail(0);
    assert_eq!(scan.slot(0), Slot::Failed);
    assert!(!scan.is_finished());
    scan.complete(1, ProbeOutcome::Connected);
    assert!(scan.is_finished());
    assert_eq!(scan.online(), strings(&["b"]));
}

#[test]
fn only_a_connection_is_reachable() {
    assert!(ProbeOutcome::Connected.is_reachable());
    assert!(!ProbeOutcome::Failed.is_reachable());
    assert!(!ProbeOutcome::TimedOut.is_reachable());
}

#[test]
fn target_appends_the_port() {
    assert_eq!(probe_target("10.0.0.1", PROBE_PORT), "10.0.0.1:9012");
    assert_eq!(probe_target("host", 0), "host:0");
    assert_eq!(probe_target("", 65535), ":65535");
    assert_eq!(probe_target("h", 10), "h:10");
}

#[test]
fn config_per_platform() {
    let mac = ProbeConfig::for_platform(Platform::MacOs);
    assert_eq!(mac.capacity, 2048);
    assert_eq!(mac.port, 9012);
    assert_eq!(mac.timeout_ms, 2000);
    assert_eq!(ProbeConfig::for_platform(Platform::Other).capacity, 65536);
    assert_eq!(capacity_for(Platform::MacOs), CAPACITY_CONSTRAINED);
    assert_eq!(capacity_for(Platform::Other), CAPACITY_DEFAULT);
    assert_eq!(PROBE_TIMEOUT_MS, 2000);
}

#[test]
fn limiter_admits_up_to_capacity() {
    let mut limiter = Limiter::new(2);
    assert!(limiter.try_acquire());
    assert!(limiter.try_acquire());
    assert!(!limiter.try_acquire());
    assert_eq!(limiter.in_use(), 2);
    limiter.release();
    assert_eq!(limiter.in_use(), 1);
    assert!(limiter.try_acquire());
    assert_eq!(limiter.capacity(), 2);
}
