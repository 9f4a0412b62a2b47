use port_scanner::address::target_precedes;
use port_scanner::{
    accept_ports, default_ports, plan_scan, Address, ConfigurationError, ConnectionOutcome,
    ProbeEvent, ResultCollector, ScanConfiguration, ScanWorker, Target, MAX_PORT,
};

fn v4(a: u8, b: u8, c: u8, d: u8) -> Address {
    Address::from_octets([a, b, c, d])
}

fn configuration(start: Address, end: Address, ports: Vec<u16>, workers: usize) -> ScanConfiguration {
    ScanConfiguration { start, end, ports, workers, timeout_ms: 200 }
}

#[test]
fn default_ports_are_the_well_known_ones() {
    assert_eq!(
        default_ports(),
        vec![
            20, 21, 22, 23, 25, 53, 80, 110, 115, 119, 123, 143, 161, 194, 443, 445, 587, 993,
            995, 1433, 1521, 3306, 3389, 5432, 5900, 8080, 8443, 9090, 9200, 27017
        ]
    );
}

#[test]
fn all_ports_are_defaults_then_added() {
    let config = configuration(v4(10, 0, 0, 1), v4(10, 0, 0, 1), vec![8000, 22], 1);
    let mut expected = default_ports();
    expected.push(8000);
    expected.push(22);
    assert_eq!(config.all_ports(), expected);
}

#[test]
fn out_of_range_ports_are_left_out() {
    assert_eq!(MAX_PORT, 65535);
    assert_eq!(
        accept_ports(&vec![80, 65536, 0, 70000, 65535, u32::MAX, 443]),
        vec![80, 0, 65535, 443]
    );
    assert_eq!(accept_ports(&vec![]), Vec::<u16>::new());
}

#[test]
fn probe_events_decide_open_or_closed() {
    assert_eq!(ProbeEvent::Connected.outcome(), ConnectionOutcome::Open);
    assert_eq!(ProbeEvent::Failed.outcome(), ConnectionOutcome::Closed);
    assert_eq!(ProbeEvent::TimedOut.outcome(), ConnectionOutcome::Closed);
}

#[test]
fn worker_walks_its_chunk_in_order() {
    let a = v4(10, 0, 0, 1);
    let chunk: Vec<Target> = vec![(a, 22), (a, 80), (a, 443)];
    let mut worker = ScanWorker::new(chunk);
    assert_eq!(worker.next_target(), Some((a, 22)));
    assert_eq!(worker.next_target(), Some((a, 22)));
    assert_eq!(worker.complete(ProbeEvent::Connected), Some((a, 22)));
    assert_eq!(worker.next_target(), Some((a, 80)));
    assert_eq!(worker.complete(ProbeEvent::TimedOut), None);
    assert_eq!(worker.next_target(), Some((a, 443)));
    assert_eq!(worker.complete(ProbeEvent::Failed), None);
    assert_eq!(worker.next_target(), None);
}

#[test]
fn worker_with_an_empty_chunk_is_finished() {
    let worker = ScanWorker::new(Vec::new());
    assert_eq!(worker.next_target(), None);
}

#[test]
fn closed_target_yields_no_result() {
    let target: Target = (v4(10, 255, 255, 1), 81);
    let mut worker = ScanWorker::new(vec![target]);
    let mut collector = ResultCollector::new();
    while let Some(_) = worker.next_target() {
        if let Some(open) = worker.complete(ProbeEvent::TimedOut) {
            collector.record(open);
        }
    }
    assert_eq!(collector.len(), 0);
    assert!(collector.results().is_empty());
}

#[test]
fn open_target_yields_exactly_one_result_in_its_place() {
    let host = v4(127, 0, 0, 1);
    let mut collector = ResultCollector::new();
    collector.record((host, 22));
    collector.record((host, 9000));
    let mut worker = ScanWorker::new(vec![(host, 80), (host, 8080)]);
    let events = [ProbeEvent::Failed, ProbeEvent::Connected];
    let mut step = 0;
    while let Some(_) = worker.next_target() {
        if let Some(open) = worker.complete(events[step]) {
            collector.record(open);
        }
        step += 1;
    }
    assert_eq!(collector.results(), &vec![(host, 22), (host, 8080), (host, 9000)]);
}

#[test]
fn collector_stays_sorted_after_every_arrival() {
    let a = v4(10, 0, 0, 1);
    let b = v4(10, 0, 0, 2);
    let six = Address::V6([0, 0, 0, 0, 0, 0, 0, 1]);
    let arrivals: Vec<Target> =
        vec![(b, 80), (six, 22), (a, 443), (b, 22), (a, 80), (six, 21), (a, 443)];
    let mut collector = ResultCollector::new();
    let mut seen: Vec<Target> = Vec::new();
    for target in arrivals {
        collector.record(target);
        seen.push(target);
        seen.sort();
        assert_eq!(collector.results(), &seen);
        assert_eq!(collector.len(), seen.len());
    }
    assert_eq!(
        collector.results(),
        &vec![(a, 80), (a, 443), (a, 443), (b, 22), (b, 80), (six, 21), (six, 22)]
    );
}

#[test]
fn target_order_is_address_then_port() {
    let a = v4(10, 0, 0, 1);
    let b = v4(10, 0, 1, 0);
    let six = Address::V6([0, 0, 0, 0, 0, 0, 0, 0]);
    assert!(target_precedes(&(a, 9000), &(b, 1)));
    assert!(!target_precedes(&(b, 1), &(a, 9000)));
    assert!(target_precedes(&(a, 80), &(a, 80)));
    assert!(target_precedes(&(a, 80), &(a, 81)));
    assert!(!target_precedes(&(a, 81), &(a, 80)));
    assert!(target_precedes(&(Address::V4(u32::MAX), 65535), &(six, 0)));
    assert!(!target_precedes(&(six, 0), &(Address::V4(u32::MAX), 65535)));
    assert!(a.precedes(&b) && !b.precedes(&a));
    assert!(a.same_family(&b) && !a.same_family(&six));
    assert!(a.is_ipv4() && !six.is_ipv4());
}

#[test]
fn plan_refuses_mixed_families() {
    let six = Address::V6([0, 0, 0, 0, 0, 0, 0, 1]);
    assert_eq!(
        plan_scan(&configuration(v4(10, 0, 0, 1), six, vec![], 4)),
        Err(ConfigurationError::InvalidRange)
    );
    assert_eq!(
        plan_scan(&configuration(six, v4(10, 0, 0, 1), vec![], 0)),
        Err(ConfigurationError::InvalidRange)
    );
}

#[test]
fn plan_refuses_zero_workers() {
    assert_eq!(
        plan_scan(&configuration(v4(10, 0, 0, 1), v4(10, 0, 0, 9), vec![], 0)),
        Err(ConfigurationError::ZeroWorkers)
    );
}

#[test]
fn plan_cuts_the_targets_into_chunks() {
    let plan = plan_scan(&configuration(v4(10, 0, 0, 254), v4(10, 0, 1, 1), vec![8000], 4)).unwrap();
    let mut ports = default_ports();
    ports.push(8000);
    let mut targets: Vec<Target> = Vec::new();
    for host in [v4(10, 0, 0, 254), v4(10, 0, 1, 1)] {
        for port in &ports {
            targets.push((host, *port));
        }
    }
    assert_eq!(targets.len(), 62);
    let lengths: Vec<usize> = plan.iter().map(|chunk| chunk.len()).collect();
    assert_eq!(lengths, vec![16, 16, 15, 15]);
    assert_eq!(plan.concat(), targets);
}

#[test]
fn single_address_scan_with_nothing_open_reports_nothing() {
    let config = configuration(v4(10, 0, 0, 1), v4(10, 0, 0, 1), vec![80], 1);
    let plan = plan_scan(&config).unwrap();
    assert_eq!(plan.len(), 1);
    assert_eq!(plan[0].len(), 31);
    assert_eq!(plan[0][30], (v4(10, 0, 0, 1), 80));
    let mut collector = ResultCollector::new();
    for chunk in plan {
        let mut worker = ScanWorker::new(chunk);
        while let Some(_) = worker.next_target() {
            if let Some(open) = worker.complete(ProbeEvent::Failed) {
                collector.record(open);
            }
        }
    }
    assert_eq!(collector.len(), 0);
}
