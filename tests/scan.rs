use port_scan::{
    end_port_guard, render_report, start_port_guard, IpAddress, ResultSet, ScanRequest, MAX_PORT,
};

fn request(start: u16, end: u16) -> ScanRequest {
    ScanRequest::new(IpAddress::fallback(), start, end).unwrap()
}

fn sorted(arrivals: &[u16]) -> Vec<u16> {
    ResultSet::from_arrivals(&arrivals.to_vec()).into_sorted()
}

#[test]
fn start_guard_rejects_zero() {
    assert!(!start_port_guard(&0));
    assert!(start_port_guard(&1));
    assert!(start_port_guard(&65535));
}

#[test]
fn end_guard_accepts_only_the_highest_port() {
    assert!(!end_port_guard(&0));
    assert!(!end_port_guard(&65534));
    assert!(end_port_guard(&65535));
    assert_eq!(MAX_PORT, 65535);
}

#[test]
fn fallback_address_is_loopback() {
    match IpAddress::fallback() {
        IpAddress::V4(o) => assert_eq!(o, [127, 0, 0, 1]),
        IpAddress::V6(_) => panic!("expected an IPv4 address"),
    }
}

#[test]
fn request_with_zero_start_is_refused() {
    assert!(ScanRequest::new(IpAddress::fallback(), 0, 10).is_none());
    let q = request(3, 7);
    assert_eq!(q.start_port, 3);
    assert_eq!(q.end_port, 7);
}

#[test]
fn ports_cover_the_range_end_exclusive() {
    assert_eq!(request(8999, 9002).ports(), vec![8999, 9000, 9001]);
}

#[test]
fn each_port_attempted_once() {
    let ports = request(1, 100).ports();
    assert_eq!(ports.len(), 99);
    for p in 0u16..=200 {
        let n = ports.iter().filter(|&&q| q == p).count();
        assert_eq!(n, if (1..100).contains(&p) { 1 } else { 0 });
    }
}

#[test]
fn equal_bounds_attempt_nothing() {
    assert!(request(5, 5).ports().is_empty());
    assert!(request(65535, 65535).ports().is_empty());
    let results = ResultSet::from_arrivals(&vec![]);
    assert_eq!(results.len(), 0);
    assert!(results.into_sorted().is_empty());
}

#[test]
fn start_above_end_attempts_nothing() {
    assert!(request(10, 2).ports().is_empty());
}

#[test]
fn range_of_one_attempts_port_one() {
    assert_eq!(request(1, 2).ports(), vec![1]);
}

#[test]
fn widest_range_ends_below_max() {
    let ports = request(1, MAX_PORT).ports();
    assert_eq!(ports.len(), 65534);
    assert_eq!(ports[0], 1);
    assert_eq!(ports[65533], 65534);
}

#[test]
fn results_come_out_ascending_without_repeats() {
    assert_eq!(sorted(&[9001, 80, 443, 80, 22]), vec![22, 80, 443, 9001]);
}

#[test]
fn record_keeps_a_port_once() {
    let mut results = ResultSet::new();
    results.record(443);
    results.record(80);
    results.record(443);
    results.record(65535);
    results.record(1);
    assert_eq!(results.len(), 4);
    assert_eq!(results.into_sorted(), vec![1, 80, 443, 65535]);
}

#[test]
fn arrival_order_does_not_change_the_report() {
    let a = sorted(&[3, 1, 2, 9000, 65535]);
    let b = sorted(&[65535, 9000, 2, 3, 1]);
    assert_eq!(a, b);
    assert_eq!(render_report(&a), render_report(&b));
}

#[test]
fn k_open_ports_give_k_results() {
    let arrivals: Vec<u16> = (100u16..400).rev().step_by(3).collect();
    let k = arrivals.len();
    let out = sorted(&arrivals);
    assert_eq!(out.len(), k);
    let mut expected = arrivals.clone();
    expected.sort();
    assert_eq!(out, expected);
}

#[test]
fn report_for_one_listener() {
    let out = sorted(&[9000]);
    assert_eq!(render_report(&out), b"\n9000 is open\n".to_vec());
}

#[test]
fn report_with_no_listeners_is_a_blank_line() {
    let out = sorted(&[]);
    assert_eq!(render_report(&out), b"\n".to_vec());
}

#[test]
fn report_lists_each_port_on_its_own_line() {
    let out = sorted(&[65535, 10, 1, 100, 9]);
    assert_eq!(
        render_report(&out),
        b"\n1 is open\n9 is open\n10 is open\n100 is open\n65535 is open\n".to_vec()
    );
}
