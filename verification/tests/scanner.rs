use portscan::pipeline::Mode;
use portscan::pipeline::filter_results;
use portscan::pipeline::process_results;
use portscan::pipeline::should_emit;
use portscan::range::PortRange;
use portscan::render::render_line;
use portscan::sink::Sink;
use portscan::status::ProbeResult;
use portscan::status::Status;

fn result(port: u16, status: Status) -> ProbeResult {
    ProbeResult { port, status }
}

fn lines_of(results: &[ProbeResult]) -> Vec<String> {
    results.iter().map(render_line).collect()
}

#[test]
fn coverage_all_ports_exactly_once() {
    let range = PortRange::new(10, 19).unwrap();
    let mut arrivals = Vec::new();
    // a scrambled completion order covering every port once
    for k in 0u16..10 {
        arrivals.push(result(10 + (k * 7) % 10, Status::Closed));
    }
    let out = process_results(&range, arrivals);
    assert_eq!(out.len(), 10);
    for (k, r) in out.iter().enumerate() {
        assert_eq!(r.port, 10 + k as u16);
    }
}

#[test]
fn order_strictly_increasing_under_scrambled_completions() {
    let range = PortRange::new(1, 100).unwrap();
    let mut arrivals = Vec::new();
    // stride 37 is coprime to 100, so this visits every port exactly once
    for k in 0u32..100 {
        let port = 1 + ((k * 37) % 100) as u16;
        let status = if port % 3 == 0 { Status::Open } else { Status::Closed };
        arrivals.push(result(port, status));
    }
    let out = process_results(&range, arrivals);
    assert_eq!(out.len(), 100);
    for pair in out.windows(2) {
        assert!(pair[0].port < pair[1].port);
    }
}

#[test]
fn scrambled_and_sequential_completions_agree() {
    let range = PortRange::new(20, 39).unwrap();
    let status_for = |port: u16| {
        if port % 4 == 0 {
            Status::Open
        } else if port % 4 == 1 {
            Status::Closed
        } else {
            Status::FilteredOrUnreachable
        }
    };
    let sequential: Vec<ProbeResult> = (20u16..=39).map(|p| result(p, status_for(p))).collect();
    let mut scrambled = Vec::new();
    for k in 0u32..20 {
        let port = 20 + ((k * 13) % 20) as u16;
        scrambled.push(result(port, status_for(port)));
    }
    let out_seq = process_results(&range, sequential);
    let out_scr = process_results(&range, scrambled);
    assert_eq!(lines_of(&out_seq), lines_of(&out_scr));
}

#[test]
fn sink_emits_as_early_as_possible() {
    let range = PortRange::new(80, 83).unwrap();
    let mut sink = Sink::new(&range);
    assert!(sink.offer(result(81, Status::Closed)).is_empty());
    assert!(sink.offer(result(83, Status::Open)).is_empty());
    let batch = sink.offer(result(80, Status::Open));
    assert_eq!(
        lines_of(&batch),
        vec!["Port 80: open".to_string(), "Port 81: closed".to_string()]
    );
    let batch = sink.offer(result(82, Status::FilteredOrUnreachable));
    assert_eq!(
        lines_of(&batch),
        vec![
            "Port 82: filtered or unreachable".to_string(),
            "Port 83: open".to_string()
        ]
    );
    assert!(sink.finish().is_empty());
}

#[test]
fn sink_tracks_received_ports() {
    let range = PortRange::new(5, 9).unwrap();
    let mut sink = Sink::new(&range);
    assert!(!sink.is_received(5));
    assert!(!sink.is_received(7));
    sink.offer(result(7, Status::Open));
    assert!(sink.is_received(7));
    assert!(!sink.is_received(6));
    sink.offer(result(5, Status::Closed));
    assert!(sink.is_received(5));
    assert!(sink.is_received(7));
    assert!(!sink.is_received(9));
}

#[test]
fn sink_finish_drains_leftovers_in_port_order() {
    let range = PortRange::new(1, 5).unwrap();
    let mut sink = Sink::new(&range);
    // port 1 never arrives, so nothing is emitted before shutdown
    assert!(sink.offer(result(4, Status::Open)).is_empty());
    assert!(sink.offer(result(2, Status::Closed)).is_empty());
    let rest = sink.finish();
    assert_eq!(
        lines_of(&rest),
        vec!["Port 2: closed".to_string(), "Port 4: open".to_string()]
    );
}

#[test]
fn filter_open_only_keeps_exactly_open_entries() {
    let full = vec![
        result(80, Status::Open),
        result(81, Status::Closed),
        result(82, Status::FilteredOrUnreachable),
        result(83, Status::Open),
        result(84, Status::Error("host lookup failed".to_string())),
    ];
    let only_open = filter_results(full, Mode::OpenOnly);
    assert_eq!(
        lines_of(&only_open),
        vec!["Port 80: open".to_string(), "Port 83: open".to_string()]
    );
}

#[test]
fn filter_all_results_is_identity() {
    let full = vec![
        result(1, Status::Open),
        result(2, Status::Closed),
        result(3, Status::FilteredOrUnreachable),
    ];
    let expected = lines_of(&full);
    let kept = filter_results(full, Mode::AllResults);
    assert_eq!(lines_of(&kept), expected);
}

#[test]
fn should_emit_follows_mode() {
    assert!(should_emit(&Status::Open, Mode::AllResults));
    assert!(should_emit(&Status::Closed, Mode::AllResults));
    assert!(should_emit(&Status::Open, Mode::OpenOnly));
    assert!(!should_emit(&Status::Closed, Mode::OpenOnly));
    assert!(!should_emit(&Status::FilteredOrUnreachable, Mode::OpenOnly));
    assert!(!should_emit(&Status::Error("x".to_string()), Mode::OpenOnly));
}

#[test]
fn single_port_range_scans_exactly_one_port() {
    let range = PortRange::new(443, 443).unwrap();
    assert_eq!(range.len(), 1);
    let out = process_results(&range, vec![result(443, Status::Open)]);
    assert_eq!(lines_of(&out), vec!["Port 443: open".to_string()]);
}

#[test]
fn full_port_range_covers_without_overflow() {
    let range = PortRange::new(0, 65535).unwrap();
    assert_eq!(range.len(), 65536);
    let arrivals: Vec<ProbeResult> = (0u32..=65535)
        .map(|p| result(p as u16, Status::Closed))
        .collect();
    let out = process_results(&range, arrivals);
    assert_eq!(out.len(), 65536);
    assert_eq!(out[0].port, 0);
    assert_eq!(out[65535].port, 65535);
    assert_eq!(render_line(&out[65535]), "Port 65535: closed");
}

#[test]
fn inverted_range_is_rejected() {
    assert!(PortRange::new(90, 80).is_none());
    assert!(PortRange::new(1, 0).is_none());
}

#[test]
fn range_contains_and_ports() {
    let range = PortRange::new(8, 11).unwrap();
    assert!(range.contains(8));
    assert!(range.contains(11));
    assert!(!range.contains(7));
    assert!(!range.contains(12));
    assert_eq!(range.ports(), vec![8, 9, 10, 11]);
}

#[test]
fn scenario_mixed_statuses() {
    let range = PortRange::new(80, 82).unwrap();
    let arrivals = vec![
        result(82, Status::FilteredOrUnreachable),
        result(80, Status::Open),
        result(81, Status::Closed),
    ];
    let out = process_results(&range, arrivals);
    assert_eq!(
        lines_of(&out),
        vec![
            "Port 80: open".to_string(),
            "Port 81: closed".to_string(),
            "Port 82: filtered or unreachable".to_string(),
        ]
    );
}

#[test]
fn scenario_mixed_statuses_open_only() {
    let range = PortRange::new(80, 82).unwrap();
    let arrivals = vec![
        result(82, Status::FilteredOrUnreachable),
        result(80, Status::Open),
        result(81, Status::Closed),
    ];
    let out = filter_results(process_results(&range, arrivals), Mode::OpenOnly);
    assert_eq!(lines_of(&out), vec!["Port 80: open".to_string()]);
}

#[test]
fn scenario_resolution_failure_reports_every_port() {
    let range = PortRange::new(7, 9).unwrap();
    let arrivals: Vec<ProbeResult> = (7u16..=9)
        .map(|p| result(p, Status::Error("failed to lookup address information".to_string())))
        .collect();
    let out = process_results(&range, arrivals);
    assert_eq!(
        lines_of(&out),
        vec![
            "Port 7: error: failed to lookup address information".to_string(),
            "Port 8: error: failed to lookup address information".to_string(),
            "Port 9: error: failed to lookup address information".to_string(),
        ]
    );
}
