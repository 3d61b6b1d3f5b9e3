use cluster_monitor::get_data::processes::ProcessInfo;
use cluster_monitor::handle_data::NodeInfo;
use cluster_monitor::head::{is_blank_line, white_space, HeadEvent, HeadSession, HeadStep};
use cluster_monitor::message::WorkerInfo;

fn report(host: &str, cpu: f32) -> WorkerInfo {
    WorkerInfo {
        hostname: host.to_string(),
        timestamp_secs: 0,
        timestamp_nanos: 0,
        cpu_usage_bits: cpu.to_bits(),
        ram_used_gb_bits: 1.0f64.to_bits(),
        ram_total_gb_bits: 2.0f64.to_bits(),
        load_average_1min_bits: 0.0f64.to_bits(),
        process_count: 0,
        status: String::new(),
        processes: Vec::<ProcessInfo>::new(),
        cores_bits: vec![],
        cpu_temp: String::new(),
    }
}

fn names(list: &Vec<NodeInfo>) -> Vec<String> {
    list.iter().map(|n| n.name.clone()).collect()
}

#[test]
fn blank_lines_are_skipped() {
    assert!(is_blank_line(""));
    assert!(is_blank_line("   \t\r"));
    assert!(is_blank_line("\u{3000}\u{00a0}\u{2028}"));
    assert!(!is_blank_line("{}"));
    assert!(!is_blank_line("  x  "));
    assert!(!is_blank_line("\u{200b}"));
}

#[test]
fn white_space_matches_std() {
    for u in 0u32..0x3100 {
        if let Some(c) = char::from_u32(u) {
            assert_eq!(white_space(c), c.is_whitespace(), "char {:#x}", u);
        }
    }
}

#[test]
fn blank_line_matches_trim() {
    for line in ["", " ", "a", " a", "\u{85}", "\t\n", "\u{feff}"] {
        assert_eq!(is_blank_line(line), line.trim().is_empty(), "{:?}", line);
    }
}

#[test]
fn new_session_has_no_name() {
    let s = HeadSession::new();
    assert!(s.first_time);
    assert_eq!(s.node_name, "");
}

#[test]
fn first_report_registers_node() {
    let mut list = Vec::new();
    let mut s = HeadSession::new();
    let step = s.step(&mut list, HeadEvent::Report(report("w1", 3.0)));
    assert_eq!(step, HeadStep::Continue);
    assert!(!s.first_time);
    assert_eq!(s.node_name, "w1");
    assert_eq!(names(&list), vec!["w1"]);
    assert_eq!(list[0].id, 1);
}

#[test]
fn later_reports_update_node() {
    let mut list = Vec::new();
    let mut s = HeadSession::new();
    s.step(&mut list, HeadEvent::Report(report("w1", 3.0)));
    let step = s.step(&mut list, HeadEvent::Report(report("w1", 4.0)));
    assert_eq!(step, HeadStep::Continue);
    assert_eq!(list.len(), 1);
    assert_eq!(f32::from_bits(list[0].info.cpu_usage_bits), 4.0);
}

#[test]
fn malformed_line_drops_node_and_continues() {
    let mut list = Vec::new();
    let mut s = HeadSession::new();
    s.step(&mut list, HeadEvent::Report(report("w1", 3.0)));
    assert_eq!(s.step(&mut list, HeadEvent::Malformed), HeadStep::Continue);
    assert!(list.is_empty());
    // the node is gone, and later reports are not registered again
    assert_eq!(s.step(&mut list, HeadEvent::Report(report("w1", 5.0))), HeadStep::UnknownNode);
    assert!(list.is_empty());
}

#[test]
fn stream_error_and_close_stop() {
    let mut list = Vec::new();
    let mut other = HeadSession::new();
    other.step(&mut list, HeadEvent::Report(report("w0", 1.0)));
    let mut s = HeadSession::new();
    s.step(&mut list, HeadEvent::Report(report("w1", 3.0)));
    assert_eq!(s.step(&mut list, HeadEvent::StreamError), HeadStep::Stop);
    assert_eq!(names(&list), vec!["w0"]);
    assert_eq!(s.step(&mut list, HeadEvent::Closed), HeadStep::Stop);
    assert_eq!(names(&list), vec!["w0"]);
}

#[test]
fn close_before_any_report_drops_unnamed_nodes_only() {
    let mut list = Vec::new();
    let mut other = HeadSession::new();
    other.step(&mut list, HeadEvent::Report(report("w0", 1.0)));
    let mut s = HeadSession::new();
    assert_eq!(s.step(&mut list, HeadEvent::Closed), HeadStep::Stop);
    assert_eq!(names(&list), vec!["w0"]);
}

#[test]
fn hostname_change_follows_latest_report() {
    let mut list = Vec::new();
    let mut s = HeadSession::new();
    s.step(&mut list, HeadEvent::Report(report("old", 1.0)));
    assert_eq!(s.step(&mut list, HeadEvent::Report(report("new", 2.0))), HeadStep::UnknownNode);
    assert_eq!(s.node_name, "new");
    assert_eq!(names(&list), vec!["old"]);
    s.step(&mut list, HeadEvent::Closed);
    assert_eq!(names(&list), vec!["old"]);
}
