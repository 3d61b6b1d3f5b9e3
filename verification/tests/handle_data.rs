use cluster_monitor::get_data::processes::ProcessInfo;
use cluster_monitor::handle_data::{CreateNode, NodeInfo, ProcessData, RemoveNode};
use cluster_monitor::message::WorkerInfo;

fn report(host: &str, cpu: f32) -> WorkerInfo {
    WorkerInfo {
        hostname: host.to_string(),
        timestamp_secs: 1_700_000_000,
        timestamp_nanos: 5,
        cpu_usage_bits: cpu.to_bits(),
        ram_used_gb_bits: 2.5f64.to_bits(),
        ram_total_gb_bits: 16.0f64.to_bits(),
        load_average_1min_bits: 0.75f64.to_bits(),
        process_count: 1,
        status: "online".to_string(),
        processes: vec![ProcessInfo {
            pid: 1,
            name: "init".to_string(),
            virtual_memory_bytes: 4096,
            resident_set_size_bytes: 8192,
            cpu_usage_percentage_bits: 0.5f32.to_bits(),
        }],
        cores_bits: vec![cpu.to_bits(), 0.0f32.to_bits()],
        cpu_temp: "42.0°C".to_string(),
    }
}

fn names(list: &Vec<NodeInfo>) -> Vec<String> {
    list.iter().map(|n| n.name.clone()).collect()
}

#[test]
fn create_node_appends_named_entry() {
    let mut list = Vec::new();
    CreateNode(&mut list, &report("alpha", 10.0));
    CreateNode(&mut list, &report("beta", 20.0));
    assert_eq!(names(&list), vec!["alpha", "beta"]);
    assert_eq!(list[1].id, 1);
    assert_eq!(f32::from_bits(list[1].info.cpu_usage_bits), 20.0);
    assert_eq!(list[1].info.processes.len(), 1);
    assert_eq!(list[1].info.processes[0].name, "init");
}

#[test]
fn process_data_updates_first_match_only() {
    let mut list = Vec::new();
    CreateNode(&mut list, &report("alpha", 1.0));
    CreateNode(&mut list, &report("beta", 2.0));
    CreateNode(&mut list, &report("alpha", 3.0));
    let found = ProcessData(&mut list, &report("alpha", 99.0), &"alpha".to_string());
    assert!(found);
    assert_eq!(names(&list), vec!["alpha", "beta", "alpha"]);
    assert_eq!(f32::from_bits(list[0].info.cpu_usage_bits), 99.0);
    assert_eq!(f32::from_bits(list[1].info.cpu_usage_bits), 2.0);
    assert_eq!(f32::from_bits(list[2].info.cpu_usage_bits), 3.0);
    assert_eq!(list[0].id, 1);
}

#[test]
fn process_data_uses_target_name() {
    let mut list = Vec::new();
    CreateNode(&mut list, &report("alpha", 1.0));
    let found = ProcessData(&mut list, &report("other-host", 7.0), &"alpha".to_string());
    assert!(found);
    assert_eq!(list[0].name, "alpha");
    assert_eq!(list[0].info.hostname, "other-host");
}

#[test]
fn process_data_missing_node_changes_nothing() {
    let mut list = Vec::new();
    CreateNode(&mut list, &report("alpha", 1.0));
    let found = ProcessData(&mut list, &report("gamma", 5.0), &"gamma".to_string());
    assert!(!found);
    assert_eq!(names(&list), vec!["alpha"]);
    assert_eq!(f32::from_bits(list[0].info.cpu_usage_bits), 1.0);
}

#[test]
fn process_data_on_empty_list() {
    let mut list: Vec<NodeInfo> = Vec::new();
    assert!(!ProcessData(&mut list, &report("alpha", 5.0), &"alpha".to_string()));
    assert!(list.is_empty());
}

#[test]
fn remove_node_drops_every_match_in_order() {
    let mut list = Vec::new();
    for h in ["a", "b", "a", "c", "a"] {
        CreateNode(&mut list, &report(h, 1.0));
    }
    RemoveNode(&mut list, &"a".to_string());
    assert_eq!(names(&list), vec!["b", "c"]);
}

#[test]
fn remove_node_twice_is_once() {
    let mut list = Vec::new();
    for h in ["a", "b", "a"] {
        CreateNode(&mut list, &report(h, 1.0));
    }
    RemoveNode(&mut list, &"a".to_string());
    let once = names(&list);
    RemoveNode(&mut list, &"a".to_string());
    assert_eq!(names(&list), once);
    assert_eq!(once, vec!["b"]);
}

#[test]
fn remove_node_unknown_name_keeps_list() {
    let mut list = Vec::new();
    CreateNode(&mut list, &report("a", 1.0));
    CreateNode(&mut list, &report("b", 1.0));
    RemoveNode(&mut list, &"zzz".to_string());
    assert_eq!(names(&list), vec!["a", "b"]);
    RemoveNode(&mut list, &"".to_string());
    assert_eq!(names(&list), vec!["a", "b"]);
}

#[test]
fn remove_undoes_create() {
    let mut list = Vec::new();
    CreateNode(&mut list, &report("a", 1.0));
    CreateNode(&mut list, &report("b", 2.0));
    CreateNode(&mut list, &report("new", 3.0));
    RemoveNode(&mut list, &"new".to_string());
    assert_eq!(names(&list), vec!["a", "b"]);
    assert_eq!(f32::from_bits(list[1].info.cpu_usage_bits), 2.0);
}

#[test]
fn report_after_create_lands_on_new_entry() {
    let mut list = Vec::new();
    CreateNode(&mut list, &report("a", 1.0));
    CreateNode(&mut list, &report("n", 2.0));
    assert!(ProcessData(&mut list, &report("n", 8.0), &"n".to_string()));
    assert_eq!(names(&list), vec!["a", "n"]);
    assert_eq!(f32::from_bits(list[1].info.cpu_usage_bits), 8.0);
}

#[test]
fn worker_info_clone_keeps_every_field() {
    let r = report("host", 12.5);
    let c = r.clone();
    assert_eq!(c.hostname, r.hostname);
    assert_eq!(c.timestamp_secs, r.timestamp_secs);
    assert_eq!(c.timestamp_nanos, r.timestamp_nanos);
    assert_eq!(c.cpu_usage_bits, r.cpu_usage_bits);
    assert_eq!(c.ram_used_gb_bits, r.ram_used_gb_bits);
    assert_eq!(c.ram_total_gb_bits, r.ram_total_gb_bits);
    assert_eq!(c.load_average_1min_bits, r.load_average_1min_bits);
    assert_eq!(c.process_count, r.process_count);
    assert_eq!(c.status, r.status);
    assert_eq!(c.cores_bits, r.cores_bits);
    assert_eq!(c.cpu_temp, r.cpu_temp);
    assert_eq!(c.processes[0].pid, 1);
    assert_eq!(c.processes[0].resident_set_size_bytes, 8192);
}
