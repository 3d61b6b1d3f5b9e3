use cluster_monitor::get_data::processes::{
    checked_process_ticks, cpu_rank, get_process_ticks, resident_bytes, sort_processes, ByteUnit,
    HumanBytes, ProcessBaseline, ProcessInfo,
};

fn proc(pid: i32, cpu: f32, rss: u64) -> ProcessInfo {
    ProcessInfo {
        pid,
        name: format!("p{}", pid),
        virtual_memory_bytes: 0,
        resident_set_size_bytes: rss,
        cpu_usage_percentage_bits: cpu.to_bits(),
    }
}

fn pids(v: &Vec<ProcessInfo>) -> Vec<i32> {
    v.iter().map(|p| p.pid).collect()
}

#[test]
fn units() {
    assert_eq!(HumanBytes(0).unit(), ByteUnit::Bytes);
    assert_eq!(HumanBytes(1023).unit(), ByteUnit::Bytes);
    assert_eq!(HumanBytes(1024).unit(), ByteUnit::KiloBytes);
    assert_eq!(HumanBytes(1_048_575).unit(), ByteUnit::KiloBytes);
    assert_eq!(HumanBytes(1_048_576).unit(), ByteUnit::MegaBytes);
    assert_eq!(HumanBytes(1_073_741_823).unit(), ByteUnit::MegaBytes);
    assert_eq!(HumanBytes(1_073_741_824).unit(), ByteUnit::GigaBytes);
    assert_eq!(HumanBytes(u64::MAX).unit(), ByteUnit::GigaBytes);
}

#[test]
fn unit_sizes_and_symbols() {
    assert_eq!(ByteUnit::Bytes.size(), 1);
    assert_eq!(ByteUnit::KiloBytes.size(), 1024);
    assert_eq!(ByteUnit::MegaBytes.size(), 1_048_576);
    assert_eq!(ByteUnit::GigaBytes.size(), 1_073_741_824);
    assert_eq!(ByteUnit::Bytes.symbol(), "B");
    assert_eq!(ByteUnit::KiloBytes.symbol(), "KB");
    assert_eq!(ByteUnit::MegaBytes.symbol(), "MB");
    assert_eq!(ByteUnit::GigaBytes.symbol(), "GB");
}

#[test]
fn figure_stays_below_1024() {
    for n in [1u64, 1023, 1024, 5000, 1_048_575, 1_048_576, 3_000_000_000, 1_099_511_627_775] {
        let u = HumanBytes(n).unit();
        let figure = n as f64 / u.size() as f64;
        assert!(figure >= 1.0 && figure < 1024.0, "{}", n);
    }
}

#[test]
fn ticks_add_up_threads() {
    assert_eq!(get_process_ticks(&vec![(1, 2), (10, 20)], Some((500, 500))), 33);
    assert_eq!(get_process_ticks(&vec![], Some((4, 5))), 9);
    assert_eq!(get_process_ticks(&vec![(0, 0)], Some((4, 5))), 9);
    assert_eq!(get_process_ticks(&vec![], None), 0);
}

#[test]
fn ticks_overflow_is_reported() {
    assert_eq!(checked_process_ticks(&vec![(u64::MAX, 1)], None), None);
    assert_eq!(checked_process_ticks(&vec![(u64::MAX - 1, 0), (1, 1)], None), None);
    assert_eq!(checked_process_ticks(&vec![], Some((u64::MAX, 1))), None);
    assert_eq!(checked_process_ticks(&vec![(u64::MAX - 1, 1)], Some((u64::MAX, 1))), Some(u64::MAX));
    assert_eq!(checked_process_ticks(&vec![(3, 4)], None), Some(7));
}

#[test]
fn resident_pages() {
    assert_eq!(resident_bytes(0), 0);
    assert_eq!(resident_bytes(3), 12288);
}

#[test]
fn baseline_deltas() {
    let mut b = ProcessBaseline::new();
    b.record(7, 100);
    b.record(8, 50);
    b.record(7, 120);
    assert_eq!(b.ticks_since(7, 150), 30);
    assert_eq!(b.ticks_since(8, 40), 0);
    assert_eq!(b.ticks_since(9, 999), 0);
}

#[test]
fn ranks_follow_float_order() {
    let values = [-5.0f32, -1.0, -0.5, 0.0, 0.25, 1.0, 99.5, 100.0];
    for w in values.windows(2) {
        assert!(cpu_rank(w[0].to_bits()) < cpu_rank(w[1].to_bits()), "{:?}", w);
    }
}

#[test]
fn sort_by_cpu_then_memory() {
    let mut v = vec![proc(1, 1.0, 10), proc(2, 50.0, 5), proc(3, 1.0, 99), proc(4, 0.0, 1000), proc(5, 50.0, 7)];
    sort_processes(&mut v);
    assert_eq!(pids(&v), vec![5, 2, 3, 1, 4]);
}

#[test]
fn sort_keeps_ties_in_order() {
    let mut v = vec![proc(1, 2.0, 10), proc(2, 3.0, 10), proc(3, 2.0, 10), proc(4, 2.0, 10)];
    sort_processes(&mut v);
    assert_eq!(pids(&v), vec![2, 1, 3, 4]);
}

#[test]
fn sort_matches_std_sort_by() {
    let mut v: Vec<ProcessInfo> = (0..40)
        .map(|i| proc(i, ((i * 37) % 7) as f32 * 1.5, ((i * 11) % 5) as u64 * 100))
        .collect();
    let mut expected: Vec<i32> = {
        let mut w: Vec<(i32, f32, u64)> = v
            .iter()
            .map(|p| (p.pid, f32::from_bits(p.cpu_usage_percentage_bits), p.resident_set_size_bytes))
            .collect();
        w.sort_by(|a, b| {
            b.1.partial_cmp(&a.1)
                .unwrap_or(std::cmp::Ordering::Equal)
                .then_with(|| b.2.cmp(&a.2))
        });
        w.into_iter().map(|t| t.0).collect()
    };
    sort_processes(&mut v);
    assert_eq!(pids(&v), expected.drain(..).collect::<Vec<_>>());
}

#[test]
fn sort_empty_and_single() {
    let mut v: Vec<ProcessInfo> = vec![];
    sort_processes(&mut v);
    assert!(v.is_empty());
    let mut w = vec![proc(9, 1.0, 1)];
    sort_processes(&mut w);
    assert_eq!(pids(&w), vec![9]);
}

#[test]
fn process_info_clone() {
    let p = proc(3, 2.5, 77);
    let q = p.clone();
    assert_eq!(q.pid, 3);
    assert_eq!(q.name, "p3");
    assert_eq!(q.resident_set_size_bytes, 77);
    assert_eq!(q.cpu_usage_percentage_bits, 2.5f32.to_bits());
}

#[test]
fn zeros_tie_like_partial_cmp() {
    assert_eq!(cpu_rank(0.0f32.to_bits()), cpu_rank((-0.0f32).to_bits()));
    let mut v = vec![proc(1, -0.0, 5), proc(2, 0.0, 5), proc(3, -0.0, 5)];
    sort_processes(&mut v);
    assert_eq!(pids(&v), vec![1, 2, 3]);
    assert!(cpu_rank(f32::MIN_POSITIVE.to_bits()) > cpu_rank(0.0f32.to_bits()));
    assert!(cpu_rank((-f32::MIN_POSITIVE).to_bits()) < cpu_rank((-0.0f32).to_bits()));
    assert!(cpu_rank(f32::INFINITY.to_bits()) > cpu_rank(f32::MAX.to_bits()));
    assert!(cpu_rank(f32::NEG_INFINITY.to_bits()) < cpu_rank(f32::MIN.to_bits()));
}

#[test]
fn sorting_twice_is_sorting_once() {
    let mut v: Vec<ProcessInfo> = (0..25)
        .map(|i| proc(i, ((i * 13) % 4) as f32, ((i * 7) % 3) as u64))
        .collect();
    sort_processes(&mut v);
    let once = pids(&v);
    sort_processes(&mut v);
    assert_eq!(pids(&v), once);
}
