use cluster_monitor::worker::{next_link_step, LinkEvent, LinkStep};
use cluster_monitor::worker::{
    ends_with, frame_report, is_package_label, is_temp_input, label_path, remove_all_exec, starts_with,
};

#[test]
fn prefixes_and_suffixes() {
    assert!(starts_with("temperature", "temp"));
    assert!(starts_with("abc", ""));
    assert!(!starts_with("te", "temp"));
    assert!(ends_with("temp1_input", "_input"));
    assert!(!ends_with("input", "_input"));
    assert!(ends_with("°C", "C"));
}

#[test]
fn temperature_inputs() {
    assert!(is_temp_input("temp1_input"));
    assert!(is_temp_input("temp12_input"));
    assert!(!is_temp_input("temp1_label"));
    assert!(!is_temp_input("fan1_input"));
    assert!(!is_temp_input("temp"));
}

#[test]
fn package_labels() {
    assert!(is_package_label("Package id 0\n"));
    assert!(is_package_label("Tdie"));
    assert!(is_package_label("SoC Temperature"));
    assert!(!is_package_label("Core 0"));
    assert!(!is_package_label("Tctl"));
}

#[test]
fn label_paths() {
    assert_eq!(
        label_path("/sys/class/hwmon/hwmon0/temp1_input"),
        "/sys/class/hwmon/hwmon0/temp1_label"
    );
    assert_eq!(label_path("/x/inputs/temp2_input"), "/x/s/temp2_label");
}

#[test]
fn removal_matches_std_replace() {
    for s in ["", "input", "inpinput", "ininputput", "iinput", "inputinput", "abc", "inpu"] {
        assert_eq!(remove_all_exec(s, "input"), s.replace("input", ""), "{:?}", s);
    }
    assert_eq!(remove_all_exec("aaaa", "aa"), "aaaa".replace("aa", ""));
    assert_eq!(remove_all_exec("abab", ""), "abab");
}

#[test]
fn framing() {
    assert_eq!(frame_report("{\"a\":1}".to_string()), "{\"a\":1}\n");
    assert_eq!(frame_report(String::new()), "\n");
}

#[test]
fn link_steps() {
    assert_eq!(next_link_step(LinkEvent::Connected), LinkStep::Send);
    assert_eq!(next_link_step(LinkEvent::Sent), LinkStep::WaitThenSend(1000));
    assert_eq!(next_link_step(LinkEvent::SendFailed), LinkStep::Connect);
    assert_eq!(next_link_step(LinkEvent::ConnectFailed), LinkStep::WaitThenConnect(1000));
}
