use wifi_scanner::presenter::{Message, Presenter};
use wifi_scanner::record::NetworkRecord;

fn sample_record() -> NetworkRecord {
    NetworkRecord {
        name: String::from("HomeNet"),
        hardware_address: String::from("aa:bb:cc:dd:ee:ff"),
        signal_percent: 72,
    }
}

#[test]
fn starts_idle_and_empty() {
    let p = Presenter::default();
    assert!(!p.scanning);
    assert_eq!(p.networks.len(), 0);
}

#[test]
fn request_from_idle_starts_a_scan_and_clears_the_list() {
    let mut p = Presenter::default();
    p.networks = vec![sample_record()];
    let started = p.update(Message::ScanRequested);
    assert!(started);
    assert!(p.scanning);
    assert_eq!(p.networks.len(), 0);
}

#[test]
fn overlapping_request_starts_no_second_scan() {
    let mut p = Presenter::default();
    let first = p.update(Message::ScanRequested);
    let second = p.update(Message::ScanRequested);
    assert!(first);
    assert!(!second);
    assert!(p.scanning);
}

#[test]
fn completion_replaces_records_and_returns_to_idle() {
    let mut p = Presenter::default();
    assert!(p.update(Message::ScanRequested));
    let started = p.update(Message::ScanCompleted(vec![sample_record()]));
    assert!(!started);
    assert!(!p.scanning);
    assert_eq!(p.networks.len(), 1);
    assert_eq!(p.networks[0].name, "HomeNet");
}

#[test]
fn a_fresh_request_is_honored_after_completion() {
    let mut p = Presenter::default();
    assert!(p.update(Message::ScanRequested));
    assert!(!p.update(Message::ScanRequested));
    assert!(!p.update(Message::ScanCompleted(vec![sample_record()])));
    assert!(p.update(Message::ScanRequested));
    assert!(p.scanning);
    assert_eq!(p.networks.len(), 0);
}

#[test]
fn completion_with_no_records_leaves_an_empty_list() {
    let mut p = Presenter::default();
    assert!(p.update(Message::ScanRequested));
    assert!(!p.update(Message::ScanCompleted(Vec::new())));
    assert!(!p.scanning);
    assert_eq!(p.networks.len(), 0);
}
