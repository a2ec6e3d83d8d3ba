use wifi_scanner::parser::{parse, Platform};

#[test]
fn colon_line_yields_record() {
    let records = parse("HomeNet:aa:bb:cc:dd:ee:ff:72", Platform::Linux);
    assert_eq!(records.len(), 1);
    assert_eq!(records[0].name, "HomeNet");
    assert_eq!(records[0].hardware_address, "aa:bb:cc:dd:ee:ff");
    assert_eq!(records[0].signal_percent, 72);
}

#[test]
fn colon_line_empty_name_and_address_yields_nothing() {
    let records = parse("::55", Platform::Linux);
    assert_eq!(records.len(), 0);
}

#[test]
fn colon_line_non_numeric_signal_yields_nothing() {
    let records = parse("HomeNet:aa:bb:cc:dd:ee:ff:strong", Platform::Linux);
    assert_eq!(records.len(), 0);
}

#[test]
fn colon_line_blank_name_yields_nothing() {
    let records = parse("  :aa:bb:72", Platform::Linux);
    assert_eq!(records.len(), 0);
}

#[test]
fn colon_line_blank_address_yields_nothing() {
    let records = parse("HomeNet: :72", Platform::Linux);
    assert_eq!(records.len(), 0);
}

#[test]
fn colon_line_single_colon_yields_nothing() {
    let records = parse("HomeNet:72", Platform::Linux);
    assert_eq!(records.len(), 0);
}

#[test]
fn colon_lines_keep_order_and_skip_malformed() {
    let raw = "One:aa:bb:10\nbad line\nTwo:cc:dd:20\n:ee:30\nThree:ff:gg:hh:30\n";
    let records = parse(raw, Platform::Linux);
    assert_eq!(records.len(), 3);
    assert_eq!(records[0].name, "One");
    assert_eq!(records[0].hardware_address, "aa:bb");
    assert_eq!(records[0].signal_percent, 10);
    assert_eq!(records[1].name, "Two");
    assert_eq!(records[2].name, "Three");
    assert_eq!(records[2].hardware_address, "ff:gg:hh");
}

#[test]
fn colon_lines_duplicate_names_are_kept() {
    let raw = "Net:aa:10\nNet:bb:20";
    let records = parse(raw, Platform::Linux);
    assert_eq!(records.len(), 2);
    assert_eq!(records[0].hardware_address, "aa");
    assert_eq!(records[1].hardware_address, "bb");
}

#[test]
fn colon_lines_crlf_endings_are_handled() {
    let raw = "One:aa:10\r\nTwo:bb:20\r\n";
    let records = parse(raw, Platform::Linux);
    assert_eq!(records.len(), 2);
    assert_eq!(records[0].signal_percent, 10);
    assert_eq!(records[1].signal_percent, 20);
}

#[test]
fn columns_line_yields_record() {
    let records = parse("CafeWifi 11:22:33:44:55:66 15", Platform::MacOs);
    assert_eq!(records.len(), 1);
    assert_eq!(records[0].name, "CafeWifi");
    assert_eq!(records[0].hardware_address, "11:22:33:44:55:66");
    assert_eq!(records[0].signal_percent, 15);
}

#[test]
fn columns_line_extra_tokens_are_ignored() {
    let records = parse("Cafe aa:bb 40 2437 11g", Platform::MacOs);
    assert_eq!(records.len(), 1);
    assert_eq!(records[0].signal_percent, 40);
}

#[test]
fn columns_line_too_few_tokens_yields_nothing() {
    let records = parse("Cafe aa:bb", Platform::MacOs);
    assert_eq!(records.len(), 0);
}

#[test]
fn columns_line_non_numeric_signal_yields_nothing() {
    let records = parse("Cafe aa:bb strong", Platform::MacOs);
    assert_eq!(records.len(), 0);
}

#[test]
fn columns_lines_mixed_whitespace_and_order() {
    let raw = "  One\taa:bb\t10\nTwo  cc:dd   20  \n\n";
    let records = parse(raw, Platform::MacOs);
    assert_eq!(records.len(), 2);
    assert_eq!(records[0].name, "One");
    assert_eq!(records[0].hardware_address, "aa:bb");
    assert_eq!(records[0].signal_percent, 10);
    assert_eq!(records[1].name, "Two");
    assert_eq!(records[1].signal_percent, 20);
}

#[test]
fn block_output_yields_one_record_per_block() {
    let raw = "Interface name : Wireless\n\
               SSID 1 : HomeNet\n\
                   BSSID 1 : aa:bb:cc:dd:ee:ff\n\
                   Signal : 72\n\
               SSID 2 : CafeWifi\n\
                   BSSID 1 : 11:22:33:44:55:66\n\
                   Signal : 15\n";
    let records = parse(raw, Platform::Windows);
    assert_eq!(records.len(), 2);
    assert_eq!(records[0].name, "HomeNet");
    assert_eq!(records[0].hardware_address, "aa");
    assert_eq!(records[0].signal_percent, 72);
    assert_eq!(records[1].name, "CafeWifi");
    assert_eq!(records[1].hardware_address, "11");
    assert_eq!(records[1].signal_percent, 15);
}

#[test]
fn block_without_bssid_line_yields_nothing() {
    let raw = "SSID 1 : HomeNet\n    Signal : 72\n";
    let records = parse(raw, Platform::Windows);
    assert_eq!(records.len(), 0);
}

#[test]
fn block_without_signal_line_yields_nothing() {
    let raw = "SSID 1 : HomeNet\n    BSSID 1 : aa:bb:cc:dd:ee:ff\n";
    let records = parse(raw, Platform::Windows);
    assert_eq!(records.len(), 0);
}

#[test]
fn block_with_percent_sign_in_signal_yields_nothing() {
    let raw = "SSID 1 : HomeNet\n    BSSID 1 : aa:bb:cc:dd:ee:ff\n    Signal : 72%\n";
    let records = parse(raw, Platform::Windows);
    assert_eq!(records.len(), 0);
}

#[test]
fn block_signal_from_own_block_not_a_later_one() {
    let raw = "SSID 1 : One\n\
                   BSSID 1 : aa:bb:cc:dd:ee:ff\n\
               SSID 2 : Two\n\
                   BSSID 1 : 11:22:33:44:55:66\n\
                   Signal : 40\n";
    let records = parse(raw, Platform::Windows);
    // the first block has no signal line of its own, so only the second yields
    assert_eq!(records.len(), 1);
    assert_eq!(records[0].name, "Two");
    assert_eq!(records[0].signal_percent, 40);
}

#[test]
fn empty_input_yields_nothing_on_every_platform() {
    assert_eq!(parse("", Platform::Linux).len(), 0);
    assert_eq!(parse("", Platform::Windows).len(), 0);
    assert_eq!(parse("", Platform::MacOs).len(), 0);
}
