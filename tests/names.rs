use macnetmon::label::{full_label_fits, label_fits};
use macnetmon::net::{friendly_name, parse_hardware_ports, trim_chars};

fn lines(text: &str) -> Vec<String> {
    text.lines().map(str::to_string).collect()
}

#[test]
fn friendly_name_appends_device() {
    assert_eq!(friendly_name("Wi-Fi", "en0"), "Wi-Fi (en0)");
    assert_eq!(friendly_name("en0", "en0"), "en0");
    assert_eq!(friendly_name("Thunderbolt Bridge (en0)", "en0"), "Thunderbolt Bridge (en0)");
    assert_eq!(friendly_name("Port (en01)", "en0"), "Port (en01) (en0)");
    assert_eq!(friendly_name("", "en0"), " (en0)");
}

#[test]
fn trimming_removes_unicode_white_space() {
    assert_eq!(trim_chars("  a b \t\r"), "a b");
    assert_eq!(trim_chars("\u{3000}x\u{a0}"), "x");
    assert_eq!(trim_chars("   "), "");
    assert_eq!(trim_chars(""), "");
}

#[test]
fn hardware_ports_pair_devices_with_ports() {
    let text = "\nHardware Port: Wi-Fi\nDevice: en0\nEthernet Address: aa:bb\n\nHardware Port: Thunderbolt Bridge\nDevice: bridge0\nEthernet Address: N/A\n\nVLAN Configurations\n===================\n";
    let pairs = parse_hardware_ports(&lines(text));
    assert_eq!(
        pairs,
        vec![
            ("en0".to_string(), "Wi-Fi".to_string()),
            ("bridge0".to_string(), "Thunderbolt Bridge".to_string()),
        ]
    );
}

#[test]
fn hardware_ports_skip_empty_device_and_unpaired_lines() {
    let text = "Device: en5\nHardware Port: USB\nDevice:   \nDevice: en7\nDevice: en8\n";
    let pairs = parse_hardware_ports(&lines(text));
    assert_eq!(pairs, vec![("en7".to_string(), "USB".to_string())]);
}

#[test]
fn hardware_ports_later_entry_replaces_earlier() {
    let text = "  Hardware Port: A \r\n Device: en0\nHardware Port: B\nDevice: en0\n";
    let pairs = parse_hardware_ports(&lines(text));
    assert_eq!(pairs, vec![("en0".to_string(), "B".to_string())]);
}

#[test]
fn label_fit_counts_columns_not_characters() {
    // 30-cell tile: 28 columns inside, right part 5 + 3, so 20 left for 2 + left.
    assert!(label_fits(18, 5, 30));
    assert!(!label_fits(19, 5, 30));
    assert!(!label_fits(0, 0, 4));
    assert!(full_label_fits("abcdefghij", "12345", 30));
    // Ten wide characters take twenty columns.
    assert!(!full_label_fits("漢字漢字漢字漢字漢字", "12345", 30));
    assert!(full_label_fits("漢字漢字漢字漢字漢字", "12345", 32));
}
