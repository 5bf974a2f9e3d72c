use wifi_rs::model::AvailableWifi;
use wifi_rs::netsh::{format_block, parse_netsh_scan, signal_of};
use wifi_rs::nmcli::{format_row, parse_nmcli_scan};

fn net(ssid: &str, mac: &str, channel: &str, signal: &str, security: &str, in_use: bool) -> AvailableWifi {
    AvailableWifi {
        ssid: ssid.to_string(),
        mac: mac.to_string(),
        channel: channel.to_string(),
        signal_level: signal.to_string(),
        security: security.to_string(),
        in_use,
    }
}

const HEADER: &str = "IN-USE  BSSID              SSID     CHAN  SIGNAL  SECURITY\n";

#[test]
fn nmcli_plain_row() {
    let text = format!("{}AA:BB:CC:DD:EE:FF HomeNet 6 80 WPA2\n", HEADER);
    let r = parse_nmcli_scan(&text);
    assert_eq!(r, vec![net("HomeNet", "AA:BB:CC:DD:EE:FF", "6", "80", "WPA2", false)]);
}

#[test]
fn nmcli_in_use_row() {
    let text = format!("{}* AA:BB:CC:DD:EE:FF HomeNet 6 80 WPA2\n", HEADER);
    let r = parse_nmcli_scan(&text);
    assert_eq!(r, vec![net("HomeNet", "AA:BB:CC:DD:EE:FF", "6", "80", "WPA2", true)]);
}

#[test]
fn nmcli_alternate_security_wins() {
    let text = format!("{}        11:22:33:44:55:66  Cafe  11  42  WPA1 WPA2\n", HEADER);
    let r = parse_nmcli_scan(&text);
    assert_eq!(r, vec![net("Cafe", "11:22:33:44:55:66", "11", "42", "WPA2", false)]);
}

#[test]
fn nmcli_one_record_per_full_row() {
    let text = format!(
        "{}*  A1 One 1 90 WPA2\n   B2 Two 6 70 WPA2\n   C3 Three 11 50 WPA1 WPA2\n   D4 Four 36 30 --",
        HEADER
    );
    let r = parse_nmcli_scan(&text);
    assert_eq!(r.len(), 4);
    assert!(r[0].in_use);
    assert!(!r[1].in_use && !r[2].in_use && !r[3].in_use);
    assert_eq!(r[3], net("Four", "D4", "36", "30", "--", false));
}

#[test]
fn nmcli_repeated_header_and_short_rows_skipped() {
    let text = format!(
        "{}IN-USE BSSID SSID CHAN SIGNAL SECURITY\n\n   B2 Two 6\n*  A1 One 1 90 WPA2\n*\n",
        HEADER
    );
    let r = parse_nmcli_scan(&text);
    assert_eq!(r, vec![net("One", "A1", "1", "90", "WPA2", true)]);
}

#[test]
fn nmcli_header_only_and_empty() {
    assert!(parse_nmcli_scan("").is_empty());
    assert!(parse_nmcli_scan(HEADER).is_empty());
    // the first line is always the header, even when it looks like data
    assert!(parse_nmcli_scan("AA HomeNet 6 80 WPA2\n").is_empty());
}

#[test]
fn nmcli_crlf_lines() {
    let text = "HEADER\r\nAA HomeNet 6 80 WPA2\r\n";
    assert_eq!(parse_nmcli_scan(text), vec![net("HomeNet", "AA", "6", "80", "WPA2", false)]);
}

#[test]
fn netsh_single_block() {
    let text = "SSID 1 : Office\nAuthentication : WPA2-Personal\nBSSID 1 : 11:22:33:44:55:66\nSignal : 72%\nChannel : 10\n\n";
    let r = parse_netsh_scan(text);
    assert_eq!(r, vec![net("Office", "11:22:33:44:55:66", "10", "72", "WPA2-Personal", false)]);
}

#[test]
fn netsh_full_output_with_crlf() {
    let text = "\r\nInterface name : Wi-Fi\r\nThere are 2 networks currently visible.\r\n\r\n\
SSID 1 : Office\r\n    Network type            : Infrastructure\r\n    Authentication          : WPA2-Personal\r\n\
    Encryption              : CCMP\r\n    BSSID 1                 : 11:22:33:44:55:66\r\n         Signal             : 72%\r\n\
         Radio type         : 802.11ac\r\n         Channel            : 10\r\n\r\n\
SSID 2 : Home\r\n    Authentication          : Open\r\n    BSSID 1                 : aa:bb:cc:dd:ee:ff\r\n\
         Signal             : 40%\r\n         Channel            : 1\r\n\r\n";
    let r = parse_netsh_scan(text);
    assert_eq!(
        r,
        vec![
            net("Office", "11:22:33:44:55:66", "10", "72", "WPA2-Personal", false),
            net("Home", "aa:bb:cc:dd:ee:ff", "1", "40", "Open", false),
        ]
    );
}

#[test]
fn netsh_keeps_strongest_access_point() {
    let text = "SSID 1 : Mesh\nAuthentication : WPA3\n\
BSSID 1 : 01\nSignal : 50%\nChannel : 1\n\
BSSID 2 : 02\nSignal : 81%\nChannel : 6\n\
BSSID 3 : 03\nSignal : 81%\nChannel : 11\n\
BSSID 4 : 04\nSignal : 20%\nChannel : 36\n";
    let r = parse_netsh_scan(text);
    assert_eq!(r, vec![net("Mesh", "02", "6", "81", "WPA3", false)]);
}

#[test]
fn netsh_zero_signal_still_recorded() {
    let text = "SSID 1 : Far\nBSSID 1 : 09\nSignal : 0%\nChannel : 4\n";
    assert_eq!(parse_netsh_scan(text), vec![net("Far", "09", "4", "0", "", false)]);
}

#[test]
fn netsh_block_without_bssid_dropped() {
    let text = "SSID 1 : Hidden\nAuthentication : Open\nSignal : 30%\nChannel : 3\n\nSSID 2 : Seen\nBSSID 1 : 07\nSignal : 10%\nChannel : 2\n\n";
    let r = parse_netsh_scan(text);
    assert_eq!(r, vec![net("Seen", "07", "2", "10", "", false)]);
}

#[test]
fn netsh_bssid_does_not_leak_into_next_block() {
    let text = "SSID 1 : A\nBSSID 1 : 01\n\nSSID 2 : B\nSignal : 30%\nChannel : 3\n";
    assert!(parse_netsh_scan(text).is_empty());
}

#[test]
fn netsh_empty_output() {
    assert!(parse_netsh_scan("").is_empty());
    assert!(parse_netsh_scan("\n\n\n").is_empty());
}

#[test]
fn signal_values() {
    let v = |s: &str| signal_of(&s.chars().collect());
    assert_eq!(v("72"), 72);
    assert_eq!(v("0"), 0);
    assert_eq!(v("-5"), -5);
    assert_eq!(v("+7"), 7);
    assert_eq!(v("127"), 127);
    assert_eq!(v("300"), 127);
    assert_eq!(v("99999999999999999999999"), 127);
    assert_eq!(v("-128"), -128);
    assert_eq!(v("-300"), -128);
    assert_eq!(v(""), 0);
    assert_eq!(v("-"), 0);
    assert_eq!(v("7a"), 0);
    assert_eq!(v("72%"), 0);
}

#[test]
fn nmcli_row_round_trip() {
    for w in [
        net("HomeNet", "AA:BB:CC:DD:EE:FF", "6", "80", "WPA2", false),
        net("Cafe", "11:22:33:44:55:66", "11", "42", "WPA1", true),
    ] {
        let line = format_row(&w);
        let text = format!("{}{}\n", HEADER, line);
        assert_eq!(parse_nmcli_scan(&text), vec![w.clone()]);
    }
    assert_eq!(
        format_row(&net("Cafe", "11", "1", "42", "WPA1", true)),
        "* 11 Cafe 1 42 WPA1"
    );
}

#[test]
fn netsh_block_round_trip() {
    let w = net("Office", "11:22:33:44:55:66", "10", "72", "WPA2-Personal", false);
    let lines = format_block(&w);
    assert_eq!(
        lines,
        vec![
            "SSID 1 : Office",
            "Authentication : WPA2-Personal",
            "BSSID 1 : 11:22:33:44:55:66",
            "Signal : 72%",
            "Channel : 10",
        ]
    );
    let text = lines.join("\n");
    assert_eq!(parse_netsh_scan(&text), vec![w]);
}
