use rospub::status::{
    build_status_report, center_ip_address, classify_network, contains_str, extract_ssid,
    first_word_str, network_mode, split_ip_line, status_json, trim_str, wifi_device_name,
};

#[test]
fn centering_pads_both_sides_equally() {
    assert_eq!(center_ip_address("ubuntu", 15), "    ubuntu    ");
    assert_eq!(center_ip_address("1.2.3.4", 15), "    1.2.3.4    ");
    assert_eq!(center_ip_address("192.168.100.200", 15), "192.168.100.200");
    assert_eq!(center_ip_address("too-wide-for-it", 4), "too-wide-for-it");
    assert_eq!(center_ip_address("", 2), "  ");
}

#[test]
fn trimming_and_words() {
    assert_eq!(trim_str("  MyNet \t\n"), "MyNet");
    assert_eq!(trim_str(""), "");
    assert_eq!(trim_str(" \t "), "");
    assert_eq!(first_word_str("  Hotspot  abc"), "Hotspot");
    assert_eq!(first_word_str("   "), "");
}

#[test]
fn network_modes_match_their_classes() {
    assert_eq!(network_mode("hotspot"), 2);
    assert_eq!(network_mode("wifi"), 1);
    assert_eq!(network_mode("no_connection"), 0);
    assert_eq!(network_mode("something-else"), 4);
}

#[test]
fn address_reports_split_at_the_first_space() {
    let (external, internal) = split_ip_line("10.0.0.5 192.168.0.7");
    assert_eq!(external, "10.0.0.5");
    assert_eq!(internal, "192.168.0.7");
    let (external, internal) = split_ip_line("no-space-here");
    assert_eq!(external, "");
    assert_eq!(internal, "");
}

#[test]
fn connection_tables_classify_as_documented() {
    // Header line only: nothing is connected.
    assert_eq!(classify_network("NAME  UUID  TYPE  DEVICE\n"), "no_connection");
    // Header plus one entry whose first word is the hotspot's.
    assert_eq!(
        classify_network("NAME  UUID  TYPE  DEVICE\nHotspot  ab12  wifi  wlan0\n"),
        "hotspot"
    );
    // Header plus one ordinary entry.
    assert_eq!(
        classify_network("NAME  UUID  TYPE  DEVICE\nHomeNet  cd34  wifi  wlan0\n"),
        "wifi"
    );
    // A non-blank third line always means an ordinary network.
    assert_eq!(
        classify_network("NAME  UUID  TYPE  DEVICE\nHotspot  ab12  wifi  wlan0\nHomeNet  cd34  wifi  wlan1\n"),
        "wifi"
    );
    assert_eq!(classify_network(""), "no_connection");
}

#[test]
fn ssid_extraction_reads_the_scan_report() {
    let report = "phy#0\n\tInterface wlan0\n\t\tssid HomeNet  \n\t\ttype managed\n";
    assert_eq!(extract_ssid(report), "HomeNet");
    assert_eq!(extract_ssid("no network name in here"), "FETCHING-IP");
}

#[test]
fn reports_carry_the_fields_their_mode_owes() {
    let r = build_status_report("wifi", "ssid HomeNet\n", "10.0.0.5 192.168.0.7");
    assert_eq!(r.mode, 1);
    assert_eq!(r.status, "wifi");
    assert_eq!(r.info, "    HomeNet    ");
    assert_eq!(r.ip, "   10.0.0.5   ");
    let r = build_status_report("no_connection", "", "");
    assert_eq!(r.mode, 0);
    assert_eq!(r.info, "Connecting....");
    assert_eq!(r.ip, "Waiting for IP");
    let r = build_status_report("hotspot", "", "10.0.0.5 192.168.0.7");
    assert_eq!(r.mode, 2);
    assert_eq!(r.info, "    ubuntu    ");
    assert_eq!(r.ip, "   10.0.0.5   ");
}

#[test]
fn status_documents_render_as_json() {
    let json = status_json("no_connection", "", "");
    assert_eq!(
        json,
        "{\"info\":\"Connecting....\",\"ip\":\"Waiting for IP\",\"mode\":0,\"status\":\"no_connection\"}"
    );
    let json = status_json("hotspot", "", "10.0.0.5 192.168.0.7");
    assert_eq!(
        json,
        "{\"info\":\"    ubuntu    \",\"ip\":\"   10.0.0.5   \",\"mode\":2,\"status\":\"hotspot\"}"
    );
}

#[test]
fn device_tables_yield_the_wireless_device() {
    let table = "DEVICE  TYPE      STATE\nlo      loopback  unmanaged\nwlan0   wifi      connected\n";
    assert_eq!(wifi_device_name(table), Some(String::from("wlan0")));
    let table = "DEVICE  TYPE      STATE\neth0    ethernet  connected\n";
    assert_eq!(wifi_device_name(table), None);
    assert_eq!(wifi_device_name(""), None);
}

#[test]
fn substring_search_is_exact() {
    assert!(contains_str("wlan0   wifi      connected", "wifi "));
    assert!(!contains_str("eth0 ethernet", "wifi "));
    assert!(contains_str("abc", ""));
    assert!(!contains_str("ab", "abc"));
}
