use hotspotd::nm::{
    active_connections, contains_id, active_connection_ids, list_connections,
    device_status, list_devices, primary_active_device, scan,
    NmConnection, NmDeviceInfo,
};
use hotspotd::resolve::{
    detect_wifi_iface, find_bound, find_connected, knows_device, resolve_default_iface,
    resolve_from_listings, state_is_connected, Findings, Probe, Resolution,
};

fn device(name: &str, kind: &str, state: &str) -> NmDeviceInfo {
    NmDeviceInfo {
        name: name.to_string(),
        device_type: kind.to_string(),
        state: state.to_string(),
        connection: None,
    }
}

fn connection(name: &str, kind: &str, dev: &str, active: bool) -> NmConnection {
    NmConnection {
        name: name.to_string(),
        uuid: format!("uuid-{name}"),
        conn_type: kind.to_string(),
        device: dev.to_string(),
        active,
    }
}

fn nothing_asked() -> Findings {
    Findings { primary: None, wifi_listing: None }
}

fn resolved(r: Resolution) -> Option<String> {
    match r {
        Resolution::Resolved(x) => x,
        Resolution::Ask(p) => panic!("asked for {p:?}"),
    }
}

fn asked(r: Resolution) -> Probe {
    match r {
        Resolution::Ask(p) => p,
        Resolution::Resolved(x) => panic!("resolved to {x:?}"),
    }
}

#[test]
fn device_listing_is_read_and_virtual_devices_are_left_out() {
    let out = list_devices(
        "eth0:ethernet:connected:Wired connection 1\nwlan0:wifi:disconnected:\nlo:loopback:unmanaged:\n\
docker0:bridge:connected:docker0\nbad:line\nveth12ab:ethernet:connected:x\nbr-9f:ethernet:connected:y\n\
tun0:tun:connected:vpn\np2p-dev-wlan0:wifi-p2p:disconnected\n",
    );
    let names: Vec<&str> = out.iter().map(|d| d.name.as_str()).collect();
    assert_eq!(names, vec!["eth0", "wlan0", "p2p-dev-wlan0"]);
    assert_eq!(out[0].device_type, "ethernet");
    assert_eq!(out[0].state, "connected");
    assert_eq!(out[0].connection.as_deref(), Some("Wired connection 1"));
    assert_eq!(out[1].connection, None);
    assert_eq!(out[2].connection, None);
    assert!(list_devices("").is_empty());
    assert!(list_devices("a:b\n\n::").len() == 1);
}

#[test]
fn device_listing_tolerates_carriage_returns() {
    let out = list_devices("eth0:ethernet:connected:Wired\r\nwlan0:wifi:unavailable:\r\n");
    assert_eq!(out.len(), 2);
    assert_eq!(out[0].connection.as_deref(), Some("Wired"));
    assert_eq!(out[1].state, "unavailable");
    assert_eq!(out[1].connection, None);
}

#[test]
fn virtual_devices_are_recognised() {
    for (name, kind) in [
        ("br0", "bridge"),
        ("dummy0", "dummy"),
        ("x", "loopback"),
        ("x", "tun"),
        ("x", "veth"),
        ("docker0", "ethernet"),
        ("br-1a2b", "ethernet"),
        ("veth0", "ethernet"),
        ("lo", "ethernet"),
    ] {
        assert!(device(name, kind, "connected").is_virtual(), "{name} {kind}");
    }
    for (name, kind) in [("eth0", "ethernet"), ("wlan0", "wifi"), ("lo0", "ethernet"), ("br", "wifi"), ("Docker", "wifi")] {
        assert!(!device(name, kind, "connected").is_virtual(), "{name} {kind}");
    }
}

#[test]
fn connected_ethernet_is_chosen_over_disconnected_wifi() {
    let devices = vec![device("wlan0", "wifi", "disconnected"), device("eth0", "ethernet", "connected")];
    let r = resolve_default_iface(&devices, &vec![], None, &nothing_asked());
    assert_eq!(resolved(r), Some("eth0".to_string()));
}

#[test]
fn connected_ethernet_is_chosen_over_connected_wifi() {
    let devices = vec![device("wlan0", "wifi", "connected"), device("eth0", "ethernet", "connected")];
    assert_eq!(resolve_from_listings(&devices, &vec![]), Some("eth0".to_string()));
    let devices = vec![device("wlan0", "wifi", "connected"), device("eth0", "ethernet", "unavailable")];
    assert_eq!(resolve_from_listings(&devices, &vec![]), Some("wlan0".to_string()));
}

#[test]
fn active_wifi_connection_decides_when_no_device_is_connected() {
    let devices = vec![device("wlan0", "wifi", "disconnected"), device("eth0", "ethernet", "unavailable")];
    let connections = vec![connection("Home", "802-11-wireless", "wlan0", true)];
    let r = resolve_default_iface(&devices, &connections, None, &nothing_asked());
    assert_eq!(resolved(r), Some("wlan0".to_string()));
}

#[test]
fn active_ethernet_connection_comes_before_active_wifi_connection() {
    let connections = vec![
        connection("Home", "802-11-wireless", "wlan0", true),
        connection("Idle", "802-3-ethernet", "eth9", false),
        connection("NoDev", "802-3-ethernet", "", true),
        connection("Wired", "802-3-ethernet", "eth1", true),
    ];
    assert_eq!(resolve_from_listings(&vec![], &connections), Some("eth1".to_string()));
    assert_eq!(find_bound(&connections, "802-11-wireless"), Some("wlan0".to_string()));
    assert_eq!(find_bound(&connections, "vpn"), None);
}

#[test]
fn state_counts_as_connected_by_its_beginning_in_any_case() {
    assert!(state_is_connected("connected"));
    assert!(state_is_connected("Connected (externally)"));
    assert!(state_is_connected("CONNECTED"));
    assert!(!state_is_connected("connecting (configuring)"));
    assert!(!state_is_connected("disconnected"));
    assert!(!state_is_connected(" connected"));
    assert!(!state_is_connected(""));
    let devices = vec![device("eth0", "ethernet", "Connected (externally)")];
    assert_eq!(find_connected(&devices, "ethernet"), Some("eth0".to_string()));
    assert_eq!(find_connected(&devices, "wifi"), None);
}

#[test]
fn queries_are_asked_for_in_order_and_only_when_needed() {
    let devices = vec![device("wlan0", "wifi", "disconnected")];
    let configured = "wlan0".to_string();
    let mut found = nothing_asked();
    assert_eq!(asked(resolve_default_iface(&devices, &vec![], Some(&configured), &found)), Probe::PrimaryDevice);
    found.primary = Some(None);
    assert_eq!(asked(resolve_default_iface(&devices, &vec![], Some(&configured), &found)), Probe::WifiListing);
    found.wifi_listing = Some(Some(vec![device("eth5", "ethernet", "x"), device("wlan7", "wifi", "unavailable")]));
    assert_eq!(
        resolved(resolve_default_iface(&devices, &vec![], Some(&configured), &found)),
        Some("wlan7".to_string())
    );
    found.primary = Some(Some("enp3s0".to_string()));
    found.wifi_listing = None;
    assert_eq!(
        resolved(resolve_default_iface(&devices, &vec![], Some(&configured), &found)),
        Some("enp3s0".to_string())
    );
}

#[test]
fn configured_interface_counts_only_while_it_is_known() {
    let devices = vec![device("wlan0", "wifi", "unavailable")];
    let found = Findings { primary: Some(None), wifi_listing: Some(None) };
    let known = "wlan0".to_string();
    let stale = "wlan9".to_string();
    assert_eq!(resolved(resolve_default_iface(&devices, &vec![], Some(&known), &found)), Some(known.clone()));
    assert_eq!(resolved(resolve_default_iface(&devices, &vec![], Some(&stale), &found)), None);
    assert_eq!(resolved(resolve_default_iface(&devices, &vec![], None, &found)), None);
    let found = Findings { primary: Some(None), wifi_listing: Some(Some(vec![])) };
    assert_eq!(resolved(resolve_default_iface(&devices, &vec![], Some(&known), &found)), Some(known.clone()));
    assert!(knows_device(&devices, "wlan0"));
    assert!(!knows_device(&devices, "wlan"));
}

#[test]
fn virtual_devices_are_never_chosen() {
    let devices = vec![
        device("docker0", "ethernet", "connected"),
        device("veth1", "wifi", "connected"),
        device("lo", "wifi", "connected"),
    ];
    assert_eq!(resolve_from_listings(&devices, &vec![]), None);
    assert_eq!(detect_wifi_iface(&devices), None);
    assert!(!knows_device(&devices, "docker0"));
    let found = Findings { primary: Some(None), wifi_listing: Some(Some(devices.clone())) };
    let configured = "docker0".to_string();
    assert_eq!(resolved(resolve_default_iface(&devices, &vec![], Some(&configured), &found)), None);
}

#[test]
fn first_wifi_device_is_detected_whatever_its_state() {
    let devices = vec![
        device("eth0", "ethernet", "connected"),
        device("wlan1", "wifi", "unavailable"),
        device("wlan0", "wifi", "connected"),
    ];
    assert_eq!(detect_wifi_iface(&devices), Some("wlan1".to_string()));
    assert_eq!(detect_wifi_iface(&vec![]), None);
}

#[test]
fn connection_listing_marks_active_connections() {
    let active = active_connection_ids("  u-2 \n\n u-9\n");
    assert_eq!(active, vec!["u-2".to_string(), "u-9".to_string()]);
    assert!(contains_id(&active, "u-2"));
    assert!(!contains_id(&active, "u-"));
    let out = list_connections(
        "Home:u-1:802-11-wireless:\nWired:u-2:802-3-ethernet:eth0\nbroken:u-3:x\nA:b:c:d:e\n",
        &active,
    );
    assert_eq!(out.len(), 3);
    assert_eq!((out[0].name.as_str(), out[0].uuid.as_str(), out[0].device.as_str(), out[0].active), ("Home", "u-1", "", false));
    assert_eq!((out[1].conn_type.as_str(), out[1].device.as_str(), out[1].active), ("802-3-ethernet", "eth0", true));
    assert_eq!((out[2].name.as_str(), out[2].uuid.as_str(), out[2].conn_type.as_str(), out[2].device.as_str()), ("A", "b", "c", "d"));
    let only = active_connections(out);
    assert_eq!(only.len(), 1);
    assert_eq!(only[0].name, "Wired");
}

#[test]
fn primary_device_is_the_first_line_that_names_one() {
    assert_eq!(primary_active_device("--\n\n  eth0 \nwlan0\n"), Some("eth0".to_string()));
    assert_eq!(primary_active_device("wlan0"), Some("wlan0".to_string()));
    assert_eq!(primary_active_device(" -- \n\n"), None);
    assert_eq!(primary_active_device(""), None);
    assert_eq!(primary_active_device("---\n"), Some("---".to_string()));
}

#[test]
fn scan_result_is_read_with_signal_as_a_small_number() {
    let out = scan("yes:Home:WPA2:78\nno:Cafe::abc\nno:Far:WPA1 WPA2:300\nshort:line:x\nYes:Plus:--:+5\nno::WEP:007:extra\n");
    assert_eq!(out.len(), 5);
    assert_eq!((out[0].active, out[0].ssid.as_str(), out[0].security.as_str(), out[0].strength), (true, "Home", "WPA2", 78));
    assert_eq!((out[1].active, out[1].ssid.as_str(), out[1].security.as_str(), out[1].strength), (false, "Cafe", "", 0));
    assert_eq!(out[2].strength, 0);
    assert_eq!((out[3].active, out[3].strength), (false, 5));
    assert_eq!((out[4].ssid.as_str(), out[4].strength), ("", 7));
    for (text, n) in [("0", 0u8), ("255", 255), ("256", 0), ("0255", 255), ("+", 0), ("", 0), ("-1", 0), ("1 ", 0), ("99999999999999999999", 0), ("00000000000000000000001", 1)] {
        let out = scan(&format!("no:s:sec:{text}"));
        assert_eq!(out[0].strength, n, "{text}");
    }
}

#[test]
fn device_report_is_read_key_by_key() {
    let s = device_status(
        "wlan0",
        "GENERAL.STATE:100 (connected)\nGENERAL.CONNECTION: Home \nIP4.ADDRESS[1]:192.168.1.20/24\nIP4.ADDRESS[2]:10.0.0.2/8\n\
IP6.ADDRESS[1]:fe80::1/64\nIP4.GATEWAY:192.168.1.1\nGENERAL.DEVICE\n",
    );
    assert_eq!(s.name, "wlan0");
    assert_eq!(s.state.as_deref(), Some("100 (connected)"));
    assert_eq!(s.connection.as_deref(), Some("Home"));
    assert_eq!(s.ipv4.as_deref(), Some("192.168.1.20/24"));
    assert_eq!(s.ipv6.as_deref(), Some("fe80::1/64"));
    let s = device_status("eth0", "GENERAL.STATE:\nGENERAL.CONNECTION:--\nIP4.ADDRESS:1.2.3.4/32\nIP4.ADDRESS: \n");
    assert_eq!(s.state, None);
    assert_eq!(s.connection.as_deref(), Some("--"));
    assert_eq!(s.ipv4.as_deref(), Some("1.2.3.4/32"));
    assert_eq!(s.ipv6, None);
}
