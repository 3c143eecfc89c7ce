use hotspotd::connection::{
    activate_connection, add_connection, connect, connect_wifi, delete_all_wifi_connections,
    delete_connection, disconnect, join_strings, connection_details,
    resolve_connection_uuid, update_ipv4_settings, AddConnectionError, Ipv4Error,
};
use hotspotd::nm::NmConnection;

fn stored(name: &str, uuid: &str, kind: &str) -> NmConnection {
    NmConnection {
        name: name.to_string(),
        uuid: uuid.to_string(),
        conn_type: kind.to_string(),
        device: String::new(),
        active: false,
    }
}

fn strings(v: &[&str]) -> Vec<String> {
    v.iter().map(|s| s.to_string()).collect()
}

#[test]
fn wireless_connection_details() {
    let d = connection_details(
        "asked-uuid",
        "connection.id:Home\nconnection.uuid:1234\nconnection.type:802-11-wireless\nconnection.interface-name:wlan0\n\
connection.autoconnect:Yes\nipv4.method:manual\nipv4.addresses:192.168.1.5/24\nipv4.gateway:192.168.1.1\n\
ipv4.dns:1.1.1.1\nipv4.dns:\nipv4.dns:9.9.9.9\n802-11-wireless.ssid:Home Net\n802-11-wireless-security.key-mgmt:wpa-psk\nunknown.key:x\n",
    );
    assert_eq!(d.name, "Home");
    assert_eq!(d.uuid, "1234");
    assert_eq!(d.conn_type, "802-11-wireless");
    assert_eq!(d.device, "wlan0");
    assert!(d.autoconnect);
    assert_eq!(d.ipv4.method, "manual");
    assert_eq!(d.ipv4.addresses, strings(&["192.168.1.5/24"]));
    assert_eq!(d.ipv4.gateway.as_deref(), Some("192.168.1.1"));
    assert_eq!(d.ipv4.dns, strings(&["1.1.1.1", "9.9.9.9"]));
    let w = d.wifi.unwrap();
    assert_eq!(w.ssid.as_deref(), Some("Home Net"));
    assert_eq!(w.security.as_deref(), Some("wpa-psk"));
}

#[test]
fn wired_connection_details_have_no_wireless_part() {
    let d = connection_details(
        "u-7",
        "connection.id:Wired\nconnection.type:802-3-ethernet\nconnection.autoconnect:no\nipv4.method:auto\nipv4.gateway:\n802-11-wireless.ssid:x\n",
    );
    assert_eq!(d.uuid, "u-7");
    assert_eq!(d.name, "Wired");
    assert_eq!(d.device, "");
    assert!(!d.autoconnect);
    assert_eq!(d.ipv4.gateway, None);
    assert!(d.ipv4.addresses.is_empty());
    assert!(d.wifi.is_none());
}

#[test]
fn later_lines_of_a_report_count() {
    let d = connection_details(
        "u",
        "connection.type:802-11-wireless\n802-11-wireless.ssid:first\n802-11-wireless-security.key-mgmt:sae\n802-11-wireless.ssid:\n\
802-11-wireless-security.key-mgmt:\nipv4.gateway:1.1.1.1\nipv4.gateway:\nconnection.id: a : b \nconnection.autoconnect\n",
    );
    let w = d.wifi.unwrap();
    assert_eq!(w.ssid, None);
    assert_eq!(w.security.as_deref(), Some("sae"));
    assert_eq!(d.ipv4.gateway.as_deref(), Some("1.1.1.1"));
    assert_eq!(d.name, "a : b");
    assert!(!d.autoconnect);
    let d = connection_details("u", "");
    assert_eq!((d.uuid.as_str(), d.name.as_str(), d.wifi.is_none()), ("u", "", true));
}

#[test]
fn manual_ipv4_settings() {
    let dns = strings(&["1.1.1.1", "9.9.9.9"]);
    assert_eq!(
        update_ipv4_settings("u-1", "manual", Some("10.0.0.5/24"), Some("10.0.0.1"), &dns),
        Ok(strings(&[
            "connection", "modify", "u-1", "ipv4.method", "manual", "ipv4.addresses", "10.0.0.5/24",
            "ipv4.gateway", "10.0.0.1", "ipv4.dns", "1.1.1.1,9.9.9.9", "ipv4.may-fail", "no",
        ]))
    );
    assert_eq!(
        update_ipv4_settings("u-1", "manual", Some("10.0.0.5/24"), None, &vec![]),
        Ok(strings(&[
            "connection", "modify", "u-1", "ipv4.method", "manual", "ipv4.addresses", "10.0.0.5/24",
            "ipv4.gateway", "", "ipv4.dns", "", "ipv4.may-fail", "no",
        ]))
    );
}

#[test]
fn automatic_ipv4_settings_clear_everything() {
    let dns = strings(&["1.1.1.1"]);
    assert_eq!(
        update_ipv4_settings("u-1", "auto", Some("10.0.0.5/24"), Some("10.0.0.1"), &dns),
        Ok(strings(&[
            "connection", "modify", "u-1", "ipv4.method", "auto", "ipv4.addresses", "", "ipv4.gateway",
            "", "ipv4.dns", "", "ipv4.may-fail", "yes",
        ]))
    );
}

#[test]
fn ipv4_settings_errors() {
    assert_eq!(update_ipv4_settings("u", "manual", None, Some("g"), &vec![]), Err(Ipv4Error::ManualNeedsAddress));
    assert_eq!(update_ipv4_settings("u", "shared", Some("a"), None, &vec![]), Err(Ipv4Error::UnsupportedMethod));
    assert_eq!(update_ipv4_settings("u", "Auto", None, None, &vec![]), Err(Ipv4Error::UnsupportedMethod));
    assert_eq!(Ipv4Error::ManualNeedsAddress.message("manual"), "manual method requires ipv4 address");
    assert_eq!(Ipv4Error::UnsupportedMethod.message("shared"), "unsupported ipv4 method shared");
}

#[test]
fn strings_are_joined_with_the_separator_between_them() {
    assert_eq!(join_strings(&vec![], ','), "");
    assert_eq!(join_strings(&strings(&["a"]), ','), "a");
    assert_eq!(join_strings(&strings(&["a", "", "c"]), ','), "a,,c");
    assert_eq!(join_strings(&strings(&["", ""]), ';'), ";");
}

#[test]
fn wireless_connection_is_added_in_four_steps() {
    let plan = add_connection("Home", "wlan0", "802-11-wireless", Some("Home Net"), Some("secret123"), true, false).unwrap();
    assert_eq!(
        plan,
        vec![
            strings(&["connection", "add", "type", "802-11-wireless", "ifname", "wlan0", "con-name", "Home", "ssid", "Home Net"]),
            strings(&["connection", "modify", "Home", "wifi.hidden", "no"]),
            strings(&["connection", "modify", "Home", "wifi-sec.key-mgmt", "wpa-psk", "wifi-sec.psk", "secret123"]),
            strings(&["connection", "modify", "Home", "autoconnect", "yes"]),
        ]
    );
    for password in [None, Some("")] {
        let plan = add_connection("Cafe", "wlan0", "802-11-wireless", Some("Cafe"), password, false, true).unwrap();
        assert_eq!(plan[1], strings(&["connection", "modify", "Cafe", "wifi.hidden", "yes"]));
        assert_eq!(plan[2], strings(&["connection", "modify", "Cafe", "wifi-sec.key-mgmt", "none"]));
        assert_eq!(plan[3], strings(&["connection", "modify", "Cafe", "autoconnect", "no"]));
        assert_eq!(plan.len(), 4);
    }
}

#[test]
fn wired_connection_is_added_in_two_steps() {
    let plan = add_connection("Wired", "eth0", "802-3-ethernet", Some("ignored"), Some("ignored"), true, true).unwrap();
    assert_eq!(
        plan,
        vec![
            strings(&["connection", "add", "type", "802-3-ethernet", "ifname", "eth0", "con-name", "Wired"]),
            strings(&["connection", "modify", "Wired", "autoconnect", "yes"]),
        ]
    );
}

#[test]
fn wireless_connection_needs_a_network_name() {
    assert_eq!(
        add_connection("Home", "wlan0", "802-11-wireless", None, Some("secret123"), true, false),
        Err(AddConnectionError::SsidRequired)
    );
    assert_eq!(AddConnectionError::SsidRequired.message(), "ssid is required for wifi connections");
}

#[test]
fn joining_a_network_with_and_without_password() {
    assert_eq!(
        connect("wlan0", "Home", Some("secret123")),
        strings(&["device", "wifi", "connect", "Home", "ifname", "wlan0", "password", "secret123"])
    );
    let bare = strings(&["device", "wifi", "connect", "Home", "ifname", "wlan0"]);
    assert_eq!(connect("wlan0", "Home", None), bare);
    assert_eq!(connect("wlan0", "Home", Some("")), bare);
    assert_eq!(connect_wifi("wlan0", "Home", None, true), vec![bare.clone()]);
    assert_eq!(
        connect_wifi("wlan0", "Home", Some("pw"), false),
        vec![
            strings(&["device", "wifi", "connect", "Home", "ifname", "wlan0", "password", "pw"]),
            strings(&["connection", "modify", "Home", "autoconnect", "no"]),
        ]
    );
    assert_eq!(disconnect("wlan0"), strings(&["device", "disconnect", "wlan0"]));
    assert_eq!(activate_connection("u-1"), strings(&["connection", "up", "u-1"]));
}

#[test]
fn connection_is_deleted_by_identifier_or_by_name() {
    let all = vec![stored("Home", "u-1", "802-11-wireless"), stored("u-1", "u-2", "802-3-ethernet"), stored("Cafe", "Home", "802-11-wireless")];
    assert_eq!(delete_connection(&all, "u-2"), strings(&["connection", "delete", "uuid", "u-2"]));
    assert_eq!(delete_connection(&all, "Cafe"), strings(&["connection", "delete", "Cafe"]));
    // the first connection that goes by the id decides
    assert_eq!(delete_connection(&all, "Home"), strings(&["connection", "delete", "Home"]));
    assert_eq!(delete_connection(&all, "u-1"), strings(&["connection", "delete", "uuid", "u-1"]));
    assert_eq!(delete_connection(&all, "gone"), strings(&["connection", "delete", "gone"]));
    assert_eq!(delete_connection(&vec![], "x"), strings(&["connection", "delete", "x"]));
}

#[test]
fn identifier_is_resolved_from_identifier_or_name() {
    let all = vec![stored("Home", "u-1", "802-11-wireless"), stored("u-1", "u-2", "802-3-ethernet")];
    assert_eq!(resolve_connection_uuid(&all, "Home"), Some("u-1".to_string()));
    assert_eq!(resolve_connection_uuid(&all, "u-1"), Some("u-1".to_string()));
    assert_eq!(resolve_connection_uuid(&all, "u-2"), Some("u-2".to_string()));
    assert_eq!(resolve_connection_uuid(&all, "home"), None);
}

#[test]
fn every_wireless_connection_is_listed_for_deletion() {
    let all = vec![stored("Home", "u-1", "802-11-wireless"), stored("Wired", "u-2", "802-3-ethernet"), stored("Cafe", "u-3", "802-11-wireless")];
    assert_eq!(delete_all_wifi_connections(&all), strings(&["u-1", "u-3"]));
    assert!(delete_all_wifi_connections(&vec![]).is_empty());
}
