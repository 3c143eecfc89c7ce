use hotspotd::hotspot::{
    cleanup_after, cleanup_virtual_ifaces, clients_from, interface_shadows, list_clients,
    list_wifi_interfaces, transition_args, IwInterface, ServiceState, Transition,
};

fn iface(name: &str, phy: Option<&str>, addr: Option<&str>) -> IwInterface {
    IwInterface {
        name: name.to_string(),
        phy: phy.map(|s| s.to_string()),
        addr: addr.map(|s| s.to_string()),
    }
}

const IW_DEV: &str = "phy#1\n\tInterface wlan1\n\t\tifindex 5\n\t\twdev 0x100000001\n\t\taddr 00:11:22:33:44:55\n\t\ttype managed\n\
phy#0\n\tUnnamed/non-netdev interface\n\t\twdev 0x2\n\t\taddr aa:bb:cc:dd:ee:02\n\t\ttype P2P-device\n\
\tInterface wlan0-1\n\t\tifindex 7\n\t\taddr AA:BB:CC:DD:EE:01\n\t\ttype AP\n\
\tInterface wlan0\n\t\tifindex 3\n\t\taddr aa:bb:cc:dd:ee:00\n\t\ttype managed\n";

#[test]
fn candidate_on_the_same_radio_is_deleted_and_another_radio_is_left() {
    let interfaces = vec![
        iface("wlan0", Some("phy#0"), Some("aa:bb:cc:dd:ee:00")),
        iface("wlan0-1", Some("phy#0"), Some("aa:bb:cc:dd:ee:01")),
        iface("wlan1", Some("phy#1"), Some("00:11:22:33:44:55")),
    ];
    assert_eq!(cleanup_virtual_ifaces(&interfaces, "wlan0"), vec!["wlan0-1".to_string()]);
}

#[test]
fn candidate_with_the_same_address_is_deleted_whatever_the_case() {
    let interfaces = vec![
        iface("ap0", Some("phy#3"), Some("AA:BB:CC:DD:EE:00")),
        iface("wlan0", Some("phy#0"), Some("aa:bb:cc:dd:ee:00")),
        iface("mon0", Some("phy#0"), None),
        iface("far0", None, Some("aa:bb:cc:dd:ee:0f")),
    ];
    assert_eq!(
        cleanup_virtual_ifaces(&interfaces, "wlan0"),
        vec!["ap0".to_string(), "mon0".to_string()]
    );
}

#[test]
fn unknown_radio_or_address_matches_nothing() {
    let interfaces = vec![
        iface("wlan0", None, None),
        iface("a", None, None),
        iface("b", Some("phy#0"), Some("aa:bb:cc:dd:ee:00")),
    ];
    assert!(cleanup_virtual_ifaces(&interfaces, "wlan0").is_empty());
    assert!(!interface_shadows(&interfaces[0], &interfaces[1]));
    assert!(!interface_shadows(&interfaces[2], &interfaces[0]));
    assert!(!interface_shadows(&interfaces[2], &interfaces[2]));
}

#[test]
fn nothing_is_deleted_where_the_target_is_not_listed() {
    let interfaces = vec![
        iface("wlan0-1", Some("phy#0"), Some("aa:bb:cc:dd:ee:01")),
        iface("wlan1", Some("phy#0"), Some("aa:bb:cc:dd:ee:01")),
    ];
    assert!(cleanup_virtual_ifaces(&interfaces, "wlan0").is_empty());
    assert!(cleanup_virtual_ifaces(&vec![], "wlan0").is_empty());
}

#[test]
fn target_is_never_among_the_candidates() {
    let interfaces = vec![
        iface("wlan0", Some("phy#0"), Some("aa:bb:cc:dd:ee:00")),
        iface("wlan0", Some("phy#0"), Some("aa:bb:cc:dd:ee:00")),
        iface("x", Some("phy#0"), None),
    ];
    assert_eq!(cleanup_virtual_ifaces(&interfaces, "wlan0"), vec!["x".to_string()]);
}

#[test]
fn interface_listing_is_read_with_radio_and_address() {
    let out = list_wifi_interfaces(IW_DEV);
    assert_eq!(out.len(), 3);
    assert_eq!(out[0].name, "wlan1");
    assert_eq!(out[0].phy.as_deref(), Some("phy#1"));
    // an address line belongs to the last interface named before it, also
    // where an unnamed interface stands in between
    assert_eq!(out[0].addr.as_deref(), Some("aa:bb:cc:dd:ee:02"));
    assert_eq!(out[1].name, "wlan0-1");
    assert_eq!(out[1].phy.as_deref(), Some("phy#0"));
    assert_eq!(out[1].addr.as_deref(), Some("AA:BB:CC:DD:EE:01"));
    assert_eq!(out[2].name, "wlan0");
    assert_eq!(out[2].addr.as_deref(), Some("aa:bb:cc:dd:ee:00"));
    assert_eq!(cleanup_virtual_ifaces(&out, "wlan0"), vec!["wlan0-1".to_string()]);
    assert!(cleanup_virtual_ifaces(&out, "wlan1").is_empty());
}

#[test]
fn interface_listing_edge_cases() {
    assert!(list_wifi_interfaces("").is_empty());
    let out = list_wifi_interfaces("addr 00:00:00:00:00:01\nInterface a\nInterface b\naddr 1\naddr 2\nphy#9\nInterface c\nInterface\n");
    assert_eq!(out.len(), 3);
    assert_eq!((out[0].name.as_str(), out[0].phy.as_deref(), out[0].addr.as_deref()), ("a", None, None));
    assert_eq!((out[1].name.as_str(), out[1].phy.as_deref(), out[1].addr.as_deref()), ("b", None, Some("2")));
    assert_eq!((out[2].name.as_str(), out[2].phy.as_deref(), out[2].addr.as_deref()), ("c", Some("phy#9"), None));
}

#[test]
fn client_listing_is_read_word_by_word() {
    let out = list_clients("MAC                IP              Hostname\n\n50:2b:73:aa:bb:cc  192.168.12.17   laptop\n  de:ad:be:ef:00:01\t*  *\n02:00:00:00:00:01 192.168.12.9\n");
    assert_eq!(out.len(), 3);
    assert_eq!((out[0].mac.as_str(), out[0].ip.as_deref(), out[0].hostname.as_deref()), ("50:2b:73:aa:bb:cc", Some("192.168.12.17"), Some("laptop")));
    assert_eq!((out[1].mac.as_str(), out[1].ip.as_deref(), out[1].hostname.as_deref()), ("de:ad:be:ef:00:01", None, None));
    assert_eq!((out[2].mac.as_str(), out[2].ip.as_deref(), out[2].hostname.as_deref()), ("02:00:00:00:00:01", Some("192.168.12.9"), None));
}

#[test]
fn client_listing_that_says_no_clients_is_empty_in_any_case() {
    assert!(list_clients("No clients connected\n").is_empty());
    assert!(list_clients("NO CLIENTS\naa:bb:cc:dd:ee:ff 1.2.3.4 host\n").is_empty());
    assert!(list_clients("aa:bb:cc:dd:ee:ff 1.2.3.4 host\nthere are no clients").is_empty());
    assert_eq!(list_clients("noclients 1.2.3.4 host\n").len(), 1);
    // the lower-case text is what decides
    assert_eq!(clients_from("NO CLIENTS x\n", "NO CLIENTS x\n").len(), 1);
    assert!(clients_from("aa 1 h\n", "no clients").is_empty());
}

#[test]
fn cleanup_follows_failed_starts_and_successful_stops() {
    assert!(cleanup_after(Transition::Start, false));
    assert!(!cleanup_after(Transition::Start, true));
    assert!(cleanup_after(Transition::Enable, false));
    assert!(!cleanup_after(Transition::Enable, true));
    assert!(cleanup_after(Transition::Stop, true));
    assert!(!cleanup_after(Transition::Stop, false));
    assert!(cleanup_after(Transition::Disable, true));
    assert!(!cleanup_after(Transition::Disable, false));
}

#[test]
fn transitions_have_their_arguments() {
    assert_eq!(transition_args(Transition::Start), vec!["start", "create_ap"]);
    assert_eq!(transition_args(Transition::Stop), vec!["stop", "create_ap"]);
    assert_eq!(transition_args(Transition::Enable), vec!["enable", "--now", "create_ap"]);
    assert_eq!(transition_args(Transition::Disable), vec!["disable", "--now", "create_ap"]);
    assert_eq!(ServiceState { active: true, enabled: false }, ServiceState { active: true, enabled: false });
}
