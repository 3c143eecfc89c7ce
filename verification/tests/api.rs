use hotspotd::api::{
    current_wifi_iface, get_hotspot_settings, hotspot_clients, hotspot_logs, tail_logs,
    update_config,
};
use hotspotd::auth::{enforce_token, extract_token};
use hotspotd::config::{HotspotConfig, InvalidConfig};
use hotspotd::entries::EntryMap;

fn stored(pairs: &[(&str, &str)]) -> HotspotConfig {
    let mut c = HotspotConfig::default();
    for (k, v) in pairs {
        c.set(k, v.to_string());
    }
    c
}

fn entries(pairs: &[(&str, &str)]) -> EntryMap {
    let mut m = EntryMap::new();
    for (k, v) in pairs {
        m.insert(k.to_string(), v.to_string());
    }
    m
}

#[test]
fn settings_are_shown_as_stored() {
    let c = stored(&[
        ("WIFI_IFACE", "wlan0"),
        ("SSID", "Home"),
        ("PASSPHRASE", "12345678"),
        ("HIDDEN", "0"),
        ("NO_VIRT", "1"),
        ("ISOLATE_CLIENTS", "yes"),
        ("NO_DNS", "TRUE"),
        ("NO_DNSMASQ", "0"),
        ("IEEE80211N", "1"),
        ("IEEE80211AC", "on"),
        ("CHANNEL", "default"),
    ]);
    let p = get_hotspot_settings(&c);
    assert_eq!(p.wifi_iface.as_deref(), Some("wlan0"));
    assert_eq!(p.internet_iface, None);
    assert_eq!(p.ssid.as_deref(), Some("Home"));
    assert_eq!(p.passphrase.as_deref(), Some("12345678"));
    assert_eq!(p.channel.as_deref(), Some("default"));
    assert_eq!(p.wpa_version, None);
    assert_eq!(p.hidden, Some(false));
    assert!(!p.open_network);
    assert!(p.no_virtual);
    assert!(p.isolate_clients);
    assert!(p.no_dns);
    assert!(!p.no_dnsmasq);
    assert!(!p.no_haveged);
    assert!(p.ieee80211n);
    assert!(!p.ieee80211ac);
    assert!(!p.ieee80211ax);
    assert_eq!(p.gateway, None);
}

#[test]
fn settings_of_an_empty_configuration() {
    let p = get_hotspot_settings(&HotspotConfig::default());
    assert!(p.open_network);
    assert_eq!(p.hidden, None);
    assert!(!p.no_virtual);
    assert_eq!(p.passphrase, None);
    let p = get_hotspot_settings(&stored(&[("PASSPHRASE", ""), ("HIDDEN", "1"), ("NO_VIRT", "yes")]));
    assert!(p.open_network);
    assert_eq!(p.hidden, Some(true));
    assert!(!p.no_virtual);
}

#[test]
fn raw_entries_are_written_over_the_configuration() {
    let mut c = stored(&[("SSID", "Old"), ("GATEWAY", "10.0.0.1")]);
    let r = update_config(&mut c, &entries(&[("SSID", "New"), ("WIFI_IFACE", "wlan1"), ("CHANNEL", "")]));
    assert_eq!(r, Ok(Some("wlan1".to_string())));
    assert_eq!(c.write(), "CHANNEL=\nGATEWAY=10.0.0.1\nSSID=New\nWIFI_IFACE=wlan1\n");
    assert_eq!(update_config(&mut c, &EntryMap::new()), Ok(Some("wlan1".to_string())));
    assert_eq!(current_wifi_iface(&c), Some("wlan1".to_string()));
}

#[test]
fn raw_entries_that_break_a_rule_change_nothing() {
    let mut c = stored(&[("SSID", "Old"), ("GATEWAY", "10.0.0.1")]);
    let before = c.write();
    assert_eq!(
        update_config(&mut c, &entries(&[("GATEWAY", "10.9.9.9"), ("PASSPHRASE", "short")])),
        Err(InvalidConfig::Passphrase)
    );
    assert_eq!(c.write(), before);
    assert_eq!(update_config(&mut c, &entries(&[("INTERNET_IFACE", " ")])), Err(InvalidConfig::InternetIface));
    assert_eq!(c.write(), before);
}

#[test]
fn clients_are_listed_for_the_named_or_the_configured_interface() {
    let c = stored(&[("WIFI_IFACE", "wlan0")]);
    assert_eq!(hotspot_clients(Some("ap0".to_string()), &c), Some("ap0".to_string()));
    assert_eq!(hotspot_clients(None, &c), Some("wlan0".to_string()));
    assert_eq!(hotspot_clients(None, &HotspotConfig::default()), None);
}

#[test]
fn log_line_count_is_kept_within_bounds() {
    assert_eq!(hotspot_logs(None), 200);
    assert_eq!(hotspot_logs(Some(0)), 10);
    assert_eq!(hotspot_logs(Some(9)), 10);
    assert_eq!(hotspot_logs(Some(10)), 10);
    assert_eq!(hotspot_logs(Some(11)), 11);
    assert_eq!(hotspot_logs(Some(2000)), 2000);
    assert_eq!(hotspot_logs(Some(2001)), 2000);
    assert_eq!(hotspot_logs(Some(u32::MAX)), 2000);
}

#[test]
fn journal_is_asked_for_the_last_lines() {
    assert_eq!(tail_logs(200), vec!["-u", "create_ap", "--no-pager", "--output", "short", "-n200"]);
    assert_eq!(tail_logs(10)[5], "-n10");
    assert_eq!(tail_logs(0)[5], "-n0");
    assert_eq!(tail_logs(u32::MAX)[5], "-n4294967295");
}

#[test]
fn token_comes_from_either_header() {
    assert_eq!(extract_token(Some("Bearer  abc "), Some("other")), Some("abc".to_string()));
    assert_eq!(extract_token(Some("Basic abc"), Some(" other ")), Some("other".to_string()));
    assert_eq!(extract_token(Some("bearer abc"), None), None);
    assert_eq!(extract_token(Some("Bearer"), None), None);
    assert_eq!(extract_token(Some("Bearer "), Some("x")), Some(String::new()));
    assert_eq!(extract_token(None, Some("tok")), Some("tok".to_string()));
    assert_eq!(extract_token(None, None), None);
}

#[test]
fn request_passes_with_the_configured_token_only() {
    let expected = "s3cret".to_string();
    assert!(enforce_token(None, None));
    assert!(enforce_token(None, Some(&"anything".to_string())));
    assert!(enforce_token(Some(&expected), Some(&"s3cret".to_string())));
    assert!(!enforce_token(Some(&expected), Some(&"S3cret".to_string())));
    assert!(!enforce_token(Some(&expected), Some(&String::new())));
    assert!(!enforce_token(Some(&expected), None));
}
