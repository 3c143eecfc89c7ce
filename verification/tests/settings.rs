use hotspotd::config::{HotspotConfig, InvalidConfig};
use hotspotd::settings::{
    config_bool, reconcile, set_bool_entry, set_string_entry, update_hotspot_settings,
    HotspotSettingsRequest, SettingsError, StringOrNumber,
};

fn request() -> HotspotSettingsRequest {
    HotspotSettingsRequest {
        wifi_iface: None,
        internet_iface: None,
        freq_band: None,
        ssid: None,
        passphrase: None,
        channel: None,
        wpa_version: None,
        hidden: None,
        open_network: None,
        no_virtual: None,
        share_method: None,
        gateway: None,
        dhcp_dns: None,
        driver: None,
        country: None,
        isolate_clients: None,
        no_dns: None,
        no_dnsmasq: None,
        no_haveged: None,
        ieee80211n: None,
        ieee80211ac: None,
        ieee80211ax: None,
        ht_capab: None,
        vht_capab: None,
        new_macaddr: None,
        dhcp_hosts: None,
        restart: false,
    }
}

fn config(pairs: &[(&str, &str)]) -> HotspotConfig {
    let mut c = HotspotConfig::default();
    for (k, v) in pairs {
        c.set(k, v.to_string());
    }
    c
}

fn secured() -> HotspotConfig {
    config(&[
        ("SSID", "Home"),
        ("PASSPHRASE", "12345678"),
        ("WPA_VERSION", "2"),
        ("WIFI_IFACE", "wlan0"),
    ])
}

fn value(c: &HotspotConfig, key: &str) -> Option<String> {
    c.get(key).cloned()
}

#[test]
fn channel_text_and_number_are_stored_alike() {
    let mut r = request();
    r.channel = Some(StringOrNumber::Str("6".to_string()));
    let mut a = secured();
    assert_eq!(update_hotspot_settings(&mut a, &r), Ok(Some("wlan0".to_string())));
    assert_eq!(value(&a, "CHANNEL"), Some("6".to_string()));

    let mut r = request();
    r.channel = Some(StringOrNumber::Int(6));
    let mut b = secured();
    assert_eq!(update_hotspot_settings(&mut b, &r), Ok(Some("wlan0".to_string())));
    assert_eq!(value(&b, "CHANNEL"), Some("6".to_string()));
    assert_eq!(a.write(), b.write());
}

#[test]
fn channel_is_trimmed_and_blank_channel_is_unset() {
    let mut r = request();
    r.channel = Some(StringOrNumber::Str("  11\t".to_string()));
    let mut c = secured();
    update_hotspot_settings(&mut c, &r).unwrap();
    assert_eq!(value(&c, "CHANNEL"), Some("11".to_string()));
    r.channel = Some(StringOrNumber::Str("   ".to_string()));
    update_hotspot_settings(&mut c, &r).unwrap();
    assert_eq!(value(&c, "CHANNEL"), None);
}

#[test]
fn numbers_are_written_in_decimal() {
    assert_eq!(StringOrNumber::Int(0).into_string(), "0");
    assert_eq!(StringOrNumber::Int(7).into_string(), "7");
    assert_eq!(StringOrNumber::Int(10).into_string(), "10");
    assert_eq!(StringOrNumber::Int(165).into_string(), "165");
    assert_eq!(StringOrNumber::Int(-12).into_string(), "-12");
    assert_eq!(StringOrNumber::Int(i64::MAX).into_string(), "9223372036854775807");
    assert_eq!(StringOrNumber::Int(i64::MIN).into_string(), "-9223372036854775808");
    assert_eq!(StringOrNumber::Str(" x ".to_string()).into_string(), " x ");
    assert_eq!(StringOrNumber::Int(-1).to_text(), "-1");
}

#[test]
fn update_applied_twice_gives_the_same_configuration() {
    let mut r = request();
    r.ssid = Some("  Lab  ".to_string());
    r.passphrase = Some("correct horse".to_string());
    r.wpa_version = Some(" ".to_string());
    r.gateway = Some(String::new());
    r.hidden = Some(true);
    r.no_virtual = Some(false);
    r.channel = Some(StringOrNumber::Int(36));
    let mut c = config(&[("GATEWAY", "10.0.0.1"), ("SSID", "Old"), ("PASSPHRASE", "")]);
    assert_eq!(update_hotspot_settings(&mut c, &r), Ok(None));
    let once = c.write();
    assert_eq!(
        once,
        "CHANNEL=36\nHIDDEN=1\nNO_VIRT=0\nPASSPHRASE=correct horse\nSSID=Lab\nWPA_VERSION=2\n"
    );
    assert_eq!(update_hotspot_settings(&mut c, &r), Ok(None));
    assert_eq!(c.write(), once);
}

#[test]
fn open_update_applied_twice_gives_the_same_configuration() {
    let mut r = request();
    r.open_network = Some(true);
    r.passphrase = Some("ignored-passphrase".to_string());
    let mut c = secured();
    update_hotspot_settings(&mut c, &r).unwrap();
    let once = c.write();
    update_hotspot_settings(&mut c, &r).unwrap();
    assert_eq!(c.write(), once);
    assert_eq!(once, "PASSPHRASE=\nSSID=Home\nWIFI_IFACE=wlan0\n");
}

#[test]
fn short_passphrase_is_refused_and_nothing_changes() {
    let mut r = request();
    r.passphrase = Some("short".to_string());
    r.ssid = Some("Changed".to_string());
    r.hidden = Some(true);
    let mut c = secured();
    let before = c.write();
    assert_eq!(update_hotspot_settings(&mut c, &r), Err(SettingsError::PassphraseTooShort));
    assert_eq!(c.write(), before);
    assert_eq!(value(&c, "SSID"), Some("Home".to_string()));
    assert_eq!(value(&c, "HIDDEN"), None);
    assert_eq!(SettingsError::PassphraseTooShort.message(), "Passphrase must be 8-63 characters");
}

#[test]
fn seven_bytes_are_refused_and_eight_accepted() {
    let mut r = request();
    r.passphrase = Some("1234567".to_string());
    let mut c = secured();
    assert_eq!(update_hotspot_settings(&mut c, &r), Err(SettingsError::PassphraseTooShort));
    r.passphrase = Some(" 12345678 ".to_string());
    assert_eq!(update_hotspot_settings(&mut c, &r), Ok(Some("wlan0".to_string())));
    assert_eq!(value(&c, "PASSPHRASE"), Some("12345678".to_string()));
}

#[test]
fn securing_without_a_passphrase_is_refused() {
    let mut r = request();
    r.open_network = Some(false);
    let mut c = config(&[("SSID", "Home"), ("PASSPHRASE", "")]);
    let before = c.write();
    assert_eq!(update_hotspot_settings(&mut c, &r), Err(SettingsError::PassphraseTooShort));
    assert_eq!(c.write(), before);
    let mut c = config(&[("SSID", "Home")]);
    assert_eq!(update_hotspot_settings(&mut c, &r), Err(SettingsError::PassphraseTooShort));
    assert_eq!(c.write(), "SSID=Home\n");
}

#[test]
fn passphrase_of_sixty_four_bytes_breaks_the_rules() {
    let mut r = request();
    r.passphrase = Some("p".repeat(64));
    let mut c = secured();
    let before = c.write();
    assert_eq!(
        update_hotspot_settings(&mut c, &r),
        Err(SettingsError::Invalid(InvalidConfig::Passphrase))
    );
    assert_eq!(c.write(), before);
    r.passphrase = Some("p".repeat(63));
    assert!(update_hotspot_settings(&mut c, &r).is_ok());
}

#[test]
fn open_network_empties_passphrase_and_drops_wpa_version() {
    let mut r = request();
    r.open_network = Some(true);
    for start in [
        secured(),
        config(&[]),
        config(&[("PASSPHRASE", "abc")]),
        config(&[("WPA_VERSION", "1+2")]),
    ] {
        let mut c = start;
        assert!(update_hotspot_settings(&mut c, &r).is_ok());
        assert_eq!(value(&c, "PASSPHRASE"), Some(String::new()));
        assert_eq!(value(&c, "WPA_VERSION"), None);
    }
    r.passphrase = Some("long enough passphrase".to_string());
    r.wpa_version = Some("2".to_string());
    let mut c = secured();
    assert!(update_hotspot_settings(&mut c, &r).is_ok());
    assert_eq!(value(&c, "PASSPHRASE"), Some(String::new()));
    assert_eq!(value(&c, "WPA_VERSION"), None);
}

#[test]
fn network_is_open_where_the_passphrase_is_unset_or_empty() {
    let mut c = config(&[("WPA_VERSION", "2")]);
    assert!(update_hotspot_settings(&mut c, &request()).is_ok());
    assert_eq!(c.write(), "PASSPHRASE=\n");
    let mut r = request();
    r.passphrase = Some("  ".to_string());
    let mut c = secured();
    assert!(update_hotspot_settings(&mut c, &r).is_ok());
    assert_eq!(value(&c, "PASSPHRASE"), Some(String::new()));
    assert_eq!(value(&c, "WPA_VERSION"), None);
}

#[test]
fn blank_text_setting_removes_its_key() {
    let mut r = request();
    r.gateway = Some(String::new());
    r.ssid = Some(" \t ".to_string());
    r.wifi_iface = Some("".to_string());
    r.dhcp_hosts = Some("\n".to_string());
    let mut c = config(&[
        ("GATEWAY", "10.0.0.1"),
        ("SSID", "Home"),
        ("WIFI_IFACE", "wlan0"),
        ("DHCP_HOSTS", "a"),
        ("PASSPHRASE", "12345678"),
    ]);
    assert_eq!(update_hotspot_settings(&mut c, &r), Ok(None));
    assert!(c.get("GATEWAY").is_none());
    assert!(c.get("SSID").is_none());
    assert!(c.get("WIFI_IFACE").is_none());
    assert!(c.get("DHCP_HOSTS").is_none());
    assert_eq!(c.write(), "PASSPHRASE=12345678\nWPA_VERSION=2\n");
}

#[test]
fn secured_network_gets_wpa_version_two_by_default() {
    let mut r = request();
    r.passphrase = Some("12345678".to_string());
    let mut c = config(&[]);
    assert!(update_hotspot_settings(&mut c, &r).is_ok());
    assert_eq!(value(&c, "WPA_VERSION"), Some("2".to_string()));
    r.wpa_version = Some(" 1+2 ".to_string());
    assert!(update_hotspot_settings(&mut c, &r).is_ok());
    assert_eq!(value(&c, "WPA_VERSION"), Some("1+2".to_string()));
    r.wpa_version = Some(String::new());
    assert!(update_hotspot_settings(&mut c, &r).is_ok());
    assert_eq!(value(&c, "WPA_VERSION"), Some("2".to_string()));
}

#[test]
fn flags_are_stored_as_one_and_zero_only_when_given() {
    let mut r = request();
    r.hidden = Some(false);
    r.isolate_clients = Some(true);
    r.no_dns = Some(true);
    r.no_dnsmasq = Some(false);
    r.no_haveged = Some(true);
    r.ieee80211n = Some(true);
    r.ieee80211ac = Some(false);
    r.no_virtual = Some(true);
    let mut c = config(&[("IEEE80211AX", "yes"), ("PASSPHRASE", "12345678")]);
    assert!(update_hotspot_settings(&mut c, &r).is_ok());
    assert_eq!(
        c.write(),
        "HIDDEN=0\nIEEE80211AC=0\nIEEE80211AX=yes\nIEEE80211N=1\nISOLATE_CLIENTS=1\nNO_DNS=1\n\
NO_DNSMASQ=0\nNO_HAVEGED=1\nNO_VIRT=1\nPASSPHRASE=12345678\nWPA_VERSION=2\n"
    );
}

#[test]
fn every_text_setting_has_its_key() {
    let mut r = request();
    r.wifi_iface = Some("wlan1".to_string());
    r.internet_iface = Some("eth1".to_string());
    r.freq_band = Some("5".to_string());
    r.ssid = Some("Net".to_string());
    r.share_method = Some("nat".to_string());
    r.gateway = Some("192.168.12.1".to_string());
    r.dhcp_dns = Some("gateway".to_string());
    r.driver = Some("nl80211".to_string());
    r.country = Some("DE".to_string());
    r.ht_capab = Some("[HT40+]".to_string());
    r.vht_capab = Some("[VHT80]".to_string());
    r.new_macaddr = Some("02:00:00:00:00:01".to_string());
    r.dhcp_hosts = Some("a b".to_string());
    r.open_network = Some(true);
    let mut c = config(&[]);
    assert_eq!(update_hotspot_settings(&mut c, &r), Ok(Some("wlan1".to_string())));
    assert_eq!(
        c.write(),
        "COUNTRY=DE\nDHCP_DNS=gateway\nDHCP_HOSTS=a b\nDRIVER=nl80211\nFREQ_BAND=5\n\
GATEWAY=192.168.12.1\nHT_CAPAB=[HT40+]\nINTERNET_IFACE=eth1\nNEW_MACADDR=02:00:00:00:00:01\n\
PASSPHRASE=\nSHARE_METHOD=nat\nSSID=Net\nVHT_CAPAB=[VHT80]\nWIFI_IFACE=wlan1\n"
    );
}

#[test]
fn broken_rule_is_reported_and_nothing_changes() {
    let mut r = request();
    r.ssid = Some("s".repeat(33));
    r.gateway = Some("10.1.1.1".to_string());
    let mut c = secured();
    let before = c.write();
    let err = update_hotspot_settings(&mut c, &r).unwrap_err();
    assert_eq!(err, SettingsError::Invalid(InvalidConfig::Ssid));
    assert_eq!(err.message(), "SSID must be 1-32 characters");
    assert_eq!(c.write(), before);
    let mut r = request();
    r.freq_band = Some("6".to_string());
    let err = update_hotspot_settings(&mut c, &r).unwrap_err();
    assert_eq!(err, SettingsError::Invalid(InvalidConfig::FreqBand));
    assert_eq!(err.message(), "FREQ_BAND must be 2.4 or 5");
    assert_eq!(c.write(), before);
}

#[test]
fn reconcile_leaves_the_current_configuration_alone() {
    let mut r = request();
    r.ssid = Some("New".to_string());
    let c = secured();
    let before = c.write();
    let updated = reconcile(&c, &r).ok().unwrap();
    assert_eq!(c.write(), before);
    assert_eq!(updated.get("SSID").map(|s| s.as_str()), Some("New"));
    assert!(matches!(
        reconcile(&config(&[("PASSPHRASE", "abc")]), &request()),
        Err(SettingsError::PassphraseTooShort)
    ));
}

#[test]
fn empty_update_of_a_valid_configuration_changes_nothing() {
    let mut c = secured();
    let before = c.write();
    assert_eq!(update_hotspot_settings(&mut c, &request()), Ok(Some("wlan0".to_string())));
    assert_eq!(c.write(), before);
}

#[test]
fn set_string_entry_sets_trims_or_removes() {
    let mut c = config(&[("DRIVER", "old")]);
    set_string_entry(&mut c, "DRIVER", None);
    assert_eq!(value(&c, "DRIVER"), Some("old".to_string()));
    set_string_entry(&mut c, "DRIVER", Some("  nl80211 ".to_string()));
    assert_eq!(value(&c, "DRIVER"), Some("nl80211".to_string()));
    set_string_entry(&mut c, "DRIVER", Some(" \u{a0} ".to_string()));
    assert_eq!(value(&c, "DRIVER"), None);
}

#[test]
fn set_bool_entry_writes_one_or_zero() {
    let mut c = config(&[]);
    set_bool_entry(&mut c, "HIDDEN", None);
    assert_eq!(value(&c, "HIDDEN"), None);
    set_bool_entry(&mut c, "HIDDEN", Some(true));
    assert_eq!(value(&c, "HIDDEN"), Some("1".to_string()));
    set_bool_entry(&mut c, "HIDDEN", Some(false));
    assert_eq!(value(&c, "HIDDEN"), Some("0".to_string()));
}

#[test]
fn config_bool_reads_one_true_and_yes() {
    for v in ["1", "true", "TRUE", "True", "yes", "YeS"] {
        assert!(config_bool(Some(&v.to_string())), "{v}");
    }
    for v in ["", "0", "no", "01", " 1", "on", "y", "truE "] {
        assert!(!config_bool(Some(&v.to_string())), "{v}");
    }
    assert!(!config_bool(None));
}
