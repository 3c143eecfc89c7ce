//! What the request handlers decide, apart from transport.

use crate::config::{validate, validate_entries, HotspotConfig, InvalidConfig};
use crate::entries::{map_of, EntryMap, Pair};
use crate::settings::{config_bool, is_open, is_truthy, wifi_iface_of};
use crate::text::{decimal, str_eq, strings_view, text_of, u64_to_decimal};
use vstd::prelude::*;
use vstd::string::StringExecFns;

verus! {

/// The access-point settings as they are shown to a user.
#[derive(Clone, Debug)]
pub struct HotspotSettingsPayload {
    pub wifi_iface: Option<String>,
    pub internet_iface: Option<String>,
    pub freq_band: Option<String>,
    pub ssid: Option<String>,
    pub passphrase: Option<String>,
    pub channel: Option<String>,
    pub wpa_version: Option<String>,
    pub hidden: Option<bool>,
    pub open_network: bool,
    pub no_virtual: bool,
    pub share_method: Option<String>,
    pub gateway: Option<String>,
    pub dhcp_dns: Option<String>,
    pub driver: Option<String>,
    pub country: Option<String>,
    pub isolate_clients: bool,
    pub no_dns: bool,
    pub no_dnsmasq: bool,
    pub no_haveged: bool,
    pub ieee80211n: bool,
    pub ieee80211ac: bool,
    pub ieee80211ax: bool,
    pub ht_capab: Option<String>,
    pub vht_capab: Option<String>,
    pub new_macaddr: Option<String>,
    pub dhcp_hosts: Option<String>,
}

/// The value under `key`, if it is set.
pub open spec fn lookup(m: Map<Seq<char>, Seq<char>>, key: Seq<char>) -> Option<Seq<char>> {
    if m.contains_key(key) {
        Some(m[key])
    } else {
        None
    }
}

/// Whether `key` is set to exactly `1`.
pub open spec fn is_one(m: Map<Seq<char>, Seq<char>>, key: Seq<char>) -> bool {
    m.contains_key(key) && m[key] == "1"@
}

/// Whether `key` is set to a value that counts as set.
pub open spec fn flag(m: Map<Seq<char>, Seq<char>>, key: Seq<char>) -> bool {
    m.contains_key(key) && is_truthy(m[key])
}

/// A copy of the value under `key`.
pub fn value_of(cfg: &HotspotConfig, key: &str) -> (r: Option<String>)
    ensures
        text_of(r) == lookup(cfg@, key@),
{
    match cfg.get(key) {
        Some(s) => Some(s.clone()),
        None => None,
    }
}

/// Whether `key` is set to exactly `1`.
pub fn value_is_one(cfg: &HotspotConfig, key: &str) -> (b: bool)
    ensures
        b == is_one(cfg@, key@),
{
    match cfg.get(key) {
        Some(s) => str_eq(s.as_str(), "1"),
        None => false,
    }
}

/// The settings that the configuration holds. Text settings are shown as
/// stored. The network counts as open where the passphrase is unset or
/// empty. `hidden` is shown only where it is set, as whether it is `1`; so
/// is `no_virtual`, which counts as unset where missing. The other flags
/// are set where the stored value is `1`, `true` or `yes`.
pub fn get_hotspot_settings(cfg: &HotspotConfig) -> (p: HotspotSettingsPayload)
    ensures
        text_of(p.wifi_iface) == lookup(cfg@, "WIFI_IFACE"@),
        text_of(p.internet_iface) == lookup(cfg@, "INTERNET_IFACE"@),
        text_of(p.freq_band) == lookup(cfg@, "FREQ_BAND"@),
        text_of(p.ssid) == lookup(cfg@, "SSID"@),
        text_of(p.passphrase) == lookup(cfg@, "PASSPHRASE"@),
        text_of(p.channel) == lookup(cfg@, "CHANNEL"@),
        text_of(p.wpa_version) == lookup(cfg@, "WPA_VERSION"@),
        p.hidden == (if cfg@.contains_key("HIDDEN"@) {
            Some(cfg@["HIDDEN"@] == "1"@)
        } else {
            None
        }),
        p.open_network == is_open(cfg@),
        p.no_virtual == is_one(cfg@, "NO_VIRT"@),
        text_of(p.share_method) == lookup(cfg@, "SHARE_METHOD"@),
        text_of(p.gateway) == lookup(cfg@, "GATEWAY"@),
        text_of(p.dhcp_dns) == lookup(cfg@, "DHCP_DNS"@),
        text_of(p.driver) == lookup(cfg@, "DRIVER"@),
        text_of(p.country) == lookup(cfg@, "COUNTRY"@),
        p.isolate_clients == flag(cfg@, "ISOLATE_CLIENTS"@),
        p.no_dns == flag(cfg@, "NO_DNS"@),
        p.no_dnsmasq == flag(cfg@, "NO_DNSMASQ"@),
        p.no_haveged == flag(cfg@, "NO_HAVEGED"@),
        p.ieee80211n == flag(cfg@, "IEEE80211N"@),
        p.ieee80211ac == flag(cfg@, "IEEE80211AC"@),
        p.ieee80211ax == flag(cfg@, "IEEE80211AX"@),
        text_of(p.ht_capab) == lookup(cfg@, "HT_CAPAB"@),
        text_of(p.vht_capab) == lookup(cfg@, "VHT_CAPAB"@),
        text_of(p.new_macaddr) == lookup(cfg@, "NEW_MACADDR"@),
        text_of(p.dhcp_hosts) == lookup(cfg@, "DHCP_HOSTS"@),
{
    let hidden = match cfg.get("HIDDEN") {
        Some(s) => Some(str_eq(s.as_str(), "1")),
        None => None,
    };
    let open_network = match cfg.get("PASSPHRASE") {
        Some(s) => s.as_str().is_empty(),
        None => true,
    };
    HotspotSettingsPayload {
        wifi_iface: value_of(cfg, "WIFI_IFACE"),
        internet_iface: value_of(cfg, "INTERNET_IFACE"),
        freq_band: value_of(cfg, "FREQ_BAND"),
        ssid: value_of(cfg, "SSID"),
        passphrase: value_of(cfg, "PASSPHRASE"),
        channel: value_of(cfg, "CHANNEL"),
        wpa_version: value_of(cfg, "WPA_VERSION"),
        hidden,
        open_network,
        no_virtual: value_is_one(cfg, "NO_VIRT"),
        share_method: value_of(cfg, "SHARE_METHOD"),
        gateway: value_of(cfg, "GATEWAY"),
        dhcp_dns: value_of(cfg, "DHCP_DNS"),
        driver: value_of(cfg, "DRIVER"),
        country: value_of(cfg, "COUNTRY"),
        isolate_clients: config_bool(cfg.get("ISOLATE_CLIENTS")),
        no_dns: config_bool(cfg.get("NO_DNS")),
        no_dnsmasq: config_bool(cfg.get("NO_DNSMASQ")),
        no_haveged: config_bool(cfg.get("NO_HAVEGED")),
        ieee80211n: config_bool(cfg.get("IEEE80211N")),
        ieee80211ac: config_bool(cfg.get("IEEE80211AC")),
        ieee80211ax: config_bool(cfg.get("IEEE80211AX")),
        ht_capab: value_of(cfg, "HT_CAPAB"),
        vht_capab: value_of(cfg, "VHT_CAPAB"),
        new_macaddr: value_of(cfg, "NEW_MACADDR"),
        dhcp_hosts: value_of(cfg, "DHCP_HOSTS"),
    }
}

/// The configured Wi-Fi interface.
pub fn current_wifi_iface(cfg: &HotspotConfig) -> (r: Option<String>)
    ensures
        text_of(r) == wifi_iface_of(cfg@),
{
    value_of(cfg, "WIFI_IFACE")
}

/// The map with the entries of the list written over it, in their order.
pub open spec fn overwritten(m: Map<Seq<char>, Seq<char>>, p: Seq<Pair>) -> Map<
    Seq<char>,
    Seq<char>,
>
    decreases p.len(),
{
    if p.len() == 0 {
        m
    } else {
        overwritten(m, p.drop_last()).insert(p.last().0, p.last().1)
    }
}

/// Writing a list of entries over a map gives the map with every key of
/// the list set to the list's value for it, and every other key unchanged.
pub proof fn lemma_overwritten_is_union(m: Map<Seq<char>, Seq<char>>, p: Seq<Pair>)
    ensures
        overwritten(m, p) == m.union_prefer_right(map_of(p)),
    decreases p.len(),
{
    if p.len() > 0 {
        lemma_overwritten_is_union(m, p.drop_last());
        assert(m.union_prefer_right(map_of(p.drop_last())).insert(p.last().0, p.last().1)
            =~= m.union_prefer_right(map_of(p)));
    } else {
        assert(m.union_prefer_right(map_of(p)) =~= m);
    }
}

/// Writes raw entries over the configuration. The result is checked
/// against every rule; where it breaks one, the configuration stays exactly
/// as it was. Where it is accepted, the Wi-Fi interface that it now names is
/// returned.
pub fn update_config(cfg: &mut HotspotConfig, updates: &EntryMap) -> (r: Result<
    Option<String>,
    InvalidConfig,
>)
    ensures
        match validate(old(cfg)@.union_prefer_right(updates@)) {
            Ok(_) => final(cfg)@ == old(cfg)@.union_prefer_right(updates@) && r is Ok && text_of(
                r->Ok_0,
            ) == wifi_iface_of(final(cfg)@),
            Err(e) => *final(cfg) == *old(cfg) && r is Err && r->Err_0 == e,
        },
{
    let mut work = cfg.duplicate();
    let n = updates.len();
    let mut i: usize = 0;
    let ghost all = updates.pairs();
    assert(all.take(0) =~= Seq::<Pair>::empty());
    while i < n
        invariant
            i <= n,
            n == all.len(),
            all == updates.pairs(),
            work@ == overwritten(cfg@, all.take(i as int)),
        decreases n - i,
    {
        assert(all.take(i + 1).drop_last() =~= all.take(i as int));
        let (k, v) = updates.entry(i);
        work.set(k.as_str(), v.clone());
        i += 1;
    }
    assert(all.take(n as int) =~= all);
    proof {
        lemma_overwritten_is_union(cfg@, all);
    }
    match validate_entries(&work.entries) {
        Err(e) => Err(e),
        Ok(()) => {
            *cfg = work;
            Ok(current_wifi_iface(cfg))
        },
    }
}

/// The interface whose clients are listed: the one that the request names,
/// else the configured Wi-Fi interface; `None` where neither is there.
pub fn hotspot_clients(requested: Option<String>, cfg: &HotspotConfig) -> (r: Option<String>)
    ensures
        text_of(r) == (if requested is Some {
            text_of(requested)
        } else {
            wifi_iface_of(cfg@)
        }),
{
    match requested {
        Some(iface) => Some(iface),
        None => current_wifi_iface(cfg),
    }
}

/// The number of log lines to show: 200 where the request names none, and
/// never fewer than 10 nor more than 2000.
pub open spec fn log_line_count(requested: Option<u32>) -> u32 {
    match requested {
        None => 200,
        Some(n) => if n < 10 {
            10
        } else if n > 2000 {
            2000
        } else {
            n
        },
    }
}

/// The number of log lines to show.
pub fn hotspot_logs(requested: Option<u32>) -> (n: u32)
    ensures
        n == log_line_count(requested),
        10 <= n <= 2000,
{
    match requested {
        None => 200,
        Some(n) => {
            if n < 10 {
                10
            } else if n > 2000 {
                2000
            } else {
                n
            }
        },
    }
}

/// The arguments that ask the journal for the last `lines` lines of the
/// access-point service.
pub fn tail_logs(lines: u32) -> (args: Vec<String>)
    ensures
        strings_view(args@) == seq![
            "-u"@,
            "create_ap"@,
            "--no-pager"@,
            "--output"@,
            "short"@,
            "-n"@ + decimal(lines as int),
        ],
{
    let mut count = "-n".to_owned();
    let digits = u64_to_decimal(lines as u64);
    count.append(digits.as_str());
    let mut args: Vec<String> = Vec::new();
    args.push("-u".to_owned());
    args.push("create_ap".to_owned());
    args.push("--no-pager".to_owned());
    args.push("--output".to_owned());
    args.push("short".to_owned());
    args.push(count);
    assert(strings_view(args@) =~= seq![
        "-u"@,
        "create_ap"@,
        "--no-pager"@,
        "--output"@,
        "short"@,
        "-n"@ + decimal(lines as int),
    ]);
    args
}

} // verus!
