//! Reconciling a partial settings update with the stored configuration.
//!
//! A request names only the settings it wants changed. The update is worked
//! out on a copy of the configuration and replaces it only when the result
//! obeys every rule, so a rejected update leaves nothing behind.

use crate::config::{validate, validate_entries, HotspotConfig, InvalidConfig};
use crate::text::{
    byte_len, decimal, eq_ignore_ascii_case, i64_to_decimal, is_blank, str_byte_len, str_eq,
    str_eq_ignore_ascii_case, str_is_blank, str_trim, text_of, trim,
};
use vstd::prelude::*;

verus! {

/// A channel as a request may give it: as text or as a whole number.
#[derive(Debug)]
pub enum StringOrNumber {
    Str(String),
    Int(i64),
}

impl StringOrNumber {
    /// The text that the value is stored as, before trimming.
    pub open spec fn text(self) -> Seq<char> {
        match self {
            StringOrNumber::Str(s) => s@,
            StringOrNumber::Int(i) => decimal(i as int),
        }
    }

    /// The text that the value is stored as, before trimming.
    pub fn to_text(&self) -> (s: String)
        ensures
            s@ == self.text(),
    {
        match self {
            StringOrNumber::Str(s) => s.clone(),
            StringOrNumber::Int(i) => i64_to_decimal(*i),
        }
    }

    /// The text that the value is stored as, before trimming.
    pub fn into_string(self) -> (s: String)
        ensures
            s@ == self.text(),
    {
        match self {
            StringOrNumber::Str(s) => s,
            StringOrNumber::Int(i) => i64_to_decimal(i),
        }
    }
}

/// A partial update of the access-point settings. A field that is `None`
/// leaves its setting as it is.
#[derive(Debug)]
pub struct HotspotSettingsRequest {
    pub wifi_iface: Option<String>,
    pub internet_iface: Option<String>,
    pub freq_band: Option<String>,
    pub ssid: Option<String>,
    pub passphrase: Option<String>,
    pub channel: Option<StringOrNumber>,
    pub wpa_version: Option<String>,
    pub hidden: Option<bool>,
    pub open_network: Option<bool>,
    pub no_virtual: Option<bool>,
    pub share_method: Option<String>,
    pub gateway: Option<String>,
    pub dhcp_dns: Option<String>,
    pub driver: Option<String>,
    pub country: Option<String>,
    pub isolate_clients: Option<bool>,
    pub no_dns: Option<bool>,
    pub no_dnsmasq: Option<bool>,
    pub no_haveged: Option<bool>,
    pub ieee80211n: Option<bool>,
    pub ieee80211ac: Option<bool>,
    pub ieee80211ax: Option<bool>,
    pub ht_capab: Option<String>,
    pub vht_capab: Option<String>,
    pub new_macaddr: Option<String>,
    pub dhcp_hosts: Option<String>,
    /// Whether the access point is to be restarted once the update is stored.
    pub restart: bool,
}

/// What a request asks for, as plain values.
pub struct SettingsView {
    pub wifi_iface: Option<Seq<char>>,
    pub internet_iface: Option<Seq<char>>,
    pub freq_band: Option<Seq<char>>,
    pub ssid: Option<Seq<char>>,
    pub passphrase: Option<Seq<char>>,
    pub channel: Option<Seq<char>>,
    pub wpa_version: Option<Seq<char>>,
    pub hidden: Option<bool>,
    pub open_network: Option<bool>,
    pub no_virtual: Option<bool>,
    pub share_method: Option<Seq<char>>,
    pub gateway: Option<Seq<char>>,
    pub dhcp_dns: Option<Seq<char>>,
    pub driver: Option<Seq<char>>,
    pub country: Option<Seq<char>>,
    pub isolate_clients: Option<bool>,
    pub no_dns: Option<bool>,
    pub no_dnsmasq: Option<bool>,
    pub no_haveged: Option<bool>,
    pub ieee80211n: Option<bool>,
    pub ieee80211ac: Option<bool>,
    pub ieee80211ax: Option<bool>,
    pub ht_capab: Option<Seq<char>>,
    pub vht_capab: Option<Seq<char>>,
    pub new_macaddr: Option<Seq<char>>,
    pub dhcp_hosts: Option<Seq<char>>,
    pub restart: bool,
}

impl View for HotspotSettingsRequest {
    type V = SettingsView;

    open spec fn view(&self) -> SettingsView {
        SettingsView {
            wifi_iface: text_of(self.wifi_iface),
            internet_iface: text_of(self.internet_iface),
            freq_band: text_of(self.freq_band),
            ssid: text_of(self.ssid),
            passphrase: text_of(self.passphrase),
            channel: match self.channel {
                Some(c) => Some(c.text()),
                None => None,
            },
            wpa_version: text_of(self.wpa_version),
            hidden: self.hidden,
            open_network: self.open_network,
            no_virtual: self.no_virtual,
            share_method: text_of(self.share_method),
            gateway: text_of(self.gateway),
            dhcp_dns: text_of(self.dhcp_dns),
            driver: text_of(self.driver),
            country: text_of(self.country),
            isolate_clients: self.isolate_clients,
            no_dns: self.no_dns,
            no_dnsmasq: self.no_dnsmasq,
            no_haveged: self.no_haveged,
            ieee80211n: self.ieee80211n,
            ieee80211ac: self.ieee80211ac,
            ieee80211ax: self.ieee80211ax,
            ht_capab: text_of(self.ht_capab),
            vht_capab: text_of(self.vht_capab),
            new_macaddr: text_of(self.new_macaddr),
            dhcp_hosts: text_of(self.dhcp_hosts),
            restart: self.restart,
        }
    }
}

/// What is to happen to one key.
pub enum Change {
    /// The key stays as it is.
    Keep,
    /// The key gets this value.
    Store(Seq<char>),
    /// The key is removed.
    Remove,
}

/// What is to happen to one key, with the value to store.
#[derive(Debug)]
pub enum FieldChange {
    Keep,
    Store(String),
    Remove,
}

impl View for FieldChange {
    type V = Change;

    open spec fn view(&self) -> Change {
        match self {
            FieldChange::Keep => Change::Keep,
            FieldChange::Store(s) => Change::Store(s@),
            FieldChange::Remove => Change::Remove,
        }
    }
}

/// A text setting: absent keeps the key, blank removes it, anything else is
/// stored trimmed.
pub open spec fn text_change(v: Option<Seq<char>>) -> Change {
    match v {
        None => Change::Keep,
        Some(s) => if is_blank(s) {
            Change::Remove
        } else {
            Change::Store(trim(s))
        },
    }
}

/// A flag: absent keeps the key, otherwise `"1"` or `"0"` is stored.
pub open spec fn flag_change(v: Option<bool>) -> Change {
    match v {
        None => Change::Keep,
        Some(b) => if b {
            Change::Store("1"@)
        } else {
            Change::Store("0"@)
        },
    }
}

/// The map after one change.
pub open spec fn apply_change(
    m: Map<Seq<char>, Seq<char>>,
    key: Seq<char>,
    c: Change,
) -> Map<Seq<char>, Seq<char>> {
    match c {
        Change::Keep => m,
        Change::Store(v) => m.insert(key, v),
        Change::Remove => m.remove(key),
    }
}

/// The map after a list of changes, made in their order.
pub open spec fn apply_changes(
    m: Map<Seq<char>, Seq<char>>,
    cs: Seq<(Seq<char>, Change)>,
) -> Map<Seq<char>, Seq<char>>
    decreases cs.len(),
{
    if cs.len() == 0 {
        m
    } else {
        apply_change(apply_changes(m, cs.drop_last()), cs.last().0, cs.last().1)
    }
}

/// The change that a text setting of a request asks for.
pub fn text_change_of(value: &Option<String>) -> (c: FieldChange)
    ensures
        c@ == text_change(text_of(*value)),
{
    match value {
        None => FieldChange::Keep,
        Some(s) => {
            if str_is_blank(s.as_str()) {
                FieldChange::Remove
            } else {
                FieldChange::Store(str_trim(s.as_str()))
            }
        },
    }
}

/// The change that a flag of a request asks for.
pub fn flag_change_of(value: Option<bool>) -> (c: FieldChange)
    ensures
        c@ == flag_change(value),
{
    match value {
        None => FieldChange::Keep,
        Some(b) => {
            if b {
                FieldChange::Store("1".to_owned())
            } else {
                FieldChange::Store("0".to_owned())
            }
        },
    }
}

/// Makes one change to the configuration.
pub fn apply_field_change(cfg: &mut HotspotConfig, key: &str, change: &FieldChange)
    ensures
        final(cfg)@ == apply_change(old(cfg)@, key@, change@),
{
    match change {
        FieldChange::Keep => {},
        FieldChange::Store(v) => {
            cfg.set(key, v.clone());
        },
        FieldChange::Remove => {
            cfg.delete(key);
        },
    }
}

/// Applies a text setting: `None` changes nothing, a blank value removes the
/// key, any other value is stored trimmed.
pub fn set_string_entry(cfg: &mut HotspotConfig, key: &str, value: Option<String>)
    ensures
        final(cfg)@ == apply_change(old(cfg)@, key@, text_change(text_of(value))),
        value is Some && is_blank(value->0@) ==> !final(cfg)@.contains_key(key@),
{
    let change = text_change_of(&value);
    apply_field_change(cfg, key, &change);
}

/// Applies a flag: `None` changes nothing, `true` stores `"1"`, `false`
/// stores `"0"`.
pub fn set_bool_entry(cfg: &mut HotspotConfig, key: &str, value: Option<bool>)
    ensures
        final(cfg)@ == apply_change(old(cfg)@, key@, flag_change(value)),
{
    let change = flag_change_of(value);
    apply_field_change(cfg, key, &change);
}

/// The changes that a request asks for on every key but `PASSPHRASE` and
/// `WPA_VERSION`, which depend on each other and on what is stored.
pub open spec fn plain_changes(r: SettingsView) -> Seq<(Seq<char>, Change)> {
    seq![
        ("WIFI_IFACE"@, text_change(r.wifi_iface)),
        ("INTERNET_IFACE"@, text_change(r.internet_iface)),
        ("FREQ_BAND"@, text_change(r.freq_band)),
        ("SSID"@, text_change(r.ssid)),
        ("SHARE_METHOD"@, text_change(r.share_method)),
        ("GATEWAY"@, text_change(r.gateway)),
        ("DHCP_DNS"@, text_change(r.dhcp_dns)),
        ("DRIVER"@, text_change(r.driver)),
        ("COUNTRY"@, text_change(r.country)),
        ("HT_CAPAB"@, text_change(r.ht_capab)),
        ("VHT_CAPAB"@, text_change(r.vht_capab)),
        ("NEW_MACADDR"@, text_change(r.new_macaddr)),
        ("DHCP_HOSTS"@, text_change(r.dhcp_hosts)),
        ("CHANNEL"@, text_change(r.channel)),
        ("HIDDEN"@, flag_change(r.hidden)),
        ("ISOLATE_CLIENTS"@, flag_change(r.isolate_clients)),
        ("NO_DNS"@, flag_change(r.no_dns)),
        ("NO_DNSMASQ"@, flag_change(r.no_dnsmasq)),
        ("NO_HAVEGED"@, flag_change(r.no_haveged)),
        ("IEEE80211N"@, flag_change(r.ieee80211n)),
        ("IEEE80211AC"@, flag_change(r.ieee80211ac)),
        ("IEEE80211AX"@, flag_change(r.ieee80211ax)),
        ("NO_VIRT"@, flag_change(r.no_virtual)),
    ]
}

/// What a list of keys and changes stands for.
pub open spec fn changes_view(v: Seq<(&'static str, FieldChange)>) -> Seq<(Seq<char>, Change)> {
    Seq::new(v.len(), |i: int| (v[i].0@, v[i].1@))
}

/// The changes that `req` asks for on the keys that stand alone.
pub fn plain_changes_of(req: &HotspotSettingsRequest) -> (cs: Vec<(&'static str, FieldChange)>)
    ensures
        changes_view(cs@) == plain_changes(req@),
{
    let mut cs: Vec<(&'static str, FieldChange)> = Vec::new();
    cs.push(("WIFI_IFACE", text_change_of(&req.wifi_iface)));
    cs.push(("INTERNET_IFACE", text_change_of(&req.internet_iface)));
    cs.push(("FREQ_BAND", text_change_of(&req.freq_band)));
    cs.push(("SSID", text_change_of(&req.ssid)));
    cs.push(("SHARE_METHOD", text_change_of(&req.share_method)));
    cs.push(("GATEWAY", text_change_of(&req.gateway)));
    cs.push(("DHCP_DNS", text_change_of(&req.dhcp_dns)));
    cs.push(("DRIVER", text_change_of(&req.driver)));
    cs.push(("COUNTRY", text_change_of(&req.country)));
    cs.push(("HT_CAPAB", text_change_of(&req.ht_capab)));
    cs.push(("VHT_CAPAB", text_change_of(&req.vht_capab)));
    cs.push(("NEW_MACADDR", text_change_of(&req.new_macaddr)));
    cs.push(("DHCP_HOSTS", text_change_of(&req.dhcp_hosts)));
    let channel = match &req.channel {
        Some(c) => Some(c.to_text()),
        None => None,
    };
    cs.push(("CHANNEL", text_change_of(&channel)));
    cs.push(("HIDDEN", flag_change_of(req.hidden)));
    cs.push(("ISOLATE_CLIENTS", flag_change_of(req.isolate_clients)));
    cs.push(("NO_DNS", flag_change_of(req.no_dns)));
    cs.push(("NO_DNSMASQ", flag_change_of(req.no_dnsmasq)));
    cs.push(("NO_HAVEGED", flag_change_of(req.no_haveged)));
    cs.push(("IEEE80211N", flag_change_of(req.ieee80211n)));
    cs.push(("IEEE80211AC", flag_change_of(req.ieee80211ac)));
    cs.push(("IEEE80211AX", flag_change_of(req.ieee80211ax)));
    cs.push(("NO_VIRT", flag_change_of(req.no_virtual)));
    assert(changes_view(cs@) =~= plain_changes(req@));
    cs
}

/// Why a settings update is refused.
#[derive(Clone, Copy, Debug, PartialEq, Eq, Structural)]
pub enum SettingsError {
    /// The network is secured and its passphrase has fewer than 8 bytes.
    PassphraseTooShort,
    /// The updated configuration breaks a rule.
    Invalid(InvalidConfig),
}

impl SettingsError {
    /// The sentence that tells a user what is wrong.
    pub open spec fn message_text(self) -> Seq<char> {
        match self {
            SettingsError::PassphraseTooShort => "Passphrase must be 8-63 characters"@,
            SettingsError::Invalid(c) => c.message_text(),
        }
    }

    /// The sentence that tells a user what is wrong.
    pub fn message(&self) -> (s: String)
        ensures
            s@ == self.message_text(),
    {
        match self {
            SettingsError::PassphraseTooShort => "Passphrase must be 8-63 characters".to_owned(),
            SettingsError::Invalid(c) => c.message(),
        }
    }
}

/// Whether a configuration describes an open network: one whose passphrase
/// is unset or empty.
pub open spec fn is_open(m: Map<Seq<char>, Seq<char>>) -> bool {
    !m.contains_key("PASSPHRASE"@) || m["PASSPHRASE"@].len() == 0
}

/// Passphrase and WPA version after an update. An open network gets the
/// empty passphrase and no WPA version. A secured one gets the passphrase
/// and the version that the request gives, needs at least 8 bytes of
/// passphrase, and gets version `"2"` where none is set.
pub open spec fn security_step(m: Map<Seq<char>, Seq<char>>, r: SettingsView) -> Result<
    Map<Seq<char>, Seq<char>>,
    SettingsError,
> {
    let staged = apply_change(m, "PASSPHRASE"@, text_change(r.passphrase));
    let open = match r.open_network {
        Some(o) => o,
        None => is_open(staged),
    };
    if open {
        Ok(staged.insert("PASSPHRASE"@, Seq::<char>::empty()).remove("WPA_VERSION"@))
    } else {
        let with_pass = match r.passphrase {
            Some(p) => staged.insert("PASSPHRASE"@, trim(p)),
            None => staged,
        };
        let with_wpa = apply_change(with_pass, "WPA_VERSION"@, text_change(r.wpa_version));
        if !with_wpa.contains_key("PASSPHRASE"@) || byte_len(with_wpa["PASSPHRASE"@]) < 8 {
            Err(SettingsError::PassphraseTooShort)
        } else if with_wpa.contains_key("WPA_VERSION"@) {
            Ok(with_wpa)
        } else {
            Ok(with_wpa.insert("WPA_VERSION"@, "2"@))
        }
    }
}

/// The configuration that an update leads to, or the reason why it is
/// refused.
pub open spec fn reconcile_spec(m: Map<Seq<char>, Seq<char>>, r: SettingsView) -> Result<
    Map<Seq<char>, Seq<char>>,
    SettingsError,
> {
    match security_step(apply_changes(m, plain_changes(r)), r) {
        Err(e) => Err(e),
        Ok(updated) => match validate(updated) {
            Err(c) => Err(SettingsError::Invalid(c)),
            Ok(_) => Ok(updated),
        },
    }
}

/// Settles passphrase and WPA version on the working copy.
fn settle_security(work: &mut HotspotConfig, req: &HotspotSettingsRequest) -> (r: Result<
    (),
    SettingsError,
>)
    ensures
        match security_step(old(work)@, req@) {
            Ok(m) => r is Ok && final(work)@ == m,
            Err(e) => r == Err::<(), SettingsError>(e),
        },
{
    apply_field_change(work, "PASSPHRASE", &text_change_of(&req.passphrase));
    let open = match req.open_network {
        Some(o) => o,
        None => match work.get("PASSPHRASE") {
            Some(p) => p.as_str().is_empty(),
            None => true,
        },
    };
    if open {
        work.set("PASSPHRASE", String::new());
        work.delete("WPA_VERSION");
        Ok(())
    } else {
        if let Some(p) = &req.passphrase {
            work.set("PASSPHRASE", str_trim(p.as_str()));
        }
        apply_field_change(work, "WPA_VERSION", &text_change_of(&req.wpa_version));
        let long_enough = match work.get("PASSPHRASE") {
            Some(p) => str_byte_len(p.as_str()) >= 8,
            None => false,
        };
        if !long_enough {
            return Err(SettingsError::PassphraseTooShort);
        }
        if work.get("WPA_VERSION").is_none() {
            work.set("WPA_VERSION", "2".to_owned());
        }
        Ok(())
    }
}

/// Works out the configuration that `req` leads to from `current`, which it
/// leaves untouched.
pub fn reconcile(current: &HotspotConfig, req: &HotspotSettingsRequest) -> (r: Result<
    HotspotConfig,
    SettingsError,
>)
    ensures
        match reconcile_spec(current@, req@) {
            Ok(m) => r is Ok && r->Ok_0@ == m,
            Err(e) => r is Err && r->Err_0 == e,
        },
{
    let mut work = current.duplicate();
    let cs = plain_changes_of(req);
    let ghost all = plain_changes(req@);
    let mut i: usize = 0;
    assert(all.take(0) =~= Seq::<(Seq<char>, Change)>::empty());
    while i < cs.len()
        invariant
            i <= cs.len(),
            changes_view(cs@) == all,
            work@ == apply_changes(current@, all.take(i as int)),
        decreases cs.len() - i,
    {
        assert(all[i as int] == (cs@[i as int].0@, cs@[i as int].1@));
        assert(all.take(i + 1).drop_last() =~= all.take(i as int));
        apply_field_change(&mut work, cs[i].0, &cs[i].1);
        i += 1;
    }
    assert(all.take(i as int) =~= all);
    match settle_security(&mut work, req) {
        Err(e) => Err(e),
        Ok(()) => match validate_entries(&work.entries) {
            Err(c) => Err(SettingsError::Invalid(c)),
            Ok(()) => Ok(work),
        },
    }
}

/// The value under `WIFI_IFACE`, if it is set.
pub open spec fn wifi_iface_of(m: Map<Seq<char>, Seq<char>>) -> Option<Seq<char>> {
    if m.contains_key("WIFI_IFACE"@) {
        Some(m["WIFI_IFACE"@])
    } else {
        None
    }
}

/// Applies a settings update. Where the update is accepted, the
/// configuration becomes what `reconcile_spec` says, and the Wi-Fi interface
/// that it now names is returned. Where it is refused, the configuration
/// stays exactly as it was.
pub fn update_hotspot_settings(cfg: &mut HotspotConfig, req: &HotspotSettingsRequest) -> (r:
    Result<Option<String>, SettingsError>)
    ensures
        match reconcile_spec(old(cfg)@, req@) {
            Ok(m) => final(cfg)@ == m && r is Ok && text_of(r->Ok_0) == wifi_iface_of(m),
            Err(e) => *final(cfg) == *old(cfg) && r is Err && r->Err_0 == e,
        },
{
    match reconcile(cfg, req) {
        Err(e) => Err(e),
        Ok(updated) => {
            *cfg = updated;
            let iface = match cfg.get("WIFI_IFACE") {
                Some(s) => Some(s.clone()),
                None => None,
            };
            Ok(iface)
        },
    }
}

/// Whether a stored flag counts as set.
pub open spec fn is_truthy(v: Seq<char>) -> bool {
    v == "1"@ || eq_ignore_ascii_case(v, "true"@) || eq_ignore_ascii_case(v, "yes"@)
}

/// Reads a stored flag: set where the value is `1`, or `true` or `yes` in
/// any case; unset where it is anything else or missing.
pub fn config_bool(value: Option<&String>) -> (b: bool)
    ensures
        b == (value is Some && is_truthy(value->0@)),
{
    match value {
        Some(v) => {
            let s = v.as_str();
            str_eq(s, "1") || str_eq_ignore_ascii_case(s, "true") || str_eq_ignore_ascii_case(
                s,
                "yes",
            )
        },
        None => false,
    }
}

/// No key occurs twice in the list.
pub open spec fn distinct_keys(cs: Seq<(Seq<char>, Change)>) -> bool {
    forall|i: int, j: int| 0 <= i < j < cs.len() ==> (#[trigger] cs[i]).0 != (#[trigger] cs[j]).0
}

/// The last change in the list that does something to `k`, or `Keep`.
pub open spec fn effective(cs: Seq<(Seq<char>, Change)>, k: Seq<char>) -> Change
    decreases cs.len(),
{
    if cs.len() == 0 {
        Change::Keep
    } else if cs.last().0 == k && !(cs.last().1 is Keep) {
        cs.last().1
    } else {
        effective(cs.drop_last(), k)
    }
}

/// What a list of changes does to one key is what its last effective change
/// for that key does.
pub proof fn lemma_changes_at(
    m: Map<Seq<char>, Seq<char>>,
    cs: Seq<(Seq<char>, Change)>,
    k: Seq<char>,
)
    ensures
        match effective(cs, k) {
            Change::Keep => apply_changes(m, cs).contains_key(k) == m.contains_key(k) && (
            m.contains_key(k) ==> apply_changes(m, cs)[k] == m[k]),
            Change::Store(v) => apply_changes(m, cs).contains_key(k) && apply_changes(m, cs)[k]
                == v,
            Change::Remove => !apply_changes(m, cs).contains_key(k),
        },
    decreases cs.len(),
{
    if cs.len() > 0 {
        lemma_changes_at(m, cs.drop_last(), k);
    }
}

/// A key that the list does not name is left alone.
pub proof fn lemma_effective_absent(cs: Seq<(Seq<char>, Change)>, k: Seq<char>)
    requires
        forall|i: int| 0 <= i < cs.len() ==> (#[trigger] cs[i]).0 != k,
    ensures
        effective(cs, k) is Keep,
    decreases cs.len(),
{
    if cs.len() > 0 {
        let q = cs.drop_last();
        assert forall|i: int| 0 <= i < q.len() implies (#[trigger] q[i]).0 != k by {
            assert(q[i] == cs[i]);
        }
        lemma_effective_absent(q, k);
        assert(cs[cs.len() - 1].0 != k);
    }
}

/// Where no key occurs twice, the change listed for a key is the one that
/// takes effect.
pub proof fn lemma_effective_distinct(cs: Seq<(Seq<char>, Change)>, i: int)
    requires
        distinct_keys(cs),
        0 <= i < cs.len(),
    ensures
        effective(cs, cs[i].0) == cs[i].1,
    decreases cs.len(),
{
    let q = cs.drop_last();
    if i == cs.len() - 1 {
        if cs[i].1 is Keep {
            assert forall|j: int| 0 <= j < q.len() implies (#[trigger] q[j]).0 != cs[i].0 by {
                assert(q[j] == cs[j]);
            }
            lemma_effective_absent(q, cs[i].0);
        }
    } else {
        assert(distinct_keys(q)) by {
            assert forall|a: int, b: int| 0 <= a < b < q.len() implies (#[trigger] q[a]).0 != (
            #[trigger] q[b]).0 by {
                assert(q[a] == cs[a] && q[b] == cs[b]);
            }
        }
        assert(q[i] == cs[i]);
        lemma_effective_distinct(q, i);
        assert(cs[i].0 != cs[cs.len() - 1].0);
    }
}

/// The keys that a request can touch are all different from each other.
pub proof fn lemma_setting_keys_distinct(r: SettingsView)
    ensures
        distinct_keys(plain_changes(r)),
        forall|i: int|
            0 <= i < plain_changes(r).len() ==> (#[trigger] plain_changes(r)[i]).0
                != "PASSPHRASE"@ && plain_changes(r)[i].0 != "WPA_VERSION"@,
        "PASSPHRASE"@ != "WPA_VERSION"@,
{
    // every key differs from every other in its length, its first or its
    // last character
    reveal_strlit("WIFI_IFACE");
    assert("WIFI_IFACE"@.len() == 10 && "WIFI_IFACE"@[0] == 'W' && "WIFI_IFACE"@[9] == 'E');
    reveal_strlit("INTERNET_IFACE");
    assert("INTERNET_IFACE"@.len() == 14 && "INTERNET_IFACE"@[0] == 'I' && "INTERNET_IFACE"@[13] == 'E');
    reveal_strlit("FREQ_BAND");
    assert("FREQ_BAND"@.len() == 9 && "FREQ_BAND"@[0] == 'F' && "FREQ_BAND"@[8] == 'D');
    reveal_strlit("SSID");
    assert("SSID"@.len() == 4 && "SSID"@[0] == 'S' && "SSID"@[3] == 'D');
    reveal_strlit("SHARE_METHOD");
    assert("SHARE_METHOD"@.len() == 12 && "SHARE_METHOD"@[0] == 'S' && "SHARE_METHOD"@[11] == 'D');
    reveal_strlit("GATEWAY");
    assert("GATEWAY"@.len() == 7 && "GATEWAY"@[0] == 'G' && "GATEWAY"@[6] == 'Y');
    reveal_strlit("DHCP_DNS");
    assert("DHCP_DNS"@.len() == 8 && "DHCP_DNS"@[0] == 'D' && "DHCP_DNS"@[7] == 'S');
    reveal_strlit("DRIVER");
    assert("DRIVER"@.len() == 6 && "DRIVER"@[0] == 'D' && "DRIVER"@[5] == 'R');
    reveal_strlit("COUNTRY");
    assert("COUNTRY"@.len() == 7 && "COUNTRY"@[0] == 'C' && "COUNTRY"@[6] == 'Y');
    reveal_strlit("HT_CAPAB");
    assert("HT_CAPAB"@.len() == 8 && "HT_CAPAB"@[0] == 'H' && "HT_CAPAB"@[7] == 'B');
    reveal_strlit("VHT_CAPAB");
    assert("VHT_CAPAB"@.len() == 9 && "VHT_CAPAB"@[0] == 'V' && "VHT_CAPAB"@[8] == 'B');
    reveal_strlit("NEW_MACADDR");
    assert("NEW_MACADDR"@.len() == 11 && "NEW_MACADDR"@[0] == 'N' && "NEW_MACADDR"@[10] == 'R');
    reveal_strlit("DHCP_HOSTS");
    assert("DHCP_HOSTS"@.len() == 10 && "DHCP_HOSTS"@[0] == 'D' && "DHCP_HOSTS"@[9] == 'S');
    reveal_strlit("CHANNEL");
    assert("CHANNEL"@.len() == 7 && "CHANNEL"@[0] == 'C' && "CHANNEL"@[6] == 'L');
    reveal_strlit("HIDDEN");
    assert("HIDDEN"@.len() == 6 && "HIDDEN"@[0] == 'H' && "HIDDEN"@[5] == 'N');
    reveal_strlit("ISOLATE_CLIENTS");
    assert("ISOLATE_CLIENTS"@.len() == 15 && "ISOLATE_CLIENTS"@[0] == 'I' && "ISOLATE_CLIENTS"@[14] == 'S');
    reveal_strlit("NO_DNS");
    assert("NO_DNS"@.len() == 6 && "NO_DNS"@[0] == 'N' && "NO_DNS"@[5] == 'S');
    reveal_strlit("NO_DNSMASQ");
    assert("NO_DNSMASQ"@.len() == 10 && "NO_DNSMASQ"@[0] == 'N' && "NO_DNSMASQ"@[9] == 'Q');
    reveal_strlit("NO_HAVEGED");
    assert("NO_HAVEGED"@.len() == 10 && "NO_HAVEGED"@[0] == 'N' && "NO_HAVEGED"@[9] == 'D');
    reveal_strlit("IEEE80211N");
    assert("IEEE80211N"@.len() == 10 && "IEEE80211N"@[0] == 'I' && "IEEE80211N"@[9] == 'N');
    reveal_strlit("IEEE80211AC");
    assert("IEEE80211AC"@.len() == 11 && "IEEE80211AC"@[0] == 'I' && "IEEE80211AC"@[10] == 'C');
    reveal_strlit("IEEE80211AX");
    assert("IEEE80211AX"@.len() == 11 && "IEEE80211AX"@[0] == 'I' && "IEEE80211AX"@[10] == 'X');
    reveal_strlit("NO_VIRT");
    assert("NO_VIRT"@.len() == 7 && "NO_VIRT"@[0] == 'N' && "NO_VIRT"@[6] == 'T');
    reveal_strlit("PASSPHRASE");
    assert("PASSPHRASE"@.len() == 10 && "PASSPHRASE"@[0] == 'P' && "PASSPHRASE"@[9] == 'E');
    reveal_strlit("WPA_VERSION");
    assert("WPA_VERSION"@.len() == 11 && "WPA_VERSION"@[0] == 'W' && "WPA_VERSION"@[10] == 'N');
}

/// Outside `PASSPHRASE` and `WPA_VERSION` the security step changes nothing.
pub proof fn lemma_security_step_frame(
    m: Map<Seq<char>, Seq<char>>,
    r: SettingsView,
    k: Seq<char>,
)
    requires
        security_step(m, r) is Ok,
        k != "PASSPHRASE"@,
        k != "WPA_VERSION"@,
    ensures
        security_step(m, r)->Ok_0.contains_key(k) == m.contains_key(k),
        m.contains_key(k) ==> security_step(m, r)->Ok_0[k] == m[k],
{
}

/// Applying an accepted update a second time changes nothing: the result is
/// accepted again and is the same configuration.
pub proof fn law_update_idempotent(m: Map<Seq<char>, Seq<char>>, r: SettingsView)
    requires
        reconcile_spec(m, r) is Ok,
    ensures
        reconcile_spec(reconcile_spec(m, r)->Ok_0, r) == reconcile_spec(m, r),
{
    let cs = plain_changes(r);
    let m1 = apply_changes(m, cs);
    let u = security_step(m1, r)->Ok_0;
    lemma_setting_keys_distinct(r);
    let u1 = apply_changes(u, cs);
    assert forall|k: Seq<char>|
        #![trigger u1.dom().contains(k)]
        #![trigger u1[k]]
        u1.dom().contains(k) == u.dom().contains(k) && (u.dom().contains(k) ==> u1[k] == u[k]) by {
        lemma_changes_at(u, cs, k);
        lemma_changes_at(m, cs, k);
        if !(effective(cs, k) is Keep) {
            if k == "PASSPHRASE"@ || k == "WPA_VERSION"@ {
                lemma_effective_absent(cs, k);
            }
            lemma_security_step_frame(m1, r, k);
        }
    }
    assert(u1 =~= u);
    lemma_security_step_settled(m1, r);
}

/// The security step, run again on its own result, gives that result.
proof fn lemma_security_step_settled(m: Map<Seq<char>, Seq<char>>, r: SettingsView)
    requires
        security_step(m, r) is Ok,
        "PASSPHRASE"@ != "WPA_VERSION"@,
    ensures
        security_step(security_step(m, r)->Ok_0, r) == security_step(m, r),
{
    let u = security_step(m, r)->Ok_0;
    let pass = "PASSPHRASE"@;
    let wpa = "WPA_VERSION"@;
    let staged = apply_change(m, pass, text_change(r.passphrase));
    let staged2 = apply_change(u, pass, text_change(r.passphrase));
    let open = match r.open_network {
        Some(o) => o,
        None => is_open(staged),
    };
    let open2 = match r.open_network {
        Some(o) => o,
        None => is_open(staged2),
    };
    crate::text::lemma_byte_len_empty();
    if open {
        assert(open2);
        assert(staged2.insert(pass, Seq::<char>::empty()).remove(wpa) =~= u);
    } else {
        let with_pass = match r.passphrase {
            Some(p) => staged.insert(pass, trim(p)),
            None => staged,
        };
        let with_pass2 = match r.passphrase {
            Some(p) => staged2.insert(pass, trim(p)),
            None => staged2,
        };
        let with_wpa = apply_change(with_pass, wpa, text_change(r.wpa_version));
        let with_wpa2 = apply_change(with_pass2, wpa, text_change(r.wpa_version));
        assert(u.contains_key(pass) && byte_len(u[pass]) >= 8);
        assert(u[pass].len() != 0);
        assert(!open2);
        assert(with_pass2[pass] == u[pass]);
        if with_wpa2.contains_key(wpa) {
            assert(with_wpa2 =~= u);
        } else {
            assert(with_wpa2.insert(wpa, "2"@) =~= u);
        }
    }
}

/// An accepted update leaves either an open network, with the empty
/// passphrase, or a secured one whose passphrase has 8 to 63 bytes.
pub proof fn law_accepted_passphrase(m: Map<Seq<char>, Seq<char>>, r: SettingsView)
    requires
        reconcile_spec(m, r) is Ok,
    ensures
        ({
            let updated = reconcile_spec(m, r)->Ok_0;
            &&& updated.contains_key("PASSPHRASE"@)
            &&& updated["PASSPHRASE"@].len() == 0 || 8 <= byte_len(updated["PASSPHRASE"@]) <= 63
        }),
{
    lemma_setting_keys_distinct(r);
}

/// The passphrase that an update asks to keep or to set: the one it gives,
/// trimmed, else the stored one, else none.
pub open spec fn wanted_passphrase(m: Map<Seq<char>, Seq<char>>, r: SettingsView) -> Seq<char> {
    match r.passphrase {
        Some(p) => trim(p),
        None => if m.contains_key("PASSPHRASE"@) {
            m["PASSPHRASE"@]
        } else {
            Seq::empty()
        },
    }
}

/// Whether an update asks for a secured network: it says so, or it says
/// nothing and there is a passphrase.
pub open spec fn wants_secured(m: Map<Seq<char>, Seq<char>>, r: SettingsView) -> bool {
    match r.open_network {
        Some(open) => !open,
        None => wanted_passphrase(m, r).len() > 0,
    }
}

/// An update that would leave a secured network with fewer than 8 bytes of
/// passphrase is refused.
pub proof fn law_short_passphrase_refused(m: Map<Seq<char>, Seq<char>>, r: SettingsView)
    requires
        wants_secured(m, r),
        byte_len(wanted_passphrase(m, r)) < 8,
    ensures
        reconcile_spec(m, r) == Err::<Map<Seq<char>, Seq<char>>, SettingsError>(
            SettingsError::PassphraseTooShort,
        ),
{
    let cs = plain_changes(r);
    lemma_setting_keys_distinct(r);
    lemma_effective_absent(cs, "PASSPHRASE"@);
    lemma_changes_at(m, cs, "PASSPHRASE"@);
    crate::text::lemma_byte_len_empty();
}

/// With `open_network` set to `true`, whatever was stored before, an
/// accepted update leaves the empty passphrase and no WPA version, and the
/// passphrase is never the reason for refusing it.
pub proof fn law_open_network(m: Map<Seq<char>, Seq<char>>, r: SettingsView)
    requires
        r.open_network == Some(true),
    ensures
        reconcile_spec(m, r) != Err::<Map<Seq<char>, Seq<char>>, SettingsError>(
            SettingsError::PassphraseTooShort,
        ),
        reconcile_spec(m, r) != Err::<Map<Seq<char>, Seq<char>>, SettingsError>(
            SettingsError::Invalid(InvalidConfig::Passphrase),
        ),
        reconcile_spec(m, r) is Ok ==> ({
            let updated = reconcile_spec(m, r)->Ok_0;
            &&& updated.contains_key("PASSPHRASE"@)
            &&& updated["PASSPHRASE"@] == Seq::<char>::empty()
            &&& !updated.contains_key("WPA_VERSION"@)
        }),
{
    lemma_setting_keys_distinct(r);
}

/// A text setting that a request gives as blank is unset by an accepted
/// update: its key is gone, not set to the empty string.
pub proof fn law_blank_text_unsets_key(m: Map<Seq<char>, Seq<char>>, r: SettingsView)
    requires
        reconcile_spec(m, r) is Ok,
    ensures
        ({
            let updated = reconcile_spec(m, r)->Ok_0;
            &&& (r.wifi_iface is Some && is_blank(r.wifi_iface->0) ==> !updated.contains_key("WIFI_IFACE"@))
            &&& (r.internet_iface is Some && is_blank(r.internet_iface->0) ==> !updated.contains_key("INTERNET_IFACE"@))
            &&& (r.freq_band is Some && is_blank(r.freq_band->0) ==> !updated.contains_key("FREQ_BAND"@))
            &&& (r.ssid is Some && is_blank(r.ssid->0) ==> !updated.contains_key("SSID"@))
            &&& (r.share_method is Some && is_blank(r.share_method->0) ==> !updated.contains_key("SHARE_METHOD"@))
            &&& (r.gateway is Some && is_blank(r.gateway->0) ==> !updated.contains_key("GATEWAY"@))
            &&& (r.dhcp_dns is Some && is_blank(r.dhcp_dns->0) ==> !updated.contains_key("DHCP_DNS"@))
            &&& (r.driver is Some && is_blank(r.driver->0) ==> !updated.contains_key("DRIVER"@))
            &&& (r.country is Some && is_blank(r.country->0) ==> !updated.contains_key("COUNTRY"@))
            &&& (r.ht_capab is Some && is_blank(r.ht_capab->0) ==> !updated.contains_key("HT_CAPAB"@))
            &&& (r.vht_capab is Some && is_blank(r.vht_capab->0) ==> !updated.contains_key("VHT_CAPAB"@))
            &&& (r.new_macaddr is Some && is_blank(r.new_macaddr->0) ==> !updated.contains_key("NEW_MACADDR"@))
            &&& (r.dhcp_hosts is Some && is_blank(r.dhcp_hosts->0) ==> !updated.contains_key("DHCP_HOSTS"@))
            &&& (r.channel is Some && is_blank(r.channel->0) ==> !updated.contains_key("CHANNEL"@))
        }),
{
    let cs = plain_changes(r);
    let m1 = apply_changes(m, cs);
    lemma_setting_keys_distinct(r);
    lemma_effective_distinct(cs, 0);
    lemma_changes_at(m, cs, "WIFI_IFACE"@);
    lemma_effective_distinct(cs, 1);
    lemma_changes_at(m, cs, "INTERNET_IFACE"@);
    lemma_effective_distinct(cs, 2);
    lemma_changes_at(m, cs, "FREQ_BAND"@);
    lemma_effective_distinct(cs, 3);
    lemma_changes_at(m, cs, "SSID"@);
    lemma_effective_distinct(cs, 4);
    lemma_changes_at(m, cs, "SHARE_METHOD"@);
    lemma_effective_distinct(cs, 5);
    lemma_changes_at(m, cs, "GATEWAY"@);
    lemma_effective_distinct(cs, 6);
    lemma_changes_at(m, cs, "DHCP_DNS"@);
    lemma_effective_distinct(cs, 7);
    lemma_changes_at(m, cs, "DRIVER"@);
    lemma_effective_distinct(cs, 8);
    lemma_changes_at(m, cs, "COUNTRY"@);
    lemma_effective_distinct(cs, 9);
    lemma_changes_at(m, cs, "HT_CAPAB"@);
    lemma_effective_distinct(cs, 10);
    lemma_changes_at(m, cs, "VHT_CAPAB"@);
    lemma_effective_distinct(cs, 11);
    lemma_changes_at(m, cs, "NEW_MACADDR"@);
    lemma_effective_distinct(cs, 12);
    lemma_changes_at(m, cs, "DHCP_HOSTS"@);
    lemma_effective_distinct(cs, 13);
    lemma_changes_at(m, cs, "CHANNEL"@);
    assert forall|i: int| 0 <= i < cs.len() implies {
        &&& security_step(m1, r)->Ok_0.contains_key((#[trigger] cs[i]).0) == m1.contains_key(
            cs[i].0,
        )
    } by {
        lemma_security_step_frame(m1, r, cs[i].0);
    }
}

} // verus!
