//! The access-point configuration: its text format, the rules it must obey
//! and the in-memory store.
//!
//! The text format holds one `KEY=value` entry per line. Blank lines and
//! lines that begin with `#` are skipped, the first `=` of a line parts key
//! from value, and both are trimmed.

use crate::entries::{lemma_map_of_at, lemma_map_of_keys, map_of, sorted, EntryMap, Pair};
use crate::text::{
    byte_len, find, from_chars, is_blank, is_whitespace, lacks, lemma_find_bounds, lemma_find_is,
    lemma_lines_lack_line_feed, lemma_trim_end_shape, lemma_trim_idempotent, lemma_trim_lacks,
    lemma_trim_start_shape, lines, rows, split_lines, split_once, split_once_chars, str_byte_len,
    str_eq, str_is_blank, strip_cr, to_chars, trim, trim_chars, trim_end, trim_start,
};
use vstd::prelude::*;
use vstd::string::StringExecFns;

verus! {

/// The entry that a line of configuration text holds, if it holds one.
pub open spec fn parse_line(line: Seq<char>) -> Option<Pair> {
    let t = trim(line);
    if t.len() == 0 || t[0] == '#' {
        None
    } else {
        match split_once(t, '=') {
            Some((k, v)) => Some((trim(k), trim(v))),
            None => None,
        }
    }
}

/// The entries that a list of lines holds, in the order of the lines.
pub open spec fn parse_lines(ls: Seq<Seq<char>>) -> Seq<Pair>
    decreases ls.len(),
{
    if ls.len() == 0 {
        Seq::empty()
    } else {
        match parse_line(ls.last()) {
            Some(p) => parse_lines(ls.drop_last()).push(p),
            None => parse_lines(ls.drop_last()),
        }
    }
}

/// The map that a configuration text stands for. Where a key occurs on
/// several lines, the last of them counts.
pub open spec fn parse_ini_spec(text: Seq<char>) -> Map<Seq<char>, Seq<char>> {
    map_of(parse_lines(lines(text)))
}

/// The line of text that holds one entry.
pub open spec fn render_pair(p: Pair) -> Seq<char> {
    p.0 + seq!['='] + p.1 + seq!['\n']
}

/// The text that holds the given entries, one line each, in their order.
pub open spec fn render_pairs(p: Seq<Pair>) -> Seq<char>
    decreases p.len(),
{
    if p.len() == 0 {
        Seq::empty()
    } else {
        render_pairs(p.drop_last()) + render_pair(p.last())
    }
}

/// The rule that a configuration breaks.
#[derive(Clone, Copy, Debug, PartialEq, Eq, Structural)]
pub enum InvalidConfig {
    /// `SSID` is present and not 1 to 32 bytes long.
    Ssid,
    /// `PASSPHRASE` is present, not empty, and not 8 to 63 bytes long.
    Passphrase,
    /// `FREQ_BAND` is present and names no known band.
    FreqBand,
    /// `WIFI_IFACE` is present and blank.
    WifiIface,
    /// `INTERNET_IFACE` is present and blank.
    InternetIface,
}

impl InvalidConfig {
    /// The sentence that tells a user what is wrong.
    pub open spec fn message_text(self) -> Seq<char> {
        match self {
            InvalidConfig::Ssid => "SSID must be 1-32 characters"@,
            InvalidConfig::Passphrase => "Passphrase must be 8-63 characters"@,
            InvalidConfig::FreqBand => "FREQ_BAND must be 2.4 or 5"@,
            InvalidConfig::WifiIface => "WIFI_IFACE cannot be empty"@,
            InvalidConfig::InternetIface => "INTERNET_IFACE cannot be empty"@,
        }
    }

    /// The sentence that tells a user what is wrong.
    pub fn message(&self) -> (s: String)
        ensures
            s@ == self.message_text(),
    {
        match self {
            InvalidConfig::Ssid => "SSID must be 1-32 characters".to_owned(),
            InvalidConfig::Passphrase => "Passphrase must be 8-63 characters".to_owned(),
            InvalidConfig::FreqBand => "FREQ_BAND must be 2.4 or 5".to_owned(),
            InvalidConfig::WifiIface => "WIFI_IFACE cannot be empty".to_owned(),
            InvalidConfig::InternetIface => "INTERNET_IFACE cannot be empty".to_owned(),
        }
    }
}

/// The frequency bands that a configuration may name.
pub open spec fn is_known_band(b: Seq<char>) -> bool {
    b == "2.4"@ || b == "5"@ || b == "2.4GHz"@ || b == "5GHz"@
}

/// The first rule, in the order of `InvalidConfig`, that `m` breaks.
pub open spec fn validate(m: Map<Seq<char>, Seq<char>>) -> Result<(), InvalidConfig> {
    if m.contains_key("SSID"@) && !(1 <= byte_len(m["SSID"@]) <= 32) {
        Err(InvalidConfig::Ssid)
    } else if m.contains_key("PASSPHRASE"@) && m["PASSPHRASE"@].len() != 0 && !(8 <= byte_len(
        m["PASSPHRASE"@],
    ) <= 63) {
        Err(InvalidConfig::Passphrase)
    } else if m.contains_key("FREQ_BAND"@) && !is_known_band(m["FREQ_BAND"@]) {
        Err(InvalidConfig::FreqBand)
    } else if m.contains_key("WIFI_IFACE"@) && is_blank(m["WIFI_IFACE"@]) {
        Err(InvalidConfig::WifiIface)
    } else if m.contains_key("INTERNET_IFACE"@) && is_blank(m["INTERNET_IFACE"@]) {
        Err(InvalidConfig::InternetIface)
    } else {
        Ok(())
    }
}

/// Checks a configuration against every rule and names the first one broken.
pub fn validate_entries(entries: &EntryMap) -> (r: Result<(), InvalidConfig>)
    ensures
        r == validate(entries@),
{
    if let Some(ssid) = entries.get("SSID") {
        let n = str_byte_len(ssid.as_str());
        if n < 1 || n > 32 {
            return Err(InvalidConfig::Ssid);
        }
    }
    if let Some(pass) = entries.get("PASSPHRASE") {
        if !pass.as_str().is_empty() {
            let n = str_byte_len(pass.as_str());
            if n < 8 || n > 63 {
                return Err(InvalidConfig::Passphrase);
            }
        }
    }
    if let Some(band) = entries.get("FREQ_BAND") {
        let b = band.as_str();
        if !(str_eq(b, "2.4") || str_eq(b, "5") || str_eq(b, "2.4GHz") || str_eq(b, "5GHz")) {
            return Err(InvalidConfig::FreqBand);
        }
    }
    if let Some(iface) = entries.get("WIFI_IFACE") {
        if str_is_blank(iface.as_str()) {
            return Err(InvalidConfig::WifiIface);
        }
    }
    if let Some(iface) = entries.get("INTERNET_IFACE") {
        if str_is_blank(iface.as_str()) {
            return Err(InvalidConfig::InternetIface);
        }
    }
    Ok(())
}

/// Reads configuration text into a map of its entries.
pub fn parse_ini(contents: &str) -> (out: EntryMap)
    ensures
        out@ == parse_ini_spec(contents@),
{
    let text = to_chars(contents);
    let ls = split_lines(&text);
    let mut out = EntryMap::new();
    let mut i: usize = 0;
    assert(rows(ls@).take(0) =~= Seq::<Seq<char>>::empty());
    while i < ls.len()
        invariant
            i <= ls.len(),
            out@ == map_of(parse_lines(rows(ls@).take(i as int))),
        decreases ls.len() - i,
    {
        let ghost head = rows(ls@).take(i as int);
        let ghost next = rows(ls@).take(i + 1);
        assert(next.drop_last() =~= head);
        assert(next.last() == ls@[i as int]@);
        let t = trim_chars(&ls[i]);
        if t.len() > 0 && t[0] != '#' {
            if let Some((k, v)) = split_once_chars(&t, '=') {
                let key = from_chars(&trim_chars(&k));
                let value = from_chars(&trim_chars(&v));
                assert(parse_lines(next).drop_last() =~= parse_lines(head));
                out.insert(key, value);
            }
        }
        i += 1;
    }
    assert(rows(ls@).take(ls.len() as int) =~= rows(ls@));
    out
}

/// Writes the entries as configuration text, in ascending key order.
pub fn render_entries(entries: &EntryMap) -> (s: String)
    ensures
        s@ == render_pairs(entries.pairs()),
        sorted(entries.pairs()),
{
    let mut s = String::new();
    let n = entries.len();
    let mut i: usize = 0;
    assert(entries.pairs().take(0) =~= Seq::<Pair>::empty());
    while i < n
        invariant
            i <= n,
            n == entries.pairs().len(),
            s@ == render_pairs(entries.pairs().take(i as int)),
        decreases n - i,
    {
        let ghost head = entries.pairs().take(i as int);
        let ghost next = entries.pairs().take(i + 1);
        assert(next.drop_last() =~= head);
        let (k, v) = entries.entry(i);
        s.append(k.as_str());
        s.push('=');
        s.append(v.as_str());
        s.push('\n');
        assert(s@ =~= render_pairs(head) + render_pair(next.last()));
        i += 1;
    }
    assert(entries.pairs().take(n as int) =~= entries.pairs());
    s
}

/// The configuration that a fresh installation starts from.
pub const DEFAULT_TEMPLATE: &'static str =
    "# Access point defaults\n\
CHANNEL=default\n\
GATEWAY=10.0.0.1\n\
WPA_VERSION=2\n\
ETC_HOSTS=0\n\
DHCP_DNS=gateway\n\
NO_DNS=0\n\
NO_DNSMASQ=0\n\
HIDDEN=0\n\
MAC_FILTER=0\n\
MAC_FILTER_ACCEPT=/etc/hostapd/hostapd.accept\n\
ISOLATE_CLIENTS=0\n\
SHARE_METHOD=nat\n\
IEEE80211N=0\n\
IEEE80211AC=0\n\
HT_CAPAB=[HT40+]\n\
DRIVER=nl80211\n\
NO_VIRT=0\n\
FREQ_BAND=2.4\n\
DAEMONIZE=0\n\
NO_HAVEGED=0\n\
WIFI_IFACE=wlan0\n\
INTERNET_IFACE=eth0\n\
SSID=MyAccessPoint\n\
PASSPHRASE=12345678\n\
USE_PSK=0\n";

/// The entries that a configuration is first made of: the built-in template,
/// with the values that the caller puts in its place.
#[derive(Debug)]
pub struct ConfigDefaults {
    entries: EntryMap,
}

impl View for ConfigDefaults {
    type V = Map<Seq<char>, Seq<char>>;

    closed spec fn view(&self) -> Map<Seq<char>, Seq<char>> {
        self.entries@
    }
}

impl Default for ConfigDefaults {
    /// No entries at all.
    fn default() -> (d: Self)
        ensures
            d@ == Map::<Seq<char>, Seq<char>>::empty(),
    {
        ConfigDefaults { entries: EntryMap::new() }
    }
}

impl ConfigDefaults {
    /// The entries of the built-in template.
    pub fn from_template() -> (d: Self)
        ensures
            d@ == parse_ini_spec(DEFAULT_TEMPLATE@),
    {
        ConfigDefaults { entries: parse_ini(DEFAULT_TEMPLATE) }
    }

    /// With `Some(v)`, the same defaults but `v` under `key`; with `None`,
    /// the same defaults unchanged.
    pub fn override_entry(self, key: &str, value: Option<String>) -> (d: Self)
        ensures
            d@ == match value {
                Some(v) => self@.insert(key@, v@),
                None => self@,
            },
    {
        let mut d = self;
        if let Some(v) = value {
            d.entries.insert(key.to_owned(), v);
        }
        d
    }

    /// The default entries.
    pub fn entries(&self) -> (e: &EntryMap)
        ensures
            e@ == self@,
    {
        &self.entries
    }
}

/// The access-point configuration held in memory.
#[derive(Debug)]
pub struct HotspotConfig {
    pub entries: EntryMap,
}

impl View for HotspotConfig {
    type V = Map<Seq<char>, Seq<char>>;

    open spec fn view(&self) -> Map<Seq<char>, Seq<char>> {
        self.entries@
    }
}

impl Default for HotspotConfig {
    /// No entries at all.
    fn default() -> (c: Self)
        ensures
            c@ == Map::<Seq<char>, Seq<char>>::empty(),
    {
        HotspotConfig { entries: EntryMap::new() }
    }
}

impl HotspotConfig {
    /// The configuration that a stored text stands for.
    pub fn load(contents: &str) -> (c: Self)
        ensures
            c@ == parse_ini_spec(contents@),
    {
        HotspotConfig { entries: parse_ini(contents) }
    }

    /// The configuration that a first start writes out: the defaults.
    pub fn from_defaults(defaults: &ConfigDefaults) -> (c: Self)
        ensures
            c@ == defaults@,
    {
        HotspotConfig { entries: defaults.entries().duplicate() }
    }

    /// The configuration to start with: the stored one where there is
    /// one, else the defaults. The flag tells whether the configuration is
    /// a fresh one, which is then to be written out.
    pub fn load_or_init(stored: Option<&str>, defaults: &ConfigDefaults) -> (r: (Self, bool))
        ensures
            match stored {
                Some(text) => r.0@ == parse_ini_spec(text@) && !r.1,
                None => r.0@ == defaults@ && r.1,
            },
    {
        match stored {
            Some(text) => (HotspotConfig::load(text), false),
            None => (HotspotConfig::from_defaults(defaults), true),
        }
    }

    /// The text to store: one line per entry, in ascending key order.
    pub fn write(&self) -> (s: String)
        ensures
            s@ == render_pairs(self.entries.pairs()),
            sorted(self.entries.pairs()),
    {
        render_entries(&self.entries)
    }

    /// The value under `key`; `None` where the key is unset, which is not
    /// the same as a key set to the empty string.
    pub fn get(&self, key: &str) -> (r: Option<&String>)
        ensures
            r is Some <==> self@.contains_key(key@),
            r is Some ==> r->0@ == self@[key@],
    {
        self.entries.get(key)
    }

    /// Sets `key` to `value`.
    pub fn set(&mut self, key: &str, value: String)
        ensures
            final(self)@ == old(self)@.insert(key@, value@),
    {
        self.entries.insert(key.to_owned(), value);
    }

    /// Unsets `key`: afterwards `get(key)` is `None`.
    pub fn delete(&mut self, key: &str)
        ensures
            final(self)@ == old(self)@.remove(key@),
            !final(self)@.contains_key(key@),
    {
        self.entries.remove(key);
    }

    /// A copy with the same entries.
    pub fn duplicate(&self) -> (c: Self)
        ensures
            c@ == self@,
            c.entries.pairs() == self.entries.pairs(),
    {
        HotspotConfig { entries: self.entries.duplicate() }
    }
}

/// An entry that the text format can hold as it is: key and value are
/// trimmed and within one line, and the key holds no `=` and does not begin
/// with `#`.
pub open spec fn storable(p: Pair) -> bool {
    &&& trim(p.0) == p.0
    &&& lacks(p.0, '=')
    &&& lacks(p.0, '\n')
    &&& (p.0.len() > 0 ==> p.0[0] != '#')
    &&& trim(p.1) == p.1
    &&& lacks(p.1, '\n')
}

/// A text that is its own trim neither begins nor ends with whitespace.
proof fn lemma_trimmed_ends(s: Seq<char>)
    requires
        trim(s) == s,
        s.len() > 0,
    ensures
        !is_whitespace(s[0]),
        !is_whitespace(s.last()),
{
    lemma_trim_start_shape(s);
    lemma_trim_end_shape(trim_start(s));
    assert(trim_start(s).len() == s.len());
    assert(s.skip(0) =~= s);
}

/// The lines of two texts, the first of which ends its last line, are the
/// lines of the one followed by the lines of the other.
proof fn lemma_lines_concat(a: Seq<char>, b: Seq<char>)
    requires
        a.len() > 0 ==> a.last() == '\n',
    ensures
        lines(a + b) == lines(a) + lines(b),
    decreases a.len(),
{
    if a.len() == 0 {
        assert(a + b =~= b);
        assert(lines(a) + lines(b) =~= lines(b));
    } else {
        let i = find(a, '\n');
        lemma_find_bounds(a, '\n');
        assert(i < a.len()) by {
            if i >= a.len() {
                assert(a[a.len() - 1] != '\n');
            }
        }
        assert forall|j: int| 0 <= j < i implies (a + b)[j] != '\n' by {
            assert((a + b)[j] == a[j]);
        }
        assert((a + b)[i] == a[i]);
        lemma_find_is(a + b, '\n', i);
        assert((a + b).take(i) =~= a.take(i));
        assert((a + b).skip(i + 1) =~= a.skip(i + 1) + b);
        let rest = a.skip(i + 1);
        if rest.len() > 0 {
            assert(rest.last() == a.last());
        }
        lemma_lines_concat(rest, b);
        assert(seq![strip_cr(a.take(i))] + (lines(rest) + lines(b)) =~= (seq![
            strip_cr(a.take(i)),
        ] + lines(rest)) + lines(b));
    }
}

/// The text of one storable entry is one line, and that line reads back as
/// the entry.
proof fn lemma_pair_round_trip(p: Pair)
    requires
        storable(p),
    ensures
        lines(render_pair(p)) == seq![p.0 + seq!['='] + p.1],
        parse_line(p.0 + seq!['='] + p.1) == Some(p),
{
    let line = p.0 + seq!['='] + p.1;
    let text = render_pair(p);
    let n = line.len() as int;
    assert(text =~= line + seq!['\n']);
    assert forall|j: int| 0 <= j < n implies line[j] != '\n' by {
        if j < p.0.len() {
            assert(line[j] == p.0[j]);
        } else if j > p.0.len() {
            assert(line[j] == p.1[j - p.0.len() - 1]);
        }
    }
    assert forall|j: int| 0 <= j < n implies text[j] != '\n' by {
        assert(text[j] == line[j]);
    }
    lemma_find_is(text, '\n', n);
    assert(text.take(n) =~= line);
    assert(text.skip(n + 1) =~= Seq::<char>::empty());
    assert(lines(text.skip(n + 1)) =~= Seq::<Seq<char>>::empty());
    // the line ends with `=` or with the end of a trimmed value
    if p.1.len() > 0 {
        lemma_trimmed_ends(p.1);
        assert(line.last() == p.1.last());
    } else {
        assert(line.last() == '=');
    }
    if p.0.len() > 0 {
        lemma_trimmed_ends(p.0);
        assert(line[0] == p.0[0]);
    } else {
        assert(line[0] == '=');
    }
    assert(strip_cr(line) == line);
    assert(lines(text) =~= seq![line]);
    assert(trim_start(line) == line);
    assert(trim_end(line) == line);
    let k = p.0.len() as int;
    assert forall|j: int| 0 <= j < k implies line[j] != '=' by {
        assert(line[j] == p.0[j]);
    }
    assert(line[k] == '=');
    lemma_find_is(line, '=', k);
    assert(line.take(k) =~= p.0);
    assert(line.skip(k + 1) =~= p.1);
}

/// The text of a list of entries is empty or ends its last line.
proof fn lemma_render_ends_line(p: Seq<Pair>)
    ensures
        render_pairs(p).len() > 0 ==> render_pairs(p).last() == '\n',
    decreases p.len(),
{
    if p.len() > 0 {
        let tail = render_pair(p.last());
        assert(tail.last() == '\n');
        assert(render_pairs(p).last() == tail.last());
    }
}

/// Writing entries out and reading the text back gives the same entries,
/// in the same order, provided that each of them is storable.
pub proof fn lemma_render_parse_pairs(p: Seq<Pair>)
    requires
        forall|i: int| 0 <= i < p.len() ==> storable(#[trigger] p[i]),
    ensures
        parse_lines(lines(render_pairs(p))) == p,
    decreases p.len(),
{
    if p.len() == 0 {
        assert(lines(render_pairs(p)) =~= Seq::<Seq<char>>::empty());
        assert(parse_lines(lines(render_pairs(p))) =~= p);
    } else {
        let q = p.drop_last();
        let last = p.last();
        assert forall|i: int| 0 <= i < q.len() implies storable(#[trigger] q[i]) by {
            assert(q[i] == p[i]);
        }
        lemma_render_parse_pairs(q);
        lemma_render_ends_line(q);
        lemma_lines_concat(render_pairs(q), render_pair(last));
        assert(storable(p[p.len() - 1]));
        lemma_pair_round_trip(last);
        let line = last.0 + seq!['='] + last.1;
        let all = lines(render_pairs(q)) + seq![line];
        assert(all.drop_last() =~= lines(render_pairs(q)));
        assert(all.last() == line);
        assert(parse_lines(all) =~= q.push(last));
        assert(q.push(last) =~= p);
    }
}

/// A configuration that is written to storage and read back is the same
/// configuration, provided that each of its entries is storable.
pub proof fn law_config_round_trip(p: Seq<Pair>)
    requires
        forall|i: int| 0 <= i < p.len() ==> storable(#[trigger] p[i]),
    ensures
        parse_ini_spec(render_pairs(p)) == map_of(p),
{
    lemma_render_parse_pairs(p);
}

/// An entry that is read from a line of text is storable.
pub proof fn lemma_parsed_line_storable(line: Seq<char>)
    requires
        lacks(line, '\n'),
        parse_line(line) is Some,
    ensures
        storable(parse_line(line)->0),
{
    let t = trim(line);
    lemma_trim_lacks(line, '\n');
    let i = find(t, '=');
    lemma_find_bounds(t, '=');
    let k = t.take(i);
    let v = t.skip(i + 1);
    assert(lacks(k, '=')) by {
        assert forall|j: int| 0 <= j < k.len() implies k[j] != '=' by {
            assert(k[j] == t[j]);
        }
    }
    assert(lacks(k, '\n')) by {
        assert forall|j: int| 0 <= j < k.len() implies k[j] != '\n' by {
            assert(k[j] == t[j]);
        }
    }
    assert(lacks(v, '\n')) by {
        assert forall|j: int| 0 <= j < v.len() implies v[j] != '\n' by {
            assert(v[j] == t[i + 1 + j]);
        }
    }
    lemma_trim_lacks(k, '=');
    lemma_trim_lacks(k, '\n');
    lemma_trim_lacks(v, '\n');
    lemma_trim_idempotent(k);
    lemma_trim_idempotent(v);
    if trim(k).len() > 0 {
        // the line is trimmed, so the key begins where the line begins
        lemma_trim_idempotent(line);
        lemma_trimmed_ends(t);
        lemma_trim_start_shape(k);
        lemma_trim_end_shape(trim_start(k));
        assert(k[0] == t[0]);
        assert(trim_start(k) == k);
        assert(trim(k)[0] == k[0]);
    }
}

/// Every entry that is read from lines of text is storable.
pub proof fn lemma_parsed_lines_storable(ls: Seq<Seq<char>>)
    requires
        forall|i: int| 0 <= i < ls.len() ==> lacks(#[trigger] ls[i], '\n'),
    ensures
        forall|j: int| 0 <= j < parse_lines(ls).len() ==> storable(#[trigger] parse_lines(ls)[j]),
    decreases ls.len(),
{
    if ls.len() > 0 {
        let head = ls.drop_last();
        assert forall|i: int| 0 <= i < head.len() implies lacks(#[trigger] head[i], '\n') by {
            assert(head[i] == ls[i]);
        }
        lemma_parsed_lines_storable(head);
        assert(lacks(ls[ls.len() - 1], '\n'));
        if parse_line(ls.last()) is Some {
            lemma_parsed_line_storable(ls.last());
        }
        let all = parse_lines(ls);
        let before = parse_lines(head);
        assert forall|j: int| 0 <= j < all.len() implies storable(#[trigger] all[j]) by {
            if j < before.len() {
                assert(all[j] == before[j]);
            }
        }
    }
}

/// The value that a list of entries gives a key is the value of one of its
/// entries for that key.
proof fn lemma_map_of_value(p: Seq<Pair>, k: Seq<char>)
    requires
        map_of(p).contains_key(k),
    ensures
        exists|j: int| 0 <= j < p.len() && #[trigger] p[j] == (k, map_of(p)[k]),
    decreases p.len(),
{
    if p.len() > 0 {
        if p.last().0 == k {
            assert(p[p.len() - 1] == (k, map_of(p)[k]));
        } else {
            let q = p.drop_last();
            lemma_map_of_value(q, k);
            let j = choose|j: int| 0 <= j < q.len() && #[trigger] q[j] == (k, map_of(q)[k]);
            assert(p[j] == (k, map_of(p)[k]));
        }
    }
}

/// A configuration that was read from text, written out in key order and
/// read again, is the same configuration.
pub proof fn law_read_configuration_reloads(text: Seq<char>, listing: Seq<Pair>)
    requires
        sorted(listing),
        map_of(listing) == parse_ini_spec(text),
    ensures
        parse_ini_spec(render_pairs(listing)) == parse_ini_spec(text),
{
    let read = parse_lines(lines(text));
    lemma_lines_lack_line_feed(text);
    lemma_parsed_lines_storable(lines(text));
    assert forall|i: int| 0 <= i < listing.len() implies storable(#[trigger] listing[i]) by {
        lemma_map_of_at(listing, i);
        lemma_map_of_value(read, listing[i].0);
        let j = choose|j: int|
            0 <= j < read.len() && #[trigger] read[j] == (listing[i].0, map_of(read)[listing[i].0]);
        assert(read[j] == listing[i]);
    }
    law_config_round_trip(listing);
}

} // verus!
