//! Stored connections: reading their details and composing the commands
//! that change them.
//!
//! A command is composed here as the list of its arguments. Running it is
//! left to the caller, who runs the lists of a plan in order and stops at
//! the first that fails.

use crate::nm::{connections_view, ConnectionView, NmConnection};
use crate::text::{
    chars_eq_str, chars_key_value, chars_to_ascii_lower, eq_ignore_ascii_case, from_chars,
    key_value, lines, rows, split_lines, str_eq, strings_view, text_of, to_chars,
};
use vstd::prelude::*;
use vstd::string::StringExecFns;

verus! {

/// The IPv4 settings of a stored connection.
#[derive(Clone, Debug)]
pub struct NmIpv4Config {
    pub method: String,
    pub addresses: Vec<String>,
    pub gateway: Option<String>,
    pub dns: Vec<String>,
}

/// The wireless settings of a stored connection.
#[derive(Clone, Debug)]
pub struct NmWifiConfig {
    pub ssid: Option<String>,
    pub security: Option<String>,
}

/// Everything that is read of a stored connection.
#[derive(Clone, Debug)]
pub struct NmConnectionDetails {
    pub name: String,
    pub uuid: String,
    pub conn_type: String,
    pub device: String,
    pub autoconnect: bool,
    pub ipv4: NmIpv4Config,
    pub wifi: Option<NmWifiConfig>,
}

/// The details of a connection, as plain values. The wireless settings
/// count only where `has_wifi` holds.
pub struct DetailsView {
    pub name: Seq<char>,
    pub uuid: Seq<char>,
    pub conn_type: Seq<char>,
    pub device: Seq<char>,
    pub autoconnect: bool,
    pub method: Seq<char>,
    pub addresses: Seq<Seq<char>>,
    pub gateway: Option<Seq<char>>,
    pub dns: Seq<Seq<char>>,
    pub has_wifi: bool,
    pub wifi_ssid: Option<Seq<char>>,
    pub wifi_security: Option<Seq<char>>,
}

impl View for NmConnectionDetails {
    type V = DetailsView;

    open spec fn view(&self) -> DetailsView {
        DetailsView {
            name: self.name@,
            uuid: self.uuid@,
            conn_type: self.conn_type@,
            device: self.device@,
            autoconnect: self.autoconnect,
            method: self.ipv4.method@,
            addresses: strings_view(self.ipv4.addresses@),
            gateway: text_of(self.ipv4.gateway),
            dns: strings_view(self.ipv4.dns@),
            has_wifi: self.wifi is Some,
            wifi_ssid: match self.wifi {
                Some(w) => text_of(w.ssid),
                None => None,
            },
            wifi_security: match self.wifi {
                Some(w) => text_of(w.security),
                None => None,
            },
        }
    }
}

/// `Some(v)` where `v` is not empty.
pub open spec fn non_empty(v: Seq<char>) -> Option<Seq<char>> {
    if v.len() > 0 {
        Some(v)
    } else {
        None
    }
}

/// The details after one more line `key:value` of a connection report.
/// Lists grow by each value that is not empty; the gateway and the wireless
/// security keep their value where the line gives none.
pub open spec fn details_step(d: DetailsView, line: Seq<char>) -> DetailsView {
    let (k, v) = key_value(line, ':');
    if k == "connection.id"@ {
        DetailsView { name: v, ..d }
    } else if k == "connection.uuid"@ {
        DetailsView { uuid: v, ..d }
    } else if k == "connection.type"@ {
        DetailsView { conn_type: v, ..d }
    } else if k == "connection.interface-name"@ {
        DetailsView { device: v, ..d }
    } else if k == "connection.autoconnect"@ {
        DetailsView { autoconnect: eq_ignore_ascii_case(v, "yes"@), ..d }
    } else if k == "ipv4.method"@ {
        DetailsView { method: v, ..d }
    } else if k == "ipv4.addresses"@ {
        if v.len() > 0 {
            DetailsView { addresses: d.addresses.push(v), ..d }
        } else {
            d
        }
    } else if k == "ipv4.gateway"@ {
        if v.len() > 0 {
            DetailsView { gateway: Some(v), ..d }
        } else {
            d
        }
    } else if k == "ipv4.dns"@ {
        if v.len() > 0 {
            DetailsView { dns: d.dns.push(v), ..d }
        } else {
            d
        }
    } else if k == "802-11-wireless.ssid"@ {
        DetailsView { wifi_ssid: non_empty(v), ..d }
    } else if k == "802-11-wireless-security.key-mgmt"@ {
        if v.len() > 0 {
            DetailsView { wifi_security: Some(v), ..d }
        } else {
            d
        }
    } else {
        d
    }
}

/// The details that the lines of a report give, read from the first on,
/// for the connection asked for by `uuid`.
pub open spec fn details_scan(uuid: Seq<char>, ls: Seq<Seq<char>>) -> DetailsView
    decreases ls.len(),
{
    if ls.len() == 0 {
        DetailsView {
            name: Seq::empty(),
            uuid,
            conn_type: Seq::empty(),
            device: Seq::empty(),
            autoconnect: false,
            method: Seq::empty(),
            addresses: Seq::empty(),
            gateway: None,
            dns: Seq::empty(),
            has_wifi: true,
            wifi_ssid: None,
            wifi_security: None,
        }
    } else {
        details_step(details_scan(uuid, ls.drop_last()), ls.last())
    }
}

/// The details of a connection: what the lines give, with the wireless
/// settings only where the connection is a wireless one.
pub open spec fn details_of_lines(uuid: Seq<char>, ls: Seq<Seq<char>>) -> DetailsView {
    let d = details_scan(uuid, ls);
    if d.conn_type == "802-11-wireless"@ {
        d
    } else {
        DetailsView { has_wifi: false, wifi_ssid: None, wifi_security: None, ..d }
    }
}

/// Reads the report on the connection that was asked for by `uuid`.
pub fn connection_details(uuid: &str, stdout: &str) -> (out: NmConnectionDetails)
    ensures
        out@ == details_of_lines(uuid@, lines(stdout@)),
{
    let text = to_chars(stdout);
    let ls = split_lines(&text);
    let mut out = NmConnectionDetails {
        name: String::new(),
        uuid: uuid.to_owned(),
        conn_type: String::new(),
        device: String::new(),
        autoconnect: false,
        ipv4: NmIpv4Config {
            method: String::new(),
            addresses: Vec::new(),
            gateway: None,
            dns: Vec::new(),
        },
        wifi: Some(NmWifiConfig { ssid: None, security: None }),
    };
    let mut i: usize = 0;
    assert(rows(ls@).take(0) =~= Seq::<Seq<char>>::empty());
    assert(out@.addresses =~= Seq::<Seq<char>>::empty());
    assert(out@.dns =~= Seq::<Seq<char>>::empty());
    while i < ls.len()
        invariant
            i <= ls.len(),
            out.wifi is Some,
            out@ == details_scan(uuid@, rows(ls@).take(i as int)),
        decreases ls.len() - i,
    {
        let ghost next = rows(ls@).take(i + 1);
        let ghost before = out@;
        assert(next.drop_last() =~= rows(ls@).take(i as int));
        assert(next.last() == ls@[i as int]@);
        let (k, v) = chars_key_value(&ls[i], ':');
        if chars_eq_str(&k, "connection.id") {
            out.name = from_chars(&v);
        } else if chars_eq_str(&k, "connection.uuid") {
            out.uuid = from_chars(&v);
        } else if chars_eq_str(&k, "connection.type") {
            out.conn_type = from_chars(&v);
        } else if chars_eq_str(&k, "connection.interface-name") {
            out.device = from_chars(&v);
        } else if chars_eq_str(&k, "connection.autoconnect") {
            let lower = chars_to_ascii_lower(&v);
            let yes = chars_to_ascii_lower(&to_chars("yes"));
            out.autoconnect = crate::text::chars_eq(&lower, &yes);
        } else if chars_eq_str(&k, "ipv4.method") {
            out.ipv4.method = from_chars(&v);
        } else if chars_eq_str(&k, "ipv4.addresses") {
            if v.len() > 0 {
                let item = from_chars(&v);
                out.ipv4.addresses.push(item);
                assert(out@.addresses =~= before.addresses.push(v@));
            }
        } else if chars_eq_str(&k, "ipv4.gateway") {
            if v.len() > 0 {
                out.ipv4.gateway = Some(from_chars(&v));
            }
        } else if chars_eq_str(&k, "ipv4.dns") {
            if v.len() > 0 {
                let item = from_chars(&v);
                out.ipv4.dns.push(item);
                assert(out@.dns =~= before.dns.push(v@));
            }
        } else if chars_eq_str(&k, "802-11-wireless.ssid") {
            let security = match &out.wifi {
                Some(w) => match &w.security {
                    Some(s) => Some(s.clone()),
                    None => None,
                },
                None => None,
            };
            let ssid = if v.len() > 0 {
                Some(from_chars(&v))
            } else {
                None
            };
            out.wifi = Some(NmWifiConfig { ssid, security });
        } else if chars_eq_str(&k, "802-11-wireless-security.key-mgmt") {
            if v.len() > 0 {
                let ssid = match &out.wifi {
                    Some(w) => match &w.ssid {
                        Some(s) => Some(s.clone()),
                        None => None,
                    },
                    None => None,
                };
                out.wifi = Some(NmWifiConfig { ssid, security: Some(from_chars(&v)) });
            }
        }
        assert(out@ == details_step(before, next.last()));
        i += 1;
    }
    assert(rows(ls@).take(ls.len() as int) =~= rows(ls@));
    if !str_eq(out.conn_type.as_str(), "802-11-wireless") {
        out.wifi = None;
    }
    out
}

/// The first connection that goes by `id`, as identifier or as name.
pub open spec fn find_connection(cs: Seq<ConnectionView>, id: Seq<char>) -> Option<ConnectionView>
    decreases cs.len(),
{
    if cs.len() == 0 {
        None
    } else if cs[0].uuid == id || cs[0].name == id {
        Some(cs[0])
    } else {
        find_connection(cs.drop_first(), id)
    }
}

/// The identifier of the connection that goes by `id`; `None` where no
/// stored connection does.
pub fn resolve_connection_uuid(connections: &Vec<NmConnection>, id: &str) -> (r: Option<String>)
    ensures
        text_of(r) == match find_connection(connections_view(connections@), id@) {
            Some(c) => Some(c.uuid),
            None => None,
        },
{
    let ghost all = connections_view(connections@);
    let mut i: usize = 0;
    assert(all.skip(0) =~= all);
    while i < connections.len()
        invariant
            i <= connections.len(),
            all == connections_view(connections@),
            find_connection(all, id@) == find_connection(all.skip(i as int), id@),
        decreases connections.len() - i,
    {
        let c = &connections[i];
        assert(all.skip(i as int)[0] == c@);
        assert(all.skip(i as int).drop_first() =~= all.skip(i + 1));
        if str_eq(c.uuid.as_str(), id) || str_eq(c.name.as_str(), id) {
            return Some(c.uuid.clone());
        }
        i += 1;
    }
    None
}

/// The arguments that delete the connection `id`: by identifier where the
/// first stored connection that goes by `id` has it as its identifier, by
/// name in every other case.
pub open spec fn delete_args(cs: Seq<ConnectionView>, id: Seq<char>) -> Seq<Seq<char>> {
    match find_connection(cs, id) {
        Some(c) => if c.uuid == id {
            seq!["connection"@, "delete"@, "uuid"@, id]
        } else {
            seq!["connection"@, "delete"@, id]
        },
        None => seq!["connection"@, "delete"@, id],
    }
}

/// The arguments that delete the connection `id`.
pub fn delete_connection(connections: &Vec<NmConnection>, id: &str) -> (args: Vec<String>)
    ensures
        strings_view(args@) == delete_args(connections_view(connections@), id@),
{
    let ghost all = connections_view(connections@);
    let mut by_uuid = false;
    let mut i: usize = 0;
    assert(all.skip(0) =~= all);
    while i < connections.len()
        invariant_except_break
            i <= connections.len(),
            !by_uuid,
            find_connection(all, id@) == find_connection(all.skip(i as int), id@),
        invariant
            all == connections_view(connections@),
        ensures
            by_uuid <==> (find_connection(all, id@) is Some && find_connection(all, id@)->0.uuid
                == id@),
        decreases connections.len() - i,
    {
        let c = &connections[i];
        assert(all.skip(i as int)[0] == c@);
        assert(all.skip(i as int).drop_first() =~= all.skip(i + 1));
        if str_eq(c.uuid.as_str(), id) {
            by_uuid = true;
            break ;
        }
        if str_eq(c.name.as_str(), id) {
            break ;
        }
        i += 1;
    }
    let mut args: Vec<String> = Vec::new();
    args.push("connection".to_owned());
    args.push("delete".to_owned());
    if by_uuid {
        args.push("uuid".to_owned());
    }
    args.push(id.to_owned());
    assert(strings_view(args@) =~= delete_args(all, id@));
    args
}

/// The arguments that delete the connection with the identifier `uuid`.
pub fn delete_connection_uuid(uuid: &str) -> (args: Vec<String>)
    ensures
        strings_view(args@) == seq!["connection"@, "delete"@, "uuid"@, uuid@],
{
    let mut args: Vec<String> = Vec::new();
    args.push("connection".to_owned());
    args.push("delete".to_owned());
    args.push("uuid".to_owned());
    args.push(uuid.to_owned());
    assert(strings_view(args@) =~= seq!["connection"@, "delete"@, "uuid"@, uuid@]);
    args
}

/// The identifiers of the wireless connections, in listing order.
pub open spec fn wifi_uuids(cs: Seq<ConnectionView>) -> Seq<Seq<char>>
    decreases cs.len(),
{
    if cs.len() == 0 {
        Seq::empty()
    } else if cs.last().conn_type == "802-11-wireless"@ {
        wifi_uuids(cs.drop_last()).push(cs.last().uuid)
    } else {
        wifi_uuids(cs.drop_last())
    }
}

/// The identifiers of the connections to delete when every stored wireless
/// connection is to go.
pub fn delete_all_wifi_connections(connections: &Vec<NmConnection>) -> (out: Vec<String>)
    ensures
        strings_view(out@) == wifi_uuids(connections_view(connections@)),
{
    let ghost all = connections_view(connections@);
    let mut out: Vec<String> = Vec::new();
    let mut i: usize = 0;
    assert(all.take(0) =~= Seq::<ConnectionView>::empty());
    assert(strings_view(out@) =~= Seq::<Seq<char>>::empty());
    while i < connections.len()
        invariant
            i <= connections.len(),
            all == connections_view(connections@),
            strings_view(out@) == wifi_uuids(all.take(i as int)),
        decreases connections.len() - i,
    {
        let ghost done = strings_view(out@);
        assert(all.take(i + 1).drop_last() =~= all.take(i as int));
        assert(all.take(i + 1).last() == connections@[i as int]@);
        if str_eq(connections[i].conn_type.as_str(), "802-11-wireless") {
            out.push(connections[i].uuid.clone());
            assert(strings_view(out@) =~= done.push(connections@[i as int]@.uuid));
        }
        i += 1;
    }
    assert(all.take(connections.len() as int) =~= all);
    out
}

/// The pieces of `parts` with `sep` between each two.
pub open spec fn join(parts: Seq<Seq<char>>, sep: char) -> Seq<char>
    decreases parts.len(),
{
    if parts.len() == 0 {
        Seq::empty()
    } else if parts.len() == 1 {
        parts[0]
    } else {
        join(parts.drop_last(), sep) + seq![sep] + parts.last()
    }
}

/// The strings of `parts` with `sep` between each two.
pub fn join_strings(parts: &Vec<String>, sep: char) -> (s: String)
    ensures
        s@ == join(strings_view(parts@), sep),
{
    let ghost all = strings_view(parts@);
    let mut s = String::new();
    let mut i: usize = 0;
    assert(all.take(0) =~= Seq::<Seq<char>>::empty());
    while i < parts.len()
        invariant
            i <= parts.len(),
            all == strings_view(parts@),
            s@ == join(all.take(i as int), sep),
        decreases parts.len() - i,
    {
        let ghost head = all.take(i as int);
        let ghost next = all.take(i + 1);
        assert(next.drop_last() =~= head);
        assert(next.last() == parts@[i as int]@);
        if i > 0 {
            s.push(sep);
        }
        s.append(parts[i].as_str());
        assert(s@ =~= join(next, sep)) by {
            if i == 0 {
                assert(next[0] == parts@[0]@);
                assert(Seq::<char>::empty() + parts@[0]@ =~= parts@[0]@);
            } else {
                assert(join(head, sep).push(sep) =~= join(head, sep) + seq![sep]);
            }
        }
        i += 1;
    }
    assert(all.take(parts.len() as int) =~= all);
    s
}

/// Why IPv4 settings are refused.
#[derive(Clone, Copy, Debug, PartialEq, Eq, Structural)]
pub enum Ipv4Error {
    /// The method is `manual` and no address is given.
    ManualNeedsAddress,
    /// The method is neither `manual` nor `auto`.
    UnsupportedMethod,
}

impl Ipv4Error {
    /// The sentence that tells a user what is wrong with `method`.
    pub fn message(&self, method: &str) -> (s: String)
        ensures
            s@ == match self {
                Ipv4Error::ManualNeedsAddress => "manual method requires ipv4 address"@,
                Ipv4Error::UnsupportedMethod => "unsupported ipv4 method "@ + method@,
            },
    {
        match self {
            Ipv4Error::ManualNeedsAddress => "manual method requires ipv4 address".to_owned(),
            Ipv4Error::UnsupportedMethod => {
                let mut s = "unsupported ipv4 method ".to_owned();
                s.append(method);
                s
            },
        }
    }
}

/// The text of an optional string, or the empty text.
pub open spec fn or_empty(o: Option<Seq<char>>) -> Seq<char> {
    match o {
        Some(s) => s,
        None => Seq::empty(),
    }
}

/// The arguments that set the IPv4 settings of the connection `uuid`.
/// With `manual` the address is required, and gateway and name servers are
/// set to what is given or cleared; the connection must then get its
/// address. With `auto` all three are cleared and the connection may do
/// without an address.
pub open spec fn ipv4_args(
    uuid: Seq<char>,
    method: Seq<char>,
    address: Option<Seq<char>>,
    gateway: Option<Seq<char>>,
    dns: Seq<Seq<char>>,
) -> Result<Seq<Seq<char>>, Ipv4Error> {
    let head = seq!["connection"@, "modify"@, uuid, "ipv4.method"@, method];
    if method == "manual"@ {
        match address {
            None => Err(Ipv4Error::ManualNeedsAddress),
            Some(a) => Ok(
                head + seq![
                    "ipv4.addresses"@,
                    a,
                    "ipv4.gateway"@,
                    or_empty(gateway),
                    "ipv4.dns"@,
                    join(dns, ','),
                    "ipv4.may-fail"@,
                    "no"@,
                ],
            ),
        }
    } else if method == "auto"@ {
        Ok(
            head + seq![
                "ipv4.addresses"@,
                Seq::<char>::empty(),
                "ipv4.gateway"@,
                Seq::<char>::empty(),
                "ipv4.dns"@,
                Seq::<char>::empty(),
                "ipv4.may-fail"@,
                "yes"@,
            ],
        )
    } else {
        Err(Ipv4Error::UnsupportedMethod)
    }
}

/// The arguments that set the IPv4 settings of the connection `uuid`.
pub fn update_ipv4_settings(
    uuid: &str,
    method: &str,
    address: Option<&str>,
    gateway: Option<&str>,
    dns: &Vec<String>,
) -> (r: Result<Vec<String>, Ipv4Error>)
    ensures
        match ipv4_args(
            uuid@,
            method@,
            match address {
                Some(a) => Some(a@),
                None => None,
            },
            match gateway {
                Some(g) => Some(g@),
                None => None,
            },
            strings_view(dns@),
        ) {
            Ok(args) => r is Ok && strings_view(r->Ok_0@) == args,
            Err(e) => r is Err && r->Err_0 == e,
        },
{
    let mut args: Vec<String> = Vec::new();
    args.push("connection".to_owned());
    args.push("modify".to_owned());
    args.push(uuid.to_owned());
    args.push("ipv4.method".to_owned());
    args.push(method.to_owned());
    if str_eq(method, "manual") {
        match address {
            None => Err(Ipv4Error::ManualNeedsAddress),
            Some(a) => {
                args.push("ipv4.addresses".to_owned());
                args.push(a.to_owned());
                args.push("ipv4.gateway".to_owned());
                match gateway {
                    Some(g) => args.push(g.to_owned()),
                    None => args.push(String::new()),
                }
                args.push("ipv4.dns".to_owned());
                args.push(join_strings(dns, ','));
                args.push("ipv4.may-fail".to_owned());
                args.push("no".to_owned());
                assert(strings_view(args@) =~= seq![
                    "connection"@,
                    "modify"@,
                    uuid@,
                    "ipv4.method"@,
                    method@,
                ] + seq![
                    "ipv4.addresses"@,
                    a@,
                    "ipv4.gateway"@,
                    or_empty(
                        match gateway {
                            Some(g) => Some(g@),
                            None => None,
                        },
                    ),
                    "ipv4.dns"@,
                    join(strings_view(dns@), ','),
                    "ipv4.may-fail"@,
                    "no"@,
                ]);
                Ok(args)
            },
        }
    } else if str_eq(method, "auto") {
        args.push("ipv4.addresses".to_owned());
        args.push(String::new());
        args.push("ipv4.gateway".to_owned());
        args.push(String::new());
        args.push("ipv4.dns".to_owned());
        args.push(String::new());
        args.push("ipv4.may-fail".to_owned());
        args.push("yes".to_owned());
        assert(strings_view(args@) =~= seq![
            "connection"@,
            "modify"@,
            uuid@,
            "ipv4.method"@,
            method@,
        ] + seq![
            "ipv4.addresses"@,
            Seq::<char>::empty(),
            "ipv4.gateway"@,
            Seq::<char>::empty(),
            "ipv4.dns"@,
            Seq::<char>::empty(),
            "ipv4.may-fail"@,
            "yes"@,
        ]);
        Ok(args)
    } else {
        Err(Ipv4Error::UnsupportedMethod)
    }
}

/// The arguments that bring the connection `uuid` up.
pub fn activate_connection(uuid: &str) -> (args: Vec<String>)
    ensures
        strings_view(args@) == seq!["connection"@, "up"@, uuid@],
{
    let mut args: Vec<String> = Vec::new();
    args.push("connection".to_owned());
    args.push("up".to_owned());
    args.push(uuid.to_owned());
    assert(strings_view(args@) =~= seq!["connection"@, "up"@, uuid@]);
    args
}

/// `yes` or `no`.
pub open spec fn yes_no(b: bool) -> Seq<char> {
    if b {
        "yes"@
    } else {
        "no"@
    }
}

fn yes_no_string(b: bool) -> (s: String)
    ensures
        s@ == yes_no(b),
{
    if b {
        "yes".to_owned()
    } else {
        "no".to_owned()
    }
}

/// A password that is given and not empty.
pub open spec fn usable_password(password: Option<Seq<char>>) -> bool {
    password is Some && password->0.len() > 0
}

/// The arguments that join the wireless network `ssid` on `iface`, with
/// the password where one is given and not empty.
pub open spec fn connect_args(iface: Seq<char>, ssid: Seq<char>, password: Option<Seq<char>>) -> Seq<
    Seq<char>,
> {
    let head = seq!["device"@, "wifi"@, "connect"@, ssid, "ifname"@, iface];
    if usable_password(password) {
        head + seq!["password"@, password->0]
    } else {
        head
    }
}

/// The arguments that join the wireless network `ssid` on `iface`.
pub fn connect(iface: &str, ssid: &str, password: Option<&str>) -> (args: Vec<String>)
    ensures
        strings_view(args@) == connect_args(
            iface@,
            ssid@,
            match password {
                Some(p) => Some(p@),
                None => None,
            },
        ),
{
    let mut args: Vec<String> = Vec::new();
    args.push("device".to_owned());
    args.push("wifi".to_owned());
    args.push("connect".to_owned());
    args.push(ssid.to_owned());
    args.push("ifname".to_owned());
    args.push(iface.to_owned());
    assert(strings_view(args@) =~= seq!["device"@, "wifi"@, "connect"@, ssid@, "ifname"@, iface@]);
    if let Some(p) = password {
        if !p.is_empty() {
            args.push("password".to_owned());
            args.push(p.to_owned());
            assert(strings_view(args@) =~= seq![
                "device"@,
                "wifi"@,
                "connect"@,
                ssid@,
                "ifname"@,
                iface@,
            ] + seq!["password"@, p@]);
        }
    }
    args
}

/// The arguments that take `iface` off its connection.
pub fn disconnect(iface: &str) -> (args: Vec<String>)
    ensures
        strings_view(args@) == seq!["device"@, "disconnect"@, iface@],
{
    let mut args: Vec<String> = Vec::new();
    args.push("device".to_owned());
    args.push("disconnect".to_owned());
    args.push(iface.to_owned());
    assert(strings_view(args@) =~= seq!["device"@, "disconnect"@, iface@]);
    args
}

/// The argument lists of a vector, as plain values.
pub open spec fn plan_view(v: Seq<Vec<String>>) -> Seq<Seq<Seq<char>>> {
    Seq::new(v.len(), |i: int| strings_view(v[i]@))
}

/// The commands that join the wireless network `ssid` on `iface`: the join
/// itself and, where the profile is not to connect by itself, the command
/// that says so.
pub open spec fn connect_wifi_plan(
    iface: Seq<char>,
    ssid: Seq<char>,
    password: Option<Seq<char>>,
    autoconnect: bool,
) -> Seq<Seq<Seq<char>>> {
    if autoconnect {
        seq![connect_args(iface, ssid, password)]
    } else {
        seq![
            connect_args(iface, ssid, password),
            seq!["connection"@, "modify"@, ssid, "autoconnect"@, "no"@],
        ]
    }
}

/// The commands that join the wireless network `ssid` on `iface`.
pub fn connect_wifi(iface: &str, ssid: &str, password: Option<&str>, autoconnect: bool) -> (plan:
    Vec<Vec<String>>)
    ensures
        plan_view(plan@) == connect_wifi_plan(
            iface@,
            ssid@,
            match password {
                Some(p) => Some(p@),
                None => None,
            },
            autoconnect,
        ),
{
    let mut plan: Vec<Vec<String>> = Vec::new();
    plan.push(connect(iface, ssid, password));
    if !autoconnect {
        let mut args: Vec<String> = Vec::new();
        args.push("connection".to_owned());
        args.push("modify".to_owned());
        args.push(ssid.to_owned());
        args.push("autoconnect".to_owned());
        args.push("no".to_owned());
        assert(strings_view(args@) =~= seq![
            "connection"@,
            "modify"@,
            ssid@,
            "autoconnect"@,
            "no"@,
        ]);
        plan.push(args);
    }
    assert(plan_view(plan@) =~= connect_wifi_plan(
        iface@,
        ssid@,
        match password {
            Some(p) => Some(p@),
            None => None,
        },
        autoconnect,
    ));
    plan
}

/// Why a connection cannot be added.
#[derive(Clone, Copy, Debug, PartialEq, Eq, Structural)]
pub enum AddConnectionError {
    /// The connection is a wireless one and no network name is given.
    SsidRequired,
}

impl AddConnectionError {
    /// The sentence that tells a user what is wrong.
    pub fn message(&self) -> (s: String)
        ensures
            s@ == "ssid is required for wifi connections"@,
    {
        "ssid is required for wifi connections".to_owned()
    }
}

/// The commands that add a connection. Every connection is added and then
/// told whether to connect by itself. A wireless one needs a network name,
/// and is told in between whether the network is hidden and how it is
/// secured: with the password where one is given and not empty, else not at
/// all.
pub open spec fn add_connection_plan(
    name: Seq<char>,
    iface: Seq<char>,
    conn_type: Seq<char>,
    ssid: Option<Seq<char>>,
    password: Option<Seq<char>>,
    autoconnect: bool,
    hidden: bool,
) -> Result<Seq<Seq<Seq<char>>>, AddConnectionError> {
    let add = seq![
        "connection"@,
        "add"@,
        "type"@,
        conn_type,
        "ifname"@,
        iface,
        "con-name"@,
        name,
    ];
    let auto = seq!["connection"@, "modify"@, name, "autoconnect"@, yes_no(autoconnect)];
    if conn_type == "802-11-wireless"@ {
        match ssid {
            None => Err(AddConnectionError::SsidRequired),
            Some(s) => Ok(
                seq![
                    add + seq!["ssid"@, s],
                    seq!["connection"@, "modify"@, name, "wifi.hidden"@, yes_no(hidden)],
                    if usable_password(password) {
                        seq![
                            "connection"@,
                            "modify"@,
                            name,
                            "wifi-sec.key-mgmt"@,
                            "wpa-psk"@,
                            "wifi-sec.psk"@,
                            password->0,
                        ]
                    } else {
                        seq!["connection"@, "modify"@, name, "wifi-sec.key-mgmt"@, "none"@]
                    },
                    auto,
                ],
            ),
        }
    } else {
        Ok(seq![add, auto])
    }
}

/// The commands that add a connection.
pub fn add_connection(
    name: &str,
    iface: &str,
    conn_type: &str,
    ssid: Option<&str>,
    password: Option<&str>,
    autoconnect: bool,
    hidden: bool,
) -> (r: Result<Vec<Vec<String>>, AddConnectionError>)
    ensures
        match add_connection_plan(
            name@,
            iface@,
            conn_type@,
            match ssid {
                Some(s) => Some(s@),
                None => None,
            },
            match password {
                Some(p) => Some(p@),
                None => None,
            },
            autoconnect,
            hidden,
        ) {
            Ok(plan) => r is Ok && plan_view(r->Ok_0@) == plan,
            Err(e) => r is Err && r->Err_0 == e,
        },
{
    let ghost pw = match password {
        Some(p) => Some(p@),
        None => None,
    };
    let wireless = str_eq(conn_type, "802-11-wireless");
    let mut plan: Vec<Vec<String>> = Vec::new();
    let mut add: Vec<String> = Vec::new();
    add.push("connection".to_owned());
    add.push("add".to_owned());
    add.push("type".to_owned());
    add.push(conn_type.to_owned());
    add.push("ifname".to_owned());
    add.push(iface.to_owned());
    add.push("con-name".to_owned());
    add.push(name.to_owned());
    let ghost add_view = seq![
        "connection"@,
        "add"@,
        "type"@,
        conn_type@,
        "ifname"@,
        iface@,
        "con-name"@,
        name@,
    ];
    assert(strings_view(add@) =~= add_view);
    let mut auto: Vec<String> = Vec::new();
    auto.push("connection".to_owned());
    auto.push("modify".to_owned());
    auto.push(name.to_owned());
    auto.push("autoconnect".to_owned());
    auto.push(yes_no_string(autoconnect));
    let ghost auto_view = seq!["connection"@, "modify"@, name@, "autoconnect"@, yes_no(autoconnect)];
    assert(strings_view(auto@) =~= auto_view);
    if wireless {
        let s = match ssid {
            Some(s) => s,
            None => {
                return Err(AddConnectionError::SsidRequired);
            },
        };
        add.push("ssid".to_owned());
        add.push(s.to_owned());
        assert(strings_view(add@) =~= add_view + seq!["ssid"@, s@]);
        let mut hidden_args: Vec<String> = Vec::new();
        hidden_args.push("connection".to_owned());
        hidden_args.push("modify".to_owned());
        hidden_args.push(name.to_owned());
        hidden_args.push("wifi.hidden".to_owned());
        hidden_args.push(yes_no_string(hidden));
        let ghost hidden_view = seq!["connection"@, "modify"@, name@, "wifi.hidden"@, yes_no(hidden)];
        assert(strings_view(hidden_args@) =~= hidden_view);
        let mut secure: Vec<String> = Vec::new();
        secure.push("connection".to_owned());
        secure.push("modify".to_owned());
        secure.push(name.to_owned());
        secure.push("wifi-sec.key-mgmt".to_owned());
        let usable = match password {
            Some(p) => !p.is_empty(),
            None => false,
        };
        assert(usable == usable_password(pw));
        if usable {
            let p = password.unwrap();
            secure.push("wpa-psk".to_owned());
            secure.push("wifi-sec.psk".to_owned());
            secure.push(p.to_owned());
            assert(strings_view(secure@) =~= seq![
                "connection"@,
                "modify"@,
                name@,
                "wifi-sec.key-mgmt"@,
                "wpa-psk"@,
                "wifi-sec.psk"@,
                p@,
            ]);
        } else {
            secure.push("none".to_owned());
            assert(strings_view(secure@) =~= seq![
                "connection"@,
                "modify"@,
                name@,
                "wifi-sec.key-mgmt"@,
                "none"@,
            ]);
        }
        let ghost secure_view = strings_view(secure@);
        plan.push(add);
        plan.push(hidden_args);
        plan.push(secure);
        plan.push(auto);
        assert(plan_view(plan@) =~= seq![
            add_view + seq!["ssid"@, s@],
            hidden_view,
            secure_view,
            auto_view,
        ]);
        Ok(plan)
    } else {
        plan.push(add);
        plan.push(auto);
        assert(plan_view(plan@) =~= seq![add_view, auto_view]);
        Ok(plan)
    }
}

} // verus!
