//! What the network manager reports, read from its terse, colon-separated
//! output.
//!
//! Every listing is read line by line. A line with too few fields is
//! skipped; it never fails the listing as a whole.

use crate::text::{
    chars_eq_str, chars_key_value, chars_parse_u8, chars_start_with_str, from_chars, has_prefix,
    key_value, lines, parse_u8, rows, split, split_chars, split_lines, str_eq, strings_view,
    text_of, to_chars, trim, trim_chars,
};
use vstd::prelude::*;

verus! {

/// A network device as the network manager lists it.
#[derive(Clone, Debug)]
pub struct NmDeviceInfo {
    pub name: String,
    pub device_type: String,
    pub state: String,
    pub connection: Option<String>,
}

/// A device, as plain values.
pub struct DeviceView {
    pub name: Seq<char>,
    pub device_type: Seq<char>,
    pub state: Seq<char>,
    pub connection: Option<Seq<char>>,
}

impl View for NmDeviceInfo {
    type V = DeviceView;

    open spec fn view(&self) -> DeviceView {
        DeviceView {
            name: self.name@,
            device_type: self.device_type@,
            state: self.state@,
            connection: match self.connection {
                Some(c) => Some(c@),
                None => None,
            },
        }
    }
}

/// The devices that a vector holds, as plain values.
pub open spec fn devices_view(v: Seq<NmDeviceInfo>) -> Seq<DeviceView> {
    Seq::new(v.len(), |i: int| v[i]@)
}

/// A device that never carries a default route: a bridge, a dummy, the
/// loopback, a tunnel, a virtual ethernet pair, or one named like these.
pub open spec fn is_virtual_device(d: DeviceView) -> bool {
    ||| d.device_type == "bridge"@
    ||| d.device_type == "dummy"@
    ||| d.device_type == "loopback"@
    ||| d.device_type == "tun"@
    ||| d.device_type == "veth"@
    ||| has_prefix(d.name, "docker"@)
    ||| has_prefix(d.name, "br-"@)
    ||| has_prefix(d.name, "veth"@)
    ||| d.name == "lo"@
}

impl NmDeviceInfo {
    /// Whether this device never carries a default route.
    pub fn is_virtual(&self) -> (b: bool)
        ensures
            b == is_virtual_device(self@),
    {
        let t = to_chars(self.device_type.as_str());
        let n = to_chars(self.name.as_str());
        chars_eq_str(&t, "bridge") || chars_eq_str(&t, "dummy") || chars_eq_str(&t, "loopback")
            || chars_eq_str(&t, "tun") || chars_eq_str(&t, "veth") || chars_start_with_str(
            &n,
            "docker",
        ) || chars_start_with_str(&n, "br-") || chars_start_with_str(&n, "veth") || chars_eq_str(
            &n,
            "lo",
        )
    }
}

/// The device that one line of a device listing describes: name, type,
/// state and, where a fourth field is there and not empty, the connection.
pub open spec fn device_of_line(line: Seq<char>) -> Option<DeviceView> {
    let parts = split(line, ':');
    if parts.len() < 3 {
        None
    } else {
        Some(
            DeviceView {
                name: parts[0],
                device_type: parts[1],
                state: parts[2],
                connection: if parts.len() > 3 && parts[3].len() > 0 {
                    Some(parts[3])
                } else {
                    None
                },
            },
        )
    }
}

/// The devices that the lines of a listing describe, without the virtual
/// ones.
pub open spec fn devices_of_lines(ls: Seq<Seq<char>>) -> Seq<DeviceView>
    decreases ls.len(),
{
    if ls.len() == 0 {
        Seq::empty()
    } else {
        let head = devices_of_lines(ls.drop_last());
        match device_of_line(ls.last()) {
            Some(d) => if is_virtual_device(d) {
                head
            } else {
                head.push(d)
            },
            None => head,
        }
    }
}

/// Reads a device listing with the fields device, type, state and
/// connection. Virtual devices are left out.
pub fn list_devices(stdout: &str) -> (out: Vec<NmDeviceInfo>)
    ensures
        devices_view(out@) == devices_of_lines(lines(stdout@)),
        forall|i: int| 0 <= i < out@.len() ==> !is_virtual_device(#[trigger] out@[i]@),
{
    let text = to_chars(stdout);
    let ls = split_lines(&text);
    let mut out: Vec<NmDeviceInfo> = Vec::new();
    let mut i: usize = 0;
    assert(rows(ls@).take(0) =~= Seq::<Seq<char>>::empty());
    assert(devices_view(out@) =~= Seq::<DeviceView>::empty());
    while i < ls.len()
        invariant
            i <= ls.len(),
            devices_view(out@) == devices_of_lines(rows(ls@).take(i as int)),
            forall|j: int| 0 <= j < out@.len() ==> !is_virtual_device(#[trigger] out@[j]@),
        decreases ls.len() - i,
    {
        let ghost next = rows(ls@).take(i + 1);
        let ghost done = devices_view(out@);
        assert(next.drop_last() =~= rows(ls@).take(i as int));
        assert(next.last() == ls@[i as int]@);
        let parts = split_chars(&ls[i], ':');
        assert(rows(parts@).len() == parts@.len());
        if parts.len() >= 3 {
            assert(rows(parts@)[0] == parts@[0]@ && rows(parts@)[1] == parts@[1]@ && rows(
                parts@,
            )[2] == parts@[2]@);
            let connection = if parts.len() > 3 && parts[3].len() > 0 {
                assert(rows(parts@)[3] == parts@[3]@);
                Some(from_chars(&parts[3]))
            } else {
                if parts.len() > 3 {
                    assert(rows(parts@)[3] == parts@[3]@);
                }
                None
            };
            let d = NmDeviceInfo {
                name: from_chars(&parts[0]),
                device_type: from_chars(&parts[1]),
                state: from_chars(&parts[2]),
                connection,
            };
            assert(device_of_line(next.last()) == Some(d@));
            if !d.is_virtual() {
                out.push(d);
                assert(devices_view(out@) =~= done.push(d@));
            }
        }
        i += 1;
    }
    assert(rows(ls@).take(ls.len() as int) =~= rows(ls@));
    out
}

/// A stored connection as the network manager lists it.
#[derive(Clone, Debug)]
pub struct NmConnection {
    pub name: String,
    pub uuid: String,
    pub conn_type: String,
    pub device: String,
    pub active: bool,
}

/// A connection, as plain values.
pub struct ConnectionView {
    pub name: Seq<char>,
    pub uuid: Seq<char>,
    pub conn_type: Seq<char>,
    pub device: Seq<char>,
    pub active: bool,
}

impl View for NmConnection {
    type V = ConnectionView;

    open spec fn view(&self) -> ConnectionView {
        ConnectionView {
            name: self.name@,
            uuid: self.uuid@,
            conn_type: self.conn_type@,
            device: self.device@,
            active: self.active,
        }
    }
}

impl NmConnection {
    /// A copy with the same values.
    pub fn duplicate(&self) -> (c: Self)
        ensures
            c@ == self@,
    {
        NmConnection {
            name: self.name.clone(),
            uuid: self.uuid.clone(),
            conn_type: self.conn_type.clone(),
            device: self.device.clone(),
            active: self.active,
        }
    }
}

/// The connections that a vector holds, as plain values.
pub open spec fn connections_view(v: Seq<NmConnection>) -> Seq<ConnectionView> {
    Seq::new(v.len(), |i: int| v[i]@)
}

/// The identifiers that the lines of a listing name: each line trimmed,
/// blank lines left out.
pub open spec fn ids_of_lines(ls: Seq<Seq<char>>) -> Seq<Seq<char>>
    decreases ls.len(),
{
    if ls.len() == 0 {
        Seq::empty()
    } else {
        let head = ids_of_lines(ls.drop_last());
        if trim(ls.last()).len() == 0 {
            head
        } else {
            head.push(trim(ls.last()))
        }
    }
}

/// Reads the identifiers of the active connections, one per line.
pub fn active_connection_ids(stdout: &str) -> (out: Vec<String>)
    ensures
        strings_view(out@) == ids_of_lines(lines(stdout@)),
{
    let text = to_chars(stdout);
    let ls = split_lines(&text);
    let mut out: Vec<String> = Vec::new();
    let mut i: usize = 0;
    assert(rows(ls@).take(0) =~= Seq::<Seq<char>>::empty());
    assert(strings_view(out@) =~= Seq::<Seq<char>>::empty());
    while i < ls.len()
        invariant
            i <= ls.len(),
            strings_view(out@) == ids_of_lines(rows(ls@).take(i as int)),
        decreases ls.len() - i,
    {
        let ghost next = rows(ls@).take(i + 1);
        let ghost done = strings_view(out@);
        assert(next.drop_last() =~= rows(ls@).take(i as int));
        assert(next.last() == ls@[i as int]@);
        let t = trim_chars(&ls[i]);
        if t.len() > 0 {
            let id = from_chars(&t);
            out.push(id);
            assert(strings_view(out@) =~= done.push(t@));
        }
        i += 1;
    }
    assert(rows(ls@).take(ls.len() as int) =~= rows(ls@));
    out
}

/// Whether `id` is among `ids`.
pub fn contains_id(ids: &Vec<String>, id: &str) -> (b: bool)
    ensures
        b == strings_view(ids@).contains(id@),
{
    let mut i: usize = 0;
    while i < ids.len()
        invariant
            i <= ids.len(),
            forall|j: int| 0 <= j < i ==> strings_view(ids@)[j] != id@,
        decreases ids.len() - i,
    {
        if str_eq(ids[i].as_str(), id) {
            assert(strings_view(ids@)[i as int] == id@);
            return true;
        }
        i += 1;
    }
    false
}

/// The connection that one line of a connection listing describes: name,
/// identifier, type and device. It counts as active where its identifier is
/// among `active`.
pub open spec fn connection_of_line(line: Seq<char>, active: Seq<Seq<char>>) -> Option<
    ConnectionView,
> {
    let parts = split(line, ':');
    if parts.len() < 4 {
        None
    } else {
        Some(
            ConnectionView {
                name: parts[0],
                uuid: parts[1],
                conn_type: parts[2],
                device: parts[3],
                active: active.contains(parts[1]),
            },
        )
    }
}

/// The connections that the lines of a listing describe.
pub open spec fn connections_of_lines(ls: Seq<Seq<char>>, active: Seq<Seq<char>>) -> Seq<
    ConnectionView,
>
    decreases ls.len(),
{
    if ls.len() == 0 {
        Seq::empty()
    } else {
        let head = connections_of_lines(ls.drop_last(), active);
        match connection_of_line(ls.last(), active) {
            Some(c) => head.push(c),
            None => head,
        }
    }
}

/// Reads a connection listing with the fields name, identifier, type and
/// device, marking as active the connections whose identifier is in `active`.
pub fn list_connections(stdout: &str, active: &Vec<String>) -> (out: Vec<NmConnection>)
    ensures
        connections_view(out@) == connections_of_lines(lines(stdout@), strings_view(active@)),
{
    let text = to_chars(stdout);
    let ls = split_lines(&text);
    let mut out: Vec<NmConnection> = Vec::new();
    let mut i: usize = 0;
    let ghost act = strings_view(active@);
    assert(rows(ls@).take(0) =~= Seq::<Seq<char>>::empty());
    assert(connections_view(out@) =~= Seq::<ConnectionView>::empty());
    while i < ls.len()
        invariant
            i <= ls.len(),
            act == strings_view(active@),
            connections_view(out@) == connections_of_lines(rows(ls@).take(i as int), act),
        decreases ls.len() - i,
    {
        let ghost next = rows(ls@).take(i + 1);
        let ghost done = connections_view(out@);
        assert(next.drop_last() =~= rows(ls@).take(i as int));
        assert(next.last() == ls@[i as int]@);
        let parts = split_chars(&ls[i], ':');
        assert(rows(parts@).len() == parts@.len());
        if parts.len() >= 4 {
            assert(rows(parts@)[0] == parts@[0]@ && rows(parts@)[1] == parts@[1]@ && rows(
                parts@,
            )[2] == parts@[2]@ && rows(parts@)[3] == parts@[3]@);
            let uuid = from_chars(&parts[1]);
            let is_active = contains_id(active, uuid.as_str());
            let c = NmConnection {
                name: from_chars(&parts[0]),
                uuid,
                conn_type: from_chars(&parts[2]),
                device: from_chars(&parts[3]),
                active: is_active,
            };
            assert(connection_of_line(next.last(), act) == Some(c@));
            out.push(c);
            assert(connections_view(out@) =~= done.push(c@));
        }
        i += 1;
    }
    assert(rows(ls@).take(ls.len() as int) =~= rows(ls@));
    out
}

/// The connections of `cs` that are active, in their order.
pub open spec fn active_only(cs: Seq<ConnectionView>) -> Seq<ConnectionView>
    decreases cs.len(),
{
    if cs.len() == 0 {
        Seq::empty()
    } else if cs.last().active {
        active_only(cs.drop_last()).push(cs.last())
    } else {
        active_only(cs.drop_last())
    }
}

/// Keeps the active connections.
pub fn active_connections(connections: Vec<NmConnection>) -> (out: Vec<NmConnection>)
    ensures
        connections_view(out@) == active_only(connections_view(connections@)),
{
    let ghost all = connections_view(connections@);
    let mut out: Vec<NmConnection> = Vec::new();
    let mut i: usize = 0;
    assert(all.take(0) =~= Seq::<ConnectionView>::empty());
    assert(connections_view(out@) =~= active_only(all.take(0)));
    while i < connections.len()
        invariant
            i <= connections.len(),
            all == connections_view(connections@),
            connections_view(out@) == active_only(all.take(i as int)),
        decreases connections.len() - i,
    {
        let ghost done = connections_view(out@);
        let ghost head = all.take(i as int);
        assert(all.take(i + 1).drop_last() =~= head);
        if connections[i].active {
            let c = connections[i].duplicate();
            out.push(c);
            assert(connections_view(out@) =~= done.push(all[i as int]));
        }
        i += 1;
    }
    assert(all.take(connections.len() as int) =~= all);
    out
}

/// The device that a listing of the devices of active connections names
/// first: the first line that, trimmed, is neither empty nor `--`.
pub open spec fn primary_of_lines(ls: Seq<Seq<char>>) -> Option<Seq<char>>
    decreases ls.len(),
{
    if ls.len() == 0 {
        None
    } else {
        let t = trim(ls[0]);
        if t.len() > 0 && t != "--"@ {
            Some(t)
        } else {
            primary_of_lines(ls.drop_first())
        }
    }
}

/// Reads the network manager's own answer to which device is the primary
/// active one.
pub fn primary_active_device(stdout: &str) -> (r: Option<String>)
    ensures
        text_of(r) == primary_of_lines(lines(stdout@)),
{
    let text = to_chars(stdout);
    let ls = split_lines(&text);
    let mut i: usize = 0;
    let ghost all = rows(ls@);
    assert(all.skip(0) =~= all);
    while i < ls.len()
        invariant
            i <= ls.len(),
            all == rows(ls@),
            all == lines(stdout@),
            primary_of_lines(all) == primary_of_lines(all.skip(i as int)),
        decreases ls.len() - i,
    {
        let t = trim_chars(&ls[i]);
        assert(all.skip(i as int)[0] == ls@[i as int]@);
        assert(all.skip(i as int).drop_first() =~= all.skip(i + 1));
        if t.len() > 0 && !chars_eq_str(&t, "--") {
            return Some(from_chars(&t));
        }
        i += 1;
    }
    None
}

/// A wireless network seen in a scan.
#[derive(Clone, Debug)]
pub struct WifiNetwork {
    pub ssid: String,
    pub strength: u8,
    pub security: String,
    pub active: bool,
}

/// A wireless network, as plain values.
pub struct NetworkView {
    pub ssid: Seq<char>,
    pub strength: u8,
    pub security: Seq<char>,
    pub active: bool,
}

impl View for WifiNetwork {
    type V = NetworkView;

    open spec fn view(&self) -> NetworkView {
        NetworkView {
            ssid: self.ssid@,
            strength: self.strength,
            security: self.security@,
            active: self.active,
        }
    }
}

/// The networks that a vector holds, as plain values.
pub open spec fn networks_view(v: Seq<WifiNetwork>) -> Seq<NetworkView> {
    Seq::new(v.len(), |i: int| v[i]@)
}

/// The network that one line of a scan describes: whether it is in use,
/// its name, its security and its signal. A signal that is no number below
/// 256 counts as 0.
pub open spec fn network_of_line(line: Seq<char>) -> Option<NetworkView> {
    let parts = split(line, ':');
    if parts.len() < 4 {
        None
    } else {
        Some(
            NetworkView {
                active: parts[0] == "yes"@,
                ssid: parts[1],
                security: parts[2],
                strength: match parse_u8(parts[3]) {
                    Some(n) => n,
                    None => 0,
                },
            },
        )
    }
}

/// The networks that the lines of a scan describe.
pub open spec fn networks_of_lines(ls: Seq<Seq<char>>) -> Seq<NetworkView>
    decreases ls.len(),
{
    if ls.len() == 0 {
        Seq::empty()
    } else {
        let head = networks_of_lines(ls.drop_last());
        match network_of_line(ls.last()) {
            Some(n) => head.push(n),
            None => head,
        }
    }
}

/// Reads the result of a scan with the fields active, name, security and
/// signal.
pub fn scan(stdout: &str) -> (out: Vec<WifiNetwork>)
    ensures
        networks_view(out@) == networks_of_lines(lines(stdout@)),
{
    let text = to_chars(stdout);
    let ls = split_lines(&text);
    let mut out: Vec<WifiNetwork> = Vec::new();
    let mut i: usize = 0;
    assert(rows(ls@).take(0) =~= Seq::<Seq<char>>::empty());
    assert(networks_view(out@) =~= Seq::<NetworkView>::empty());
    while i < ls.len()
        invariant
            i <= ls.len(),
            networks_view(out@) == networks_of_lines(rows(ls@).take(i as int)),
        decreases ls.len() - i,
    {
        let ghost next = rows(ls@).take(i + 1);
        let ghost done = networks_view(out@);
        assert(next.drop_last() =~= rows(ls@).take(i as int));
        assert(next.last() == ls@[i as int]@);
        let parts = split_chars(&ls[i], ':');
        assert(rows(parts@).len() == parts@.len());
        if parts.len() >= 4 {
            assert(rows(parts@)[0] == parts@[0]@ && rows(parts@)[1] == parts@[1]@ && rows(
                parts@,
            )[2] == parts@[2]@ && rows(parts@)[3] == parts@[3]@);
            let strength = match chars_parse_u8(&parts[3]) {
                Some(n) => n,
                None => 0,
            };
            let n = WifiNetwork {
                active: chars_eq_str(&parts[0], "yes"),
                ssid: from_chars(&parts[1]),
                security: from_chars(&parts[2]),
                strength,
            };
            assert(network_of_line(next.last()) == Some(n@));
            out.push(n);
            assert(networks_view(out@) =~= done.push(n@));
        }
        i += 1;
    }
    assert(rows(ls@).take(ls.len() as int) =~= rows(ls@));
    out
}

/// What the network manager says of one device.
#[derive(Clone, Debug)]
pub struct NmDeviceStatus {
    pub name: String,
    pub state: Option<String>,
    pub connection: Option<String>,
    pub ipv4: Option<String>,
    pub ipv6: Option<String>,
}

/// The status of a device, as plain values.
pub struct StatusView {
    pub name: Seq<char>,
    pub state: Option<Seq<char>>,
    pub connection: Option<Seq<char>>,
    pub ipv4: Option<Seq<char>>,
    pub ipv6: Option<Seq<char>>,
}

impl View for NmDeviceStatus {
    type V = StatusView;

    open spec fn view(&self) -> StatusView {
        StatusView {
            name: self.name@,
            state: text_of(self.state),
            connection: text_of(self.connection),
            ipv4: text_of(self.ipv4),
            ipv6: text_of(self.ipv6),
        }
    }
}

/// The status after one more line `key:value` of a device report. A line
/// without a value, or with a key that is not known, changes nothing.
pub open spec fn status_step(s: StatusView, line: Seq<char>) -> StatusView {
    let (k, v) = key_value(line, ':');
    if v.len() == 0 {
        s
    } else if k == "GENERAL.STATE"@ {
        StatusView { name: s.name, state: Some(v), connection: s.connection, ipv4: s.ipv4, ipv6: s.ipv6 }
    } else if k == "GENERAL.CONNECTION"@ {
        StatusView { name: s.name, state: s.state, connection: Some(v), ipv4: s.ipv4, ipv6: s.ipv6 }
    } else if k == "IP4.ADDRESS[1]"@ || k == "IP4.ADDRESS"@ {
        StatusView { name: s.name, state: s.state, connection: s.connection, ipv4: Some(v), ipv6: s.ipv6 }
    } else if k == "IP6.ADDRESS[1]"@ || k == "IP6.ADDRESS"@ {
        StatusView { name: s.name, state: s.state, connection: s.connection, ipv4: s.ipv4, ipv6: Some(v) }
    } else {
        s
    }
}

/// The status that the lines of a device report give for the device `name`.
pub open spec fn status_of_lines(name: Seq<char>, ls: Seq<Seq<char>>) -> StatusView
    decreases ls.len(),
{
    if ls.len() == 0 {
        StatusView { name, state: None, connection: None, ipv4: None, ipv6: None }
    } else {
        status_step(status_of_lines(name, ls.drop_last()), ls.last())
    }
}

/// Reads the report on the device `iface`: its state, its connection and
/// its first IPv4 and IPv6 address.
pub fn device_status(iface: &str, stdout: &str) -> (out: NmDeviceStatus)
    ensures
        out@ == status_of_lines(iface@, lines(stdout@)),
{
    let text = to_chars(stdout);
    let ls = split_lines(&text);
    let mut out = NmDeviceStatus {
        name: iface.to_owned(),
        state: None,
        connection: None,
        ipv4: None,
        ipv6: None,
    };
    let mut i: usize = 0;
    assert(rows(ls@).take(0) =~= Seq::<Seq<char>>::empty());
    while i < ls.len()
        invariant
            i <= ls.len(),
            out@ == status_of_lines(iface@, rows(ls@).take(i as int)),
        decreases ls.len() - i,
    {
        let ghost next = rows(ls@).take(i + 1);
        assert(next.drop_last() =~= rows(ls@).take(i as int));
        assert(next.last() == ls@[i as int]@);
        let (k, v) = chars_key_value(&ls[i], ':');
        if v.len() > 0 {
            if chars_eq_str(&k, "GENERAL.STATE") {
                out.state = Some(from_chars(&v));
            } else if chars_eq_str(&k, "GENERAL.CONNECTION") {
                out.connection = Some(from_chars(&v));
            } else if chars_eq_str(&k, "IP4.ADDRESS[1]") || chars_eq_str(&k, "IP4.ADDRESS") {
                out.ipv4 = Some(from_chars(&v));
            } else if chars_eq_str(&k, "IP6.ADDRESS[1]") || chars_eq_str(&k, "IP6.ADDRESS") {
                out.ipv6 = Some(from_chars(&v));
            }
        }
        i += 1;
    }
    assert(rows(ls@).take(ls.len() as int) =~= rows(ls@));
    out
}

} // verus!
