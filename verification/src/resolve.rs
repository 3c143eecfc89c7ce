//! Which interface carries the primary connectivity.
//!
//! Five ways of finding it are tried in a fixed order, and the first that
//! names an interface decides:
//!
//! 1. a connected ethernet device, else a connected Wi-Fi device;
//! 2. an active ethernet connection bound to a device, else an active Wi-Fi
//!    connection bound to one;
//! 3. the network manager's own primary active device;
//! 4. the first Wi-Fi device of a fresh device listing, whatever its state;
//! 5. the configured Wi-Fi interface, if it is among the known devices.
//!
//! The third and the fourth need a query of their own. They are asked for
//! only when the ways before them found nothing, and a query that fails
//! counts as one that found nothing.

use crate::nm::{
    connections_view, devices_view, is_virtual_device, ConnectionView, DeviceView, NmConnection,
    NmDeviceInfo,
};
use crate::text::{
    chars_start_with_str, chars_to_ascii_lower, has_prefix, str_eq, text_of, to_ascii_lower,
    to_chars,
};
use vstd::prelude::*;

verus! {

/// A device state that begins with `connected`, in any case of letters.
pub open spec fn is_connected_state(state: Seq<char>) -> bool {
    has_prefix(to_ascii_lower(state), "connected"@)
}

/// A device that counts for the first way: real, of the given type, and
/// connected.
pub open spec fn is_connected_device(d: DeviceView, kind: Seq<char>) -> bool {
    !is_virtual_device(d) && d.device_type == kind && is_connected_state(d.state)
}

/// The name of the first connected device of type `kind`.
pub open spec fn first_connected(devs: Seq<DeviceView>, kind: Seq<char>) -> Option<Seq<char>>
    decreases devs.len(),
{
    if devs.len() == 0 {
        None
    } else if is_connected_device(devs[0], kind) {
        Some(devs[0].name)
    } else {
        first_connected(devs.drop_first(), kind)
    }
}

/// A connection that counts for the second way: active, of the given type,
/// and bound to a device.
pub open spec fn is_bound_connection(c: ConnectionView, kind: Seq<char>) -> bool {
    c.active && c.conn_type == kind && c.device.len() > 0
}

/// The device of the first active connection of type `kind` that has one.
pub open spec fn first_bound(conns: Seq<ConnectionView>, kind: Seq<char>) -> Option<Seq<char>>
    decreases conns.len(),
{
    if conns.len() == 0 {
        None
    } else if is_bound_connection(conns[0], kind) {
        Some(conns[0].device)
    } else {
        first_bound(conns.drop_first(), kind)
    }
}

/// The name of the first real device of type `kind`, whatever its state.
pub open spec fn first_of_type(devs: Seq<DeviceView>, kind: Seq<char>) -> Option<Seq<char>>
    decreases devs.len(),
{
    if devs.len() == 0 {
        None
    } else if !is_virtual_device(devs[0]) && devs[0].device_type == kind {
        Some(devs[0].name)
    } else {
        first_of_type(devs.drop_first(), kind)
    }
}

/// Whether a real device of that name is among `devs`.
pub open spec fn is_known_device(devs: Seq<DeviceView>, name: Seq<char>) -> bool {
    exists|i: int| 0 <= i < devs.len() && !is_virtual_device(#[trigger] devs[i]) && devs[i].name == name
}

/// `a` where it names something, else `b`.
pub open spec fn or_else(a: Option<Seq<char>>, b: Option<Seq<char>>) -> Option<Seq<char>> {
    if a is Some {
        a
    } else {
        b
    }
}

/// What the first two ways find in the listings at hand.
pub open spec fn from_listings(devs: Seq<DeviceView>, conns: Seq<ConnectionView>) -> Option<
    Seq<char>,
> {
    or_else(
        first_connected(devs, "ethernet"@),
        or_else(
            first_connected(devs, "wifi"@),
            or_else(first_bound(conns, "802-3-ethernet"@), first_bound(conns, "802-11-wireless"@)),
        ),
    )
}

/// What the fifth way finds: the configured interface, if it is known.
pub open spec fn configured_if_known(devs: Seq<DeviceView>, configured: Option<Seq<char>>) -> Option<
    Seq<char>,
> {
    if configured is Some && is_known_device(devs, configured->0) {
        configured
    } else {
        None
    }
}

/// What the fourth way finds in a fresh listing; nothing where the listing
/// could not be had.
pub open spec fn wifi_in(listing: Option<Seq<DeviceView>>) -> Option<Seq<char>> {
    match listing {
        Some(ds) => first_of_type(ds, "wifi"@),
        None => None,
    }
}

/// The default interface, given the answer to every query.
pub open spec fn default_iface(
    devs: Seq<DeviceView>,
    conns: Seq<ConnectionView>,
    primary: Option<Seq<char>>,
    listing: Option<Seq<DeviceView>>,
    configured: Option<Seq<char>>,
) -> Option<Seq<char>> {
    or_else(
        from_listings(devs, conns),
        or_else(primary, or_else(wifi_in(listing), configured_if_known(devs, configured))),
    )
}

/// A query that the resolution may need.
#[derive(Clone, Copy, Debug, PartialEq, Eq, Structural)]
pub enum Probe {
    /// The network manager's primary active device.
    PrimaryDevice,
    /// A fresh device listing, to look for a Wi-Fi device.
    WifiListing,
}

/// The answers to the queries made so far. `None` stands for a query not
/// made yet; `Some(None)` for one that failed or found nothing.
#[derive(Debug)]
pub struct Findings {
    pub primary: Option<Option<String>>,
    pub wifi_listing: Option<Option<Vec<NmDeviceInfo>>>,
}

/// The answers so far, as plain values.
pub struct FindingsView {
    pub primary: Option<Option<Seq<char>>>,
    pub wifi_listing: Option<Option<Seq<DeviceView>>>,
}

impl View for Findings {
    type V = FindingsView;

    open spec fn view(&self) -> FindingsView {
        FindingsView {
            primary: match self.primary {
                Some(p) => Some(text_of(p)),
                None => None,
            },
            wifi_listing: match self.wifi_listing {
                Some(Some(ds)) => Some(Some(devices_view(ds@))),
                Some(None) => Some(None),
                None => None,
            },
        }
    }
}

/// Where the resolution stands.
#[derive(Debug)]
pub enum Resolution {
    /// The answer: the default interface, or none.
    Resolved(Option<String>),
    /// The query to make next.
    Ask(Probe),
}

/// Where the resolution stands, as plain values.
pub enum ResolutionView {
    Resolved(Option<Seq<char>>),
    Ask(Probe),
}

impl View for Resolution {
    type V = ResolutionView;

    open spec fn view(&self) -> ResolutionView {
        match self {
            Resolution::Resolved(r) => ResolutionView::Resolved(text_of(*r)),
            Resolution::Ask(p) => ResolutionView::Ask(*p),
        }
    }
}

/// The next step of the resolution: the answer where the findings so far
/// settle it, else the first query that has not been made.
pub open spec fn next_step(
    devs: Seq<DeviceView>,
    conns: Seq<ConnectionView>,
    configured: Option<Seq<char>>,
    found: FindingsView,
) -> ResolutionView {
    if from_listings(devs, conns) is Some {
        ResolutionView::Resolved(from_listings(devs, conns))
    } else {
        match found.primary {
            None => ResolutionView::Ask(Probe::PrimaryDevice),
            Some(primary) => if primary is Some {
                ResolutionView::Resolved(primary)
            } else {
                match found.wifi_listing {
                    None => ResolutionView::Ask(Probe::WifiListing),
                    Some(listing) => ResolutionView::Resolved(
                        or_else(wifi_in(listing), configured_if_known(devs, configured)),
                    ),
                }
            },
        }
    }
}

/// Whether the state of a device begins with `connected`.
pub fn state_is_connected(state: &str) -> (b: bool)
    ensures
        b == is_connected_state(state@),
{
    let lower = chars_to_ascii_lower(&to_chars(state));
    chars_start_with_str(&lower, "connected")
}

/// The first way, for one device type.
pub fn find_connected(devices: &Vec<NmDeviceInfo>, kind: &str) -> (r: Option<String>)
    ensures
        text_of(r) == first_connected(devices_view(devices@), kind@),
{
    let ghost all = devices_view(devices@);
    let mut i: usize = 0;
    assert(all.skip(0) =~= all);
    while i < devices.len()
        invariant
            i <= devices.len(),
            all == devices_view(devices@),
            first_connected(all, kind@) == first_connected(all.skip(i as int), kind@),
        decreases devices.len() - i,
    {
        let d = &devices[i];
        assert(all.skip(i as int)[0] == d@);
        assert(all.skip(i as int).drop_first() =~= all.skip(i + 1));
        if !d.is_virtual() && str_eq(d.device_type.as_str(), kind) && state_is_connected(
            d.state.as_str(),
        ) {
            return Some(d.name.clone());
        }
        i += 1;
    }
    None
}

/// The second way, for one connection type.
pub fn find_bound(connections: &Vec<NmConnection>, kind: &str) -> (r: Option<String>)
    ensures
        text_of(r) == first_bound(connections_view(connections@), kind@),
{
    let ghost all = connections_view(connections@);
    let mut i: usize = 0;
    assert(all.skip(0) =~= all);
    while i < connections.len()
        invariant
            i <= connections.len(),
            all == connections_view(connections@),
            first_bound(all, kind@) == first_bound(all.skip(i as int), kind@),
        decreases connections.len() - i,
    {
        let c = &connections[i];
        assert(all.skip(i as int)[0] == c@);
        assert(all.skip(i as int).drop_first() =~= all.skip(i + 1));
        if c.active && str_eq(c.conn_type.as_str(), kind) && !c.device.as_str().is_empty() {
            return Some(c.device.clone());
        }
        i += 1;
    }
    None
}

/// The name of the first real device of type `kind`.
pub fn find_of_type(devices: &Vec<NmDeviceInfo>, kind: &str) -> (r: Option<String>)
    ensures
        text_of(r) == first_of_type(devices_view(devices@), kind@),
{
    let ghost all = devices_view(devices@);
    let mut i: usize = 0;
    assert(all.skip(0) =~= all);
    while i < devices.len()
        invariant
            i <= devices.len(),
            all == devices_view(devices@),
            first_of_type(all, kind@) == first_of_type(all.skip(i as int), kind@),
        decreases devices.len() - i,
    {
        let d = &devices[i];
        assert(all.skip(i as int)[0] == d@);
        assert(all.skip(i as int).drop_first() =~= all.skip(i + 1));
        if !d.is_virtual() && str_eq(d.device_type.as_str(), kind) {
            return Some(d.name.clone());
        }
        i += 1;
    }
    None
}

/// The first Wi-Fi device of a listing, whatever its state.
pub fn detect_wifi_iface(devices: &Vec<NmDeviceInfo>) -> (r: Option<String>)
    ensures
        text_of(r) == first_of_type(devices_view(devices@), "wifi"@),
{
    find_of_type(devices, "wifi")
}

/// Whether a real device of that name is among `devices`.
pub fn knows_device(devices: &Vec<NmDeviceInfo>, name: &str) -> (b: bool)
    ensures
        b == is_known_device(devices_view(devices@), name@),
{
    let ghost all = devices_view(devices@);
    let mut i: usize = 0;
    while i < devices.len()
        invariant
            i <= devices.len(),
            all == devices_view(devices@),
            forall|j: int| 0 <= j < i ==> !(!is_virtual_device(#[trigger] all[j]) && all[j].name == name@),
        decreases devices.len() - i,
    {
        let d = &devices[i];
        assert(all[i as int] == d@);
        if !d.is_virtual() && str_eq(d.name.as_str(), name) {
            return true;
        }
        i += 1;
    }
    false
}

/// The first two ways: what the listings at hand say.
pub fn resolve_from_listings(devices: &Vec<NmDeviceInfo>, connections: &Vec<NmConnection>) -> (r:
    Option<String>)
    ensures
        text_of(r) == from_listings(devices_view(devices@), connections_view(connections@)),
{
    let r = find_connected(devices, "ethernet");
    if r.is_some() {
        return r;
    }
    let r = find_connected(devices, "wifi");
    if r.is_some() {
        return r;
    }
    let r = find_bound(connections, "802-3-ethernet");
    if r.is_some() {
        return r;
    }
    find_bound(connections, "802-11-wireless")
}

/// The next step of the resolution. It answers at once where the listings
/// settle the matter, asks for the primary device and then for a fresh
/// listing where they do not, and falls back on the configured interface,
/// which counts only while it is among the known devices.
pub fn resolve_default_iface(
    devices: &Vec<NmDeviceInfo>,
    connections: &Vec<NmConnection>,
    configured: Option<&String>,
    found: &Findings,
) -> (r: Resolution)
    ensures
        r@ == next_step(
            devices_view(devices@),
            connections_view(connections@),
            match configured {
                Some(c) => Some(c@),
                None => None,
            },
            found@,
        ),
{
    let early = resolve_from_listings(devices, connections);
    if early.is_some() {
        return Resolution::Resolved(early);
    }
    match &found.primary {
        None => Resolution::Ask(Probe::PrimaryDevice),
        Some(Some(p)) => Resolution::Resolved(Some(p.clone())),
        Some(None) => match &found.wifi_listing {
            None => Resolution::Ask(Probe::WifiListing),
            Some(listing) => {
                let wifi = match listing {
                    Some(ds) => detect_wifi_iface(ds),
                    None => None,
                };
                if wifi.is_some() {
                    return Resolution::Resolved(wifi);
                }
                match configured {
                    Some(c) => {
                        if knows_device(devices, c.as_str()) {
                            Resolution::Resolved(Some(c.clone()))
                        } else {
                            Resolution::Resolved(None)
                        }
                    },
                    None => Resolution::Resolved(None),
                }
            },
        },
    }
}

/// Once every query is answered, the resolution gives the default
/// interface.
pub proof fn law_resolution_complete(
    devs: Seq<DeviceView>,
    conns: Seq<ConnectionView>,
    configured: Option<Seq<char>>,
    primary: Option<Seq<char>>,
    listing: Option<Seq<DeviceView>>,
)
    ensures
        next_step(
            devs,
            conns,
            configured,
            FindingsView { primary: Some(primary), wifi_listing: Some(listing) },
        ) == ResolutionView::Resolved(default_iface(devs, conns, primary, listing, configured)),
{
}

/// An answer given before every query was made is the one that would have
/// been given after them, whatever they had said.
pub proof fn law_resolution_early(
    devs: Seq<DeviceView>,
    conns: Seq<ConnectionView>,
    configured: Option<Seq<char>>,
    found: FindingsView,
    primary: Option<Seq<char>>,
    listing: Option<Seq<DeviceView>>,
)
    requires
        next_step(devs, conns, configured, found) is Resolved,
        found.primary is Some ==> found.primary->0 == primary,
        found.wifi_listing is Some ==> found.wifi_listing->0 == listing,
    ensures
        next_step(devs, conns, configured, found) == ResolutionView::Resolved(
            default_iface(devs, conns, primary, listing, configured),
        ),
{
}

/// A query is asked for only after the ways before it found nothing, and
/// never twice.
pub proof fn law_resolution_order(
    devs: Seq<DeviceView>,
    conns: Seq<ConnectionView>,
    configured: Option<Seq<char>>,
    found: FindingsView,
)
    ensures
        next_step(devs, conns, configured, found) == ResolutionView::Ask(Probe::PrimaryDevice)
            <==> from_listings(devs, conns) is None && found.primary is None,
        next_step(devs, conns, configured, found) == ResolutionView::Ask(Probe::WifiListing)
            <==> from_listings(devs, conns) is None && found.primary == Some(
            None::<Seq<char>>,
        ) && found.wifi_listing is None,
{
}

/// A connected ethernet device is chosen before everything else.
pub proof fn law_ethernet_first(
    devs: Seq<DeviceView>,
    conns: Seq<ConnectionView>,
    configured: Option<Seq<char>>,
    found: FindingsView,
)
    requires
        first_connected(devs, "ethernet"@) is Some,
    ensures
        next_step(devs, conns, configured, found) == ResolutionView::Resolved(
            first_connected(devs, "ethernet"@),
        ),
{
}

} // verus!
