//! The access-point service and the wireless interfaces around it.
//!
//! Starting an access point can leave a second, virtual interface on the
//! radio of the managed one. Such leftovers are found by comparing every
//! listed interface with the managed one: same radio, or same hardware
//! address, means that the interface shadows it and is to be deleted.

use crate::text::{
    chars_contain, chars_eq_str, chars_start_with_str, chars_strip_prefix, contains_text,
    eq_ignore_ascii_case, from_chars, has_prefix, is_blank, lines, rows, split_lines,
    split_whitespace_chars, str_eq, str_eq_ignore_ascii_case, strings_view, strip_prefix,
    text_of, to_chars, to_lowercase, tokens, trim, trim_chars, unicode_lowercase,
};
use vstd::prelude::*;

verus! {

/// Whether the access-point service runs, and whether it starts on boot.
#[derive(Clone, Copy, Debug, PartialEq, Eq, Structural)]
pub struct ServiceState {
    pub active: bool,
    pub enabled: bool,
}

/// A wireless interface with the radio that owns it and its hardware
/// address, each where the listing gives it.
#[derive(Clone, Debug)]
pub struct IwInterface {
    pub name: String,
    pub phy: Option<String>,
    pub addr: Option<String>,
}

/// A wireless interface, as plain values.
pub struct IwView {
    pub name: Seq<char>,
    pub phy: Option<Seq<char>>,
    pub addr: Option<Seq<char>>,
}

impl View for IwInterface {
    type V = IwView;

    open spec fn view(&self) -> IwView {
        IwView { name: self.name@, phy: text_of(self.phy), addr: text_of(self.addr) }
    }
}

/// The interfaces that a vector holds, as plain values.
pub open spec fn interfaces_view(v: Seq<IwInterface>) -> Seq<IwView> {
    Seq::new(v.len(), |i: int| v[i]@)
}

/// What has been read of an interface listing: the interfaces so far, and
/// the radio under which the next ones stand.
pub struct IwScan {
    pub interfaces: Seq<IwView>,
    pub phy: Option<Seq<char>>,
}

/// Reads one more line. A line `phy#N` opens a radio, a line `Interface X`
/// adds an interface under the open radio, and a line `addr A` gives the
/// last interface its address. Any other line changes nothing.
pub open spec fn iw_step(st: IwScan, line: Seq<char>) -> IwScan {
    let t = trim(line);
    if has_prefix(t, "phy#"@) {
        IwScan { interfaces: st.interfaces, phy: Some(t) }
    } else if strip_prefix(t, "Interface "@) is Some {
        IwScan {
            interfaces: st.interfaces.push(
                IwView { name: strip_prefix(t, "Interface "@)->0, phy: st.phy, addr: None },
            ),
            phy: st.phy,
        }
    } else if strip_prefix(t, "addr "@) is Some && st.interfaces.len() > 0 {
        let last = st.interfaces.last();
        IwScan {
            interfaces: st.interfaces.drop_last().push(
                IwView { name: last.name, phy: last.phy, addr: strip_prefix(t, "addr "@) },
            ),
            phy: st.phy,
        }
    } else {
        st
    }
}

/// What the lines of an interface listing say, read from the first on.
pub open spec fn iw_scan(ls: Seq<Seq<char>>) -> IwScan
    decreases ls.len(),
{
    if ls.len() == 0 {
        IwScan { interfaces: Seq::empty(), phy: None }
    } else {
        iw_step(iw_scan(ls.drop_last()), ls.last())
    }
}

/// Reads the listing of the wireless interfaces.
pub fn list_wifi_interfaces(stdout: &str) -> (out: Vec<IwInterface>)
    ensures
        interfaces_view(out@) == iw_scan(lines(stdout@)).interfaces,
{
    let text = to_chars(stdout);
    let ls = split_lines(&text);
    let mut out: Vec<IwInterface> = Vec::new();
    let mut phy: Option<String> = None;
    let mut i: usize = 0;
    assert(rows(ls@).take(0) =~= Seq::<Seq<char>>::empty());
    assert(interfaces_view(out@) =~= Seq::<IwView>::empty());
    while i < ls.len()
        invariant
            i <= ls.len(),
            interfaces_view(out@) == iw_scan(rows(ls@).take(i as int)).interfaces,
            text_of(phy) == iw_scan(rows(ls@).take(i as int)).phy,
        decreases ls.len() - i,
    {
        let ghost next = rows(ls@).take(i + 1);
        let ghost done = interfaces_view(out@);
        assert(next.drop_last() =~= rows(ls@).take(i as int));
        assert(next.last() == ls@[i as int]@);
        let t = trim_chars(&ls[i]);
        if chars_start_with_str(&t, "phy#") {
            phy = Some(from_chars(&t));
        } else if let Some(rest) = chars_strip_prefix(&t, "Interface ") {
            let item = IwInterface { name: from_chars(&rest), phy: phy.clone(), addr: None };
            assert(item@.phy == text_of(phy)) by {
                if phy is Some {
                    assert(phy->0@ == item.phy->0@);
                }
            }
            out.push(item);
            assert(interfaces_view(out@) =~= done.push(item@));
        } else if let Some(rest) = chars_strip_prefix(&t, "addr ") {
            if out.len() > 0 {
                let mut last = out.pop().unwrap();
                let ghost was = last@;
                assert(was == done.last());
                last.addr = Some(from_chars(&rest));
                out.push(last);
                assert(interfaces_view(out@) =~= done.drop_last().push(
                    IwView { name: was.name, phy: was.phy, addr: Some(rest@) },
                ));
            }
        }
        i += 1;
    }
    assert(rows(ls@).take(ls.len() as int) =~= rows(ls@));
    out
}

/// The first interface of that name.
pub open spec fn find_interface(ifs: Seq<IwView>, name: Seq<char>) -> Option<IwView>
    decreases ifs.len(),
{
    if ifs.len() == 0 {
        None
    } else if ifs[0].name == name {
        Some(ifs[0])
    } else {
        find_interface(ifs.drop_first(), name)
    }
}

/// Both interfaces name their radio, and it is the same.
pub open spec fn same_phy(a: IwView, b: IwView) -> bool {
    a.phy is Some && b.phy is Some && a.phy->0 == b.phy->0
}

/// Both interfaces name their hardware address, and it is the same but for
/// the case of letters.
pub open spec fn same_addr(a: IwView, b: IwView) -> bool {
    a.addr is Some && b.addr is Some && eq_ignore_ascii_case(a.addr->0, b.addr->0)
}

/// `other` shadows `target`: it is another interface on the same radio or
/// with the same hardware address. A radio or an address that is not known
/// matches nothing.
pub open spec fn shadows(target: IwView, other: IwView) -> bool {
    other.name != target.name && (same_phy(target, other) || same_addr(target, other))
}

/// The names of the interfaces that shadow `target`, in listing order.
pub open spec fn shadowing(ifs: Seq<IwView>, target: IwView) -> Seq<Seq<char>>
    decreases ifs.len(),
{
    if ifs.len() == 0 {
        Seq::empty()
    } else if shadows(target, ifs.last()) {
        shadowing(ifs.drop_last(), target).push(ifs.last().name)
    } else {
        shadowing(ifs.drop_last(), target)
    }
}

/// The interfaces to delete for the given target: none where the target is
/// not listed, else every interface that shadows it.
pub open spec fn cleanup_candidates(ifs: Seq<IwView>, target: Seq<char>) -> Seq<Seq<char>> {
    match find_interface(ifs, target) {
        None => Seq::empty(),
        Some(t) => shadowing(ifs, t),
    }
}

/// Whether `other` shadows `target`.
pub fn interface_shadows(target: &IwInterface, other: &IwInterface) -> (b: bool)
    ensures
        b == shadows(target@, other@),
{
    if str_eq(other.name.as_str(), target.name.as_str()) {
        return false;
    }
    let same_radio = match (&target.phy, &other.phy) {
        (Some(a), Some(b)) => str_eq(a.as_str(), b.as_str()),
        _ => false,
    };
    let same_address = match (&target.addr, &other.addr) {
        (Some(a), Some(b)) => str_eq_ignore_ascii_case(a.as_str(), b.as_str()),
        _ => false,
    };
    same_radio || same_address
}

/// The names of the stale interfaces to delete before or after the access
/// point runs on `target_iface`, in listing order. The target itself is
/// never among them, and where it is not listed nothing is.
pub fn cleanup_virtual_ifaces(interfaces: &Vec<IwInterface>, target_iface: &str) -> (out: Vec<
    String,
>)
    ensures
        strings_view(out@) == cleanup_candidates(interfaces_view(interfaces@), target_iface@),
        !strings_view(out@).contains(target_iface@),
{
    let ghost all = interfaces_view(interfaces@);
    let mut out: Vec<String> = Vec::new();
    assert(strings_view(out@) =~= Seq::<Seq<char>>::empty());
    let mut t: usize = 0;
    assert(all.skip(0) =~= all);
    while t < interfaces.len() && !str_eq(interfaces[t].name.as_str(), target_iface)
        invariant
            t <= interfaces.len(),
            all == interfaces_view(interfaces@),
            find_interface(all, target_iface@) == find_interface(all.skip(t as int), target_iface@),
        decreases interfaces.len() - t,
    {
        assert(all.skip(t as int)[0] == interfaces@[t as int]@);
        assert(all.skip(t as int).drop_first() =~= all.skip(t + 1));
        t += 1;
    }
    if t == interfaces.len() {
        return out;
    }
    assert(all.skip(t as int)[0] == interfaces@[t as int]@);
    let target = &interfaces[t];
    let mut i: usize = 0;
    assert(all.take(0) =~= Seq::<IwView>::empty());
    while i < interfaces.len()
        invariant
            i <= interfaces.len(),
            all == interfaces_view(interfaces@),
            target@.name == target_iface@,
            strings_view(out@) == shadowing(all.take(i as int), target@),
            !strings_view(out@).contains(target_iface@),
        decreases interfaces.len() - i,
    {
        let ghost done = strings_view(out@);
        assert(all.take(i + 1).drop_last() =~= all.take(i as int));
        assert(all.take(i + 1).last() == interfaces@[i as int]@);
        if interface_shadows(target, &interfaces[i]) {
            out.push(interfaces[i].name.clone());
            assert(strings_view(out@) =~= done.push(interfaces@[i as int]@.name));
            assert forall|j: int| 0 <= j < strings_view(out@).len() implies strings_view(out@)[j]
                != target_iface@ by {
                if j < done.len() {
                    assert(done[j] == strings_view(out@)[j]);
                    assert(done.contains(done[j]));
                }
            }
        }
        i += 1;
    }
    assert(all.take(interfaces.len() as int) =~= all);
    out
}

/// A station joined to the access point.
#[derive(Clone, Debug)]
pub struct ClientInfo {
    pub mac: String,
    pub ip: Option<String>,
    pub hostname: Option<String>,
}

/// A client, as plain values.
pub struct ClientView {
    pub mac: Seq<char>,
    pub ip: Option<Seq<char>>,
    pub hostname: Option<Seq<char>>,
}

impl View for ClientInfo {
    type V = ClientView;

    open spec fn view(&self) -> ClientView {
        ClientView { mac: self.mac@, ip: text_of(self.ip), hostname: text_of(self.hostname) }
    }
}

/// The clients that a vector holds, as plain values.
pub open spec fn clients_view(v: Seq<ClientInfo>) -> Seq<ClientView> {
    Seq::new(v.len(), |i: int| v[i]@)
}

/// The word at position `i`, unless it is missing or a `*`, which stands
/// for a value that is not known.
pub open spec fn known_word(words: Seq<Seq<char>>, i: int) -> Option<Seq<char>> {
    if i < words.len() && words[i] != "*"@ {
        Some(words[i])
    } else {
        None
    }
}

/// The client that one line of a client listing describes: hardware
/// address, then address, then host name. The heading, which begins with
/// `MAC`, and blank lines describe none.
pub open spec fn client_of_line(line: Seq<char>) -> Option<ClientView> {
    let words = tokens(line);
    if has_prefix(line, "MAC"@) || is_blank(line) || words.len() == 0 {
        None
    } else {
        Some(ClientView { mac: words[0], ip: known_word(words, 1), hostname: known_word(words, 2) })
    }
}

/// The clients that the lines of a listing describe.
pub open spec fn clients_of_lines(ls: Seq<Seq<char>>) -> Seq<ClientView>
    decreases ls.len(),
{
    if ls.len() == 0 {
        Seq::empty()
    } else {
        let head = clients_of_lines(ls.drop_last());
        match client_of_line(ls.last()) {
            Some(c) => head.push(c),
            None => head,
        }
    }
}

/// The clients that a listing describes, given the listing in lower case:
/// none where it says `no clients` anywhere, in any case of letters.
pub open spec fn clients_of(text: Seq<char>, lowered: Seq<char>) -> Seq<ClientView> {
    if contains_text(lowered, "no clients"@) {
        Seq::empty()
    } else {
        clients_of_lines(lines(text))
    }
}

/// Reads a client listing, given the same listing in lower case.
pub fn clients_from(stdout: &str, lowered: &str) -> (out: Vec<ClientInfo>)
    ensures
        clients_view(out@) == clients_of(stdout@, lowered@),
{
    let mut out: Vec<ClientInfo> = Vec::new();
    assert(clients_view(out@) =~= Seq::<ClientView>::empty());
    if chars_contain(&to_chars(lowered), &to_chars("no clients")) {
        return out;
    }
    let text = to_chars(stdout);
    let ls = split_lines(&text);
    let mut i: usize = 0;
    assert(rows(ls@).take(0) =~= Seq::<Seq<char>>::empty());
    while i < ls.len()
        invariant
            i <= ls.len(),
            clients_view(out@) == clients_of_lines(rows(ls@).take(i as int)),
        decreases ls.len() - i,
    {
        let ghost next = rows(ls@).take(i + 1);
        let ghost done = clients_view(out@);
        assert(next.drop_last() =~= rows(ls@).take(i as int));
        assert(next.last() == ls@[i as int]@);
        let line = &ls[i];
        if !chars_start_with_str(line, "MAC") && trim_chars(line).len() > 0 {
            let words = split_whitespace_chars(line);
            assert(rows(words@).len() == words@.len());
            if words.len() > 0 {
                assert(rows(words@)[0] == words@[0]@);
                let ip = if words.len() > 1 && !chars_eq_str(&words[1], "*") {
                    Some(from_chars(&words[1]))
                } else {
                    None
                };
                let hostname = if words.len() > 2 && !chars_eq_str(&words[2], "*") {
                    Some(from_chars(&words[2]))
                } else {
                    None
                };
                assert(text_of(ip) == known_word(rows(words@), 1)) by {
                    if words.len() > 1 {
                        assert(rows(words@)[1] == words@[1]@);
                    }
                }
                assert(text_of(hostname) == known_word(rows(words@), 2)) by {
                    if words.len() > 2 {
                        assert(rows(words@)[2] == words@[2]@);
                    }
                }
                let c = ClientInfo { mac: from_chars(&words[0]), ip, hostname };
                assert(client_of_line(next.last()) == Some(c@));
                out.push(c);
                assert(clients_view(out@) =~= done.push(c@));
            }
        }
        i += 1;
    }
    assert(rows(ls@).take(ls.len() as int) =~= rows(ls@));
    out
}

/// Reads the listing of the clients of the access point.
pub fn list_clients(stdout: &str) -> (out: Vec<ClientInfo>)
    ensures
        clients_view(out@) == clients_of(stdout@, unicode_lowercase(stdout@)),
{
    let lowered = to_lowercase(stdout);
    clients_from(stdout, lowered.as_str())
}

/// A change of the access-point service that a request asks for.
#[derive(Clone, Copy, Debug, PartialEq, Eq, Structural)]
pub enum Transition {
    Start,
    Stop,
    Enable,
    Disable,
}

/// Whether stale interfaces are to be cleaned up once a transition has been
/// tried: after a start or an enable that failed, to undo what it left half
/// done, and after a stop or a disable that succeeded.
pub fn cleanup_after(transition: Transition, succeeded: bool) -> (b: bool)
    ensures
        b == match transition {
            Transition::Start => !succeeded,
            Transition::Enable => !succeeded,
            Transition::Stop => succeeded,
            Transition::Disable => succeeded,
        },
{
    match transition {
        Transition::Start => !succeeded,
        Transition::Enable => !succeeded,
        Transition::Stop => succeeded,
        Transition::Disable => succeeded,
    }
}

/// The arguments that ask the service manager for a transition of the
/// access-point service.
pub fn transition_args(transition: Transition) -> (args: Vec<String>)
    ensures
        strings_view(args@) == match transition {
            Transition::Start => seq!["start"@, "create_ap"@],
            Transition::Stop => seq!["stop"@, "create_ap"@],
            Transition::Enable => seq!["enable"@, "--now"@, "create_ap"@],
            Transition::Disable => seq!["disable"@, "--now"@, "create_ap"@],
        },
{
    let mut args: Vec<String> = Vec::new();
    match transition {
        Transition::Start => {
            args.push("start".to_owned());
        },
        Transition::Stop => {
            args.push("stop".to_owned());
        },
        Transition::Enable => {
            args.push("enable".to_owned());
            args.push("--now".to_owned());
        },
        Transition::Disable => {
            args.push("disable".to_owned());
            args.push("--now".to_owned());
        },
    }
    args.push("create_ap".to_owned());
    assert(strings_view(args@) =~= match transition {
        Transition::Start => seq!["start"@, "create_ap"@],
        Transition::Stop => seq!["stop"@, "create_ap"@],
        Transition::Enable => seq!["enable"@, "--now"@, "create_ap"@],
        Transition::Disable => seq!["disable"@, "--now"@, "create_ap"@],
    });
    args
}

} // verus!
