//! The local network report: interface kinds as the report labels them,
//! and the rows of its interface table.

use vstd::prelude::*;
use crate::info::interface::{InterfaceInfo, InterfaceRecord, interface_views};
use crate::text::{chars_of, contains, decimal_digits, lemma_decimal_parse_roundtrip, parsed_u32, decimal_string, has_substring, lowercase_of, same_chars, to_lowercase};

verus! {

broadcast use vstd::string::group_string_axioms;

/// The report's label for an interface with lowercased description `d` and
/// lowercased name `n` (the first matching rule wins).
pub open spec fn report_label_lowered(d: Seq<char>, n: Seq<char>) -> Seq<char> {
    if has_substring(d, "loopback"@) || n == "lo"@ {
        "回环"@
    } else if has_substring(d, "mihomo"@) || has_substring(n, "mihomo"@) {
        "Mihomo/TUN"@
    } else if has_substring(d, "clash"@) || has_substring(n, "clash"@) {
        "Clash/TUN"@
    } else if has_substring(d, "wireguard"@) || has_substring(n, "wg"@) {
        "WireGuard"@
    } else if has_substring(d, "openvpn"@) {
        "OpenVPN"@
    } else if has_substring(d, "radmin"@) {
        "Radmin VPN"@
    } else if has_substring(d, "zerotier"@) {
        "ZeroTier"@
    } else if has_substring(d, "tailscale"@) {
        "Tailscale"@
    } else if has_substring(d, "virtualbox"@) || has_substring(d, "vbox"@) {
        "VirtualBox"@
    } else if has_substring(d, "vmware"@) {
        "VMware"@
    } else if has_substring(d, "hyper-v"@) || has_substring(d, "vethernet"@) {
        "Hyper-V"@
    } else if has_substring(d, "docker"@) {
        "Docker"@
    } else if has_substring(d, "tun"@) || has_substring(d, "tap"@) {
        "TUN/TAP"@
    } else if has_substring(d, "wireless"@) || has_substring(d, "wi-fi"@) || has_substring(d, "wlan"@) {
        "无线"@
    } else if has_substring(d, "ethernet"@) || has_substring(d, "以太网"@) || has_substring(d, "pcie"@) {
        "以太网"@
    } else {
        "其他"@
    }
}

/// The report's label for an interface with description `desc` and name `name`.
pub open spec fn report_label(desc: Seq<char>, name: Seq<char>) -> Seq<char> {
    report_label_lowered(lowercase_of(desc), lowercase_of(name))
}

fn has(text: &[char], pattern: &str) -> (r: bool)
    ensures
        r == has_substring(text@, pattern@),
{
    let p = chars_of(pattern);
    contains(text, &p)
}

/// Labels an interface for the report from its description and name,
/// case-insensitively (see [`report_label_lowered`]); besides the kinds that
/// [`crate::info::interface::classify_interface`] knows, it recognises Radmin
/// VPN, ZeroTier and Tailscale adapters.
pub fn classify_interface(desc: &str, name: &str) -> (label: &'static str)
    ensures
        label@ == report_label(desc@, name@),
{
    let desc_lower = to_lowercase(desc);
    let name_lower = to_lowercase(name);
    label_lowercased(desc_lower.as_str(), name_lower.as_str())
}

/// The report's label for an interface from its already lowercased description
/// and name (the first matching rule wins, see [`report_label_lowered`]).
pub fn label_lowercased(desc_lower: &str, name_lower: &str) -> (label: &'static str)
    ensures
        label@ == report_label_lowered(desc_lower@, name_lower@),
{
    let d = chars_of(desc_lower);
    let n = chars_of(name_lower);
    let lo = chars_of("lo");
    if has(&d, "loopback") || same_chars(&n, &lo) {
        "回环"
    } else if has(&d, "mihomo") || has(&n, "mihomo") {
        "Mihomo/TUN"
    } else if has(&d, "clash") || has(&n, "clash") {
        "Clash/TUN"
    } else if has(&d, "wireguard") || has(&n, "wg") {
        "WireGuard"
    } else if has(&d, "openvpn") {
        "OpenVPN"
    } else if has(&d, "radmin") {
        "Radmin VPN"
    } else if has(&d, "zerotier") {
        "ZeroTier"
    } else if has(&d, "tailscale") {
        "Tailscale"
    } else if has(&d, "virtualbox") || has(&d, "vbox") {
        "VirtualBox"
    } else if has(&d, "vmware") {
        "VMware"
    } else if has(&d, "hyper-v") || has(&d, "vethernet") {
        "Hyper-V"
    } else if has(&d, "docker") {
        "Docker"
    } else if has(&d, "tun") || has(&d, "tap") {
        "TUN/TAP"
    } else if has(&d, "wireless") || has(&d, "wi-fi") || has(&d, "wlan") {
        "无线"
    } else if has(&d, "ethernet") || has(&d, "以太网") || has(&d, "pcie") {
        "以太网"
    } else {
        "其他"
    }
}


/// The report's labels follow a first-match rule list over the lowercased
/// description `d` and name `n`: when a kind's keywords occur and no earlier
/// kind's keywords do, the label is that kind's, in the order loopback
/// (`"loopback"`, or the name `"lo"`), Mihomo, Clash, WireGuard (`"wg"` in the
/// name too), OpenVPN, Radmin VPN, ZeroTier, Tailscale, VirtualBox, VMware,
/// Hyper-V, Docker, TUN/TAP, wireless (`"wireless"`, `"wi-fi"`, `"wlan"`),
/// Ethernet (`"ethernet"`, `"以太网"`, `"pcie"`); with none of them it is "其他".
pub proof fn lemma_report_label_rules(d: Seq<char>, n: Seq<char>)
    ensures
        ({
            let lo = has_substring(d, "loopback"@) || n == "lo"@;
            let mihomo = has_substring(d, "mihomo"@) || has_substring(n, "mihomo"@);
            let clash = has_substring(d, "clash"@) || has_substring(n, "clash"@);
            let wireguard = has_substring(d, "wireguard"@) || has_substring(n, "wg"@);
            let openvpn = has_substring(d, "openvpn"@);
            let radmin = has_substring(d, "radmin"@);
            let zerotier = has_substring(d, "zerotier"@);
            let tailscale = has_substring(d, "tailscale"@);
            let vbox = has_substring(d, "virtualbox"@) || has_substring(d, "vbox"@);
            let vmware = has_substring(d, "vmware"@);
            let hyperv = has_substring(d, "hyper-v"@) || has_substring(d, "vethernet"@);
            let docker = has_substring(d, "docker"@);
            let tuntap = has_substring(d, "tun"@) || has_substring(d, "tap"@);
            let wireless = has_substring(d, "wireless"@) || has_substring(d, "wi-fi"@) || has_substring(d, "wlan"@);
            let ethernet = has_substring(d, "ethernet"@) || has_substring(d, "以太网"@) || has_substring(d, "pcie"@);
            &&& (lo) ==> report_label_lowered(d, n) == "回环"@
            &&& (!lo && mihomo) ==> report_label_lowered(d, n) == "Mihomo/TUN"@
            &&& (!lo && !mihomo && clash) ==> report_label_lowered(d, n) == "Clash/TUN"@
            &&& (!lo && !mihomo && !clash && wireguard) ==> report_label_lowered(d, n) == "WireGuard"@
            &&& (!lo && !mihomo && !clash && !wireguard && openvpn) ==> report_label_lowered(d, n) == "OpenVPN"@
            &&& (!lo && !mihomo && !clash && !wireguard && !openvpn && radmin) ==> report_label_lowered(d, n) == "Radmin VPN"@
            &&& (!lo && !mihomo && !clash && !wireguard && !openvpn && !radmin && zerotier) ==> report_label_lowered(d, n) == "ZeroTier"@
            &&& (!lo && !mihomo && !clash && !wireguard && !openvpn && !radmin && !zerotier && tailscale) ==> report_label_lowered(d, n) == "Tailscale"@
            &&& (!lo && !mihomo && !clash && !wireguard && !openvpn && !radmin && !zerotier && !tailscale && vbox) ==> report_label_lowered(d, n) == "VirtualBox"@
            &&& (!lo && !mihomo && !clash && !wireguard && !openvpn && !radmin && !zerotier && !tailscale && !vbox && vmware) ==> report_label_lowered(d, n) == "VMware"@
            &&& (!lo && !mihomo && !clash && !wireguard && !openvpn && !radmin && !zerotier && !tailscale && !vbox && !vmware && hyperv) ==> report_label_lowered(d, n) == "Hyper-V"@
            &&& (!lo && !mihomo && !clash && !wireguard && !openvpn && !radmin && !zerotier && !tailscale && !vbox && !vmware && !hyperv && docker) ==> report_label_lowered(d, n) == "Docker"@
            &&& (!lo && !mihomo && !clash && !wireguard && !openvpn && !radmin && !zerotier && !tailscale && !vbox && !vmware && !hyperv && !docker && tuntap) ==> report_label_lowered(d, n) == "TUN/TAP"@
            &&& (!lo && !mihomo && !clash && !wireguard && !openvpn && !radmin && !zerotier && !tailscale && !vbox && !vmware && !hyperv && !docker && !tuntap && wireless) ==> report_label_lowered(d, n) == "无线"@
            &&& (!lo && !mihomo && !clash && !wireguard && !openvpn && !radmin && !zerotier && !tailscale && !vbox && !vmware && !hyperv && !docker && !tuntap && !wireless && ethernet) ==> report_label_lowered(d, n) == "以太网"@
            &&& (!lo && !mihomo && !clash && !wireguard && !openvpn && !radmin && !zerotier && !tailscale && !vbox && !vmware && !hyperv && !docker && !tuntap && !wireless && !ethernet) ==> report_label_lowered(d, n) == "其他"@
        }),
{
}

/// Whether the report counts an interface with this label as a virtual adapter.
pub open spec fn is_virtual_label(label: Seq<char>) -> bool {
    label != "以太网"@ && label != "无线"@ && label != "回环"@ && label != "其他"@
}

/// The cells of an interface's row in the report: name, MAC, IPv4, status
/// ("Up" or "Down"), kind, metric (`"0 *"` for 0, the lowest priority) and its
/// role: the egress interface, a backup default route, or nothing.
pub open spec fn interface_row_cells(
    r: InterfaceRecord,
    egress: Option<Seq<char>>,
    default_route_ifaces: Seq<Seq<char>>,
) -> Seq<Seq<char>> {
    seq![
        r.name,
        r.mac,
        r.ipv4,
        if r.status == "Up"@ { "Up"@ } else { "Down"@ },
        report_label(r.description, r.name),
        if r.metric == 0 { "0 *"@ } else { decimal_digits(r.metric as nat) },
        if egress == Some(r.name) {
            "✓ 出口"@
        } else if default_route_ifaces.contains(r.name) {
            "~ 备用"@
        } else {
            ""@
        },
    ]
}

/// The row of an interface in the report: seven cells, the first three the
/// interface's name, MAC and IPv4 as they are; the status "Up" only for an
/// interface that is up; the metric written so that it reads back as the
/// metric (0 marked `"0 *"`); and the role: the egress interface is marked
/// `"✓ 出口"` whatever the default-route list holds, `"~ 备用"` marks only a
/// non-egress interface that carries a default route, and any other
/// interface has an empty role cell.
pub proof fn lemma_interface_row_roles(
    r: InterfaceRecord,
    egress: Option<Seq<char>>,
    default_route_ifaces: Seq<Seq<char>>,
)
    ensures
        ({
            let row = interface_row_cells(r, egress, default_route_ifaces);
            &&& row.len() == 7
            &&& row[0] == r.name && row[1] == r.mac && row[2] == r.ipv4
            &&& (row[3] == "Up"@ <==> r.status == "Up"@)
            &&& row[4] == report_label(r.description, r.name)
            &&& (r.metric == 0 ==> row[5] == "0 *"@)
            &&& (r.metric != 0 ==> parsed_u32(row[5]) == Some(r.metric))
            &&& (egress == Some(r.name) ==> row[6] == "✓ 出口"@)
            &&& (row[6] == "~ 备用"@ <==> egress != Some(r.name) && default_route_ifaces.contains(r.name))
            &&& (row[6] == ""@ <==> egress != Some(r.name) && !default_route_ifaces.contains(r.name))
        }),
{
    reveal_strlit("Up");
    reveal_strlit("Down");
    reveal_strlit("✓ 出口");
    reveal_strlit("~ 备用");
    reveal_strlit("");
    lemma_decimal_parse_roundtrip(r.metric);
    let row = interface_row_cells(r, egress, default_route_ifaces);
    assert("Down"@ != "Up"@) by {
        assert("Down"@.len() != "Up"@.len());
    }
    assert("✓ 出口"@ != "~ 备用"@) by {
        assert("✓ 出口"@[0] != "~ 备用"@[0]);
    }
    assert(""@ != "~ 备用"@) by {
        assert(""@.len() != "~ 备用"@.len());
    }
    assert(""@ != "✓ 出口"@) by {
        assert(""@.len() != "✓ 出口"@.len());
    }
}

/// The character views of strings.
pub open spec fn strings_view(v: Seq<String>) -> Seq<Seq<char>> {
    v.map_values(|s: String| s@)
}

fn equals_text(a: &String, b: &str) -> (r: bool)
    ensures
        r == (a@ == b@),
{
    same_chars(&chars_of(a.as_str()), &chars_of(b))
}

fn listed(names: &[String], name: &String) -> (r: bool)
    ensures
        r == strings_view(names@).contains(name@),
{
    let mut i: usize = 0;
    while i < names.len()
        invariant
            i <= names@.len(),
            forall|j: int| 0 <= j < i ==> names@[j]@ != name@,
        decreases names@.len() - i,
    {
        if same_chars(&chars_of(names[i].as_str()), &chars_of(name.as_str())) {
            assert(strings_view(names@)[i as int] == name@);
            return true;
        }
        i = i + 1;
    }
    assert forall|j: int| 0 <= j < strings_view(names@).len() implies strings_view(names@)[j] != name@ by {
        assert(strings_view(names@)[j] == names@[j]@);
    }
    false
}

/// Builds an interface's row of the report's interface table (see [`interface_row_cells`]).
pub fn interface_row(iface: &InterfaceInfo, egress_iface: &Option<String>, default_route_ifaces: &[String]) -> (row: Vec<String>)
    ensures
        strings_view(row@) == interface_row_cells(
            iface@,
            match egress_iface {
                Some(e) => Some(e@),
                None => None,
            },
            strings_view(default_route_ifaces@),
        ),
{
    let status = if equals_text(&iface.status, "Up") {
        "Up".to_string()
    } else {
        "Down".to_string()
    };
    let label = classify_interface(iface.description.as_str(), iface.name.as_str());
    let metric = if iface.metric == 0 {
        "0 *".to_string()
    } else {
        decimal_string(iface.metric)
    };
    let is_egress = match egress_iface {
        Some(e) => same_chars(&chars_of(e.as_str()), &chars_of(iface.name.as_str())),
        None => false,
    };
    let mark = if is_egress {
        "✓ 出口".to_string()
    } else if listed(default_route_ifaces, &iface.name) {
        "~ 备用".to_string()
    } else {
        "".to_string()
    };
    let mut row: Vec<String> = Vec::new();
    row.push(iface.name.clone());
    row.push(iface.mac.clone());
    row.push(iface.ipv4.clone());
    row.push(status);
    row.push(label.to_string());
    row.push(metric);
    row.push(mark);
    assert(strings_view(row@) =~= interface_row_cells(
        iface@,
        match egress_iface {
            Some(e) => Some(e@),
            None => None,
        },
        strings_view(default_route_ifaces@),
    ));
    row
}

/// The number of interfaces among `ifaces` that the report counts as virtual.
pub open spec fn virtual_count(ifaces: Seq<InterfaceRecord>) -> nat
    decreases ifaces.len(),
{
    if ifaces.len() == 0 {
        0
    } else {
        virtual_count(ifaces.drop_last()) + if is_virtual_label(
            report_label(ifaces.last().description, ifaces.last().name),
        ) {
            1nat
        } else {
            0nat
        }
    }
}

/// Counts the interfaces the report shows as virtual adapters: those whose
/// label is none of Ethernet, wireless, loopback and other.
pub fn count_virtual(interfaces: &[InterfaceInfo]) -> (n: usize)
    ensures
        n == virtual_count(interface_views(interfaces@)),
{
    let ghost vs = interface_views(interfaces@);
    let mut n: usize = 0;
    let mut i: usize = 0;
    while i < interfaces.len()
        invariant
            i <= interfaces@.len(),
            vs == interface_views(interfaces@),
            n == virtual_count(vs.take(i as int)),
            n <= i,
        decreases interfaces@.len() - i,
    {
        let iface = &interfaces[i];
        let label = classify_interface(iface.description.as_str(), iface.name.as_str());
        let l = chars_of(label);
        let is_virtual = !(same_chars(&l, &chars_of("以太网")) || same_chars(&l, &chars_of("无线"))
            || same_chars(&l, &chars_of("回环")) || same_chars(&l, &chars_of("其他")));
        proof {
            assert(vs.take(i + 1).drop_last() =~= vs.take(i as int));
            assert(vs.take(i + 1).last() == iface@);
        }
        if is_virtual {
            n = n + 1;
        }
        i = i + 1;
    }
    assert(vs.take(interfaces@.len() as int) =~= vs);
    n
}

} // verus!
