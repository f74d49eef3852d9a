//! Network interfaces: their records, and classification by description and name.

use vstd::prelude::*;
use crate::i18n::Lang;
use crate::text::{
    chars_of, contains, has_substring, lines, lowercase_of, parse_u32, parsed_u32, same_chars,
    split_at_most, split_n, string_of, text_lines, to_lowercase, trim, trimmed, views,
};

verus! {

broadcast use vstd::string::group_string_axioms;

/// A network interface.
#[derive(Debug, Clone)]
pub struct InterfaceInfo {
    pub name: String,
    pub mac: String,
    pub ipv4: String,
    pub status: String,
    pub description: String,
    pub metric: u32,
    /// Interface kind (English identifier, for JSON).
    pub iftype: String,
    /// Whether this is a virtual adapter.
    pub is_virtual: bool,
    /// Whether this is the egress interface.
    pub is_egress: bool,
    /// Whether this carries a backup default route.
    pub is_backup: bool,
}

/// The content of an [`InterfaceInfo`].
pub struct InterfaceRecord {
    pub name: Seq<char>,
    pub mac: Seq<char>,
    pub ipv4: Seq<char>,
    pub status: Seq<char>,
    pub description: Seq<char>,
    pub metric: u32,
    pub iftype: Seq<char>,
    pub is_virtual: bool,
    pub is_egress: bool,
    pub is_backup: bool,
}

impl View for InterfaceInfo {
    type V = InterfaceRecord;

    open spec fn view(&self) -> InterfaceRecord {
        InterfaceRecord {
            name: self.name@,
            mac: self.mac@,
            ipv4: self.ipv4@,
            status: self.status@,
            description: self.description@,
            metric: self.metric,
            iftype: self.iftype@,
            is_virtual: self.is_virtual,
            is_egress: self.is_egress,
            is_backup: self.is_backup,
        }
    }
}

/// Kinds of network interface.
#[derive(Debug, Clone, Copy, PartialEq, Eq, Structural)]
pub enum IfaceType {
    Loopback,
    Ethernet,
    Wireless,
    MihomoTun,
    ClashTun,
    Wireguard,
    Openvpn,
    Virtualbox,
    Vmware,
    Hyperv,
    Docker,
    TunTap,
    Other,
}

/// The English identifier of an interface kind (used in JSON output).
pub open spec fn iface_id(t: IfaceType) -> Seq<char> {
    match t {
        IfaceType::Loopback => "loopback"@,
        IfaceType::Ethernet => "ethernet"@,
        IfaceType::Wireless => "wireless"@,
        IfaceType::MihomoTun => "mihomo-tun"@,
        IfaceType::ClashTun => "clash-tun"@,
        IfaceType::Wireguard => "wireguard"@,
        IfaceType::Openvpn => "openvpn"@,
        IfaceType::Virtualbox => "virtualbox"@,
        IfaceType::Vmware => "vmware"@,
        IfaceType::Hyperv => "hyperv"@,
        IfaceType::Docker => "docker"@,
        IfaceType::TunTap => "tun-tap"@,
        IfaceType::Other => "other"@,
    }
}

/// The label of an interface kind in the given language.
pub open spec fn iface_label(t: IfaceType, lang: Lang) -> Seq<char> {
    match lang {
        Lang::Zh => match t {
            IfaceType::Loopback => "回环"@,
            IfaceType::Ethernet => "以太网"@,
            IfaceType::Wireless => "无线"@,
            IfaceType::MihomoTun => "Mihomo/TUN"@,
            IfaceType::ClashTun => "Clash/TUN"@,
            IfaceType::Wireguard => "WireGuard"@,
            IfaceType::Openvpn => "OpenVPN"@,
            IfaceType::Virtualbox => "VirtualBox"@,
            IfaceType::Vmware => "VMware"@,
            IfaceType::Hyperv => "Hyper-V"@,
            IfaceType::Docker => "Docker"@,
            IfaceType::TunTap => "TUN/TAP"@,
            IfaceType::Other => "其他"@,
        },
        Lang::En => match t {
            IfaceType::Loopback => "Loopback"@,
            IfaceType::Ethernet => "Ethernet"@,
            IfaceType::Wireless => "Wireless"@,
            IfaceType::MihomoTun => "Mihomo/TUN"@,
            IfaceType::ClashTun => "Clash/TUN"@,
            IfaceType::Wireguard => "WireGuard"@,
            IfaceType::Openvpn => "OpenVPN"@,
            IfaceType::Virtualbox => "VirtualBox"@,
            IfaceType::Vmware => "VMware"@,
            IfaceType::Hyperv => "Hyper-V"@,
            IfaceType::Docker => "Docker"@,
            IfaceType::TunTap => "TUN/TAP"@,
            IfaceType::Other => "Other"@,
        },
    }
}

/// Virtual kinds are all but physical Ethernet, wireless, loopback and unrecognised interfaces.
pub open spec fn iface_is_virtual(t: IfaceType) -> bool {
    !(t is Ethernet || t is Wireless || t is Loopback || t is Other)
}

impl IfaceType {
    /// English identifier (for JSON).
    pub fn to_id(&self) -> (id: String)
        ensures
            id@ == iface_id(*self),
    {
        match self {
            IfaceType::Loopback => "loopback",
            IfaceType::Ethernet => "ethernet",
            IfaceType::Wireless => "wireless",
            IfaceType::MihomoTun => "mihomo-tun",
            IfaceType::ClashTun => "clash-tun",
            IfaceType::Wireguard => "wireguard",
            IfaceType::Openvpn => "openvpn",
            IfaceType::Virtualbox => "virtualbox",
            IfaceType::Vmware => "vmware",
            IfaceType::Hyperv => "hyperv",
            IfaceType::Docker => "docker",
            IfaceType::TunTap => "tun-tap",
            IfaceType::Other => "other",
        }.to_string()
    }

    /// Display label in the language `lang`.
    pub fn to_label(&self, lang: Lang) -> (label: String)
        ensures
            label@ == iface_label(*self, lang),
    {
        let s = match lang {
            Lang::Zh => match self {
                IfaceType::Loopback => "回环",
                IfaceType::Ethernet => "以太网",
                IfaceType::Wireless => "无线",
                IfaceType::MihomoTun => "Mihomo/TUN",
                IfaceType::ClashTun => "Clash/TUN",
                IfaceType::Wireguard => "WireGuard",
                IfaceType::Openvpn => "OpenVPN",
                IfaceType::Virtualbox => "VirtualBox",
                IfaceType::Vmware => "VMware",
                IfaceType::Hyperv => "Hyper-V",
                IfaceType::Docker => "Docker",
                IfaceType::TunTap => "TUN/TAP",
                IfaceType::Other => "其他",
            },
            Lang::En => match self {
                IfaceType::Loopback => "Loopback",
                IfaceType::Ethernet => "Ethernet",
                IfaceType::Wireless => "Wireless",
                IfaceType::MihomoTun => "Mihomo/TUN",
                IfaceType::ClashTun => "Clash/TUN",
                IfaceType::Wireguard => "WireGuard",
                IfaceType::Openvpn => "OpenVPN",
                IfaceType::Virtualbox => "VirtualBox",
                IfaceType::Vmware => "VMware",
                IfaceType::Hyperv => "Hyper-V",
                IfaceType::Docker => "Docker",
                IfaceType::TunTap => "TUN/TAP",
                IfaceType::Other => "Other",
            },
        };
        s.to_string()
    }

    /// Whether this kind of interface is a virtual adapter.
    pub fn is_virtual(&self) -> (v: bool)
        ensures
            v == iface_is_virtual(*self),
    {
        !matches!(self, IfaceType::Ethernet | IfaceType::Wireless | IfaceType::Loopback | IfaceType::Other)
    }
}

/// The kind of an interface whose lowercased description is `d` and lowercased name is `n`.
pub open spec fn classify_lowered(d: Seq<char>, n: Seq<char>) -> IfaceType {
    if has_substring(d, "loopback"@) || n == "lo"@ {
        IfaceType::Loopback
    } else if has_substring(d, "mihomo"@) || has_substring(n, "mihomo"@) {
        IfaceType::MihomoTun
    } else if has_substring(d, "clash"@) || has_substring(n, "clash"@) {
        IfaceType::ClashTun
    } else if has_substring(d, "wireguard"@) || has_substring(n, "wg"@) {
        IfaceType::Wireguard
    } else if has_substring(d, "openvpn"@) {
        IfaceType::Openvpn
    } else if has_substring(d, "virtualbox"@) || has_substring(d, "vbox"@) {
        IfaceType::Virtualbox
    } else if has_substring(d, "vmware"@) {
        IfaceType::Vmware
    } else if has_substring(d, "hyper-v"@) || has_substring(d, "vethernet"@) {
        IfaceType::Hyperv
    } else if has_substring(d, "docker"@) {
        IfaceType::Docker
    } else if has_substring(d, "tun"@) || has_substring(d, "tap"@) {
        IfaceType::TunTap
    } else if has_substring(d, "wireless"@) || has_substring(d, "wi-fi"@) || has_substring(d, "wlan"@) {
        IfaceType::Wireless
    } else if has_substring(d, "ethernet"@) || has_substring(d, "以太网"@) || has_substring(d, "pcie"@) {
        IfaceType::Ethernet
    } else {
        IfaceType::Other
    }
}

/// The classification is a first-match rule list over the lowercased
/// description `d` and name `n`: an interface is of a kind exactly when that
/// kind's keywords occur and no earlier kind's keywords do, in the order
/// loopback (`"loopback"` in the description, or the name `"lo"`), Mihomo,
/// Clash, WireGuard (`"wg"` in the name too), OpenVPN, VirtualBox, VMware,
/// Hyper-V, Docker, TUN/TAP, wireless (`"wireless"`, `"wi-fi"`, `"wlan"`),
/// Ethernet (`"ethernet"`, `"以太网"`, `"pcie"`); with none of them it is "other".
pub proof fn lemma_classification_rules(d: Seq<char>, n: Seq<char>)
    ensures
        ({
            let lo = has_substring(d, "loopback"@) || n == "lo"@;
            let mihomo = has_substring(d, "mihomo"@) || has_substring(n, "mihomo"@);
            let clash = has_substring(d, "clash"@) || has_substring(n, "clash"@);
            let wireguard = has_substring(d, "wireguard"@) || has_substring(n, "wg"@);
            let openvpn = has_substring(d, "openvpn"@);
            let vbox = has_substring(d, "virtualbox"@) || has_substring(d, "vbox"@);
            let vmware = has_substring(d, "vmware"@);
            let hyperv = has_substring(d, "hyper-v"@) || has_substring(d, "vethernet"@);
            let docker = has_substring(d, "docker"@);
            let tuntap = has_substring(d, "tun"@) || has_substring(d, "tap"@);
            let wireless = has_substring(d, "wireless"@) || has_substring(d, "wi-fi"@) || has_substring(d, "wlan"@);
            let ethernet = has_substring(d, "ethernet"@) || has_substring(d, "以太网"@) || has_substring(d, "pcie"@);
            &&& (lo) <==> classify_lowered(d, n) == IfaceType::Loopback
            &&& (!lo && mihomo) <==> classify_lowered(d, n) == IfaceType::MihomoTun
            &&& (!lo && !mihomo && clash) <==> classify_lowered(d, n) == IfaceType::ClashTun
            &&& (!lo && !mihomo && !clash && wireguard) <==> classify_lowered(d, n) == IfaceType::Wireguard
            &&& (!lo && !mihomo && !clash && !wireguard && openvpn) <==> classify_lowered(d, n) == IfaceType::Openvpn
            &&& (!lo && !mihomo && !clash && !wireguard && !openvpn && vbox) <==> classify_lowered(d, n) == IfaceType::Virtualbox
            &&& (!lo && !mihomo && !clash && !wireguard && !openvpn && !vbox && vmware) <==> classify_lowered(d, n) == IfaceType::Vmware
            &&& (!lo && !mihomo && !clash && !wireguard && !openvpn && !vbox && !vmware && hyperv) <==> classify_lowered(d, n) == IfaceType::Hyperv
            &&& (!lo && !mihomo && !clash && !wireguard && !openvpn && !vbox && !vmware && !hyperv && docker) <==> classify_lowered(d, n) == IfaceType::Docker
            &&& (!lo && !mihomo && !clash && !wireguard && !openvpn && !vbox && !vmware && !hyperv && !docker && tuntap) <==> classify_lowered(d, n) == IfaceType::TunTap
            &&& (!lo && !mihomo && !clash && !wireguard && !openvpn && !vbox && !vmware && !hyperv && !docker && !tuntap && wireless) <==> classify_lowered(d, n) == IfaceType::Wireless
            &&& (!lo && !mihomo && !clash && !wireguard && !openvpn && !vbox && !vmware && !hyperv && !docker && !tuntap && !wireless && ethernet) <==> classify_lowered(d, n) == IfaceType::Ethernet
            &&& (!lo && !mihomo && !clash && !wireguard && !openvpn && !vbox && !vmware && !hyperv && !docker && !tuntap && !wireless && !ethernet) <==> classify_lowered(d, n) == IfaceType::Other
        }),
{
}

/// Kinds and their identifiers: the tunnel, VPN, virtual-machine and
/// container adapters are virtual, while Ethernet, wireless, loopback and
/// unrecognised interfaces are not; and each kind has an identifier of its own.
pub proof fn lemma_kinds_virtual_and_ids(t: IfaceType, u: IfaceType)
    ensures
        iface_is_virtual(t) <==> (t is MihomoTun || t is ClashTun || t is Wireguard || t is Openvpn
            || t is Virtualbox || t is Vmware || t is Hyperv || t is Docker || t is TunTap),
        t != u ==> iface_id(t) != iface_id(u),
{
    reveal_strlit("loopback");
    reveal_strlit("ethernet");
    reveal_strlit("wireless");
    reveal_strlit("mihomo-tun");
    reveal_strlit("clash-tun");
    reveal_strlit("wireguard");
    reveal_strlit("openvpn");
    reveal_strlit("virtualbox");
    reveal_strlit("vmware");
    reveal_strlit("hyperv");
    reveal_strlit("docker");
    reveal_strlit("tun-tap");
    reveal_strlit("other");
    if t != u && iface_id(t) == iface_id(u) {
        let a = iface_id(t);
        let b = iface_id(u);
        assert(a.len() == b.len() && a[0] == b[0] && a[1] == b[1] && a[2] == b[2]);
    }
}

/// The kind of an interface, from its description `desc` and name `name`,
/// matched case-insensitively.
pub open spec fn classify_spec(desc: Seq<char>, name: Seq<char>) -> IfaceType {
    classify_lowered(lowercase_of(desc), lowercase_of(name))
}

/// Whether `text` contains the literal `pattern`.
fn has(text: &[char], pattern: &str) -> (r: bool)
    ensures
        r == has_substring(text@, pattern@),
{
    let p = chars_of(pattern);
    contains(text, &p)
}

/// Identifies the kind of an interface from its description and name
/// (compared in lowercase; the first matching rule wins, see [`classify_lowered`]).
pub fn classify_interface(desc: &str, name: &str) -> (t: IfaceType)
    ensures
        t == classify_spec(desc@, name@),
{
    let desc_lower = to_lowercase(desc);
    let name_lower = to_lowercase(name);
    classify_lowercased(desc_lower.as_str(), name_lower.as_str())
}

/// Identifies the kind of an interface from its already lowercased description
/// and name (the first matching rule wins, see [`classify_lowered`]).
pub fn classify_lowercased(desc_lower: &str, name_lower: &str) -> (t: IfaceType)
    ensures
        t == classify_lowered(desc_lower@, name_lower@),
{
    let d = chars_of(desc_lower);
    let n = chars_of(name_lower);
    let lo = chars_of("lo");
    if has(&d, "loopback") || same_chars(&n, &lo) {
        IfaceType::Loopback
    } else if has(&d, "mihomo") || has(&n, "mihomo") {
        IfaceType::MihomoTun
    } else if has(&d, "clash") || has(&n, "clash") {
        IfaceType::ClashTun
    } else if has(&d, "wireguard") || has(&n, "wg") {
        IfaceType::Wireguard
    } else if has(&d, "openvpn") {
        IfaceType::Openvpn
    } else if has(&d, "virtualbox") || has(&d, "vbox") {
        IfaceType::Virtualbox
    } else if has(&d, "vmware") {
        IfaceType::Vmware
    } else if has(&d, "hyper-v") || has(&d, "vethernet") {
        IfaceType::Hyperv
    } else if has(&d, "docker") {
        IfaceType::Docker
    } else if has(&d, "tun") || has(&d, "tap") {
        IfaceType::TunTap
    } else if has(&d, "wireless") || has(&d, "wi-fi") || has(&d, "wlan") {
        IfaceType::Wireless
    } else if has(&d, "ethernet") || has(&d, "以太网") || has(&d, "pcie") {
        IfaceType::Ethernet
    } else {
        IfaceType::Other
    }
}


/// The interface described by the fields of one line of the adapter listing
/// (name, MAC, IPv4, status, description, index, metric), fields trimmed,
/// a metric that does not parse read as 0; the kind comes from the untrimmed
/// description and name.
pub open spec fn record_of_fields(f: Seq<Seq<char>>) -> InterfaceRecord {
    let t = classify_spec(f[4], f[0]);
    InterfaceRecord {
        name: trimmed(f[0]),
        mac: trimmed(f[1]),
        ipv4: trimmed(f[2]),
        status: trimmed(f[3]),
        description: trimmed(f[4]),
        metric: match parsed_u32(trimmed(f[6])) {
            Some(m) => m,
            None => 0,
        },
        iftype: iface_id(t),
        is_virtual: iface_is_virtual(t),
        is_egress: false,
        is_backup: false,
    }
}

/// The interface a line of the adapter listing describes, if it has all seven `'|'`-separated fields.
pub open spec fn record_of_line(line: Seq<char>) -> Option<InterfaceRecord> {
    let f = split_n(line, 7, '|');
    if f.len() >= 7 {
        Some(record_of_fields(f))
    } else {
        None
    }
}

/// The interfaces described by the lines `ls`, in order, lines without all fields skipped.
pub open spec fn records_of_lines(ls: Seq<Seq<char>>) -> Seq<InterfaceRecord>
    decreases ls.len(),
{
    if ls.len() == 0 {
        seq![]
    } else {
        let before = records_of_lines(ls.drop_last());
        match record_of_line(ls.last()) {
            Some(r) => before.push(r),
            None => before,
        }
    }
}

/// The views of a list of interfaces.
pub open spec fn interface_views(v: Seq<InterfaceInfo>) -> Seq<InterfaceRecord> {
    v.map_values(|i: InterfaceInfo| i@)
}

/// The interface described by the seven fields `f` of a listing line.
fn interface_from_fields(f: &Vec<Vec<char>>) -> (info: InterfaceInfo)
    requires
        f@.len() >= 7,
    ensures
        info@ == record_of_fields(views(f@)),
{
    let ghost fs = views(f@);
    let desc_raw = string_of(&f[4]);
    let name_raw = string_of(&f[0]);
    let iftype = classify_interface(desc_raw.as_str(), name_raw.as_str());
    let metric = match parse_u32(&trim(&f[6])) {
        Some(m) => m,
        None => 0,
    };
    let info = InterfaceInfo {
        name: string_of(&trim(&f[0])),
        mac: string_of(&trim(&f[1])),
        ipv4: string_of(&trim(&f[2])),
        status: string_of(&trim(&f[3])),
        description: string_of(&trim(&f[4])),
        metric,
        iftype: iftype.to_id(),
        is_virtual: iftype.is_virtual(),
        is_egress: false,
        is_backup: false,
    };
    assert(fs[0] == f@[0]@ && fs[1] == f@[1]@ && fs[2] == f@[2]@ && fs[3] == f@[3]@ && fs[4] == f@[4]@ && fs[6] == f@[6]@);
    info
}

/// Builds the interface list from the text that the adapter query printed:
/// one interface per line holding seven `'|'`-separated fields (name, MAC,
/// IPv4, status, description, index, metric); other lines are skipped.
pub fn get_all_interfaces(output: &str) -> (interfaces: Vec<InterfaceInfo>)
    ensures
        interface_views(interfaces@) == records_of_lines(text_lines(output@)),
{
    let text = chars_of(output);
    let ls = lines(&text);
    let ghost lv = views(ls@);
    let mut interfaces: Vec<InterfaceInfo> = Vec::new();
    let mut i: usize = 0;
    while i < ls.len()
        invariant
            i <= ls@.len(),
            lv == views(ls@),
            lv == text_lines(output@),
            interface_views(interfaces@) == records_of_lines(lv.take(i as int)),
        decreases ls@.len() - i,
    {
        let parts = split_at_most(&ls[i], 7, '|');
        proof {
            assert(lv.take(i + 1).drop_last() =~= lv.take(i as int));
            assert(lv.take(i + 1).last() == ls@[i as int]@);
        }
        if parts.len() >= 7 {
            let info = interface_from_fields(&parts);
            let ghost before = interfaces@;
            interfaces.push(info);
            assert(interface_views(interfaces@) =~= interface_views(before).push(info@));
        }
        i = i + 1;
    }
    assert(lv.take(ls@.len() as int) =~= lv);
    interfaces
}

/// The listing line the adapter query prints for an interface:
/// `name|mac|ipv4|status|description|index|metric`.
pub open spec fn listing_line(
    name: Seq<char>,
    mac: Seq<char>,
    ipv4: Seq<char>,
    status: Seq<char>,
    description: Seq<char>,
    index: Seq<char>,
    metric: u32,
) -> Seq<char> {
    crate::text::joined_with(
        seq![name, mac, ipv4, status, description, index, crate::text::decimal_digits(metric as nat)],
        '|',
    )
}

/// Reading gives back what the query wrote: a listing line whose text fields
/// contain no `'|'` and no line break and have no surrounding white space is
/// read as exactly that interface, its kind classified from its description and name.
pub proof fn lemma_listing_line_read_back(
    name: Seq<char>,
    mac: Seq<char>,
    ipv4: Seq<char>,
    status: Seq<char>,
    description: Seq<char>,
    index: Seq<char>,
    metric: u32,
)
    requires
        forall|f: Seq<char>|
            #![trigger crate::text::free_of(f, '|')]
            (f == name || f == mac || f == ipv4 || f == status || f == description || f == index)
                ==> crate::text::free_of(f, '|') && crate::text::free_of(f, '\n') && trimmed(f) == f,
    ensures
        records_of_lines(text_lines(listing_line(name, mac, ipv4, status, description, index, metric)))
            == seq![
            InterfaceRecord {
                name,
                mac,
                ipv4,
                status,
                description,
                metric,
                iftype: iface_id(classify_spec(description, name)),
                is_virtual: iface_is_virtual(classify_spec(description, name)),
                is_egress: false,
                is_backup: false,
            },
        ],
{
    let digits = crate::text::decimal_digits(metric as nat);
    let fields = seq![name, mac, ipv4, status, description, index, digits];
    crate::text::lemma_decimal_trimmed(metric);
    crate::text::lemma_decimal_parse_roundtrip(metric);
    crate::text::lemma_decimal_digits_shape(metric as nat);
    assert(crate::text::free_of(name, '|'));
    assert(crate::text::free_of(mac, '|'));
    assert(crate::text::free_of(ipv4, '|'));
    assert(crate::text::free_of(status, '|'));
    assert(crate::text::free_of(description, '|'));
    assert(crate::text::free_of(index, '|'));
    assert(crate::text::free_of(digits, '|')) by {
        assert forall|i: int| 0 <= i < digits.len() implies digits[i] != '|' by {
            assert(crate::text::is_digit(digits[i]));
        }
    }
    assert forall|i: int| 0 <= i < fields.len() implies crate::text::free_of(#[trigger] fields[i], '|') by {
        assert(fields[i] == name || fields[i] == mac || fields[i] == ipv4 || fields[i] == status
            || fields[i] == description || fields[i] == index || fields[i] == digits);
    }
    crate::text::lemma_split_joined(fields, '|');
    let line = listing_line(name, mac, ipv4, status, description, index, metric);
    assert(line == crate::text::joined_with(fields, '|'));
    assert(crate::text::free_of(digits, '\n')) by {
        assert forall|i: int| 0 <= i < digits.len() implies digits[i] != '\n' by {
            assert(crate::text::is_digit(digits[i]));
        }
    }
    assert forall|i: int| 0 <= i < fields.len() implies crate::text::free_of(#[trigger] fields[i], '\n') by {
        assert(fields[i] == name || fields[i] == mac || fields[i] == ipv4 || fields[i] == status
            || fields[i] == description || fields[i] == index || fields[i] == digits);
        assert(crate::text::free_of(name, '|'));
        assert(crate::text::free_of(mac, '|'));
        assert(crate::text::free_of(ipv4, '|'));
        assert(crate::text::free_of(status, '|'));
        assert(crate::text::free_of(description, '|'));
        assert(crate::text::free_of(index, '|'));
    }
    crate::text::lemma_joined_free_of(fields, '|', '\n');
    crate::text::lemma_single_line(line);
    assert(split_n(line, 7, '|') == fields);
    let ls = text_lines(line);
    assert(ls == seq![line]);
    assert(ls.drop_last() =~= Seq::<Seq<char>>::empty());
    assert(records_of_lines(ls.drop_last()) == Seq::<InterfaceRecord>::empty());
}

} // verus!
