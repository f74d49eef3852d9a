use netutils::i18n::Lang;
use netutils::info::egress::find_egress_interface;
use netutils::info::interface::{classify_interface, get_all_interfaces, IfaceType};
use netutils::info::proxy::{get_proxy_info, system_proxy_setting, ProxyEnv};
use netutils::info::route::{get_default_routes, get_route_table};
use netutils::report;

const LISTING: &str = "以太网|AA-BB-CC-DD-EE-FF|192.168.1.5|Up|Intel(R) Ethernet Connection|12|25\r\n\
Mihomo| |--|Up|Meta Tunnel|30| x \r\n\
broken line without fields\n\
vEthernet (WSL)|00-15-5D|172.20.0.1|Up|Hyper-V Virtual Ethernet Adapter|40|5000|extra\n";

#[test]
fn interfaces_are_read_from_the_listing() {
    let ifaces = get_all_interfaces(LISTING);
    assert_eq!(ifaces.len(), 3);
    let eth = &ifaces[0];
    assert_eq!(eth.name, "以太网");
    assert_eq!(eth.mac, "AA-BB-CC-DD-EE-FF");
    assert_eq!(eth.ipv4, "192.168.1.5");
    assert_eq!(eth.status, "Up");
    assert_eq!(eth.description, "Intel(R) Ethernet Connection");
    assert_eq!(eth.metric, 25);
    assert_eq!(eth.iftype, "ethernet");
    assert!(!eth.is_virtual && !eth.is_egress && !eth.is_backup);
    let tun = &ifaces[1];
    assert_eq!(tun.mac, "");
    assert_eq!(tun.metric, 0); // "x" does not parse
    assert_eq!(tun.iftype, "mihomo-tun");
    assert!(tun.is_virtual);
    let hv = &ifaces[2];
    assert_eq!(hv.iftype, "hyperv");
    assert_eq!(hv.metric, 0); // "5000|extra" is the seventh field
}

#[test]
fn classification_rules_in_order() {
    assert_eq!(classify_interface("Software Loopback Interface 1", "x"), IfaceType::Loopback);
    assert_eq!(classify_interface("", "LO"), IfaceType::Loopback);
    assert_eq!(classify_interface("Clash Tunnel", "utun"), IfaceType::ClashTun);
    assert_eq!(classify_interface("", "wg0"), IfaceType::Wireguard);
    assert_eq!(classify_interface("TAP-Windows Adapter V9 for OpenVPN", ""), IfaceType::Openvpn);
    assert_eq!(classify_interface("VirtualBox Host-Only", ""), IfaceType::Virtualbox);
    assert_eq!(classify_interface("VMware Virtual Ethernet Adapter", ""), IfaceType::Vmware);
    assert_eq!(classify_interface("Docker bridge", ""), IfaceType::Docker);
    assert_eq!(classify_interface("TAP adapter", ""), IfaceType::TunTap);
    assert_eq!(classify_interface("Intel(R) Wi-Fi 6 AX201", "WLAN"), IfaceType::Wireless);
    assert_eq!(classify_interface("Realtek PCIe GbE", ""), IfaceType::Ethernet);
    assert_eq!(classify_interface("以太网适配器", ""), IfaceType::Ethernet);
    assert_eq!(classify_interface("Bluetooth Device", "bt"), IfaceType::Other);
}

#[test]
fn kinds_ids_labels_and_virtuality() {
    assert_eq!(IfaceType::TunTap.to_id(), "tun-tap");
    assert_eq!(IfaceType::Other.to_id(), "other");
    assert_eq!(IfaceType::Loopback.to_label(Lang::Zh), "回环");
    assert_eq!(IfaceType::Hyperv.to_label(Lang::En), "Hyper-V");
    assert!(IfaceType::Docker.is_virtual());
    assert!(!IfaceType::Ethernet.is_virtual());
    assert!(!IfaceType::Other.is_virtual());
}

#[test]
fn egress_interface_is_the_first_with_that_address() {
    let ifaces = get_all_interfaces(LISTING);
    assert_eq!(find_egress_interface("172.20.0.1", &ifaces), Some("vEthernet (WSL)".to_string()));
    assert_eq!(find_egress_interface("10.0.0.1", &ifaces), None);
}

#[test]
fn routes_are_read_from_the_listing() {
    let defaults = get_default_routes("192.168.1.1|以太网\r\n no separator \n 10.0.0.1 | wg0 \n");
    assert_eq!(
        defaults,
        vec![
            ("192.168.1.1".to_string(), "以太网".to_string()),
            ("10.0.0.1".to_string(), "wg0".to_string())
        ]
    );
    let table = get_route_table("0.0.0.0/0|192.168.1.1|以太网|25\n127.0.0.0/8|0.0.0.0|Loopback|256\n::/0|::|x|1\nbad|line\n");
    assert_eq!(table.len(), 3);
    assert_eq!(table[0].gateway, "192.168.1.1");
    assert_eq!(table[0].metric, "25");
    assert_eq!(table[1].gateway, "--");
    assert_eq!(table[2].gateway, "--");
    assert_eq!(table[2].destination, "::/0");
}

fn env(http: &str, https: &str, all: &str, no: &str) -> ProxyEnv {
    ProxyEnv {
        http_proxy: http.to_string(),
        https_proxy: https.to_string(),
        all_proxy: all.to_string(),
        no_proxy: no.to_string(),
    }
}

#[test]
fn proxy_listing() {
    let entries = get_proxy_info(&env("http://127.0.0.1:7890", "", "", "localhost"), None);
    assert_eq!(
        entries,
        vec![
            ("HTTP 代理".to_string(), "http://127.0.0.1:7890".to_string()),
            ("排除列表".to_string(), "localhost".to_string())
        ]
    );
    let none = get_proxy_info(&env("", "", "", ""), Some(None));
    assert_eq!(
        none,
        vec![
            ("环境变量".to_string(), "未设置".to_string()),
            ("系统代理".to_string(), "未启用".to_string())
        ]
    );
    let sys = get_proxy_info(&env("", "", "socks5://h:1", ""), Some(Some("127.0.0.1:7897".to_string())));
    assert_eq!(sys[1], ("系统代理".to_string(), "127.0.0.1:7897".to_string()));
}

#[test]
fn system_proxy_requires_enable_and_server() {
    assert_eq!(system_proxy_setting(Some(1), Some("127.0.0.1:7897".to_string())), Some("127.0.0.1:7897".to_string()));
    assert_eq!(system_proxy_setting(Some(0), Some("127.0.0.1:7897".to_string())), None);
    assert_eq!(system_proxy_setting(Some(1), Some(String::new())), None);
    assert_eq!(system_proxy_setting(Some(1), None), None);
    assert_eq!(system_proxy_setting(None, Some("x".to_string())), None);
}

#[test]
fn report_labels_and_rows() {
    assert_eq!(report::classify_interface("Radmin VPN Ethernet Adapter", ""), "Radmin VPN");
    assert_eq!(report::classify_interface("ZeroTier Virtual Port", ""), "ZeroTier");
    assert_eq!(report::classify_interface("Tailscale Tunnel", "tailscale0"), "Tailscale");
    assert_eq!(report::classify_interface("Intel Wireless", ""), "无线");
    let ifaces = get_all_interfaces(LISTING);
    let row = report::interface_row(&ifaces[0], &Some("以太网".to_string()), &[]);
    assert_eq!(row, vec!["以太网", "AA-BB-CC-DD-EE-FF", "192.168.1.5", "Up", "以太网", "25", "✓ 出口"]);
    let row = report::interface_row(&ifaces[1], &Some("以太网".to_string()), &["Mihomo".to_string()]);
    assert_eq!(row[5], "0 *");
    assert_eq!(row[6], "~ 备用");
    let row = report::interface_row(&ifaces[2], &None, &[]);
    assert_eq!(row[4], "Hyper-V");
    assert_eq!(row[6], "");
    assert_eq!(report::count_virtual(&ifaces), 2);
}
