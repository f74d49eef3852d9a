use netutils::connectivity::{
    choose_proxy, http_status_code, is_http_target, is_success_status, parse_url, split_host_port,
    timing_applies,
};
use netutils::diagnose::{build_chain, derive_conclusion, dns_target_ip, ping_step_status, Conclusion, DiagStep};
use netutils::dns::DnsRecordType;
use netutils::i18n::Lang;
use netutils::output::{OutputConfig, OutputMode};
use netutils::portscan::{common_ports, parse_port_list, open_ports_sorted, port_row, service_name, ScanResult};
use netutils::traceroute::{probe_ident, probe_sequence};

fn step(ok: bool, warning: bool, message: &str) -> DiagStep {
    DiagStep { check: "c".to_string(), ok, warning, message: message.to_string() }
}

#[test]
fn conclusion_names_first_failed_link() {
    let all_ok = vec![step(true, false, ""); 5];
    assert_eq!(derive_conclusion(&all_ok), Conclusion::Healthy);
    let mut s = all_ok.clone();
    s[1] = step(false, false, "");
    s[2] = step(false, false, "");
    assert_eq!(derive_conclusion(&s), Conclusion::PingFailed);
    s[0] = step(false, false, "");
    assert_eq!(derive_conclusion(&s), Conclusion::DnsFailed);
    let mut t = all_ok.clone();
    t[3] = step(false, true, "");
    assert_eq!(derive_conclusion(&t), Conclusion::HttpsFailed);
    let mut u = all_ok.clone();
    u[4] = step(false, true, "");
    assert_eq!(derive_conclusion(&u), Conclusion::Healthy);
    assert_eq!(derive_conclusion(&all_ok[..3]), Conclusion::HttpsFailed);
    assert_eq!(derive_conclusion(&[]), Conclusion::DnsFailed);
    assert_eq!(Conclusion::TcpFailed.text(Lang::Zh), "端口不通");
    assert_eq!(Conclusion::Healthy.text(Lang::En), "Link healthy");
}

#[test]
fn chain_marks_each_link() {
    let steps = vec![
        step(true, false, ""),
        step(false, false, ""),
        step(false, false, ""),
        step(true, false, ""),
        step(false, true, ""),
    ];
    assert_eq!(build_chain(&steps), "✅ DNS → ❌ Ping → ❌ TCP → ✅ HTTPS");
    assert_eq!(build_chain(&[step(false, true, "")]), "⚠️ DNS");
    assert_eq!(build_chain(&[]), "");
}

#[test]
fn dns_target_is_read_from_the_message() {
    let s = step(true, false, "System DNS: google.com → 142.251.188.138 (199ms)");
    assert_eq!(dns_target_ip(&s), Some("142.251.188.138".to_string()));
    assert_eq!(dns_target_ip(&step(false, false, "a → 1.2.3.4 (1ms)")), None);
    assert_eq!(dns_target_ip(&step(true, false, "no arrow")), None);
    assert_eq!(dns_target_ip(&step(true, false, "a → b → c")), Some("b".to_string()));
}

#[test]
fn ping_step_verdicts() {
    assert_eq!(ping_step_status(0, 2), (false, false));
    assert_eq!(ping_step_status(1, 2), (true, true));
    assert_eq!(ping_step_status(2, 2), (true, false));
}

#[test]
fn urls_and_targets() {
    assert_eq!(parse_url("https://example.com/path"), Some(("example.com".to_string(), 443, true)));
    assert_eq!(parse_url("http://h:8080"), Some(("h".to_string(), 8080, false)));
    assert_eq!(parse_url("http://h:bad/x"), Some(("h".to_string(), 80, false)));
    assert_eq!(parse_url("example.com"), None);
    assert_eq!(split_host_port("example.com:443"), Some(("example.com".to_string(), 443)));
    assert_eq!(split_host_port("[fe80::1%eth0]:22"), Some(("fe80::1%eth0".to_string(), 22)));
    assert_eq!(split_host_port("host"), None);
    assert_eq!(split_host_port("host:99999"), None);
    assert!(is_http_target("https://x"));
    assert!(!is_http_target("x:443"));
}

#[test]
fn proxy_choice_and_timing() {
    let sys = Some("http://127.0.0.1:7897".to_string());
    assert_eq!(choose_proxy(Some("p".to_string()), true, sys.clone()), Some("p".to_string()));
    assert_eq!(choose_proxy(None, true, sys.clone()), None);
    assert_eq!(choose_proxy(None, false, sys.clone()), sys);
    assert!(timing_applies(true, false, "https://x"));
    assert!(!timing_applies(true, true, "https://x"));
    assert!(!timing_applies(true, false, "http://x"));
    assert!(!timing_applies(false, false, "https://x"));
}

#[test]
fn status_codes() {
    assert_eq!(http_status_code("HTTP/1.1 200 OK\r\nServer: x\r\n"), 200);
    assert_eq!(http_status_code("  HTTP/1.1   404   Not Found"), 404);
    assert_eq!(http_status_code("garbage"), 0);
    assert_eq!(http_status_code(""), 0);
    assert_eq!(http_status_code("HTTP/1.1 abc"), 0);
    assert!(is_success_status(204));
    assert!(!is_success_status(301));
}

#[test]
fn scan_report() {
    assert_eq!(service_name(22), "SSH");
    assert_eq!(service_name(1), "unknown");
    let ports = common_ports();
    assert_eq!(ports.len(), 20);
    assert_eq!(ports[0], 21);
    let results = vec![
        ScanResult { port: 443, open: true },
        ScanResult { port: 22, open: true },
        ScanResult { port: 80, open: false },
        ScanResult { port: 8080, open: true },
    ];
    assert_eq!(open_ports_sorted(&results), vec![22, 443, 8080]);
    assert_eq!(port_row(443), vec!["443", "open", "HTTPS"]);
}

#[test]
fn probe_identifiers() {
    assert_eq!(probe_ident(0x12345), 0x2345);
    assert_eq!(probe_sequence(3, 2), 32);
    assert_eq!(probe_sequence(7000, 1), (70001u32 % 65536) as u16);
}

#[test]
fn misc_types() {
    assert_eq!(DnsRecordType::Aaaa.label(), "AAAA");
    assert_eq!(OutputConfig::default().mode, OutputMode::Table);
}

#[test]
fn port_lists_with_ranges() {
    assert_eq!(parse_port_list("80-83,443, 8080 - 8081"), Some(vec![80, 81, 82, 83, 443, 8080, 8081]));
    assert_eq!(parse_port_list("22"), Some(vec![22]));
    assert_eq!(parse_port_list("65535-65535"), Some(vec![65535]));
    assert_eq!(parse_port_list("100-90"), None);
    assert_eq!(parse_port_list("80,,443"), None);
    assert_eq!(parse_port_list("http"), None);
    assert_eq!(parse_port_list("70000"), None);
    assert_eq!(parse_port_list("0-2").map(|v| v.len()), Some(3));
}
