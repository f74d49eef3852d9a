use netutils::diagnose::{dns_step, dns_target_ip, https_step, ping_step, tcp_step};
use netutils::i18n::Lang;
use netutils::info::interface::{classify_lowercased, IfaceType};
use netutils::report::label_lowercased;
use netutils::table::{display_width, total_width};

#[test]
fn dns_step_messages() {
    let s = dns_step("google.com", Some(("142.251.188.138".to_string(), "199".to_string())), Lang::Zh);
    assert_eq!(s.check, "① DNS 解析");
    assert_eq!(s.message, "系统 DNS: google.com → 142.251.188.138 (199ms)");
    assert!(s.ok && !s.warning);
    let s = dns_step("google.com", Some(("142.251.188.138".to_string(), "199".to_string())), Lang::En);
    assert_eq!(s.check, "① DNS Resolution");
    assert_eq!(s.message, "System DNS: google.com → 142.251.188.138 (199ms)");
    let s = dns_step("nowhere.invalid", None, Lang::Zh);
    assert_eq!(s.message, "无法解析 nowhere.invalid");
    assert!(!s.ok && !s.warning);
}

#[test]
fn ping_step_messages() {
    let s = ping_step("173.194.43.139", 0, 2, "0", "100", Lang::Zh);
    assert_eq!(s.check, "② Ping 探测");
    assert_eq!(s.message, "173.194.43.139 不可达 (100% 丢包)");
    assert!(!s.ok && !s.warning);
    let s = ping_step("173.194.43.139", 0, 2, "0", "100", Lang::En);
    assert_eq!(s.message, "173.194.43.139 unreachable (100% loss)");
    let s = ping_step("1.1.1.1", 1, 2, "12", "50", Lang::Zh);
    assert_eq!(s.message, "1.1.1.1 平均 12ms，丢包 50%");
    assert!(s.ok && s.warning);
    let s = ping_step("1.1.1.1", 2, 2, "12", "0", Lang::En);
    assert_eq!(s.message, "1.1.1.1 avg 12ms, loss 0%");
    assert!(s.ok && !s.warning);
}

#[test]
fn tcp_step_messages() {
    let s = tcp_step(443, Err("timeout (3s)".to_string()), Lang::Zh);
    assert_eq!(s.check, "③ TCP 端口 443");
    assert_eq!(s.message, "连接失败: timeout (3s)");
    assert!(!s.ok && !s.warning);
    let s = tcp_step(443, Err("timeout (3s)".to_string()), Lang::En);
    assert_eq!(s.check, "③ TCP Port 443");
    assert_eq!(s.message, "Connection failed: timeout (3s)");
    let s = tcp_step(443, Ok("35".to_string()), Lang::Zh);
    assert_eq!(s.message, "连接成功 (35ms)");
    assert!(s.ok && !s.warning);
}

#[test]
fn https_step_messages() {
    let s = https_step("https://google.com", Ok((200, "807".to_string())), true, Lang::Zh);
    assert_eq!(s.check, "④ HTTPS 请求");
    assert_eq!(s.message, "https://google.com → 200 (807ms) [经代理]");
    assert!(s.ok && !s.warning);
    let s = https_step("https://google.com", Ok((200, "807".to_string())), true, Lang::En);
    assert_eq!(s.check, "④ HTTPS Request");
    assert_eq!(s.message, "https://google.com → 200 (807ms) [via proxy]");
    let s = https_step("https://a.com", Ok((503, "20".to_string())), false, Lang::Zh);
    assert_eq!(s.message, "https://a.com → 503 (20ms) [直连]");
    assert!(!s.ok && s.warning);
    let s = https_step("https://a.com", Ok((299, "20".to_string())), false, Lang::En);
    assert!(s.ok && !s.warning);
    let s = https_step("https://a.com", Ok((300, "20".to_string())), false, Lang::En);
    assert!(!s.ok && s.warning);
    let s = https_step("https://a.com", Err("dns error".to_string()), false, Lang::En);
    assert_eq!(s.message, "Request failed: dns error [direct]");
    assert!(!s.ok && !s.warning);
    let s = https_step("https://a.com", Err("dns error".to_string()), true, Lang::Zh);
    assert_eq!(s.message, "请求失败: dns error [经代理]");
}

#[test]
fn classification_of_lowercased_text() {
    assert_eq!(classify_lowercased("software loopback interface 1", "x"), IfaceType::Loopback);
    assert_eq!(classify_lowercased("", "lo"), IfaceType::Loopback);
    // Already lowercased input is taken as it stands: upper case does not match.
    assert_eq!(classify_lowercased("", "LO"), IfaceType::Other);
    assert_eq!(classify_lowercased("intel(r) ethernet connection", "eth0"), IfaceType::Ethernet);
    assert_eq!(label_lowercased("zerotier virtual port", "zt0"), "ZeroTier");
    assert_eq!(label_lowercased("realtek pcie gbe", "以太网"), "以太网");
    assert_eq!(label_lowercased("", "WG0"), "其他");
}

#[test]
fn widths_add_up() {
    assert_eq!(total_width(&[]), 0);
    assert_eq!(total_width(&[Some(1), None, Some(2), Some(3)]), 6);
    assert_eq!(display_width("名称 IP"), 7);
    assert_eq!(display_width("中文"), 4);
}

#[test]
fn dns_step_reads_back() {
    for lang in [Lang::Zh, Lang::En] {
        let s = dns_step("example.com", Some(("2001:db8::1".to_string(), "12".to_string())), lang);
        assert_eq!(dns_target_ip(&s), Some("2001:db8::1".to_string()));
        let s = dns_step("example.com", Some(("93.184.216.34".to_string(), "0".to_string())), lang);
        assert_eq!(dns_target_ip(&s), Some("93.184.216.34".to_string()));
        assert_eq!(dns_target_ip(&dns_step("example.com", None, lang)), None);
    }
}
