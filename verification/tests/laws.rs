use netutils::diagnose::{build_chain, derive_conclusion, Conclusion, DiagStep};
use netutils::info::interface::{classify_interface, get_all_interfaces};
use netutils::info::route::{get_default_routes, get_route_table};
use netutils::text::{chars_of, decimal_string, parse_u32};

#[test]
fn listing_line_reads_back_as_written() {
    let fields = ["eth0", "00-11-22-33-44-55", "10.1.2.3", "Up", "Realtek PCIe GbE", "7"];
    for metric in [0u32, 35, 4_000_000_000] {
        let line = format!("{}|{}", fields.join("|"), decimal_string(metric));
        let read = get_all_interfaces(&line);
        assert_eq!(read.len(), 1);
        let i = &read[0];
        assert_eq!(
            (i.name.as_str(), i.mac.as_str(), i.ipv4.as_str(), i.status.as_str(), i.description.as_str()),
            (fields[0], fields[1], fields[2], fields[3], fields[4])
        );
        assert_eq!(i.metric, metric);
        assert_eq!(i.iftype, classify_interface(fields[4], fields[0]).to_id());
    }
}

#[test]
fn route_lines_read_back_as_written() {
    let routes = get_route_table("10.0.0.0/8|10.0.0.1|wg0|5");
    assert_eq!(routes.len(), 1);
    assert_eq!(
        (routes[0].destination.as_str(), routes[0].gateway.as_str(), routes[0].interface.as_str(), routes[0].metric.as_str()),
        ("10.0.0.0/8", "10.0.0.1", "wg0", "5")
    );
    assert_eq!(get_route_table("0.0.0.0/0|0.0.0.0|eth0|1")[0].gateway, "--");
    assert_eq!(get_default_routes("192.168.0.1|eth0"), vec![("192.168.0.1".to_string(), "eth0".to_string())]);
}

#[test]
fn decimal_numbers_parse_back() {
    for n in [0u32, 9, 10, 65535, 123456789, u32::MAX] {
        assert_eq!(parse_u32(&chars_of(&decimal_string(n))), Some(n));
    }
}

fn step(ok: bool, warning: bool) -> DiagStep {
    DiagStep { check: String::new(), ok, warning, message: String::new() }
}

#[test]
fn healthy_exactly_when_every_link_passes() {
    let cases = [
        [true, true, true, true],
        [true, false, true, true],
        [true, true, true, false],
        [false, false, false, false],
    ];
    for oks in cases {
        let steps: Vec<DiagStep> = oks.iter().map(|ok| step(*ok, !*ok)).chain([step(false, true)]).collect();
        let chain = build_chain(&steps);
        let all_pass = chain.split(" → ").all(|l| l.starts_with("✅"));
        assert_eq!(derive_conclusion(&steps) == Conclusion::Healthy, all_pass);
    }
}
