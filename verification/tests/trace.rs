use netutils::connectivity::{get_request, proxy_label, request_path};
use netutils::diagnose::{trace_outcome, trace_step, TraceOutcome};
use netutils::i18n::{lang_from_locale, parse_lang, Lang};
use netutils::icmp::icmp_checksum;
use netutils::table::{display_width, format_header_row, format_row, render_table};
use netutils::traceroute::{after_hop, first_hop, hop_reached, hop_row};

fn some(s: &str) -> Option<String> {
    Some(s.to_string())
}

#[test]
fn trace_starts_at_first_hop() {
    assert_eq!(first_hop(30), Some(1));
    assert_eq!(first_hop(1), Some(1));
    assert_eq!(first_hop(0), None);
}

#[test]
fn trace_stops_when_reached_or_out_of_hops() {
    assert_eq!(after_hop(1, 30, false), Some(2));
    assert_eq!(after_hop(29, 30, false), Some(30));
    assert_eq!(after_hop(30, 30, false), None);
    assert_eq!(after_hop(5, 30, true), None);
    assert_eq!(after_hop(1, 1, false), None);
}

#[test]
fn trace_loop_visits_each_hop_once() {
    // Run the decisions alone: the target answers at hop 4.
    let mut visited = Vec::new();
    let mut next = first_hop(10);
    while let Some(ttl) = next {
        visited.push(ttl);
        next = after_hop(ttl, 10, ttl == 4);
    }
    assert_eq!(visited, vec![1, 2, 3, 4]);
    // Never reached: every hop up to the limit.
    let mut count = 0;
    let mut next = first_hop(3);
    while let Some(ttl) = next {
        count += 1;
        next = after_hop(ttl, 3, false);
    }
    assert_eq!(count, 3);
}

#[test]
fn hop_reached_compares_addresses() {
    let ips = vec![None, some("10.0.0.1"), some("8.8.8.8")];
    assert!(hop_reached(&ips, "8.8.8.8"));
    assert!(!hop_reached(&ips, "8.8.4.4"));
    assert!(!hop_reached(&[None, None, None], "8.8.8.8"));
    assert!(!hop_reached(&[], "8.8.8.8"));
}

#[test]
fn hop_row_shows_first_answer_and_times() {
    let ips = vec![None, some("10.0.0.1"), some("10.0.0.2")];
    let rtts = vec![None, some("1.23ms"), some("4.56ms")];
    assert_eq!(hop_row(3, &ips, &rtts), vec!["3", "10.0.0.1", "*", "1.23ms", "4.56ms"]);
    assert_eq!(hop_row(12, &[None, None, None], &[None, None, None]), vec!["12", "*", "*", "*", "*"]);
    // Fewer probes than columns: the missing ones show `*`.
    assert_eq!(hop_row(1, &[some("1.1.1.1")], &[some("0.50ms")]), vec!["1", "1.1.1.1", "0.50ms", "*", "*"]);
}

#[test]
fn trace_outcome_after_last_hop() {
    assert_eq!(trace_outcome(7, true), TraceOutcome::Reached { hops: 7 });
    assert_eq!(trace_outcome(10, false), TraceOutcome::NotReached { max_hops: 10 });
}

#[test]
fn trace_step_messages() {
    let s = trace_step(TraceOutcome::NotReached { max_hops: 10 }, 10, Lang::Zh);
    assert_eq!(s.check, "⑤ Traceroute (最多 10 跳)");
    assert_eq!(s.message, "未到达目标 (10 跳内)");
    assert!(!s.ok && s.warning);
    let s = trace_step(TraceOutcome::NotReached { max_hops: 10 }, 10, Lang::En);
    assert_eq!(s.check, "⑤ Traceroute (max 10 hops)");
    assert_eq!(s.message, "Not reached (10 hops)");
    let s = trace_step(TraceOutcome::Reached { hops: 6 }, 10, Lang::Zh);
    assert_eq!(s.message, "已到达 (6 跳)");
    assert!(s.ok && !s.warning);
    let s = trace_step(TraceOutcome::Reached { hops: 6 }, 10, Lang::En);
    assert_eq!(s.message, "Reached (6 hops)");
    let s = trace_step(TraceOutcome::Skipped, 10, Lang::Zh);
    assert_eq!(s.message, "已跳过（需要权限或目标无效）");
    assert!(!s.ok && s.warning);
    let s = trace_step(TraceOutcome::Skipped, 10, Lang::En);
    assert_eq!(s.message, "Skipped (needs privileges or a valid target)");
}

#[test]
fn request_path_of_urls() {
    assert_eq!(request_path("https://example.com/a/b?q=1"), "/a/b?q=1");
    assert_eq!(request_path("https://example.com"), "/");
    assert_eq!(request_path("https://example.com:8443/x"), "/x");
    assert_eq!(request_path("example.com/path"), "/");
    assert_eq!(request_path("http://a.com/x://b/c"), "/x");
    assert_eq!(request_path("https://"), "/");
}

#[test]
fn get_request_text() {
    assert_eq!(
        get_request("/a", "example.com"),
        "GET /a HTTP/1.1\r\nHost: example.com\r\nUser-Agent: netutils/0.3\r\nConnection: close\r\n\r\n"
    );
}

#[test]
fn proxy_labels() {
    assert_eq!(proxy_label(true, Lang::Zh), "经代理");
    assert_eq!(proxy_label(false, Lang::Zh), "直连");
    assert_eq!(proxy_label(true, Lang::En), "via proxy");
    assert_eq!(proxy_label(false, Lang::En), "direct");
}

#[test]
fn language_from_locale_and_option() {
    assert_eq!(lang_from_locale("zh_CN.UTF-8"), Lang::Zh);
    assert_eq!(lang_from_locale("zh-TW"), Lang::Zh);
    assert_eq!(lang_from_locale("ZH"), Lang::Zh);
    assert_eq!(lang_from_locale("en_US.UTF-8"), Lang::En);
    assert_eq!(lang_from_locale("C"), Lang::En);
    assert_eq!(lang_from_locale(""), Lang::En);
    assert_eq!(parse_lang("zh"), Some(Lang::Zh));
    assert_eq!(parse_lang("EN"), Some(Lang::En));
    assert_eq!(parse_lang("fr"), None);
    assert_eq!(parse_lang("zho"), None);
}

#[test]
fn ascii_text_is_as_wide_as_long() {
    assert_eq!(display_width(""), 0);
    assert_eq!(display_width("abc"), 3);
    assert_eq!(display_width("以太网"), 6);
    assert_eq!(display_width("MAC 地址"), 8);
    assert_eq!(display_width("~ !"), 3);
}

#[test]
fn format_row_samples() {
    assert_eq!(format_row(&["ab".to_string()], &[4]), "| ab   |");
    assert_eq!(format_row(&["abcdef".to_string()], &[3]), "| abcdef |");
    assert_eq!(format_row(&["a".to_string(), "b".to_string()], &[1]), "| a |");
    assert_eq!(format_row(&[], &[]), "||");
}

#[test]
fn header_row_equals_data_row() {
    let headers = ["名称", "IP"];
    let cells = vec!["名称".to_string(), "IP".to_string()];
    assert_eq!(format_header_row(&headers, &[6, 2]), format_row(&cells, &[6, 2]));
    assert_eq!(format_header_row(&headers, &[6, 2]), "| 名称   | IP |");
}

#[test]
fn printed_table_text() {
    let lines = render_table(&["A", "B"], &[vec!["x".to_string(), "yy".to_string()]]);
    let text: String = lines.iter().map(|l| format!("{}\n", l)).collect();
    assert_eq!(text, "+---+----+\n| A | B  |\n+---+----+\n| x | yy |\n+---+----+\n");
    for l in &lines {
        assert_eq!(display_width(l), 3 + 4 + 3);
    }
}

#[test]
fn checksum_in_any_zeroed_word_verifies() {
    let mut data: Vec<u8> = (1..=21u8).collect();
    for k in [0usize, 4, 10, 18] {
        let mut d = data.clone();
        d[k] = 0;
        d[k + 1] = 0;
        let c = icmp_checksum(&d);
        d[k] = (c >> 8) as u8;
        d[k + 1] = (c & 0xFF) as u8;
        assert_eq!(icmp_checksum(&d), 0);
    }
    data.clear();
}
