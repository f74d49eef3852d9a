//! Link diagnosis (DNS → Ping → TCP → HTTPS → Traceroute): the verdict of
//! each step, the conclusion naming the first broken link, and the chain summary.

use vstd::prelude::*;
use crate::connectivity::{is_success_status, proxy_label_text};
use crate::i18n::Lang;
use crate::text::{chars_of, decimal_digits, free_of, occurs_at, find_pattern, push_decimal, push_str, first_occurrence, string_of, sub_chars, trim, trimmed};

verus! {

broadcast use vstd::string::group_string_axioms;

/// The outcome of one diagnosis step.
#[derive(Clone)]
pub struct DiagStep {
    pub check: String,
    pub ok: bool,
    pub warning: bool,
    pub message: String,
}

/// The conclusion of a diagnosis: the first link that failed, or none.
#[derive(Debug, Clone, Copy, PartialEq, Eq, Structural)]
pub enum Conclusion {
    DnsFailed,
    PingFailed,
    TcpFailed,
    HttpsFailed,
    Healthy,
}

/// Step `i` exists and succeeded.
pub open spec fn step_ok(steps: Seq<DiagStep>, i: int) -> bool {
    0 <= i < steps.len() && steps[i].ok
}

/// The first of DNS, Ping, TCP, HTTPS (steps 0 to 3) that did not succeed; the
/// traceroute step does not enter the conclusion.
pub open spec fn conclusion_of(steps: Seq<DiagStep>) -> Conclusion {
    if !step_ok(steps, 0) {
        Conclusion::DnsFailed
    } else if !step_ok(steps, 1) {
        Conclusion::PingFailed
    } else if !step_ok(steps, 2) {
        Conclusion::TcpFailed
    } else if !step_ok(steps, 3) {
        Conclusion::HttpsFailed
    } else {
        Conclusion::Healthy
    }
}

fn step_succeeded(steps: &[DiagStep], i: usize) -> (ok: bool)
    ensures
        ok == step_ok(steps@, i as int),
{
    i < steps.len() && steps[i].ok
}

/// Derives the conclusion from the steps `[dns, ping, tcp, https, trace]`:
/// the first failed link in the order DNS, Ping, TCP, HTTPS (a missing step
/// counts as failed), or a healthy link.
pub fn derive_conclusion(steps: &[DiagStep]) -> (c: Conclusion)
    ensures
        c == conclusion_of(steps@),
{
    if !step_succeeded(steps, 0) {
        return Conclusion::DnsFailed;
    }
    if !step_succeeded(steps, 1) {
        return Conclusion::PingFailed;
    }
    if !step_succeeded(steps, 2) {
        return Conclusion::TcpFailed;
    }
    if !step_succeeded(steps, 3) {
        return Conclusion::HttpsFailed;
    }
    Conclusion::Healthy
}

/// The text of a conclusion.
pub open spec fn conclusion_text(c: Conclusion, lang: Lang) -> Seq<char> {
    match lang {
        Lang::Zh => match c {
            Conclusion::DnsFailed => "DNS 解析失败"@,
            Conclusion::PingFailed => "主机不可达"@,
            Conclusion::TcpFailed => "端口不通"@,
            Conclusion::HttpsFailed => "HTTPS 异常"@,
            Conclusion::Healthy => "链路正常"@,
        },
        Lang::En => match c {
            Conclusion::DnsFailed => "DNS resolution failed"@,
            Conclusion::PingFailed => "Host unreachable"@,
            Conclusion::TcpFailed => "TCP port unreachable"@,
            Conclusion::HttpsFailed => "HTTPS failed"@,
            Conclusion::Healthy => "Link healthy"@,
        },
    }
}

impl Conclusion {
    /// The conclusion as shown to the user.
    pub fn text(&self, lang: Lang) -> (s: String)
        ensures
            s@ == conclusion_text(*self, lang),
    {
        let t = match lang {
            Lang::Zh => match self {
                Conclusion::DnsFailed => "DNS 解析失败",
                Conclusion::PingFailed => "主机不可达",
                Conclusion::TcpFailed => "端口不通",
                Conclusion::HttpsFailed => "HTTPS 异常",
                Conclusion::Healthy => "链路正常",
            },
            Lang::En => match self {
                Conclusion::DnsFailed => "DNS resolution failed",
                Conclusion::PingFailed => "Host unreachable",
                Conclusion::TcpFailed => "TCP port unreachable",
                Conclusion::HttpsFailed => "HTTPS failed",
                Conclusion::Healthy => "Link healthy",
            },
        };
        t.to_string()
    }
}

/// The chain mark of a step: ✅ when it succeeded, ⚠️ when it only warned, ❌ when it failed.
pub open spec fn step_mark(step: DiagStep) -> Seq<char> {
    if step.ok {
        "✅ "@
    } else if step.warning {
        "⚠️ "@
    } else {
        "❌ "@
    }
}

/// The label of link `i` of the chain.
pub open spec fn link_label(i: int) -> Seq<char> {
    if i == 0 {
        "DNS"@
    } else if i == 1 {
        "Ping"@
    } else if i == 2 {
        "TCP"@
    } else {
        "HTTPS"@
    }
}

/// The chain summary of the first `n` steps: each step's mark and label, joined by `" → "`.
pub open spec fn chain_text(steps: Seq<DiagStep>, n: nat) -> Seq<char>
    decreases n,
{
    if n == 0 {
        seq![]
    } else if n == 1 {
        step_mark(steps[0]) + link_label(0)
    } else {
        chain_text(steps, (n - 1) as nat) + " → "@ + step_mark(steps[n - 1]) + link_label(n - 1)
    }
}

/// The number of steps the chain shows: at most the four links DNS, Ping, TCP, HTTPS.
pub open spec fn chain_len(steps: Seq<DiagStep>) -> nat {
    if steps.len() < 4 {
        steps.len()
    } else {
        4
    }
}

/// Summarises the link (DNS → Ping → TCP → HTTPS) for display, one mark per
/// step that was run (see [`chain_text`]).
pub fn build_chain(steps: &[DiagStep]) -> (chain: String)
    ensures
        chain@ == chain_text(steps@, chain_len(steps@)),
{
    let n = if steps.len() < 4 { steps.len() } else { 4 };
    let mut out: Vec<char> = Vec::new();
    let mut i: usize = 0;
    while i < n
        invariant
            n == chain_len(steps@),
            i <= n,
            out@ == chain_text(steps@, i as nat),
        decreases n - i,
    {
        let ghost before = out@;
        if i > 0 {
            push_str(&mut out, " → ");
        }
        let step = &steps[i];
        if step.ok {
            push_str(&mut out, "✅ ");
        } else if step.warning {
            push_str(&mut out, "⚠️ ");
        } else {
            push_str(&mut out, "❌ ");
        }
        let label = if i == 0 {
            "DNS"
        } else if i == 1 {
            "Ping"
        } else if i == 2 {
            "TCP"
        } else {
            "HTTPS"
        };
        push_str(&mut out, label);
        proof {
            if i == 0 {
                assert(out@ =~= chain_text(steps@, 1));
            } else {
                assert(out@ =~= chain_text(steps@, (i + 1) as nat));
            }
        }
        i = i + 1;
    }
    string_of(&out)
}

/// The healthy conclusion and the chain agree: with all four links run, the
/// diagnosis is healthy exactly when every link in the chain is marked ✅.
pub proof fn lemma_healthy_iff_all_links_pass(steps: Seq<DiagStep>)
    requires
        steps.len() >= 4,
    ensures
        conclusion_of(steps) == Conclusion::Healthy <==> forall|i: int|
            0 <= i < 4 ==> #[trigger] step_mark(steps[i]) == "✅ "@,
{
    reveal_strlit("✅ ");
    reveal_strlit("⚠️ ");
    reveal_strlit("❌ ");
    if conclusion_of(steps) != Conclusion::Healthy {
        let i = if !steps[0].ok { 0 } else if !steps[1].ok { 1 } else if !steps[2].ok { 2 } else { 3 };
        assert("⚠️ "@[0] != "✅ "@[0]);
        assert("❌ "@[0] != "✅ "@[0]);
        assert(step_mark(steps[i]) != "✅ "@);
    }
}

/// The text the DNS step reported as the resolved address: in its message
/// (`"… → <ip> (<time>)"`), the part after the first `"→ "` (up to any further
/// `"→ "`), cut at `" ("` and trimmed; none when the step failed or the
/// message has no arrow.
pub open spec fn dns_target_text(dns: DiagStep) -> Option<Seq<char>> {
    if !dns.ok {
        None
    } else {
        address_in_message(dns.message@)
    }
}

/// The address text of a DNS step's message `m` (see [`dns_target_text`]).
pub open spec fn address_in_message(m: Seq<char>) -> Option<Seq<char>> {
    let k = first_occurrence(m, "→ "@);
    if k >= m.len() {
        None
    } else {
        let after = m.skip(k + 2);
        let segment = after.take(first_occurrence(after, "→ "@));
        Some(trimmed(segment.take(first_occurrence(segment, " ("@))))
    }
}

/// Extracts, from the DNS step, the text of the address it resolved (see
/// [`dns_target_text`]); it is then parsed as an IP address.
pub fn dns_target_ip(dns: &DiagStep) -> (ip: Option<String>)
    ensures
        match ip {
            Some(t) => dns_target_text(*dns) == Some(t@),
            None => dns_target_text(*dns) is None,
        },
{
    if !dns.ok {
        return None;
    }
    let m = chars_of(dns.message.as_str());
    let arrow = chars_of("→ ");
    let k = find_pattern(&m, &arrow);
    proof {
        reveal_strlit("→ ");
        crate::text::lemma_first_occurrence(m@, arrow@);
    }
    if k >= m.len() {
        return None;
    }
    let after = sub_chars(&m, k + 2, m.len());
    assert(after@ =~= m@.skip(k + 2));
    let end = find_pattern(&after, &arrow);
    proof {
        crate::text::lemma_first_occurrence(after@, arrow@);
    }
    let segment = sub_chars(&after, 0, end);
    assert(segment@ =~= after@.take(end as int));
    let open = chars_of(" (");
    let cut = find_pattern(&segment, &open);
    proof {
        crate::text::lemma_first_occurrence(segment@, open@);
    }
    let candidate = sub_chars(&segment, 0, cut);
    assert(candidate@ =~= segment@.take(cut as int));
    Some(string_of(&trim(&candidate)))
}

/// The verdict of the ping step from the replies received: failed when none
/// came back, a warning when some were lost, passed otherwise.
pub open spec fn ping_verdict(received: nat, sent: nat) -> (bool, bool) {
    if received == 0 {
        (false, false)
    } else if received < sent {
        (true, true)
    } else {
        (true, false)
    }
}

/// Decides the ping step's (ok, warning) from how many of the probes sent
/// were answered (see [`ping_verdict`]).
pub fn ping_step_status(received: usize, sent: usize) -> (status: (bool, bool))
    ensures
        status == ping_verdict(received as nat, sent as nat),
{
    if received == 0 {
        (false, false)
    } else if received < sent {
        (true, true)
    } else {
        (true, false)
    }
}


/// How the traceroute step ended.
#[derive(Debug, Clone, Copy, PartialEq, Eq, Structural)]
pub enum TraceOutcome {
    /// Not run: the target has no IPv4 address, or no raw socket could be opened.
    Skipped,
    /// The target itself answered the probe of hop `hops`.
    Reached { hops: u32 },
    /// The target did not answer within `max_hops` hops.
    NotReached { max_hops: u32 },
}

/// The outcome of a trace that stopped after probing hop `last_ttl`: reached
/// there, or, having stopped without reaching, not reached within `last_ttl` hops.
pub fn trace_outcome(last_ttl: u32, reached: bool) -> (o: TraceOutcome)
    ensures
        o == (if reached {
            TraceOutcome::Reached { hops: last_ttl }
        } else {
            TraceOutcome::NotReached { max_hops: last_ttl }
        }),
{
    if reached {
        TraceOutcome::Reached { hops: last_ttl }
    } else {
        TraceOutcome::NotReached { max_hops: last_ttl }
    }
}

/// The name of the traceroute step, with its hop limit.
pub open spec fn trace_check_label(max_hops: u32, lang: Lang) -> Seq<char> {
    match lang {
        Lang::Zh => "⑤ Traceroute (最多 "@ + decimal_digits(max_hops as nat) + " 跳)"@,
        Lang::En => "⑤ Traceroute (max "@ + decimal_digits(max_hops as nat) + " hops)"@,
    }
}

/// The message of the traceroute step for each outcome.
pub open spec fn trace_step_message(outcome: TraceOutcome, lang: Lang) -> Seq<char> {
    match lang {
        Lang::Zh => match outcome {
            TraceOutcome::Skipped => "已跳过（需要权限或目标无效）"@,
            TraceOutcome::Reached { hops } => "已到达 ("@ + decimal_digits(hops as nat) + " 跳)"@,
            TraceOutcome::NotReached { max_hops } => "未到达目标 ("@ + decimal_digits(max_hops as nat)
                + " 跳内)"@,
        },
        Lang::En => match outcome {
            TraceOutcome::Skipped => "Skipped (needs privileges or a valid target)"@,
            TraceOutcome::Reached { hops } => "Reached ("@ + decimal_digits(hops as nat) + " hops)"@,
            TraceOutcome::NotReached { max_hops } => "Not reached ("@ + decimal_digits(max_hops as nat)
                + " hops)"@,
        },
    }
}

fn text_around_number(before: &str, n: u32, after: &str) -> (s: String)
    ensures
        s@ == before@ + decimal_digits(n as nat) + after@,
{
    let mut out: Vec<char> = Vec::new();
    push_str(&mut out, before);
    push_decimal(&mut out, n);
    push_str(&mut out, after);
    string_of(&out)
}

/// The traceroute step of the diagnosis (limited to `max_hops` hops): it
/// passes only when the target was reached; a skipped or unfinished trace is
/// a warning, never a failure.
pub fn trace_step(outcome: TraceOutcome, max_hops: u32, lang: Lang) -> (s: DiagStep)
    ensures
        s.check@ == trace_check_label(max_hops, lang),
        s.ok == (outcome is Reached),
        s.warning == !(outcome is Reached),
        s.message@ == trace_step_message(outcome, lang),
{
    let check = match lang {
        Lang::Zh => text_around_number("⑤ Traceroute (最多 ", max_hops, " 跳)"),
        Lang::En => text_around_number("⑤ Traceroute (max ", max_hops, " hops)"),
    };
    let message = match lang {
        Lang::Zh => match outcome {
            TraceOutcome::Skipped => "已跳过（需要权限或目标无效）".to_string(),
            TraceOutcome::Reached { hops } => text_around_number("已到达 (", hops, " 跳)"),
            TraceOutcome::NotReached { max_hops } => text_around_number("未到达目标 (", max_hops, " 跳内)"),
        },
        Lang::En => match outcome {
            TraceOutcome::Skipped => "Skipped (needs privileges or a valid target)".to_string(),
            TraceOutcome::Reached { hops } => text_around_number("Reached (", hops, " hops)"),
            TraceOutcome::NotReached { max_hops } => text_around_number("Not reached (", max_hops, " hops)"),
        },
    };
    let reached = match outcome {
        TraceOutcome::Reached { .. } => true,
        _ => false,
    };
    DiagStep { check, ok: reached, warning: !reached, message }
}


/// The name of the DNS step.
pub open spec fn dns_check_label(lang: Lang) -> Seq<char> {
    match lang {
        Lang::Zh => "① DNS 解析"@,
        Lang::En => "① DNS Resolution"@,
    }
}

/// The message of the DNS step: the address `host` resolved to and the time
/// it took (in milliseconds, as written), or that it could not be resolved.
pub open spec fn dns_step_message(host: Seq<char>, resolved: Option<(Seq<char>, Seq<char>)>, lang: Lang) -> Seq<
    char,
> {
    match resolved {
        Some((ip, ms)) => match lang {
            Lang::Zh => "系统 DNS: "@ + host + " → "@ + ip + " ("@ + ms + "ms)"@,
            Lang::En => "System DNS: "@ + host + " → "@ + ip + " ("@ + ms + "ms)"@,
        },
        None => match lang {
            Lang::Zh => "无法解析 "@ + host,
            Lang::En => "Cannot resolve "@ + host,
        },
    }
}

/// The DNS step of the diagnosis: passed when `host` resolved (to the address
/// text `resolved.0`, in `resolved.1` milliseconds), failed otherwise.
pub fn dns_step(host: &str, resolved: Option<(String, String)>, lang: Lang) -> (s: DiagStep)
    ensures
        s.check@ == dns_check_label(lang),
        s.ok == resolved is Some,
        !s.warning,
        s.message@ == dns_step_message(
            host@,
            match resolved {
                Some((ip, ms)) => Some((ip@, ms@)),
                None => None,
            },
            lang,
        ),
{
    let check = match lang {
        Lang::Zh => "① DNS 解析".to_string(),
        Lang::En => "① DNS Resolution".to_string(),
    };
    let mut out: Vec<char> = Vec::new();
    let ok = resolved.is_some();
    match resolved {
        Some((ip, ms)) => {
            match lang {
                Lang::Zh => push_str(&mut out, "系统 DNS: "),
                Lang::En => push_str(&mut out, "System DNS: "),
            }
            push_str(&mut out, host);
            push_str(&mut out, " → ");
            push_str(&mut out, ip.as_str());
            push_str(&mut out, " (");
            push_str(&mut out, ms.as_str());
            push_str(&mut out, "ms)");
        },
        None => {
            match lang {
                Lang::Zh => push_str(&mut out, "无法解析 "),
                Lang::En => push_str(&mut out, "Cannot resolve "),
            }
            push_str(&mut out, host);
        },
    }
    DiagStep { check, ok, warning: false, message: string_of(&out) }
}

/// The name of the TCP step, with the port it connects to.
pub open spec fn tcp_check_label(port: u16, lang: Lang) -> Seq<char> {
    match lang {
        Lang::Zh => "③ TCP 端口 "@ + decimal_digits(port as nat),
        Lang::En => "③ TCP Port "@ + decimal_digits(port as nat),
    }
}

/// The message of the TCP step: the connect time (in milliseconds, as
/// written), or why the connection failed.
pub open spec fn tcp_step_message(result: Result<Seq<char>, Seq<char>>, lang: Lang) -> Seq<char> {
    match result {
        Ok(ms) => match lang {
            Lang::Zh => "连接成功 ("@ + ms + "ms)"@,
            Lang::En => "Connected ("@ + ms + "ms)"@,
        },
        Err(reason) => match lang {
            Lang::Zh => "连接失败: "@ + reason,
            Lang::En => "Connection failed: "@ + reason,
        },
    }
}

/// The TCP step of the diagnosis: passed when the connection to `port` was
/// made (`Ok` with the connect time as written), failed otherwise (`Err` with
/// the reason); never a mere warning.
pub fn tcp_step(port: u16, result: Result<String, String>, lang: Lang) -> (s: DiagStep)
    ensures
        s.check@ == tcp_check_label(port, lang),
        s.ok == result is Ok,
        !s.warning,
        s.message@ == tcp_step_message(
            match result {
                Ok(ms) => Ok(ms@),
                Err(reason) => Err(reason@),
            },
            lang,
        ),
{
    let mut label: Vec<char> = Vec::new();
    match lang {
        Lang::Zh => push_str(&mut label, "③ TCP 端口 "),
        Lang::En => push_str(&mut label, "③ TCP Port "),
    }
    push_decimal(&mut label, port as u32);
    let ok = result.is_ok();
    let mut out: Vec<char> = Vec::new();
    match result {
        Ok(ms) => {
            match lang {
                Lang::Zh => push_str(&mut out, "连接成功 ("),
                Lang::En => push_str(&mut out, "Connected ("),
            }
            push_str(&mut out, ms.as_str());
            push_str(&mut out, "ms)");
        },
        Err(reason) => {
            match lang {
                Lang::Zh => push_str(&mut out, "连接失败: "),
                Lang::En => push_str(&mut out, "Connection failed: "),
            }
            push_str(&mut out, reason.as_str());
        },
    }
    DiagStep { check: string_of(&label), ok, warning: false, message: string_of(&out) }
}

/// The name of the HTTPS step.
pub open spec fn https_check_label(lang: Lang) -> Seq<char> {
    match lang {
        Lang::Zh => "④ HTTPS 请求"@,
        Lang::En => "④ HTTPS Request"@,
    }
}

/// The message of the HTTPS step: the URL, the status code and the time (in
/// milliseconds, as written) of the answer, or why the request failed; either
/// way followed by how the request went out.
pub open spec fn https_step_message(
    url: Seq<char>,
    response: Result<(u16, Seq<char>), Seq<char>>,
    via_proxy: bool,
    lang: Lang,
) -> Seq<char> {
    let tag = " ["@ + proxy_label_text(via_proxy, lang) + "]"@;
    match response {
        Ok((status, ms)) => url + " → "@ + decimal_digits(status as nat) + " ("@ + ms + "ms)"@ + tag,
        Err(error) => match lang {
            Lang::Zh => "请求失败: "@ + error + tag,
            Lang::En => "Request failed: "@ + error + tag,
        },
    }
}

/// The HTTPS step of the diagnosis: passed on a 2xx answer, a warning on any
/// other answer, failed when no answer came (`Err` with the error text).
pub fn https_step(url: &str, response: Result<(u16, String), String>, via_proxy: bool, lang: Lang) -> (s: DiagStep)
    ensures
        s.check@ == https_check_label(lang),
        s.ok == (response matches Ok((status, _)) && 200 <= status <= 299),
        s.warning == (response matches Ok((status, _)) && !(200 <= status <= 299)),
        s.message@ == https_step_message(
            url@,
            match response {
                Ok((status, ms)) => Ok((status, ms@)),
                Err(error) => Err(error@),
            },
            via_proxy,
            lang,
        ),
{
    let check = match lang {
        Lang::Zh => "④ HTTPS 请求".to_string(),
        Lang::En => "④ HTTPS Request".to_string(),
    };
    let tag = crate::connectivity::proxy_label(via_proxy, lang);
    let mut out: Vec<char> = Vec::new();
    let (ok, warning) = match response {
        Ok((status, ms)) => {
            push_str(&mut out, url);
            push_str(&mut out, " → ");
            push_decimal(&mut out, status as u32);
            push_str(&mut out, " (");
            push_str(&mut out, ms.as_str());
            push_str(&mut out, "ms)");
            let success = is_success_status(status);
            (success, !success)
        },
        Err(error) => {
            match lang {
                Lang::Zh => push_str(&mut out, "请求失败: "),
                Lang::En => push_str(&mut out, "Request failed: "),
            }
            push_str(&mut out, error.as_str());
            (false, false)
        },
    };
    push_str(&mut out, " [");
    push_str(&mut out, tag.as_str());
    push_str(&mut out, "]");
    DiagStep { check, ok, warning, message: string_of(&out) }
}


/// The name of the ping step.
pub open spec fn ping_check_label(lang: Lang) -> Seq<char> {
    match lang {
        Lang::Zh => "② Ping 探测"@,
        Lang::En => "② Ping Probe"@,
    }
}

/// The message of the ping step for `target`: unreachable when no reply came
/// back, else the average round-trip time and the loss rate (both as written).
pub open spec fn ping_step_message(target: Seq<char>, received: nat, avg_ms: Seq<char>, loss_pct: Seq<char>, lang: Lang) -> Seq<
    char,
> {
    if received == 0 {
        match lang {
            Lang::Zh => target + " 不可达 (100% 丢包)"@,
            Lang::En => target + " unreachable (100% loss)"@,
        }
    } else {
        match lang {
            Lang::Zh => target + " 平均 "@ + avg_ms + "ms，丢包 "@ + loss_pct + "%"@,
            Lang::En => target + " avg "@ + avg_ms + "ms, loss "@ + loss_pct + "%"@,
        }
    }
}

/// The ping step of the diagnosis for the resolved `target`, after `sent`
/// probes of which `received` were answered (verdict as [`ping_verdict`]).
pub fn ping_step(target: &str, received: usize, sent: usize, avg_ms: &str, loss_pct: &str, lang: Lang) -> (s: DiagStep)
    ensures
        s.check@ == ping_check_label(lang),
        (s.ok, s.warning) == ping_verdict(received as nat, sent as nat),
        s.message@ == ping_step_message(target@, received as nat, avg_ms@, loss_pct@, lang),
{
    let check = match lang {
        Lang::Zh => "② Ping 探测".to_string(),
        Lang::En => "② Ping Probe".to_string(),
    };
    let (ok, warning) = ping_step_status(received, sent);
    let mut out: Vec<char> = Vec::new();
    push_str(&mut out, target);
    if received == 0 {
        match lang {
            Lang::Zh => push_str(&mut out, " 不可达 (100% 丢包)"),
            Lang::En => push_str(&mut out, " unreachable (100% loss)"),
        }
    } else {
        match lang {
            Lang::Zh => push_str(&mut out, " 平均 "),
            Lang::En => push_str(&mut out, " avg "),
        }
        push_str(&mut out, avg_ms);
        match lang {
            Lang::Zh => push_str(&mut out, "ms，丢包 "),
            Lang::En => push_str(&mut out, "ms, loss "),
        }
        push_str(&mut out, loss_pct);
        push_str(&mut out, "%");
    }
    DiagStep { check, ok, warning, message: string_of(&out) }
}


/// The first occurrence of a two-character pattern `p` in `s` is at `k` when
/// it stands there and no earlier position starts it.
proof fn lemma_first_pair_at(s: Seq<char>, p: Seq<char>, k: int)
    requires
        p.len() == 2,
        0 <= k,
        k + 1 < s.len(),
        s[k] == p[0],
        s[k + 1] == p[1],
        forall|j: int| 0 <= j < k ==> #[trigger] s[j] != p[0] || s[j + 1] != p[1],
    ensures
        first_occurrence(s, p) == k,
{
    assert(s.subrange(k, k + 2) =~= p);
    assert forall|j: int| 0 <= j < k implies !occurs_at(s, p, j) by {
        if occurs_at(s, p, j) {
            assert(s.subrange(j, j + 2)[0] == s[j]);
            assert(s.subrange(j, j + 2)[1] == s[j + 1]);
        }
    }
    crate::text::lemma_first_occurrence_unique(s, p, k);
}

/// A two-character pattern whose first character `s` lacks does not occur in it.
proof fn lemma_pair_absent(s: Seq<char>, p: Seq<char>)
    requires
        p.len() == 2,
        free_of(s, p[0]),
    ensures
        first_occurrence(s, p) == s.len(),
{
    assert forall|j: int| 0 <= j < s.len() implies !occurs_at(s, p, j) by {
        if occurs_at(s, p, j) {
            assert(s.subrange(j, j + 2)[0] == s[j]);
        }
    }
    crate::text::lemma_first_occurrence_unique(s, p, s.len() as int);
}

proof fn lemma_address_read_back(pre: Seq<char>, host: Seq<char>, ip: Seq<char>, ms: Seq<char>)
    requires
        free_of(pre, '→'),
        free_of(host, '→'),
        free_of(ip, '→'),
        free_of(ip, '('),
        free_of(ms, '→'),
        trimmed(ip) == ip,
    ensures
        address_in_message(pre + host + " → "@ + ip + " ("@ + ms + "ms)"@) == Some(ip),
{
    reveal_strlit("→ ");
    reveal_strlit(" → ");
    reveal_strlit(" (");
    reveal_strlit("ms)");
    let m = pre + host + " → "@ + ip + " ("@ + ms + "ms)"@;
    let k: int = (pre.len() + host.len() + 1) as int;
    assert(m[k] == '→' && m[k + 1] == ' ');
    assert forall|j: int| 0 <= j < k implies #[trigger] m[j] != "→ "@[0] || m[j + 1] != "→ "@[1] by {
        if j < pre.len() {
            assert(m[j] == pre[j]);
        } else if j < pre.len() + host.len() {
            assert(m[j] == host[j - pre.len()]);
        } else {
            assert(m[j] == ' ');
        }
    }
    lemma_first_pair_at(m, "→ "@, k);
    let after = m.skip(k + 2);
    assert(after =~= ip + " ("@ + ms + "ms)"@);
    assert(free_of(after, '→')) by {
        assert forall|i: int| 0 <= i < after.len() implies after[i] != '→' by {
            if i < ip.len() {
                assert(after[i] == ip[i]);
            } else if i < ip.len() + 2 {
            } else if i < ip.len() + 2 + ms.len() {
                assert(after[i] == ms[i - ip.len() - 2]);
            }
        }
    }
    lemma_pair_absent(after, "→ "@);
    assert(after.take(after.len() as int) =~= after);
    let c = ip.len() as int;
    assert(after[c] == ' ' && after[c + 1] == '(');
    assert forall|j: int| 0 <= j < c implies #[trigger] after[j] != " ("@[0] || after[j + 1] != " ("@[1] by {
        assert(after[j] == ip[j]);
        if j + 1 < c {
            assert(after[j + 1] == ip[j + 1]);
        }
    }
    lemma_first_pair_at(after, " ("@, c);
    assert(after.take(c) =~= ip);
}

/// The DNS step reads back: the address that [`dns_target_ip`] takes from the
/// message [`dns_step`] writes is the address written there, for a host name
/// and address without `'→'`, an address without `'('` or surrounding white
/// space, and a time without `'→'`.
pub proof fn lemma_dns_step_reads_back(host: Seq<char>, ip: Seq<char>, ms: Seq<char>, lang: Lang)
    requires
        free_of(host, '→'),
        free_of(ip, '→'),
        free_of(ip, '('),
        free_of(ms, '→'),
        trimmed(ip) == ip,
    ensures
        address_in_message(dns_step_message(host, Some((ip, ms)), lang)) == Some(ip),
{
    reveal_strlit("系统 DNS: ");
    reveal_strlit("System DNS: ");
    match lang {
        Lang::Zh => {
            let pre = "系统 DNS: "@;
            assert(free_of(pre, '→'));
            lemma_address_read_back(pre, host, ip, ms);
        },
        Lang::En => {
            let pre = "System DNS: "@;
            assert(free_of(pre, '→'));
            lemma_address_read_back(pre, host, ip, ms);
        },
    }
}


/// The conclusion names the first broken link: DNS failed exactly when the
/// DNS step (step 0) did not succeed; Ping failed exactly when DNS succeeded
/// and the Ping step (step 1) did not; TCP failed exactly when DNS and Ping
/// succeeded and the TCP step (step 2) did not; HTTPS failed exactly when the
/// first three succeeded and the HTTPS step (step 3) did not; healthy exactly
/// when all four succeeded. A step that is missing counts as not succeeded,
/// and the steps after the fourth (the traceroute) never change the conclusion.
pub proof fn lemma_conclusion_is_first_broken_link(steps: Seq<DiagStep>)
    ensures
        ({
            let dns = steps.len() > 0 && steps[0].ok;
            let ping = steps.len() > 1 && steps[1].ok;
            let tcp = steps.len() > 2 && steps[2].ok;
            let https = steps.len() > 3 && steps[3].ok;
            let c = conclusion_of(steps);
            &&& (c == Conclusion::DnsFailed <==> !dns)
            &&& (c == Conclusion::PingFailed <==> dns && !ping)
            &&& (c == Conclusion::TcpFailed <==> dns && ping && !tcp)
            &&& (c == Conclusion::HttpsFailed <==> dns && ping && tcp && !https)
            &&& (c == Conclusion::Healthy <==> dns && ping && tcp && https)
        }),
{
}

/// Only the verdicts of the first four steps decide the conclusion: two runs
/// whose DNS, Ping, TCP and HTTPS steps agree on success reach the same
/// conclusion, whatever their messages, warnings and traceroute steps.
pub proof fn lemma_conclusion_depends_on_link_verdicts(a: Seq<DiagStep>, b: Seq<DiagStep>)
    requires
        forall|i: int| 0 <= i < 4 ==> (a.len() > i && a[i].ok) == (b.len() > i && b[i].ok),
    ensures
        conclusion_of(a) == conclusion_of(b),
{
    assert((a.len() > 0 && a[0].ok) == (b.len() > 0 && b[0].ok));
    assert((a.len() > 1 && a[1].ok) == (b.len() > 1 && b[1].ok));
    assert((a.len() > 2 && a[2].ok) == (b.len() > 2 && b[2].ok));
    assert((a.len() > 3 && a[3].ok) == (b.len() > 3 && b[3].ok));
}

/// How the ping step is judged: it succeeds exactly when at least one reply
/// came back, and it warns exactly when some replies, but not all, came back.
pub proof fn lemma_ping_verdict(received: nat, sent: nat)
    ensures
        ping_verdict(received, sent).0 <==> received > 0,
        ping_verdict(received, sent).1 <==> 0 < received < sent,
{
}

/// Each conclusion has a text of its own, in either language, so the user
/// can tell which link broke.
pub proof fn lemma_conclusion_texts_differ(a: Conclusion, b: Conclusion, lang: Lang)
    requires
        a != b,
    ensures
        conclusion_text(a, lang) != conclusion_text(b, lang),
{
    reveal_strlit("DNS 解析失败");
    reveal_strlit("主机不可达");
    reveal_strlit("端口不通");
    reveal_strlit("HTTPS 异常");
    reveal_strlit("链路正常");
    reveal_strlit("DNS resolution failed");
    reveal_strlit("Host unreachable");
    reveal_strlit("TCP port unreachable");
    reveal_strlit("HTTPS failed");
    reveal_strlit("Link healthy");
    let x = conclusion_text(a, lang);
    let y = conclusion_text(b, lang);
    if x == y {
        assert(x.len() == y.len() && x[0] == y[0] && x[1] == y[1]);
    }
}


/// The chain marks tell the verdicts apart: a link is marked ✅ exactly when
/// its step succeeded, ⚠️ exactly when it did not but only warned, and ❌
/// exactly when it failed outright.
pub proof fn lemma_step_marks(step: DiagStep)
    ensures
        step_mark(step) == "✅ "@ <==> step.ok,
        step_mark(step) == "⚠️ "@ <==> !step.ok && step.warning,
        step_mark(step) == "❌ "@ <==> !step.ok && !step.warning,
{
    reveal_strlit("✅ ");
    reveal_strlit("⚠️ ");
    reveal_strlit("❌ ");
    assert("⚠️ "@[0] != "✅ "@[0]);
    assert("❌ "@[0] != "✅ "@[0]);
    assert("❌ "@[0] != "⚠️ "@[0]);
}

} // verus!
