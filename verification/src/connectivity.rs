//! Connectivity checks (TCP ports and HTTP requests): reading targets and
//! URLs, choosing the proxy, and reading the status of a response.

use vstd::prelude::*;
use crate::text::{
    chars_of, find_char, find_pattern, first_index_of, first_occurrence, is_white_space,
    last_index_of, lines, parse_u16, parsed_u16, rfind_char, same_chars, starts_with, string_of,
    sub_chars, text_lines, trim_start, views, occurs_at, white_space, push_str,
};
use crate::i18n::Lang;
use crate::text::decimal_digits;

verus! {

broadcast use vstd::string::group_string_axioms;

/// Whether `target` is a URL to request over HTTP rather than a `host:port` to connect to.
pub open spec fn is_http_target_spec(target: Seq<char>) -> bool {
    occurs_at(target, "http://"@, 0) || occurs_at(target, "https://"@, 0)
}

/// Whether a check target is an HTTP(S) URL (it starts with `http://` or
/// `https://`); other targets are checked as TCP `host:port`.
pub fn is_http_target(target: &str) -> (http: bool)
    ensures
        http == is_http_target_spec(target@),
{
    let t = chars_of(target);
    starts_with(&t, &chars_of("http://")) || starts_with(&t, &chars_of("https://"))
}

/// The host, port and whether HTTPS is used, read from `url`: the scheme
/// before `"://"`, the host up to the first `'/'`, and the port after the last
/// `':'` of the host, the scheme's default (443 for https, 80 otherwise) when
/// there is none or it does not parse; none when `url` has no `"://"`.
pub open spec fn url_parts(url: Seq<char>) -> Option<(Seq<char>, u16, bool)> {
    let k = first_occurrence(url, "://"@);
    if k >= url.len() {
        None
    } else {
        let scheme = url.take(k);
        let rest = url.skip(k + 3);
        let https = scheme == "https"@;
        let default_port: u16 = if https {
            443
        } else {
            80
        };
        let host = rest.take(first_index_of(rest, '/'));
        let c = last_index_of(host, ':');
        if c < 0 {
            Some((host, default_port, https))
        } else {
            Some(
                (
                    host.take(c),
                    match parsed_u16(host.skip(c + 1)) {
                        Some(p) => p,
                        None => default_port,
                    },
                    https,
                ),
            )
        }
    }
}

/// Reads the host, port and scheme of `url` (see [`url_parts`]).
pub fn parse_url(url: &str) -> (parts: Option<(String, u16, bool)>)
    ensures
        match parts {
            Some((h, p, s)) => url_parts(url@) == Some((h@, p, s)),
            None => url_parts(url@) is None,
        },
{
    let u = chars_of(url);
    let sep = chars_of("://");
    let k = find_pattern(&u, &sep);
    proof {
        reveal_strlit("://");
        crate::text::lemma_first_occurrence(u@, sep@);
    }
    if k >= u.len() {
        return None;
    }
    let scheme = sub_chars(&u, 0, k);
    let rest = sub_chars(&u, k + 3, u.len());
    assert(scheme@ =~= u@.take(k as int));
    assert(rest@ =~= u@.skip(k + 3));
    let https = same_chars(&scheme, &chars_of("https"));
    let default_port: u16 = if https { 443 } else { 80 };
    let slash = find_char(&rest, '/');
    proof {
        crate::text::lemma_first_index_of(rest@, '/');
    }
    let host = sub_chars(&rest, 0, slash);
    assert(host@ =~= rest@.take(slash as int));
    match rfind_char(&host, ':') {
        None => Some((string_of(&host), default_port, https)),
        Some(c) => {
            let h = sub_chars(&host, 0, c);
            let p = sub_chars(&host, c + 1, host.len());
            assert(h@ =~= host@.take(c as int));
            assert(p@ =~= host@.skip(c + 1));
            let port = match parse_u16(&p) {
                Some(v) => v,
                None => default_port,
            };
            Some((string_of(&h), port, https))
        },
    }
}

/// `s` without any leading `c`.
pub open spec fn strip_leading(s: Seq<char>, c: char) -> Seq<char>
    decreases s.len(),
{
    if s.len() > 0 && s[0] == c {
        strip_leading(s.drop_first(), c)
    } else {
        s
    }
}

/// `s` without any trailing `c`.
pub open spec fn strip_trailing(s: Seq<char>, c: char) -> Seq<char>
    decreases s.len(),
{
    if s.len() > 0 && s.last() == c {
        strip_trailing(s.drop_last(), c)
    } else {
        s
    }
}

/// A `host:port` target read textually: the port after the last `':'`
/// (which must parse as a `u16`), the host before it with any leading `'['`
/// and trailing `']'` removed.
pub open spec fn host_port_text(t: Seq<char>) -> Option<(Seq<char>, u16)> {
    let c = last_index_of(t, ':');
    if c < 0 {
        None
    } else {
        match parsed_u16(t.skip(c + 1)) {
            Some(p) => Some((strip_trailing(strip_leading(t.take(c), '['), ']'), p)),
            None => None,
        }
    }
}

fn strip_brackets(s: &[char]) -> (r: Vec<char>)
    ensures
        r@ == strip_trailing(strip_leading(s@, '['), ']'),
{
    let n = s.len();
    let mut a: usize = 0;
    assert(s@.skip(0) =~= s@);
    while a < n && s[a] == '['
        invariant
            n == s@.len(),
            a <= n,
            strip_leading(s@.skip(a as int), '[') == strip_leading(s@, '['),
        decreases n - a,
    {
        assert(s@.skip(a as int).drop_first() =~= s@.skip(a + 1));
        a = a + 1;
    }
    proof {
        if a < n {
            assert(s@.skip(a as int)[0] == s@[a as int]);
        }
    }
    let ghost t = s@.skip(a as int);
    let mut b: usize = n;
    while b > a && s[b - 1] == ']'
        invariant
            n == s@.len(),
            a <= b <= n,
            t == s@.skip(a as int),
            strip_trailing(s@.subrange(a as int, b as int), ']') == strip_trailing(t, ']'),
        decreases b,
    {
        assert(s@.subrange(a as int, b as int).drop_last() =~= s@.subrange(a as int, b - 1));
        b = b - 1;
    }
    assert(s@.skip(a as int) =~= s@.subrange(a as int, n as int));
    proof {
        if b > a {
            assert(s@.subrange(a as int, b as int).last() == s@[b - 1]);
        }
    }
    sub_chars(s, a, b)
}

/// Reads a `host:port` target textually (see [`host_port_text`]); addresses
/// in socket-address syntax are read before this is tried.
pub fn split_host_port(target: &str) -> (hp: Option<(String, u16)>)
    ensures
        match hp {
            Some((h, p)) => host_port_text(target@) == Some((h@, p)),
            None => host_port_text(target@) is None,
        },
{
    let t = chars_of(target);
    match rfind_char(&t, ':') {
        None => None,
        Some(c) => {
            let port_text = sub_chars(&t, c + 1, t.len());
            assert(port_text@ =~= t@.skip(c + 1));
            match parse_u16(&port_text) {
                Some(port) => {
                    let host = sub_chars(&t, 0, c);
                    assert(host@ =~= t@.take(c as int));
                    Some((string_of(&strip_brackets(&host)), port))
                },
                None => None,
            }
        },
    }
}

/// The proxy an HTTP check uses: the one given explicitly, else none when
/// told not to use a proxy, else the system's.
pub open spec fn chosen_proxy(
    explicit: Option<Seq<char>>,
    no_proxy: bool,
    system: Option<Seq<char>>,
) -> Option<Seq<char>> {
    if explicit is Some {
        explicit
    } else if no_proxy {
        None
    } else {
        system
    }
}

/// Chooses the proxy for an HTTP check: `--proxy` first, then `--no-proxy`
/// (direct), then the system proxy (see [`chosen_proxy`]).
pub fn choose_proxy(explicit: Option<String>, no_proxy: bool, system: Option<String>) -> (proxy: Option<String>)
    ensures
        (match proxy {
            Some(p) => Some(p@),
            None => None,
        }) == chosen_proxy(
            match explicit {
                Some(p) => Some(p@),
                None => None,
            },
            no_proxy,
            match system {
                Some(p) => Some(p@),
                None => None,
            },
        ),
{
    if explicit.is_some() {
        explicit
    } else if no_proxy {
        None
    } else {
        system
    }
}

/// Whether the per-phase timing breakdown is measured: only when asked for,
/// on a direct connection (no proxy), to an `https://` URL.
pub fn timing_applies(timing: bool, via_proxy: bool, url: &str) -> (applies: bool)
    ensures
        applies == (timing && !via_proxy && occurs_at(url@, "https://"@, 0)),
{
    timing && !via_proxy && starts_with(&chars_of(url), &chars_of("https://"))
}

/// The index of the first white-space character of `s`, or `s.len()`.
pub open spec fn first_space(s: Seq<char>) -> int
    decreases s.len(),
{
    if s.len() == 0 || is_white_space(s[0]) {
        0
    } else {
        1 + first_space(s.drop_first())
    }
}

/// The second white-space-separated word of `line`, if it has one.
pub open spec fn second_word(line: Seq<char>) -> Option<Seq<char>> {
    let a = trim_start(line);
    let rest = trim_start(a.skip(first_space(a)));
    if rest.len() == 0 {
        None
    } else {
        Some(rest.take(first_space(rest)))
    }
}

/// The status code in an HTTP response: the second word of its first line
/// (`HTTP/1.1 200 OK`) read as a `u16`, 0 when there is none or it does not parse.
pub open spec fn response_status(response: Seq<char>) -> u16 {
    let ls = text_lines(response);
    if ls.len() == 0 {
        0
    } else {
        match second_word(ls[0]) {
            Some(w) => match parsed_u16(w) {
                Some(code) => code,
                None => 0,
            },
            None => 0,
        }
    }
}

proof fn lemma_first_space_at(s: Seq<char>, k: int)
    requires
        0 <= k <= s.len(),
        forall|j: int| 0 <= j < k ==> !is_white_space(s[j]),
        k == s.len() || is_white_space(s[k]),
    ensures
        first_space(s) == k,
    decreases k,
{
    if k > 0 {
        assert forall|j: int| 0 <= j < k - 1 implies !is_white_space(s.drop_first()[j]) by {
            assert(s.drop_first()[j] == s[j + 1]);
        }
        lemma_first_space_at(s.drop_first(), k - 1);
    }
}

/// The index of the first character at or after `from` that is (`want` true)
/// or is not (`want` false) white space, or `s.len()`.
fn scan(s: &[char], from: usize, want: bool) -> (k: usize)
    requires
        from <= s@.len(),
    ensures
        from <= k <= s@.len(),
        forall|j: int| from <= j < k ==> is_white_space(s@[j]) != want,
        k == s@.len() || is_white_space(s@[k as int]) == want,
{
    let mut i = from;
    while i < s.len() && white_space(s[i]) != want
        invariant
            from <= i <= s@.len(),
            forall|j: int| from <= j < i ==> is_white_space(s@[j]) != want,
        decreases s@.len() - i,
    {
        i = i + 1;
    }
    i
}

/// Reads the status code from the start of an HTTP response (see [`response_status`]).
pub fn http_status_code(response: &str) -> (code: u16)
    ensures
        code == response_status(response@),
{
    let text = chars_of(response);
    let ls = lines(&text);
    if ls.len() == 0 {
        return 0;
    }
    let line = &ls[0];
    assert(views(ls@)[0] == line@);
    let ghost l = line@;
    let a = scan(line, 0, false);
    proof {
        crate::text::lemma_trim_start_at(l, a as int);
    }
    let b = scan(line, a, true);
    proof {
        let ta = l.skip(a as int);
        assert forall|j: int| 0 <= j < b - a implies !is_white_space(ta[j]) by {
            assert(ta[j] == l[a + j]);
        }
        if b < l.len() {
            assert(ta[b - a] == l[b as int]);
        }
        lemma_first_space_at(ta, b - a);
        assert(ta.skip(b - a) =~= l.skip(b as int));
    }
    let c = scan(line, b, false);
    proof {
        let tb = l.skip(b as int);
        assert forall|j: int| 0 <= j < c - b implies is_white_space(tb[j]) by {
            assert(tb[j] == l[b + j]);
        }
        if c < l.len() {
            assert(tb[c - b] == l[c as int]);
        }
        crate::text::lemma_trim_start_at(tb, c - b);
        assert(tb.skip(c - b) =~= l.skip(c as int));
    }
    if c == line.len() {
        return 0;
    }
    let d = scan(line, c, true);
    proof {
        let tc = l.skip(c as int);
        assert forall|j: int| 0 <= j < d - c implies !is_white_space(tc[j]) by {
            assert(tc[j] == l[c + j]);
        }
        if d < l.len() {
            assert(tc[d - c] == l[d as int]);
        }
        lemma_first_space_at(tc, d - c);
        assert(tc.take(d - c) =~= l.subrange(c as int, d as int));
    }
    let word = sub_chars(line, c, d);
    match parse_u16(&word) {
        Some(v) => v,
        None => 0,
    }
}

/// Whether an HTTP status code reports success (2xx).
pub fn is_success_status(code: u16) -> (ok: bool)
    ensures
        ok == (200 <= code < 300),
{
    200 <= code && code < 300
}


/// The path requested for `url`: in the part after the first `"://"` (up to
/// any further `"://"`), everything from the first `'/'` on; `"/"` when that
/// part has no `'/'` or `url` has no `"://"`.
pub open spec fn request_path_of(url: Seq<char>) -> Seq<char> {
    let k = first_occurrence(url, "://"@);
    if k >= url.len() {
        "/"@
    } else {
        let after = url.skip(k + 3);
        let segment = after.take(first_occurrence(after, "://"@));
        let j = first_index_of(segment, '/');
        if j >= segment.len() {
            "/"@
        } else {
            segment.skip(j)
        }
    }
}

/// The path to request for `url` (see [`request_path_of`]).
pub fn request_path(url: &str) -> (path: String)
    ensures
        path@ == request_path_of(url@),
{
    let u = chars_of(url);
    let sep = chars_of("://");
    let k = find_pattern(&u, &sep);
    proof {
        reveal_strlit("://");
        crate::text::lemma_first_occurrence(u@, sep@);
    }
    if k >= u.len() {
        return "/".to_string();
    }
    let after = sub_chars(&u, k + 3, u.len());
    assert(after@ =~= u@.skip(k + 3));
    let end = find_pattern(&after, &sep);
    proof {
        crate::text::lemma_first_occurrence(after@, sep@);
    }
    let segment = sub_chars(&after, 0, end);
    assert(segment@ =~= after@.take(end as int));
    let j = find_char(&segment, '/');
    proof {
        crate::text::lemma_first_index_of(segment@, '/');
    }
    if j >= segment.len() {
        return "/".to_string();
    }
    let p = sub_chars(&segment, j, segment.len());
    assert(p@ =~= segment@.skip(j as int));
    string_of(&p)
}

/// The HTTP/1.1 request sent for a timed check.
pub open spec fn get_request_text(path: Seq<char>, host: Seq<char>) -> Seq<char> {
    "GET "@ + path + " HTTP/1.1\r\nHost: "@ + host + "\r\nUser-Agent: netutils/0.3\r\nConnection: close\r\n\r\n"@
}

/// The `GET` request for `path` on `host`, closing the connection after the
/// answer (see [`get_request_text`]).
pub fn get_request(path: &str, host: &str) -> (request: String)
    ensures
        request@ == get_request_text(path@, host@),
{
    let mut out: Vec<char> = Vec::new();
    push_str(&mut out, "GET ");
    push_str(&mut out, path);
    push_str(&mut out, " HTTP/1.1\r\nHost: ");
    push_str(&mut out, host);
    push_str(&mut out, "\r\nUser-Agent: netutils/0.3\r\nConnection: close\r\n\r\n");
    string_of(&out)
}

/// The label that says how a request went out.
pub open spec fn proxy_label_text(via_proxy: bool, lang: Lang) -> Seq<char> {
    match lang {
        Lang::Zh => if via_proxy {
            "经代理"@
        } else {
            "直连"@
        },
        Lang::En => if via_proxy {
            "via proxy"@
        } else {
            "direct"@
        },
    }
}

/// How a request went out: through a proxy, or directly (see [`proxy_label_text`]).
pub fn proxy_label(via_proxy: bool, lang: Lang) -> (label: String)
    ensures
        label@ == proxy_label_text(via_proxy, lang),
{
    let t = match lang {
        Lang::Zh => if via_proxy {
            "经代理"
        } else {
            "直连"
        },
        Lang::En => if via_proxy {
            "via proxy"
        } else {
            "direct"
        },
    };
    t.to_string()
}


/// Proxy precedence of an HTTP check: an explicit proxy is always the one
/// used, whatever the no-proxy flag and the system proxy; without one, the
/// no-proxy flag means a direct connection, and otherwise the system proxy
/// (if any) is used. The chosen proxy is never one that was not offered.
pub proof fn lemma_proxy_precedence(
    explicit: Option<Seq<char>>,
    no_proxy: bool,
    system: Option<Seq<char>>,
)
    ensures
        explicit matches Some(p) ==> chosen_proxy(explicit, no_proxy, system) == Some(p),
        explicit is None && no_proxy ==> chosen_proxy(explicit, no_proxy, system) is None,
        explicit is None && !no_proxy ==> chosen_proxy(explicit, no_proxy, system) == system,
        chosen_proxy(explicit, no_proxy, system) matches Some(q) ==> (explicit == Some(q) || (
        system == Some(q) && !no_proxy)),
{
}


/// Reading the status back: a response whose first line is the status line
/// `HTTP/1.1 <code>`, followed by nothing or by white space and a reason
/// phrase, and ended by CR LF (whatever follows) has the status `code`.
pub proof fn lemma_status_line_read_back(code: u16, reason: Seq<char>, rest: Seq<char>)
    requires
        crate::text::free_of(reason, '\n'),
        reason.len() == 0 || is_white_space(reason[0]),
    ensures
        response_status("HTTP/1.1 "@ + decimal_digits(code as nat) + reason + "\r\n"@ + rest) == code,
{
    reveal_strlit("HTTP/1.1 ");
    reveal_strlit("\r\n");
    let digits = decimal_digits(code as nat);
    crate::text::lemma_decimal_digits_shape(code as nat);
    crate::text::lemma_decimal_parse_roundtrip(code as u32);
    let head = "HTTP/1.1 "@;
    let line = head + digits + reason;
    let resp = line + "\r\n"@ + rest;
    let k = line.len() + 1;
    assert(resp[line.len() as int] == '\r' && resp[k as int] == '\n');
    assert forall|j: int| 0 <= j < k implies resp[j] != '\n' by {
        if j < head.len() {
            assert(resp[j] == head[j]);
        } else if j < head.len() + digits.len() {
            assert(resp[j] == digits[j - head.len()]);
            assert(crate::text::is_digit(digits[j - head.len()]));
        } else if j < line.len() {
            assert(resp[j] == reason[j - head.len() - digits.len()]);
        }
    }
    crate::text::lemma_first_index_of_unique(resp, '\n', k as int);
    assert(resp.take(k as int) =~= line.push('\r'));
    assert(crate::text::strip_cr(line.push('\r')) =~= line);
    assert(text_lines(resp)[0] == line);
    // The first word is `HTTP/1.1`; the second is the code.
    crate::text::lemma_trim_start_at(line, 0);
    assert(line.skip(0) =~= line);
    assert forall|j: int| 0 <= j < 8 implies !is_white_space(line[j]) by {
        assert(line[j] == head[j]);
    }
    assert(is_white_space(line[8]));
    lemma_first_space_at(line, 8);
    let after = line.skip(8);
    assert(after[0] == ' ');
    assert(after[1] == digits[0]);
    assert(crate::text::is_digit(digits[0]));
    crate::text::lemma_trim_start_at(after, 1);
    let rest2 = after.skip(1);
    assert(rest2 =~= digits + reason);
    assert forall|j: int| 0 <= j < digits.len() implies !is_white_space(rest2[j]) by {
        assert(rest2[j] == digits[j]);
        assert(crate::text::is_digit(digits[j]));
    }
    if reason.len() > 0 {
        assert(rest2[digits.len() as int] == reason[0]);
    }
    lemma_first_space_at(rest2, digits.len() as int);
    assert(rest2.take(digits.len() as int) =~= digits);
}


/// `p` (non-empty) first occurs in `s` at `k` when it occurs there and no
/// earlier position holds its first character.
proof fn lemma_first_occurrence_at(s: Seq<char>, p: Seq<char>, k: int)
    requires
        p.len() > 0,
        0 <= k,
        occurs_at(s, p, k),
        forall|j: int| 0 <= j < k ==> #[trigger] s[j] != p[0],
    ensures
        first_occurrence(s, p) == k,
{
    assert forall|j: int| 0 <= j < k implies !occurs_at(s, p, j) by {
        if occurs_at(s, p, j) {
            assert(s.subrange(j, j + p.len())[0] == s[j]);
        }
    }
    crate::text::lemma_first_occurrence_unique(s, p, k);
}

/// The text after the host: `":<port>"` when a port is written.
pub open spec fn port_text(port: Option<u16>) -> Seq<char> {
    match port {
        Some(p) => ":"@ + decimal_digits(p as nat),
        None => seq![],
    }
}

proof fn lemma_port_text(port: Option<u16>)
    ensures
        port is None ==> port_text(port).len() == 0,
        port matches Some(p) ==> port_text(port).len() == decimal_digits(p as nat).len() + 1
            && port_text(port)[0] == ':' && port_text(port).skip(1) == decimal_digits(p as nat)
            && decimal_digits(p as nat).len() > 0
            && parsed_u16(decimal_digits(p as nat)) == Some(p)
            && forall|j: int| 1 <= j < port_text(port).len() ==> crate::text::is_digit(#[trigger] port_text(port)[j]),
{
    reveal_strlit(":");
    match port {
        Some(p) => {
            let d = decimal_digits(p as nat);
            crate::text::lemma_decimal_digits_shape(p as nat);
            crate::text::lemma_decimal_parse_roundtrip(p as u32);
            let t = port_text(port);
            assert(t.skip(1) =~= d);
            assert forall|j: int| 1 <= j < t.len() implies crate::text::is_digit(#[trigger] t[j]) by {
                assert(t[j] == d[j - 1]);
            }
        },
        None => {},
    }
}

proof fn lemma_scheme_split(scheme: Seq<char>, rest: Seq<char>)
    requires
        crate::text::free_of(scheme, ':'),
    ensures
        ({
            let url = scheme + "://"@ + rest;
            &&& first_occurrence(url, "://"@) == scheme.len()
            &&& url.take(scheme.len() as int) == scheme
            &&& url.skip(scheme.len() + 3int) == rest
            &&& scheme.len() < url.len()
        }),
{
    reveal_strlit("://");
    let url = scheme + "://"@ + rest;
    let k = scheme.len() as int;
    assert(url.subrange(k, k + 3) =~= "://"@);
    assert forall|j: int| 0 <= j < k implies #[trigger] url[j] != "://"@[0] by {
        assert(url[j] == scheme[j]);
    }
    lemma_first_occurrence_at(url, "://"@, k);
    assert(url.take(k) =~= scheme);
    assert(url.skip(k + 3) =~= rest);
}

proof fn lemma_host_split(host: Seq<char>, port: Option<u16>, path: Seq<char>)
    requires
        crate::text::free_of(host, ':'),
        crate::text::free_of(host, '/'),
        path.len() == 0 || path[0] == '/',
    ensures
        ({
            let hp = host + port_text(port);
            let rest = hp + path;
            &&& rest.take(first_index_of(rest, '/')) == hp
            &&& last_index_of(hp, ':') == (if port is Some { host.len() as int } else { -1 })
            &&& (port is Some ==> hp.take(host.len() as int) == host && hp.skip(host.len() + 1int) == decimal_digits(port->0 as nat))
            &&& (port is None ==> hp == host)
        }),
{
    lemma_port_text(port);
    let pt = port_text(port);
    let hp = host + pt;
    let rest = hp + path;
    let e = hp.len() as int;
    assert forall|j: int| 0 <= j < e implies rest[j] != '/' by {
        if j < host.len() {
            assert(rest[j] == host[j]);
        } else {
            assert(rest[j] == pt[j - host.len()]);
            if j > host.len() {
                assert(crate::text::is_digit(pt[j - host.len()]));
            }
        }
    }
    if path.len() > 0 {
        assert(rest[e] == path[0]);
        crate::text::lemma_first_index_of_unique(rest, '/', e);
    } else {
        crate::text::lemma_first_index_of_unique(rest, '/', e);
    }
    assert(rest.take(e) =~= hp);
    if port is Some {
        let c = host.len() as int;
        assert(hp[c] == ':');
        assert forall|j: int| c < j < hp.len() implies hp[j] != ':' by {
            assert(hp[j] == pt[j - c]);
            assert(crate::text::is_digit(pt[j - c]));
        }
        crate::text::lemma_last_index_of_unique(hp, ':', c);
        assert(hp.take(c) =~= host);
        assert(hp.skip(c + 1) =~= pt.skip(1));
    } else {
        assert(hp =~= host);
        crate::text::lemma_last_index_of_unique(hp, ':', -1);
    }
}

proof fn lemma_no_second_scheme(host: Seq<char>, port: Option<u16>, path: Seq<char>)
    requires
        crate::text::free_of(host, ':'),
        crate::text::free_of(path, ':'),
    ensures
        first_occurrence(host + port_text(port) + path, "://"@) == (host + port_text(port) + path).len(),
{
    reveal_strlit("://");
    lemma_port_text(port);
    let pt = port_text(port);
    let hp = host + pt;
    let rest = hp + path;
    assert forall|j: int| 0 <= j < rest.len() implies !occurs_at(rest, "://"@, j) by {
        if occurs_at(rest, "://"@, j) {
            assert(rest.subrange(j, j + 3)[0] == rest[j]);
            assert(rest.subrange(j, j + 3)[1] == rest[j + 1]);
            if j < host.len() {
                assert(rest[j] == host[j]);
            } else if j >= hp.len() {
                assert(rest[j] == path[j - hp.len()]);
            } else if j > host.len() {
                assert(rest[j] == pt[j - host.len()]);
                assert(crate::text::is_digit(pt[j - host.len()]));
            } else {
                assert(rest[j + 1] == pt[1]);
                assert(crate::text::is_digit(pt[1]));
            }
        }
    }
    crate::text::lemma_first_occurrence_unique(rest, "://"@, rest.len() as int);
}

/// Reading a URL back: for a URL written as `scheme://host[:port]path`, with
/// no `':'` in the scheme, the host or the path, no `'/'` in the host, and a
/// path that is empty or starts with `'/'`, the host and port read are those
/// written (the scheme's default port, 443 for `https` and 80 otherwise, when
/// none is written), HTTPS is used exactly for the scheme `https`, and the
/// path requested is the path written (`"/"` when it is empty).
pub proof fn lemma_url_read_back(scheme: Seq<char>, host: Seq<char>, port: Option<u16>, path: Seq<char>)
    requires
        crate::text::free_of(scheme, ':'),
        crate::text::free_of(host, ':'),
        crate::text::free_of(host, '/'),
        crate::text::free_of(path, ':'),
        path.len() == 0 || path[0] == '/',
    ensures
        ({
            let url = scheme + "://"@ + host + port_text(port) + path;
            let https = scheme == "https"@;
            let default_port: u16 = if https { 443 } else { 80 };
            &&& url_parts(url) == Some((
                host,
                match port {
                    Some(p) => p,
                    None => default_port,
                },
                https,
            ))
            &&& request_path_of(url) == (if path.len() == 0 { "/"@ } else { path })
        }),
{
    let rest = host + port_text(port) + path;
    let url = scheme + "://"@ + host + port_text(port) + path;
    assert(url =~= scheme + "://"@ + rest);
    lemma_scheme_split(scheme, rest);
    lemma_host_split(host, port, path);
    lemma_port_text(port);
    lemma_no_second_scheme(host, port, path);
    assert(rest.take(rest.len() as int) =~= rest);
    let hp = host + port_text(port);
    if path.len() > 0 {
        assert(rest[hp.len() as int] == path[0]);
        crate::text::lemma_first_index_of(rest, '/');
        assert(rest.skip(hp.len() as int) =~= path);
    } else {
        crate::text::lemma_first_index_of(rest, '/');
    }
}


/// Reading a `host:port` target back: for a target written as the host, a
/// `':'` and the port in decimal, the port read is the port written (the
/// host may itself hold `':'`, as a bracketed IPv6 address does), and the
/// host read is the host written without its enclosing `'['` and `']'`; a
/// target with no `':'` is rejected.
pub proof fn lemma_host_port_read_back(host: Seq<char>, port: u16, bare: Seq<char>)
    ensures
        host_port_text(host + ":"@ + decimal_digits(port as nat)) == Some((
            strip_trailing(strip_leading(host, '['), ']'),
            port,
        )),
        (bare.len() == 0 || (bare[0] != '[' && bare.last() != ']')) ==> host_port_text(
            bare + ":"@ + decimal_digits(port as nat),
        ) == Some((bare, port)),
        ({
            let bracketed = seq!['['] + bare + seq![']'];
            (bare.len() == 0 || (bare[0] != '[' && bare.last() != ']')) ==> host_port_text(
                bracketed + ":"@ + decimal_digits(port as nat),
            ) == Some((bare, port))
        }),
        crate::text::free_of(bare, ':') ==> host_port_text(bare) is None,
{
    reveal_strlit(":");
    lemma_port_text(Some(port));
    assert forall|h: Seq<char>| #[trigger] host_port_text(h + ":"@ + decimal_digits(port as nat)) == Some((
        strip_trailing(strip_leading(h, '['), ']'),
        port,
    )) by {
        let t = h + ":"@ + decimal_digits(port as nat);
        assert(t =~= h + port_text(Some(port)));
        let c = h.len() as int;
        assert(t[c] == ':');
        assert forall|j: int| c < j < t.len() implies t[j] != ':' by {
            assert(t[j] == port_text(Some(port))[j - c]);
            assert(crate::text::is_digit(port_text(Some(port))[j - c]));
        }
        crate::text::lemma_last_index_of_unique(t, ':', c);
        assert(t.take(c) =~= h);
        assert(t.skip(c + 1) =~= decimal_digits(port as nat));
    }
    if bare.len() == 0 || (bare[0] != '[' && bare.last() != ']') {
        assert(strip_leading(bare, '[') == bare);
        assert(strip_trailing(bare, ']') == bare);
        let bracketed = seq!['['] + bare + seq![']'];
        assert(bracketed.drop_first() =~= bare + seq![']']);
        assert(strip_leading(bare + seq![']'], '[') == bare + seq![']']) by {
            if bare.len() > 0 {
                assert((bare + seq![']'])[0] == bare[0]);
            }
        }
        assert((bare + seq![']']).drop_last() =~= bare);
        assert(host_port_text(bracketed + ":"@ + decimal_digits(port as nat)) == Some((
            strip_trailing(strip_leading(bracketed, '['), ']'),
            port,
        )));
    }
    if crate::text::free_of(bare, ':') {
        crate::text::lemma_last_index_of_unique(bare, ':', -1);
    }
}

} // verus!
