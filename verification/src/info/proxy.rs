//! Proxy settings: environment variables and the Windows system proxy.

use vstd::prelude::*;

verus! {

broadcast use vstd::string::group_string_axioms;

/// A proxy setting: (kind, value).
pub type ProxyEntry = (String, String);

/// The proxy variables as read from the environment: each taken from the
/// upper-case variable, else the lower-case one, else empty.
pub struct ProxyEnv {
    pub http_proxy: String,
    pub https_proxy: String,
    pub all_proxy: String,
    pub no_proxy: String,
}

/// `entries` with `(label, value)` appended when `value` is non-empty.
pub open spec fn push_if_set(
    entries: Seq<(Seq<char>, Seq<char>)>,
    label: Seq<char>,
    value: Seq<char>,
) -> Seq<(Seq<char>, Seq<char>)> {
    if value.len() > 0 {
        entries.push((label, value))
    } else {
        entries
    }
}

/// The proxy settings listed for the environment `env` and, where the
/// platform has one, the system proxy (`Some(None)`: not enabled): the set
/// variables in the order HTTP, HTTPS, ALL, NO_PROXY, or one "not set" entry
/// when none is set, then the system proxy entry.
pub open spec fn proxy_listing(
    http: Seq<char>,
    https: Seq<char>,
    all: Seq<char>,
    no: Seq<char>,
    system: Option<Option<Seq<char>>>,
) -> Seq<(Seq<char>, Seq<char>)> {
    let set = push_if_set(
        push_if_set(
            push_if_set(push_if_set(seq![], "HTTP 代理"@, http), "HTTPS 代理"@, https),
            "全局代理"@,
            all,
        ),
        "排除列表"@,
        no,
    );
    let base = if set.len() == 0 {
        seq![("环境变量"@, "未设置"@)]
    } else {
        set
    };
    match system {
        None => base,
        Some(None) => base.push(("系统代理"@, "未启用"@)),
        Some(Some(p)) => base.push(("系统代理"@, p)),
    }
}

/// The views of proxy entries.
pub open spec fn entry_views(v: Seq<ProxyEntry>) -> Seq<(Seq<char>, Seq<char>)> {
    v.map_values(|e: ProxyEntry| (e.0@, e.1@))
}

fn push_if_nonempty(entries: &mut Vec<ProxyEntry>, label: &str, value: &String)
    ensures
        entry_views(final(entries)@) == push_if_set(entry_views(old(entries)@), label@, value@),
{
    if !value.as_str().is_empty() {
        let ghost before = entries@;
        entries.push((label.to_string(), value.clone()));
        assert(entry_views(entries@) =~= entry_views(before).push((label@, value@)));
    }
}

/// Lists the proxy settings (see [`proxy_listing`]): the proxy environment
/// variables that are set, and the system proxy where the platform has one.
pub fn get_proxy_info(env: &ProxyEnv, system_proxy: Option<Option<String>>) -> (entries: Vec<ProxyEntry>)
    ensures
        entry_views(entries@) == proxy_listing(
            env.http_proxy@,
            env.https_proxy@,
            env.all_proxy@,
            env.no_proxy@,
            match system_proxy {
                None => None,
                Some(None) => Some(None),
                Some(Some(p)) => Some(Some(p@)),
            },
        ),
{
    let mut entries: Vec<ProxyEntry> = Vec::new();
    assert(entry_views(entries@) =~= seq![]);
    push_if_nonempty(&mut entries, "HTTP 代理", &env.http_proxy);
    push_if_nonempty(&mut entries, "HTTPS 代理", &env.https_proxy);
    push_if_nonempty(&mut entries, "全局代理", &env.all_proxy);
    push_if_nonempty(&mut entries, "排除列表", &env.no_proxy);
    if entries.len() == 0 {
        entries.push(("环境变量".to_string(), "未设置".to_string()));
        assert(entry_views(entries@) =~= seq![("环境变量"@, "未设置"@)]);
    }
    let ghost before = entries@;
    match system_proxy {
        Some(Some(p)) => {
            entries.push(("系统代理".to_string(), p));
            assert(entry_views(entries@) =~= entry_views(before).push(("系统代理"@, p@)));
        },
        Some(None) => {
            entries.push(("系统代理".to_string(), "未启用".to_string()));
            assert(entry_views(entries@) =~= entry_views(before).push(("系统代理"@, "未启用"@)));
        },
        None => {},
    }
    entries
}

/// The system proxy: the server when proxying is enabled (1) and the server is non-empty.
pub open spec fn system_proxy_of(enable: Option<u32>, server: Option<Seq<char>>) -> Option<Seq<char>> {
    match (enable, server) {
        (Some(e), Some(s)) => if e == 1 && s.len() > 0 {
            Some(s)
        } else {
            None
        },
        _ => None,
    }
}

/// Decides the system proxy from the registry values that were read:
/// `ProxyServer` when `ProxyEnable` is 1 and the server is non-empty, else none
/// (a value that could not be read counts as absent).
pub fn system_proxy_setting(proxy_enable: Option<u32>, proxy_server: Option<String>) -> (proxy: Option<String>)
    ensures
        (match proxy {
            Some(p) => Some(p@),
            None => None,
        }) == system_proxy_of(
            proxy_enable,
            match proxy_server {
                Some(s) => Some(s@),
                None => None,
            },
        ),
{
    match proxy_enable {
        Some(1) => match proxy_server {
            Some(server) => {
                if server.as_str().is_empty() {
                    None
                } else {
                    Some(server)
                }
            },
            None => None,
        },
        _ => None,
    }
}


proof fn lemma_push_if_set_keeps(
    entries: Seq<(Seq<char>, Seq<char>)>,
    label: Seq<char>,
    value: Seq<char>,
    x: (Seq<char>, Seq<char>),
)
    ensures
        entries.contains(x) ==> push_if_set(entries, label, value).contains(x),
        value.len() > 0 ==> push_if_set(entries, label, value).contains((label, value)),
        push_if_set(entries, label, value).contains(x) ==> entries.contains(x) || (x == (label, value)
            && value.len() > 0),
{
    let r = push_if_set(entries, label, value);
    if value.len() > 0 {
        assert(r.last() == (label, value));
        if entries.contains(x) {
            let i = choose|i: int| 0 <= i < entries.len() && entries[i] == x;
            assert(r[i] == x);
        }
        if r.contains(x) {
            let i = choose|i: int| 0 <= i < r.len() && r[i] == x;
            if i < entries.len() {
                assert(entries[i] == x);
            }
        }
    }
}

/// What the proxy listing holds: an entry ("HTTP 代理", value) for a set
/// HTTP proxy variable, and likewise "HTTPS 代理", "全局代理" and "排除列表"
/// for the HTTPS, ALL and NO_PROXY variables, and no entry for an empty one;
/// the entry ("环境变量", "未设置") exactly when all four variables are empty;
/// then, last, the system proxy entry: its address, "未启用" when it is not
/// enabled, and no entry at all where the platform has no system proxy.
pub proof fn lemma_proxy_listing_entries(
    http: Seq<char>,
    https: Seq<char>,
    all: Seq<char>,
    no: Seq<char>,
    system: Option<Option<Seq<char>>>,
)
    ensures
        ({
            let l = proxy_listing(http, https, all, no, system);
            let none_set = http.len() == 0 && https.len() == 0 && all.len() == 0 && no.len() == 0;
            &&& http.len() > 0 ==> l.contains(("HTTP 代理"@, http))
            &&& https.len() > 0 ==> l.contains(("HTTPS 代理"@, https))
            &&& all.len() > 0 ==> l.contains(("全局代理"@, all))
            &&& no.len() > 0 ==> l.contains(("排除列表"@, no))
            &&& forall|v: Seq<char>| l.contains(("HTTP 代理"@, v)) ==> v == http && v.len() > 0
            &&& forall|v: Seq<char>| l.contains(("HTTPS 代理"@, v)) ==> v == https && v.len() > 0
            &&& forall|v: Seq<char>| l.contains(("全局代理"@, v)) ==> v == all && v.len() > 0
            &&& forall|v: Seq<char>| l.contains(("排除列表"@, v)) ==> v == no && v.len() > 0
            &&& (l.contains(("环境变量"@, "未设置"@)) <==> none_set)
            &&& (system matches Some(Some(p)) ==> l.last() == ("系统代理"@, p))
            &&& (system == Some(None::<Seq<char>>) ==> l.last() == ("系统代理"@, "未启用"@))
            &&& (system is None ==> forall|v: Seq<char>| !l.contains(("系统代理"@, v)))
        }),
{
    reveal_strlit("HTTP 代理");
    reveal_strlit("HTTPS 代理");
    reveal_strlit("全局代理");
    reveal_strlit("排除列表");
    reveal_strlit("环境变量");
    reveal_strlit("未设置");
    reveal_strlit("系统代理");
    reveal_strlit("未启用");
    let hl = "HTTP 代理"@;
    let sl = "HTTPS 代理"@;
    let al = "全局代理"@;
    let nl = "排除列表"@;
    let el = "环境变量"@;
    let yl = "系统代理"@;
    assert(hl != sl) by { assert(hl.len() != sl.len()); }
    assert(hl != al) by { assert(hl[0] != al[0]); }
    assert(hl != nl) by { assert(hl[0] != nl[0]); }
    assert(hl != el) by { assert(hl[0] != el[0]); }
    assert(hl != yl) by { assert(hl[0] != yl[0]); }
    assert(sl != al) by { assert(sl[0] != al[0]); }
    assert(sl != nl) by { assert(sl[0] != nl[0]); }
    assert(sl != el) by { assert(sl[0] != el[0]); }
    assert(sl != yl) by { assert(sl[0] != yl[0]); }
    assert(al != nl) by { assert(al[0] != nl[0]); }
    assert(al != el) by { assert(al[0] != el[0]); }
    assert(al != yl) by { assert(al[0] != yl[0]); }
    assert(nl != el) by { assert(nl[0] != el[0]); }
    assert(nl != yl) by { assert(nl[0] != yl[0]); }
    assert(el != yl) by { assert(el[1] != yl[1]); }
    let a0: Seq<(Seq<char>, Seq<char>)> = seq![];
    let a1 = push_if_set(a0, hl, http);
    let a2 = push_if_set(a1, sl, https);
    let a3 = push_if_set(a2, al, all);
    let set = push_if_set(a3, nl, no);
    let base = if set.len() == 0 {
        seq![(el, "未设置"@)]
    } else {
        set
    };
    let l = proxy_listing(http, https, all, no, system);
    // Every entry of `set` is one of the four set variables.
    assert forall|x: (Seq<char>, Seq<char>)| set.contains(x) implies (x == (hl, http) && http.len() > 0)
        || (x == (sl, https) && https.len() > 0) || (x == (al, all) && all.len() > 0) || (x == (nl, no)
        && no.len() > 0) by {
        lemma_push_if_set_keeps(a3, nl, no, x);
        lemma_push_if_set_keeps(a2, al, all, x);
        lemma_push_if_set_keeps(a1, sl, https, x);
        lemma_push_if_set_keeps(a0, hl, http, x);
    }
    // Each set variable has its entry in `set`.
    lemma_push_if_set_keeps(a0, hl, http, (hl, http));
    lemma_push_if_set_keeps(a1, sl, https, (hl, http));
    lemma_push_if_set_keeps(a2, al, all, (hl, http));
    lemma_push_if_set_keeps(a3, nl, no, (hl, http));
    lemma_push_if_set_keeps(a1, sl, https, (sl, https));
    lemma_push_if_set_keeps(a2, al, all, (sl, https));
    lemma_push_if_set_keeps(a3, nl, no, (sl, https));
    lemma_push_if_set_keeps(a2, al, all, (al, all));
    lemma_push_if_set_keeps(a3, nl, no, (al, all));
    lemma_push_if_set_keeps(a3, nl, no, (nl, no));
    let none_set = http.len() == 0 && https.len() == 0 && all.len() == 0 && no.len() == 0;
    assert(set.len() == 0 <==> none_set) by {
        if !none_set {
            if http.len() > 0 {
                assert(set.contains((hl, http)));
            } else if https.len() > 0 {
                assert(set.contains((sl, https)));
            } else if all.len() > 0 {
                assert(set.contains((al, all)));
            } else {
                assert(set.contains((nl, no)));
            }
        }
    }
    // `l` is `base`, followed by the system entry when there is one.
    assert forall|x: (Seq<char>, Seq<char>)| l.contains(x) implies base.contains(x) || (x.0 == yl
        && system is Some) by {
        if l.contains(x) && !base.contains(x) && system is Some {
            let i = choose|i: int| 0 <= i < l.len() && l[i] == x;
            if i < base.len() {
                assert(base[i] == x);
            }
        }
    }
    assert forall|x: (Seq<char>, Seq<char>)| base.contains(x) implies l.contains(x) by {
        let i = choose|i: int| 0 <= i < base.len() && base[i] == x;
        assert(l[i] == x);
    }
    if none_set {
        assert(base[0] == (el, "未设置"@));
    }
    assert forall|v: Seq<char>| l.contains((el, v)) implies none_set by {
        if !none_set {
            assert(base == set);
        }
    }
}


/// The system proxy is the server exactly when proxying is enabled (the value
/// 1) and a non-empty server was read; otherwise there is none.
pub proof fn lemma_system_proxy_enabled(enable: Option<u32>, server: Option<Seq<char>>)
    ensures
        system_proxy_of(enable, server) matches Some(p) ==> enable == Some(1u32) && server == Some(p)
            && p.len() > 0,
        (enable == Some(1u32) && (server matches Some(s) && s.len() > 0)) ==> system_proxy_of(
            enable,
            server,
        ) == server,
{
}

} // verus!
