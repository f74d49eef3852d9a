//! Routes: the default routes and the routing table, read from the route query's output.

use vstd::prelude::*;
use crate::text::{chars_of, lines, same_chars, split_at_most, split_n, string_of, text_lines, trim, trimmed, views};

verus! {

broadcast use vstd::string::group_string_axioms;

/// A routing table entry.
pub struct RouteEntry {
    pub destination: String,
    pub gateway: String,
    pub interface: String,
    pub metric: String,
}

/// The content of a [`RouteEntry`].
pub struct RouteRecord {
    pub destination: Seq<char>,
    pub gateway: Seq<char>,
    pub interface: Seq<char>,
    pub metric: Seq<char>,
}

impl View for RouteEntry {
    type V = RouteRecord;

    open spec fn view(&self) -> RouteRecord {
        RouteRecord {
            destination: self.destination@,
            gateway: self.gateway@,
            interface: self.interface@,
            metric: self.metric@,
        }
    }
}

/// The default route a line `gateway|interface` describes (both trimmed), if it has a `'|'`.
pub open spec fn default_route_of_line(line: Seq<char>) -> Option<(Seq<char>, Seq<char>)> {
    let f = split_n(line, 2, '|');
    if f.len() >= 2 {
        Some((trimmed(f[0]), trimmed(f[1])))
    } else {
        None
    }
}

/// The default routes the lines `ls` describe, in order.
pub open spec fn default_routes_of_lines(ls: Seq<Seq<char>>) -> Seq<(Seq<char>, Seq<char>)>
    decreases ls.len(),
{
    if ls.len() == 0 {
        seq![]
    } else {
        let before = default_routes_of_lines(ls.drop_last());
        match default_route_of_line(ls.last()) {
            Some(r) => before.push(r),
            None => before,
        }
    }
}

/// The views of (gateway, interface) pairs.
pub open spec fn pair_views(v: Seq<(String, String)>) -> Seq<(Seq<char>, Seq<char>)> {
    v.map_values(|p: (String, String)| (p.0@, p.1@))
}

/// Reads the default routes (gateway, interface) from the route query's
/// output: one per line `gateway|interface`, lines without `'|'` skipped.
pub fn get_default_routes(output: &str) -> (routes: Vec<(String, String)>)
    ensures
        pair_views(routes@) == default_routes_of_lines(text_lines(output@)),
{
    let text = chars_of(output);
    let ls = lines(&text);
    let ghost lv = views(ls@);
    let mut routes: Vec<(String, String)> = Vec::new();
    let mut i: usize = 0;
    while i < ls.len()
        invariant
            i <= ls@.len(),
            lv == views(ls@),
            lv == text_lines(output@),
            pair_views(routes@) == default_routes_of_lines(lv.take(i as int)),
        decreases ls@.len() - i,
    {
        let parts = split_at_most(&ls[i], 2, '|');
        proof {
            assert(lv.take(i + 1).drop_last() =~= lv.take(i as int));
            assert(lv.take(i + 1).last() == ls@[i as int]@);
        }
        if parts.len() >= 2 {
            let gw = string_of(&trim(&parts[0]));
            let iface = string_of(&trim(&parts[1]));
            let ghost before = routes@;
            routes.push((gw, iface));
            assert(pair_views(routes@) =~= pair_views(before).push((gw@, iface@)));
        }
        i = i + 1;
    }
    assert(lv.take(ls@.len() as int) =~= lv);
    routes
}

/// The gateway column: `"--"` for the unspecified addresses `0.0.0.0` and
/// `::` (compared untrimmed), otherwise the trimmed gateway.
pub open spec fn gateway_text(g: Seq<char>) -> Seq<char> {
    if g == "0.0.0.0"@ || g == "::"@ {
        "--"@
    } else {
        trimmed(g)
    }
}

/// The route four fields (destination, gateway, interface, metric) describe.
pub open spec fn route_of_fields(f: Seq<Seq<char>>) -> RouteRecord {
    RouteRecord {
        destination: trimmed(f[0]),
        gateway: gateway_text(f[1]),
        interface: trimmed(f[2]),
        metric: trimmed(f[3]),
    }
}

/// The route a line `destination|gateway|interface|metric` describes, if it has all four fields.
pub open spec fn route_of_line(line: Seq<char>) -> Option<RouteRecord> {
    let f = split_n(line, 4, '|');
    if f.len() >= 4 {
        Some(route_of_fields(f))
    } else {
        None
    }
}

/// The routes the lines `ls` describe, in order.
pub open spec fn routes_of_lines(ls: Seq<Seq<char>>) -> Seq<RouteRecord>
    decreases ls.len(),
{
    if ls.len() == 0 {
        seq![]
    } else {
        let before = routes_of_lines(ls.drop_last());
        match route_of_line(ls.last()) {
            Some(r) => before.push(r),
            None => before,
        }
    }
}

/// The views of a list of routes.
pub open spec fn route_views(v: Seq<RouteEntry>) -> Seq<RouteRecord> {
    v.map_values(|r: RouteEntry| r@)
}

fn route_from_fields(f: &Vec<Vec<char>>) -> (r: RouteEntry)
    requires
        f@.len() >= 4,
    ensures
        r@ == route_of_fields(views(f@)),
{
    let zero = chars_of("0.0.0.0");
    let unspecified = chars_of("::");
    let gateway = if same_chars(&f[1], &zero) || same_chars(&f[1], &unspecified) {
        "--".to_string()
    } else {
        string_of(&trim(&f[1]))
    };
    assert(views(f@)[1] == f@[1]@);
    RouteEntry {
        destination: string_of(&trim(&f[0])),
        gateway,
        interface: string_of(&trim(&f[2])),
        metric: string_of(&trim(&f[3])),
    }
}

/// Reads the routing table from the route query's output: one route per
/// line `destination|gateway|interface|metric`, other lines skipped.
pub fn get_route_table(output: &str) -> (routes: Vec<RouteEntry>)
    ensures
        route_views(routes@) == routes_of_lines(text_lines(output@)),
{
    let text = chars_of(output);
    let ls = lines(&text);
    let ghost lv = views(ls@);
    let mut routes: Vec<RouteEntry> = Vec::new();
    let mut i: usize = 0;
    while i < ls.len()
        invariant
            i <= ls@.len(),
            lv == views(ls@),
            lv == text_lines(output@),
            route_views(routes@) == routes_of_lines(lv.take(i as int)),
        decreases ls@.len() - i,
    {
        let parts = split_at_most(&ls[i], 4, '|');
        proof {
            assert(lv.take(i + 1).drop_last() =~= lv.take(i as int));
            assert(lv.take(i + 1).last() == ls@[i as int]@);
        }
        if parts.len() >= 4 {
            let r = route_from_fields(&parts);
            let ghost before = routes@;
            routes.push(r);
            assert(route_views(routes@) =~= route_views(before).push(r@));
        }
        i = i + 1;
    }
    assert(lv.take(ls@.len() as int) =~= lv);
    routes
}

/// The fields are free of `'|'` and line breaks and have no surrounding white space.
pub open spec fn plain_fields(fields: Seq<Seq<char>>) -> bool {
    forall|i: int|
        0 <= i < fields.len() ==> crate::text::free_of(#[trigger] fields[i], '|')
            && crate::text::free_of(fields[i], '\n') && trimmed(fields[i]) == fields[i]
}

/// Reading gives back what the query wrote: a route line
/// `destination|gateway|interface|metric` made of plain fields is read as
/// that route, an unspecified gateway (`0.0.0.0` or `::`) shown as `"--"`.
pub proof fn lemma_route_line_read_back(fields: Seq<Seq<char>>)
    requires
        fields.len() == 4,
        plain_fields(fields),
    ensures
        routes_of_lines(text_lines(crate::text::joined_with(fields, '|'))) == seq![
            RouteRecord {
                destination: fields[0],
                gateway: if fields[1] == "0.0.0.0"@ || fields[1] == "::"@ {
                    "--"@
                } else {
                    fields[1]
                },
                interface: fields[2],
                metric: fields[3],
            },
        ],
{
    let line = crate::text::joined_with(fields, '|');
    crate::text::lemma_split_joined(fields, '|');
    crate::text::lemma_joined_free_of(fields, '|', '\n');
    crate::text::lemma_single_line(line);
    let ls = text_lines(line);
    assert(ls.drop_last() =~= Seq::<Seq<char>>::empty());
    assert(routes_of_lines(ls.drop_last()) == Seq::<RouteRecord>::empty());
}

/// Reading gives back what the query wrote: a default-route line
/// `gateway|interface` made of plain fields is read as that pair.
pub proof fn lemma_default_route_line_read_back(gateway: Seq<char>, interface: Seq<char>)
    requires
        plain_fields(seq![gateway, interface]),
    ensures
        default_routes_of_lines(text_lines(crate::text::joined_with(seq![gateway, interface], '|')))
            == seq![(gateway, interface)],
{
    let fields = seq![gateway, interface];
    let line = crate::text::joined_with(fields, '|');
    crate::text::lemma_split_joined(fields, '|');
    crate::text::lemma_joined_free_of(fields, '|', '\n');
    crate::text::lemma_single_line(line);
    let ls = text_lines(line);
    assert(ls.drop_last() =~= Seq::<Seq<char>>::empty());
    assert(default_routes_of_lines(ls.drop_last()) == Seq::<(Seq<char>, Seq<char>)>::empty());
}

} // verus!
