//! Turns subscription content into a normalized [`ParsedProfile`].
//!
//! Parsing is a two-stage attempt: first the content is read as a structured
//! routing-config document; failing that, as a plain or base64-encoded
//! newline list of proxy URIs.
use vstd::prelude::*;

use crate::codec::{percent_decode_lossy, url_host, url_host_of};
use crate::profile::{GroupView, NodeView, ParsedProfile, ParsedView, ProxyGroup, ProxyNode};
use crate::text;
use crate::text::{
    append_slice, append_str, chars_eq_str, chars_to_string, dec_chars, lower_seq, push_deep,
    str_to_chars, sub_vec, to_lower, to_upper, trim, trim_spec, u64_to_dec,
};
use crate::yaml::{extract_raw_doc, RawDoc, RawDocView, RawGroupView, RawProxyView, RawRuleView};
use crate::CoreError;

verus! {

/// A protocol kind, trimmed and lower-cased, defaulting to `proxy` when
/// blank.
pub open spec fn normalize_kind_spec(kind: Seq<char>) -> Seq<char> {
    if trim_spec(kind).len() == 0 {
        "proxy"@
    } else {
        lower_seq(trim_spec(kind))
    }
}

/// Trims and lower-cases a protocol kind, defaulting blanks to `proxy`.
pub fn normalize_kind(kind: &str) -> (r: String)
    ensures
        r@ == normalize_kind_spec(kind@),
{
    let chars = str_to_chars(kind);
    let trimmed = trim(chars.as_slice());
    if trimmed.len() == 0 {
        "proxy".to_owned()
    } else {
        let lowered = to_lower(trimmed.as_slice());
        chars_to_string(lowered.as_slice())
    }
}

/// Protocol kinds that imply UDP support when the source data leaves the
/// flag unset.
pub open spec fn kind_supports_udp_spec(kind: Seq<char>) -> bool {
    let l = lower_seq(kind);
    l == "tuic"@ || l == "hysteria"@ || l == "hysteria2"@ || l == "hy2"@ || l == "wireguard"@
}

/// Whether this protocol kind implies UDP support.
pub fn kind_supports_udp(kind: &str) -> (r: bool)
    ensures
        r == kind_supports_udp_spec(kind@),
{
    let chars = str_to_chars(kind);
    let l = to_lower(chars.as_slice());
    chars_eq_str(l.as_slice(), "tuic") || chars_eq_str(l.as_slice(), "hysteria") || chars_eq_str(
        l.as_slice(),
        "hysteria2",
    ) || chars_eq_str(l.as_slice(), "hy2") || chars_eq_str(l.as_slice(), "wireguard")
}

/// The display name of the node at position `i`: its trimmed name, or a
/// positional placeholder when blank.
pub open spec fn node_name_spec(raw: Seq<char>, i: int) -> Seq<char> {
    if trim_spec(raw).len() == 0 {
        "Proxy "@ + dec_chars(i + 1)
    } else {
        trim_spec(raw)
    }
}

/// The normalized node derived from the document entry at position `i`.
pub open spec fn node_from_raw(p: RawProxyView, i: int) -> NodeView {
    NodeView {
        name: node_name_spec(p.name, i),
        kind: normalize_kind_spec(p.kind),
        udp: p.udp || kind_supports_udp_spec(p.kind),
    }
}

/// All nodes of a document, in order.
pub open spec fn nodes_from_raw(ps: Seq<RawProxyView>) -> Seq<NodeView> {
    Seq::new(ps.len(), |i: int| node_from_raw(ps[i], i))
}

/// Normalizes the document's proxy entries into nodes.
pub fn collect_proxy_nodes(proxies: &Vec<crate::yaml::RawProxy>) -> (r: Vec<ProxyNode>)
    ensures
        r.deep_view() == nodes_from_raw(proxies.deep_view()),
{
    let mut r: Vec<ProxyNode> = Vec::new();
    let n = proxies.len();
    for i in 0..n
        invariant
            n == proxies@.len(),
            r.deep_view() == nodes_from_raw(proxies.deep_view()).subrange(0, i as int),
    {
        let raw = &proxies[i];
        let name_chars = str_to_chars(raw.name.as_str());
        let trimmed = trim(name_chars.as_slice());
        let name = if trimmed.len() == 0 {
            let mut out = str_to_chars("Proxy ");
            let num = u64_to_dec((i + 1) as u64);
            append_slice(&mut out, num.as_slice());
            chars_to_string(out.as_slice())
        } else {
            chars_to_string(trimmed.as_slice())
        };
        let kind = normalize_kind(raw.kind.as_str());
        let udp = raw.udp || kind_supports_udp(raw.kind.as_str());
        let node = ProxyNode { name, kind, udp };
        proof {
            assert(node@ =~~= node_from_raw(proxies.deep_view()[i as int], i as int));
        }
        push_deep(&mut r, node);
        assert(r.deep_view() =~= nodes_from_raw(proxies.deep_view()).subrange(0, i + 1));
    }
    assert(nodes_from_raw(proxies.deep_view()).subrange(0, n as int) =~= nodes_from_raw(
        proxies.deep_view(),
    ));
    r
}

/// The group derived from one declared group entry: blank kinds default to
/// `select`, the size records the membership length.
pub open spec fn group_from_raw(g: RawGroupView) -> GroupView {
    GroupView {
        name: g.name,
        kind: if trim_spec(g.kind).len() == 0 {
            "select"@
        } else {
            g.kind
        },
        size: g.proxies.len() as int,
        proxies: g.proxies,
    }
}

/// The declared groups kept by the parser: those with a non-blank name, in
/// order, each normalized by [`group_from_raw`].
pub open spec fn groups_from_raw(gs: Seq<RawGroupView>) -> Seq<GroupView>
    decreases gs.len(),
{
    if gs.len() == 0 {
        Seq::empty()
    } else {
        let rest = groups_from_raw(gs.drop_first());
        if trim_spec(gs[0].name).len() == 0 {
            rest
        } else {
            seq![group_from_raw(gs[0])] + rest
        }
    }
}

/// The names of all normalized nodes, in order.
pub open spec fn all_node_names(ps: Seq<RawProxyView>) -> Seq<Seq<char>> {
    Seq::new(ps.len(), |i: int| node_from_raw(ps[i], i).name)
}

/// The group synthesized when a document declares no usable groups: one
/// `select` group named `default` holding every node.
pub open spec fn default_group(ps: Seq<RawProxyView>) -> GroupView {
    GroupView {
        name: "default"@,
        kind: "select"@,
        size: ps.len() as int,
        proxies: all_node_names(ps),
    }
}

/// The groups a parsed document yields: the kept declared groups, or the
/// synthesized default group when none is kept.
pub open spec fn clash_groups(doc: RawDocView) -> Seq<GroupView> {
    let kept = groups_from_raw(doc.groups);
    if kept.len() == 0 {
        seq![default_group(doc.proxies)]
    } else {
        kept
    }
}

/// One rule entry's text: trimmed, and for rendered (non-scalar) entries
/// with newlines replaced by spaces.
pub open spec fn rule_text_spec(r: RawRuleView) -> Seq<char> {
    if r.scalar {
        trim_spec(r.text)
    } else {
        trim_spec(r.text).map_values(
            |c: char|
                if c == '\n' {
                    ' '
                } else {
                    c
                },
        )
    }
}

/// The flattened rule list: each entry's text, blank entries dropped.
pub open spec fn collect_rules_spec(rs: Seq<RawRuleView>) -> Seq<Seq<char>>
    decreases rs.len(),
{
    if rs.len() == 0 {
        Seq::empty()
    } else {
        let rest = collect_rules_spec(rs.drop_first());
        if rule_text_spec(rs[0]).len() == 0 {
            rest
        } else {
            seq![rule_text_spec(rs[0])] + rest
        }
    }
}

fn rule_text(r: &crate::yaml::RawRule) -> (out: Vec<char>)
    ensures
        out@ == rule_text_spec(r@),
{
    let chars = str_to_chars(r.text.as_str());
    let trimmed = trim(chars.as_slice());
    if r.scalar {
        trimmed
    } else {
        let mut out: Vec<char> = Vec::new();
        let n = trimmed.len();
        for i in 0..n
            invariant
                n == trimmed@.len(),
                out@ == trimmed@.subrange(0, i as int).map_values(
                    |c: char|
                        if c == '\n' {
                            ' '
                        } else {
                            c
                        },
                ),
        {
            let c = trimmed[i];
            if c == '\n' {
                out.push(' ');
            } else {
                out.push(c);
            }
            assert(out@ =~= trimmed@.subrange(0, i + 1).map_values(
                |c: char|
                    if c == '\n' {
                        ' '
                    } else {
                        c
                    },
            )) by {
                assert(trimmed@.subrange(0, i + 1) =~= trimmed@.subrange(0, i as int).push(
                    trimmed@[i as int],
                ));
            }
        }
        assert(trimmed@.subrange(0, n as int) =~= trimmed@);
        out
    }
}

/// Flattens the document's rule entries to single-line strings.
pub fn collect_rules(rules: &Vec<crate::yaml::RawRule>) -> (r: Vec<String>)
    ensures
        r.deep_view() == collect_rules_spec(rules.deep_view()),
{
    let mut r: Vec<String> = Vec::new();
    let n = rules.len();
    assert(rules.deep_view().skip(0) =~= rules.deep_view());
    for i in 0..n
        invariant
            n == rules@.len(),
            collect_rules_spec(rules.deep_view()) == r.deep_view() + collect_rules_spec(
                rules.deep_view().skip(i as int),
            ),
    {
        let ghost rest = rules.deep_view().skip(i as int);
        proof {
            assert(rest[0] == rules.deep_view()[i as int]);
            assert(rest.drop_first() =~= rules.deep_view().skip(i + 1));
        }
        let t = rule_text(&rules[i]);
        if t.len() > 0 {
            push_deep(&mut r, chars_to_string(t.as_slice()));
            assert(r.deep_view() =~= r.deep_view().drop_last().push(
                rule_text_spec(rules.deep_view()[i as int]),
            ));
        }
        assert(collect_rules_spec(rules.deep_view()) =~= r.deep_view() + collect_rules_spec(
            rules.deep_view().skip(i + 1),
        ));
    }
    assert(collect_rules_spec(rules.deep_view().skip(n as int)) =~= Seq::<Seq<char>>::empty());
    assert(r.deep_view() =~~= collect_rules_spec(rules.deep_view()));
    r
}

/// The display name a structured document yields: the first non-blank group
/// name, else the first non-blank proxy name, else the URL's host, else a
/// generic placeholder.
pub open spec fn clash_name_spec(doc: RawDocView, host: Option<Seq<char>>) -> Seq<char> {
    if doc.groups.len() > 0 && trim_spec(doc.groups[0].name).len() > 0 {
        trim_spec(doc.groups[0].name)
    } else if doc.proxies.len() > 0 && trim_spec(doc.proxies[0].name).len() > 0 {
        trim_spec(doc.proxies[0].name)
    } else if host is Some {
        host->0
    } else {
        "imported-profile"@
    }
}

fn profile_name_from_source(source_url: &str, doc: &RawDoc) -> (r: String)
    ensures
        r@ == clash_name_spec(doc@, url_host_of(source_url@)),
{
    if doc.groups.len() > 0 {
        let chars = str_to_chars(doc.groups[0].name.as_str());
        let trimmed = trim(chars.as_slice());
        if trimmed.len() > 0 {
            return chars_to_string(trimmed.as_slice());
        }
    }
    if doc.proxies.len() > 0 {
        let chars = str_to_chars(doc.proxies[0].name.as_str());
        let trimmed = trim(chars.as_slice());
        if trimmed.len() > 0 {
            return chars_to_string(trimmed.as_slice());
        }
    }
    match url_host(source_url) {
        Some(host) => host,
        None => "imported-profile".to_owned(),
    }
}

/// What a structured document parses to, given the host its source URL
/// resolves to.
pub open spec fn clash_parsed(doc: RawDocView, host: Option<Seq<char>>) -> ParsedView {
    ParsedView {
        name: clash_name_spec(doc, host),
        node_count: doc.proxies.len() as int,
        group_count: clash_groups(doc).len() as int,
        rule_count: collect_rules_spec(doc.rules).len() as int,
        proxy_groups: clash_groups(doc),
        proxy_nodes: nodes_from_raw(doc.proxies),
        rules: collect_rules_spec(doc.rules),
    }
}

fn collect_groups(doc: &RawDoc) -> (r: Vec<ProxyGroup>)
    ensures
        r.deep_view() == groups_from_raw(doc@.groups),
{
    let mut r: Vec<ProxyGroup> = Vec::new();
    let n = doc.groups.len();
    assert(doc@.groups.skip(0) =~= doc@.groups);
    for i in 0..n
        invariant
            n == doc.groups@.len(),
            groups_from_raw(doc@.groups) == r.deep_view() + groups_from_raw(
                doc@.groups.skip(i as int),
            ),
    {
        let ghost rest = doc@.groups.skip(i as int);
        proof {
            assert(rest[0] == doc@.groups[i as int]);
            assert(rest.drop_first() =~= doc@.groups.skip(i + 1));
        }
        let g = &doc.groups[i];
        let name_chars = str_to_chars(g.name.as_str());
        let trimmed = trim(name_chars.as_slice());
        if trimmed.len() > 0 {
            let kind_chars = str_to_chars(g.kind.as_str());
            let kind_trimmed = trim(kind_chars.as_slice());
            let kind = if kind_trimmed.len() == 0 {
                "select".to_owned()
            } else {
                g.kind.clone()
            };
            let group = ProxyGroup {
                name: g.name.clone(),
                kind,
                size: g.proxies.len(),
                proxies: crate::profile::duplicate_strings(&g.proxies),
            };
            proof {
                assert(group@ =~~= group_from_raw(doc@.groups[i as int]));
            }
            push_deep(&mut r, group);
        }
        assert(groups_from_raw(doc@.groups) =~= r.deep_view() + groups_from_raw(
            doc@.groups.skip(i + 1),
        ));
    }
    assert(groups_from_raw(doc@.groups.skip(n as int)) =~= Seq::<GroupView>::empty());
    assert(r.deep_view() =~~= groups_from_raw(doc@.groups));
    r
}

/// Normalizes an extracted structured document into a parsed profile.
///
/// Fails exactly when the document's proxy list is empty; otherwise the
/// result is the document's normalized shape: nodes with defaulted names,
/// kinds and UDP flags; the kept declared groups or one synthesized group
/// holding every node; and the flattened rule list.
pub fn normalize_clash_doc(source_url: &str, doc: &RawDoc) -> (r: Result<
    ParsedProfile,
    CoreError,
>)
    ensures
        r is Err <==> doc@.proxies.len() == 0,
        r matches Err(e) ==> e is InvalidProfile,
        r matches Ok(p) ==> p@ == clash_parsed(doc@, url_host_of(source_url@)),
{
    if doc.proxies.len() == 0 {
        return Err(
            CoreError::InvalidProfile("missing `proxies` section or empty proxies".to_owned()),
        );
    }

    let proxy_nodes = collect_proxy_nodes(&doc.proxies);
    let mut groups = collect_groups(doc);
    if groups.len() == 0 {
        let mut all_names: Vec<String> = Vec::new();
        let nn = proxy_nodes.len();
        proof {
            assert(proxy_nodes.deep_view().len() == nodes_from_raw(doc@.proxies).len());
            assert(nn == doc@.proxies.len());
        }
        for i in 0..nn
            invariant
                nn == proxy_nodes@.len(),
                nn == doc@.proxies.len(),
                proxy_nodes.deep_view() == nodes_from_raw(doc@.proxies),
                all_names.deep_view() == all_node_names(doc@.proxies).subrange(0, i as int),
        {
            let nm = proxy_nodes[i].name.clone();
            proof {
                assert(nm@ == proxy_nodes.deep_view()[i as int].name);
                assert(nm@ == all_node_names(doc@.proxies)[i as int]);
            }
            push_deep(&mut all_names, nm);
            assert(all_names.deep_view() =~= all_node_names(doc@.proxies).subrange(0, i + 1));
        }
        assert(all_names.deep_view() =~~= all_node_names(doc@.proxies)) by {
            assert(all_node_names(doc@.proxies).subrange(0, nn as int) =~= all_node_names(
                doc@.proxies,
            ));
        }
        let group = ProxyGroup {
            name: "default".to_owned(),
            kind: "select".to_owned(),
            size: doc.proxies.len(),
            proxies: all_names,
        };
        proof {
            assert(group@ =~~= default_group(doc@.proxies));
        }
        push_deep(&mut groups, group);
        assert(groups.deep_view() =~= seq![default_group(doc@.proxies)]);
    }

    let name = profile_name_from_source(source_url, doc);
    let rules = collect_rules(&doc.rules);
    let parsed = ParsedProfile {
        name,
        node_count: doc.proxies.len(),
        group_count: groups.len(),
        rule_count: rules.len(),
        proxy_groups: groups,
        proxy_nodes,
        rules,
    };
    assert(parsed@ =~~= clash_parsed(doc@, url_host_of(source_url@)));
    Ok(parsed)
}

/// A structured document with proxies but no declared groups parses to
/// exactly one synthesized group that holds every node's name.
pub proof fn lemma_no_groups_synthesizes_one(doc: RawDocView, host: Option<Seq<char>>)
    requires
        doc.proxies.len() > 0,
        doc.groups.len() == 0,
    ensures
        clash_parsed(doc, host).group_count == 1,
        clash_parsed(doc, host).proxy_groups[0].size == doc.proxies.len(),
        clash_parsed(doc, host).proxy_groups[0].proxies == Seq::new(
            doc.proxies.len(),
            |i: int| clash_parsed(doc, host).proxy_nodes[i].name,
        ),
{
    assert(groups_from_raw(doc.groups).len() == 0);
    assert(clash_groups(doc) == seq![default_group(doc.proxies)]);
    assert(clash_parsed(doc, host).proxy_groups[0] == default_group(doc.proxies));
    assert(all_node_names(doc.proxies) =~= Seq::new(
        doc.proxies.len(),
        |i: int| clash_parsed(doc, host).proxy_nodes[i].name,
    ));
}

} // verus!

verus! {

/// Index of the first occurrence of `pat` in `s`, or `-1` when absent.
pub open spec fn first_occurrence(s: Seq<char>, pat: Seq<char>) -> int
    decreases s.len(),
{
    if pat.is_prefix_of(s) {
        0
    } else if s.len() == 0 {
        -1
    } else {
        let r = first_occurrence(s.drop_first(), pat);
        if r < 0 {
            -1
        } else {
            r + 1
        }
    }
}

pub proof fn lemma_first_occurrence(s: Seq<char>, pat: Seq<char>)
    ensures
        first_occurrence(s, pat) >= -1,
        (first_occurrence(s, pat) == -1) <==> !text::contains_sub(s, pat),
        first_occurrence(s, pat) >= 0 ==> {
            &&& text::occurs_at(s, pat, first_occurrence(s, pat))
            &&& forall|j: int| 0 <= j < first_occurrence(s, pat) ==> !text::occurs_at(s, pat, j)
        },
    decreases s.len(),
{
    if pat.is_prefix_of(s) {
        assert(text::occurs_at(s, pat, 0));
        assert(text::contains_sub(s, pat));
    } else if s.len() == 0 {
        assert forall|i: int| !text::occurs_at(s, pat, i) by {
            if text::occurs_at(s, pat, i) {
                assert(pat.len() == 0);
                assert(pat.is_prefix_of(s));
            }
        }
    } else {
        lemma_first_occurrence(s.drop_first(), pat);
        assert forall|i: int| 0 <= i implies (text::occurs_at(s, pat, i + 1) == text::occurs_at(
            s.drop_first(),
            pat,
            i,
        )) by {
            if i + 1 + pat.len() <= s.len() {
                assert(s.drop_first().subrange(i, i + pat.len() as int) =~= s.subrange(
                    i + 1,
                    i + 1 + pat.len() as int,
                ));
            }
        }
        assert(!text::occurs_at(s, pat, 0)) by {
            if text::occurs_at(s, pat, 0) {
                assert(pat.is_prefix_of(s));
            }
        }
        let fd = first_occurrence(s.drop_first(), pat);
        if fd < 0 {
            assert forall|i: int| !text::occurs_at(s, pat, i) by {
                if text::occurs_at(s, pat, i) {
                    if i >= 1 {
                        assert(text::occurs_at(s.drop_first(), pat, i - 1));
                        assert(text::contains_sub(s.drop_first(), pat));
                    }
                }
            }
        } else {
            assert(text::occurs_at(s.drop_first(), pat, fd));
            assert(text::occurs_at(s, pat, fd + 1));
            assert(text::contains_sub(s, pat));
            assert forall|j: int| 0 <= j < fd + 1 implies !text::occurs_at(s, pat, j) by {
                if j >= 1 && text::occurs_at(s, pat, j) {
                    assert(text::occurs_at(s.drop_first(), pat, j - 1));
                }
            }
        }
    }
}

/// The lower-cased scheme in front of the first `://`, if any.
fn scheme_of(line: &[char]) -> (r: Option<Vec<char>>)
    ensures
        match r {
            Some(sch) => first_occurrence(line@, "://"@) >= 0 && sch@ == lower_seq(
                line@.subrange(0, first_occurrence(line@, "://"@)),
            ),
            None => first_occurrence(line@, "://"@) == -1,
        },
{
    let pat = str_to_chars("://");
    proof {
        lemma_first_occurrence(line@, pat@);
    }
    match text::find_sub(line, pat.as_slice()) {
        Some(i) => {
            proof {
                let fo = first_occurrence(line@, pat@);
                assert(text::contains_sub(line@, pat@)) by {
                    assert(text::occurs_at(line@, pat@, i as int));
                }
                assert(fo >= 0);
                if fo < i {
                    assert(text::occurs_at(line@, pat@, fo));
                }
                if fo > i {
                    assert(!text::occurs_at(line@, pat@, i as int));
                }
                assert(fo == i);
            }
            let before = sub_vec(line, 0, i);
            Some(to_lower(before.as_slice()))
        },
        None => {
            assert(first_occurrence(line@, pat@) == -1);
            None
        },
    }
}

/// The proxy URI schemes the subscription parser recognizes.
pub open spec fn allowed_scheme(s: Seq<char>) -> bool {
    ||| s == "ss"@
    ||| s == "ssr"@
    ||| s == "trojan"@
    ||| s == "vmess"@
    ||| s == "vless"@
    ||| s == "tuic"@
    ||| s == "hysteria"@
    ||| s == "hysteria2"@
    ||| s == "hy2"@
    ||| s == "anytls"@
    ||| s == "http"@
    ||| s == "https"@
    ||| s == "socks5"@
    ||| s == "wireguard"@
}

fn allowed_scheme_exec(s: &[char]) -> (r: bool)
    ensures
        r == allowed_scheme(s@),
{
    chars_eq_str(s, "ss") || chars_eq_str(s, "ssr") || chars_eq_str(s, "trojan") || chars_eq_str(
        s,
        "vmess",
    ) || chars_eq_str(s, "vless") || chars_eq_str(s, "tuic") || chars_eq_str(s, "hysteria")
        || chars_eq_str(s, "hysteria2") || chars_eq_str(s, "hy2") || chars_eq_str(s, "anytls")
        || chars_eq_str(s, "http") || chars_eq_str(s, "https") || chars_eq_str(s, "socks5")
        || chars_eq_str(s, "wireguard")
}

/// The line starts with a recognized proxy scheme followed by `://`.
pub open spec fn looks_like_proxy_uri_spec(line: Seq<char>) -> bool {
    let i = first_occurrence(line, "://"@);
    i >= 0 && allowed_scheme(lower_seq(line.subrange(0, i)))
}

/// Whether a subscription line is a proxy URI of a recognized scheme.
pub fn looks_like_proxy_uri(line: &str) -> (r: bool)
    ensures
        r == looks_like_proxy_uri_spec(line@),
{
    let chars = str_to_chars(line);
    looks_like_proxy_uri_chars(chars.as_slice())
}

fn looks_like_proxy_uri_chars(line: &[char]) -> (r: bool)
    ensures
        r == looks_like_proxy_uri_spec(line@),
{
    match scheme_of(line) {
        Some(sch) => allowed_scheme_exec(sch.as_slice()),
        None => false,
    }
}

/// The display name carried by a proxy URI: its URL fragment if one parses,
/// else the text after the first `#`, percent-decoded and trimmed; `None`
/// when both are missing or blank.
pub open spec fn node_name_of_line(line: Seq<char>) -> Option<Seq<char>> {
    let from_url = match crate::codec::url_fragment_of(line) {
        Some(frag) => {
            let t = trim_spec(crate::codec::percent_decoded_of(frag));
            if t.len() > 0 {
                Some(t)
            } else {
                None
            }
        },
        None => None,
    };
    if from_url is Some {
        from_url
    } else {
        let h = text::find_char_spec(line, '#');
        if 0 <= h < line.len() {
            let t = trim_spec(
                crate::codec::percent_decoded_of(line.subrange(h + 1, line.len() as int)),
            );
            if t.len() > 0 {
                Some(t)
            } else {
                None
            }
        } else {
            None
        }
    }
}

fn parse_subscription_node_name(line: &[char]) -> (r: Option<String>)
    ensures
        match r {
            Some(nm) => node_name_of_line(line@) == Some(nm@),
            None => node_name_of_line(line@) is None,
        },
{
    let s = chars_to_string(line);
    match crate::codec::url_fragment(s.as_str()) {
        Some(frag) => {
            let pd = percent_decode_lossy(frag.as_str());
            let pd_chars = str_to_chars(pd.as_str());
            let t = trim(pd_chars.as_slice());
            if t.len() > 0 {
                return Some(chars_to_string(t.as_slice()));
            }
        },
        None => {},
    }
    let n = line.len();
    match text::find_char_from(line, 0, '#') {
        Some(h) => {
            proof {
                text::lemma_find_char(line@, '#');
                let f = text::find_char_spec(line@, '#');
                if f < h {
                    assert(line@[f] == '#');
                }
                if f == -1 || f > h {
                    assert(line@[h as int] != '#');
                }
                assert(f == h);
            }
            let after = sub_vec(line, h + 1, n);
            let pd = percent_decode_lossy(chars_to_string(after.as_slice()).as_str());
            let pd_chars = str_to_chars(pd.as_str());
            let t = trim(pd_chars.as_slice());
            if t.len() > 0 {
                Some(chars_to_string(t.as_slice()))
            } else {
                None
            }
        },
        None => {
            proof {
                text::lemma_find_char(line@, '#');
                let f = text::find_char_spec(line@, '#');
                if f >= 0 {
                    assert(line@[f] == '#');
                }
            }
            None
        },
    }
}

} // verus!

verus! {

/// One line's worth of subscription data before final normalization.
#[derive(Debug, Clone)]
pub struct SubscriptionNode {
    pub name: String,
    pub kind: String,
    pub udp: bool,
}

impl View for SubscriptionNode {
    type V = NodeView;

    open spec fn view(&self) -> NodeView {
        NodeView { name: self.name@, kind: self.kind@, udp: self.udp }
    }
}

impl DeepView for SubscriptionNode {
    type V = NodeView;

    open spec fn deep_view(&self) -> NodeView {
        self@
    }
}

/// The node a recognized, already-trimmed URI line yields when `n` nodes
/// came before it: scheme as kind, fragment or a positional placeholder as
/// name, UDP inferred from the scheme.
pub open spec fn sub_node_spec(t: Seq<char>, n: int) -> NodeView {
    let kind = lower_seq(t.subrange(0, first_occurrence(t, "://"@)));
    let name = match node_name_of_line(t) {
        Some(nm) => nm,
        None => crate::text::upper_seq(kind) + "-"@ + dec_chars(n + 1),
    };
    NodeView { name, kind, udp: kind_supports_udp_spec(kind) }
}

/// A line that yields a node: non-blank, not a comment, and a recognized
/// proxy URI once trimmed.
pub open spec fn line_is_node(line: Seq<char>) -> bool {
    let t = trim_spec(line);
    t.len() > 0 && t[0] != '#' && looks_like_proxy_uri_spec(t)
}

/// The nodes the given lines yield, with `n0` nodes extracted before them.
pub open spec fn extract_nodes_spec(lines: Seq<Seq<char>>, n0: int) -> Seq<NodeView>
    decreases lines.len(),
{
    if lines.len() == 0 {
        Seq::empty()
    } else {
        if line_is_node(lines[0]) {
            seq![sub_node_spec(trim_spec(lines[0]), n0)] + extract_nodes_spec(
                lines.drop_first(),
                n0 + 1,
            )
        } else {
            extract_nodes_spec(lines.drop_first(), n0)
        }
    }
}

/// The nodes a subscription text yields.
pub open spec fn sub_text_nodes(text: Seq<char>) -> Seq<NodeView> {
    extract_nodes_spec(text::split_lines_spec(text), 0)
}

/// Extracts proxy nodes from a plain newline list of proxy URIs.
pub fn extract_subscription_nodes(text: &str) -> (r: Vec<SubscriptionNode>)
    ensures
        r.deep_view() == sub_text_nodes(text@),
{
    let chars = str_to_chars(text);
    let lines = text::split_lines(chars.as_slice());
    let mut r: Vec<SubscriptionNode> = Vec::new();
    let n = lines.len();
    proof {
        assert(lines.deep_view().skip(0) =~= lines.deep_view());
    }
    for i in 0..n
        invariant
            n == lines@.len(),
            r@.len() <= i,
            sub_text_nodes(text@) == r.deep_view() + extract_nodes_spec(
                lines.deep_view().skip(i as int),
                r@.len() as int,
            ),
        decreases n - i,
    {
        let ghost rest = lines.deep_view().skip(i as int);
        proof {
            assert(rest[0] == lines.deep_view()[i as int]);
            assert(rest.drop_first() =~= lines.deep_view().skip(i + 1));
            assert(lines.deep_view()[i as int] == lines@[i as int]@);
        }
        let t = trim(lines[i].as_slice());
        let mut keep = false;
        if t.len() > 0 {
            if t[0] != '#' {
                match scheme_of(t.as_slice()) {
                    Some(sch) => {
                        if allowed_scheme_exec(sch.as_slice()) {
                            keep = true;
                            let kind = chars_to_string(sch.as_slice());
                            let udp = kind_supports_udp(kind.as_str());
                            proof {
                                // lower-casing is idempotent, so the UDP rule
                                // reads the already-lowered scheme unchanged
                                assert(lower_seq(sch@) =~= sch@);
                            }
                            let name = match parse_subscription_node_name(t.as_slice()) {
                                Some(nm) => nm,
                                None => {
                                    let mut out = to_upper(sch.as_slice());
                                    out.push('-');
                                    let num = u64_to_dec((r.len() + 1) as u64);
                                    let mut all = out;
                                    append_slice(&mut all, num.as_slice());
                                    proof {
                                        reveal_strlit("-");
                                        assert(all@ =~= crate::text::upper_seq(sch@) + "-"@
                                            + dec_chars(r@.len() as int + 1));
                                    }
                                    chars_to_string(all.as_slice())
                                },
                            };
                            let node = SubscriptionNode { name, kind, udp };
                            proof {
                                assert(node@ =~~= sub_node_spec(
                                    trim_spec(lines.deep_view()[i as int]),
                                    r@.len() as int,
                                ));
                            }
                            push_deep(&mut r, node);
                        }
                    },
                    None => {},
                }
            }
        }
        proof {
            if !keep {
                assert(!line_is_node(lines.deep_view()[i as int]));
            }
            assert(sub_text_nodes(text@) =~= r.deep_view() + extract_nodes_spec(
                lines.deep_view().skip(i + 1),
                r@.len() as int,
            ));
        }
    }
    proof {
        assert(extract_nodes_spec(lines.deep_view().skip(n as int), r@.len() as int) =~= Seq::<
            NodeView,
        >::empty());
        assert(r.deep_view() =~= sub_text_nodes(text@));
    }
    r
}

/// The number of node-yielding lines.
pub open spec fn count_node_lines(lines: Seq<Seq<char>>) -> int
    decreases lines.len(),
{
    if lines.len() == 0 {
        0int
    } else {
        (if line_is_node(lines[0]) {
            1int
        } else {
            0int
        }) + count_node_lines(lines.drop_first())
    }
}

/// Exactly one node is extracted per recognized-scheme line.
pub proof fn lemma_extract_count(lines: Seq<Seq<char>>, n0: int)
    ensures
        extract_nodes_spec(lines, n0).len() == count_node_lines(lines),
    decreases lines.len(),
{
    if lines.len() > 0 {
        lemma_extract_count(lines.drop_first(), n0 + 1);
        lemma_extract_count(lines.drop_first(), n0);
    }
}

/// A subscription text yields exactly one node per recognized-scheme line,
/// so a parsed subscription's node count — and its umbrella group's size —
/// equal the number of such lines.
pub proof fn lemma_node_count_matches_lines(text: Seq<char>)
    ensures
        sub_text_nodes(text).len() == count_node_lines(text::split_lines_spec(text)),
        umbrella_group(sub_text_nodes(text)).size == count_node_lines(
            text::split_lines_spec(text),
        ),
{
    lemma_extract_count(text::split_lines_spec(text), 0);
}

} // verus!

verus! {

/// The names of the nodes whose kind is `kind`, in order.
pub open spec fn names_of_kind(nodes: Seq<NodeView>, kind: Seq<char>) -> Seq<Seq<char>>
    decreases nodes.len(),
{
    if nodes.len() == 0 {
        Seq::empty()
    } else {
        let rest = names_of_kind(nodes.drop_first(), kind);
        if nodes[0].kind == kind {
            seq![nodes[0].name] + rest
        } else {
            rest
        }
    }
}

/// Some node carries this kind.
pub open spec fn has_kind(nodes: Seq<NodeView>, kind: Seq<char>) -> bool {
    exists|i: int| 0 <= i < nodes.len() && (#[trigger] nodes[i]).kind == kind
}

/// The final node shape: kind normalized, UDP inferred from the kind when
/// unset.
pub open spec fn final_node(nv: NodeView) -> NodeView {
    NodeView {
        name: nv.name,
        kind: normalize_kind_spec(nv.kind),
        udp: nv.udp || kind_supports_udp_spec(nv.kind),
    }
}

/// The umbrella group that holds every subscription node.
pub open spec fn umbrella_group(nodes: Seq<NodeView>) -> GroupView {
    GroupView {
        name: "All Proxies"@,
        kind: "select"@,
        size: nodes.len() as int,
        proxies: Seq::new(nodes.len(), |i: int| nodes[i].name),
    }
}

/// The display name a subscription yields: the URL's host, else the first
/// node's trimmed name, else a generic placeholder.
pub open spec fn sub_profile_name(host: Option<Seq<char>>, nodes: Seq<NodeView>) -> Seq<char> {
    if host is Some {
        host->0
    } else if nodes.len() > 0 && trim_spec(nodes[0].name).len() > 0 {
        trim_spec(nodes[0].name)
    } else {
        "imported-subscription"@
    }
}

/// What a subscription text parses to: nodes in line order, no rules, the
/// umbrella group first, then one group per kind in lexical order.
pub open spec fn is_sub_parse_of(
    p: ParsedView,
    host: Option<Seq<char>>,
    nodes: Seq<NodeView>,
) -> bool {
    &&& p.wf()
    &&& p.name == sub_profile_name(host, nodes)
    &&& p.node_count == nodes.len()
    &&& p.proxy_nodes == Seq::new(nodes.len(), |i: int| final_node(nodes[i]))
    &&& p.rules.len() == 0
    &&& p.rule_count == 0
    &&& p.proxy_groups.len() >= 1
    &&& p.proxy_groups[0] == umbrella_group(nodes)
    &&& forall|k: int|
        1 <= k < p.proxy_groups.len() ==> {
            let g = #[trigger] p.proxy_groups[k];
            &&& g.name == crate::text::upper_seq(g.kind) + " Nodes"@
            &&& g.proxies == names_of_kind(nodes, g.kind)
            &&& has_kind(nodes, g.kind)
        }
    &&& forall|k1: int, k2: int|
        1 <= k1 < k2 < p.proxy_groups.len() ==> crate::text::lex_le(
            (#[trigger] p.proxy_groups[k1]).kind,
            (#[trigger] p.proxy_groups[k2]).kind,
        ) && p.proxy_groups[k1].kind != p.proxy_groups[k2].kind
    &&& forall|kind: Seq<char>|
        #[trigger] has_kind(nodes, kind) ==> exists|k: int|
            1 <= k < p.proxy_groups.len() && (#[trigger] p.proxy_groups[k]).kind == kind
}

fn profile_name_from_subscription(source_url: &str, nodes: &Vec<SubscriptionNode>) -> (r: String)
    ensures
        r@ == sub_profile_name(url_host_of(source_url@), nodes.deep_view()),
{
    match url_host(source_url) {
        Some(host) => host,
        None => {
            if nodes.len() > 0 {
                proof {
                    assert(nodes.deep_view()[0] == nodes@[0]@);
                }
                let chars = str_to_chars(nodes[0].name.as_str());
                let t = trim(chars.as_slice());
                if t.len() > 0 {
                    return chars_to_string(t.as_slice());
                }
            }
            "imported-subscription".to_owned()
        },
    }
}

/// Parses a plain newline list of proxy URIs into a profile, or `None` when
/// no line yields a node.
pub fn parse_subscription_text(source_url: &str, text: &str) -> (r: Option<ParsedProfile>)
    ensures
        r is None <==> sub_text_nodes(text@).len() == 0,
        r matches Some(p) ==> is_sub_parse_of(
            p@,
            url_host_of(source_url@),
            sub_text_nodes(text@),
        ),
{
    broadcast use vstd::seq_lib::group_to_multiset_ensures;

    let nodes = extract_subscription_nodes(text);
    let ghost nds = sub_text_nodes(text@);
    let nn = nodes.len();
    proof {
        assert(nodes.deep_view().len() == nds.len());
    }
    if nn == 0 {
        return None;
    }

    let mut kinds: Vec<Vec<char>> = Vec::new();
    for i in 0..nn
        invariant
            nn == nodes@.len(),
            nodes.deep_view() == nds,
            kinds.deep_view() == Seq::new(i as nat, |j: int| nds[j].kind),
    {
        proof {
            assert(nodes.deep_view()[i as int] == nodes@[i as int]@);
        }
        let kc = str_to_chars(nodes[i].kind.as_str());
        proof {
            assert(kc.deep_view() =~= kc@);
        }
        push_deep(&mut kinds, kc);
        assert(kinds.deep_view() =~= Seq::new((i + 1) as nat, |j: int| nds[j].kind));
    }
    proof {
        assert forall|kind: Seq<char>|
            kinds.deep_view().contains(kind) == has_kind(nds, kind) by {
            if kinds.deep_view().contains(kind) {
                let w = choose|w: int|
                    0 <= w < kinds.deep_view().len() && kinds.deep_view()[w] == kind;
                assert(nds[w].kind == kind);
            }
            if has_kind(nds, kind) {
                let w = choose|w: int| 0 <= w < nds.len() && nds[w].kind == kind;
                assert(kinds.deep_view()[w] == kind);
            }
        }
    }
    let ghost kinds_all = kinds.deep_view();
    let sorted = crate::text::sort_char_seqs(kinds);
    proof {
        assert forall|kind: Seq<char>|
            sorted.deep_view().contains(kind) == kinds_all.contains(kind) by {
            assert(sorted.deep_view().to_multiset() == kinds_all.to_multiset());
            assert(sorted.deep_view().contains(kind) <==> sorted.deep_view().to_multiset().count(
                kind,
            ) > 0);
            assert(kinds_all.contains(kind) <==> kinds_all.to_multiset().count(kind) > 0);
        }
    }
    let ks = crate::text::dedup_adjacent(sorted);
    let ghost kseq = ks.deep_view();

    let mut all_names: Vec<String> = Vec::new();
    for i in 0..nn
        invariant
            nn == nodes@.len(),
            nodes.deep_view() == nds,
            all_names.deep_view() == Seq::new(i as nat, |j: int| nds[j].name),
    {
        proof {
            assert(nodes.deep_view()[i as int] == nodes@[i as int]@);
        }
        push_deep(&mut all_names, nodes[i].name.clone());
        assert(all_names.deep_view() =~= Seq::new((i + 1) as nat, |j: int| nds[j].name));
    }
    let mut groups: Vec<ProxyGroup> = Vec::new();
    let umbrella = ProxyGroup {
        name: "All Proxies".to_owned(),
        kind: "select".to_owned(),
        size: nn,
        proxies: all_names,
    };
    proof {
        assert(umbrella@ =~~= umbrella_group(nds));
    }
    push_deep(&mut groups, umbrella);

    let km = ks.len();
    for k in 0..km
        invariant
            km == ks@.len(),
            kseq == ks.deep_view(),
            nn == nodes@.len(),
            nodes.deep_view() == nds,
            groups@.len() == k + 1,
            groups.deep_view()[0] == umbrella_group(nds),
            forall|k2: int|
                1 <= k2 < groups@.len() ==> (#[trigger] groups.deep_view()[k2]).kind == kseq[k2
                    - 1],
            forall|k2: int|
                1 <= k2 < groups@.len() ==> {
                    let g = #[trigger] groups.deep_view()[k2];
                    &&& g.name == crate::text::upper_seq(g.kind) + " Nodes"@
                    &&& g.proxies == names_of_kind(nds, g.kind)
                    &&& g.size == names_of_kind(nds, g.kind).len()
                },
    {
        proof {
            crate::text::lemma_deep_elem(ks, k as int);
        }
        let ghost ek = kseq[k as int];
        let mut names: Vec<String> = Vec::new();
        proof {
            assert(nds.skip(0) =~= nds);
        }
        for j in 0..nn
            invariant
                nn == nodes@.len(),
                nodes.deep_view() == nds,
                kseq == ks.deep_view(),
                k < km == ks@.len(),
                ek == kseq[k as int],
                ek == ks@[k as int]@,
                names_of_kind(nds, ek) == names.deep_view() + names_of_kind(
                    nds.skip(j as int),
                    ek,
                ),
        {
            let ghost rest = nds.skip(j as int);
            proof {
                assert(rest[0] == nds[j as int]);
                assert(rest.drop_first() =~= nds.skip(j + 1));
                assert(nodes.deep_view()[j as int] == nodes@[j as int]@);
            }
            let node_kind = str_to_chars(nodes[j].kind.as_str());
            if crate::text::eq_chars(node_kind.as_slice(), ks[k].as_slice()) {
                push_deep(&mut names, nodes[j].name.clone());
            }
            assert(names_of_kind(nds, ek) =~= names.deep_view() + names_of_kind(
                nds.skip(j + 1),
                ek,
            ));
        }
        proof {
            assert(names_of_kind(nds.skip(nn as int), ek) =~= Seq::<Seq<char>>::empty());
            assert(names.deep_view() =~= names_of_kind(nds, ek));
        }
        let mut gname = to_upper(ks[k].as_slice());
        append_str(&mut gname, " Nodes");
        let group = ProxyGroup {
            name: chars_to_string(gname.as_slice()),
            kind: chars_to_string(ks[k].as_slice()),
            size: names.len(),
            proxies: names,
        };
        proof {
            assert(group@.kind == ek);
            assert(group@.name == crate::text::upper_seq(ek) + " Nodes"@);
            assert(group@.proxies == names_of_kind(nds, ek));
        }
        push_deep(&mut groups, group);
    }

    let name = profile_name_from_subscription(source_url, &nodes);
    let mut proxy_nodes: Vec<ProxyNode> = Vec::new();
    for i in 0..nn
        invariant
            nn == nodes@.len(),
            nodes.deep_view() == nds,
            proxy_nodes.deep_view() == Seq::new(i as nat, |j: int| final_node(nds[j])),
    {
        proof {
            assert(nodes.deep_view()[i as int] == nodes@[i as int]@);
        }
        let node = ProxyNode {
            name: nodes[i].name.clone(),
            kind: normalize_kind(nodes[i].kind.as_str()),
            udp: nodes[i].udp || kind_supports_udp(nodes[i].kind.as_str()),
        };
        proof {
            assert(node@ =~~= final_node(nds[i as int]));
        }
        push_deep(&mut proxy_nodes, node);
        assert(proxy_nodes.deep_view() =~= Seq::new((i + 1) as nat, |j: int| final_node(nds[j])));
    }

    let parsed = ParsedProfile {
        name,
        node_count: nn,
        group_count: groups.len(),
        rule_count: 0,
        proxy_groups: groups,
        proxy_nodes,
        rules: Vec::new(),
    };
    proof {
        let p = parsed@;
        assert(p.proxy_nodes =~= Seq::new(nds.len(), |i: int| final_node(nds[i])));
        assert(p.rules =~= Seq::<Seq<char>>::empty());
        assert forall|i: int| 0 <= i < p.proxy_groups.len() implies (
        #[trigger] p.proxy_groups[i]).wf() by {
            if i == 0 {
                assert(p.proxy_groups[0] == umbrella_group(nds));
            }
        }
        assert forall|k1: int, k2: int| 1 <= k1 < k2 < p.proxy_groups.len() implies
            crate::text::lex_le((#[trigger] p.proxy_groups[k1]).kind, (
        #[trigger] p.proxy_groups[k2]).kind) && p.proxy_groups[k1].kind
            != p.proxy_groups[k2].kind by {
            assert(p.proxy_groups[k1].kind == kseq[k1 - 1]);
            assert(p.proxy_groups[k2].kind == kseq[k2 - 1]);
            assert(crate::text::lex_le(kseq[k1 - 1], kseq[k2 - 1]));
            if kseq[k1 - 1] == kseq[k2 - 1] {
                assert(crate::text::lex_le(kseq[k2 - 2], kseq[k2 - 1]));
                if k1 - 1 < k2 - 2 {
                    assert(crate::text::lex_le(kseq[k1 - 1], kseq[k2 - 2]));
                    assert(crate::text::lex_le(kseq[k2 - 1], kseq[k2 - 2]));
                    crate::text::lemma_lex_le_antisym(kseq[k2 - 2], kseq[k2 - 1]);
                    assert(kseq[k2 - 2] != kseq[k2 - 1]);
                } else {
                    assert(kseq[k2 - 2] == kseq[k1 - 1]);
                    assert(kseq[k2 - 2] != kseq[k2 - 1]);
                }
            }
        }
        assert forall|kind: Seq<char>| #[trigger] has_kind(nds, kind) implies exists|k: int|
            1 <= k < p.proxy_groups.len() && (#[trigger] p.proxy_groups[k]).kind == kind by {
            assert(kseq.contains(kind));
            let w = choose|w: int| 0 <= w < kseq.len() && kseq[w] == kind;
            assert(p.proxy_groups[w + 1].kind == kind);
        }
        assert(is_sub_parse_of(p, url_host_of(source_url@), nds));
    }
    Some(parsed)
}

} // verus!

verus! {

/// A character base64 payloads may contain, across the standard and URL-safe
/// alphabets, padded or not.
pub open spec fn is_b64_char(c: char) -> bool {
    ||| ('A' <= c && c <= 'Z')
    ||| ('a' <= c && c <= 'z')
    ||| ('0' <= c && c <= '9')
    ||| c == '+'
    ||| c == '/'
    ||| c == '='
    ||| c == '-'
    ||| c == '_'
}

/// A text that plausibly is one base64 blob: long enough, no scheme marker,
/// only base64 alphabet characters.
pub open spec fn looks_like_base64_spec(t: Seq<char>) -> bool {
    &&& t.len() >= 24
    &&& !text::contains_sub(t, "://"@)
    &&& forall|i: int| 0 <= i < t.len() ==> is_b64_char(#[trigger] t[i])
}

/// Whether a compacted payload looks like one base64 blob.
pub fn looks_like_base64_payload(t: &[char]) -> (r: bool)
    ensures
        r == looks_like_base64_spec(t@),
{
    let n = t.len();
    if n < 24 {
        return false;
    }
    let marker = str_to_chars("://");
    if text::contains_chars(t, marker.as_slice()) {
        return false;
    }
    for i in 0..n
        invariant
            n == t@.len(),
            forall|j: int| 0 <= j < i ==> is_b64_char(#[trigger] t@[j]),
    {
        let c = t[i];
        let ok = ('A' <= c && c <= 'Z') || ('a' <= c && c <= 'z') || ('0' <= c && c <= '9') || c
            == '+' || c == '/' || c == '=' || c == '-' || c == '_';
        if !ok {
            return false;
        }
    }
    true
}

/// Each line trimmed, then all lines run together.
pub open spec fn concat_trimmed(lines: Seq<Seq<char>>) -> Seq<char>
    decreases lines.len(),
{
    if lines.len() == 0 {
        Seq::empty()
    } else {
        trim_spec(lines[0]) + concat_trimmed(lines.drop_first())
    }
}

/// The compact form of a payload: lines trimmed and joined, then trimmed.
pub open spec fn compact_spec(content: Seq<char>) -> Seq<char> {
    trim_spec(concat_trimmed(text::split_lines_spec(content)))
}

fn compact_payload(content: &[char]) -> (r: Vec<char>)
    ensures
        r@ == compact_spec(content@),
{
    let lines = text::split_lines(content);
    let mut joined: Vec<char> = Vec::new();
    let n = lines.len();
    proof {
        assert(lines.deep_view().skip(0) =~= lines.deep_view());
    }
    for i in 0..n
        invariant
            n == lines@.len(),
            concat_trimmed(lines.deep_view()) == joined@ + concat_trimmed(
                lines.deep_view().skip(i as int),
            ),
    {
        let ghost rest = lines.deep_view().skip(i as int);
        proof {
            assert(rest[0] == lines.deep_view()[i as int]);
            assert(rest.drop_first() =~= lines.deep_view().skip(i + 1));
            assert(lines.deep_view()[i as int] == lines@[i as int]@);
        }
        let t = trim(lines[i].as_slice());
        append_slice(&mut joined, t.as_slice());
        assert(concat_trimmed(lines.deep_view()) =~= joined@ + concat_trimmed(
            lines.deep_view().skip(i + 1),
        ));
    }
    proof {
        assert(concat_trimmed(lines.deep_view().skip(n as int)) =~= Seq::<char>::empty());
        assert(joined@ =~= concat_trimmed(lines.deep_view()));
    }
    trim(joined.as_slice())
}

/// What one engine's decoding contributes: the decoded text when the bytes
/// decode, are valid UTF-8 and contain a scheme marker.
pub open spec fn good_decode(d: Option<Seq<u8>>) -> Option<Seq<char>> {
    match d {
        Some(bytes) => {
            if vstd::utf8::valid_utf8(bytes) && text::contains_sub(
                vstd::utf8::decode_utf8(bytes),
                "://"@,
            ) {
                Some(vstd::utf8::decode_utf8(bytes))
            } else {
                None
            }
        },
        None => None,
    }
}

/// The first of the four base64 variants whose decoding yields text with a
/// scheme marker.
pub open spec fn first_good_decode(t: Seq<char>) -> Option<Seq<char>> {
    if good_decode(crate::codec::b64_standard_of(t)) is Some {
        good_decode(crate::codec::b64_standard_of(t))
    } else if good_decode(crate::codec::b64_standard_no_pad_of(t)) is Some {
        good_decode(crate::codec::b64_standard_no_pad_of(t))
    } else if good_decode(crate::codec::b64_url_safe_of(t)) is Some {
        good_decode(crate::codec::b64_url_safe_of(t))
    } else {
        good_decode(crate::codec::b64_url_safe_no_pad_of(t))
    }
}

/// What decoding a subscription payload yields: the compacted content must
/// look like base64, and some variant must decode to text with a scheme
/// marker.
pub open spec fn decode_payload_spec(content: Seq<char>) -> Option<Seq<char>> {
    let compact = compact_spec(content);
    if compact.len() == 0 || !looks_like_base64_spec(compact) {
        None
    } else {
        first_good_decode(compact)
    }
}

fn try_decode(bytes: Option<Vec<u8>>, marker: &[char]) -> (r: Option<String>)
    requires
        marker@ == "://"@,
    ensures
        match r {
            Some(s) => good_decode(bytes.deep_view()) == Some(s@),
            None => good_decode(bytes.deep_view()) is None,
        },
{
    match bytes {
        Some(b) => {
            let ghost bs = b@;
            proof {
                assert(b.deep_view() =~= b@);
                assert(bytes.deep_view() == Some(bs));
            }
            match crate::codec::string_from_utf8(b) {
                Some(s) => {
                    let chars = str_to_chars(s.as_str());
                    if text::contains_chars(chars.as_slice(), marker) {
                        Some(s)
                    } else {
                        None
                    }
                },
                None => None,
            }
        },
        None => None,
    }
}

/// Decodes a base64-looking payload, keeping the first of the four variants
/// that yields text containing a scheme marker.
pub fn decode_subscription_payload(content: &str) -> (r: Option<String>)
    ensures
        match r {
            Some(s) => decode_payload_spec(content@) == Some(s@),
            None => decode_payload_spec(content@) is None,
        },
{
    let chars = str_to_chars(content);
    let compact = compact_payload(chars.as_slice());
    if compact.len() == 0 {
        return None;
    }
    if !looks_like_base64_payload(compact.as_slice()) {
        return None;
    }
    let compact_str = chars_to_string(compact.as_slice());
    let marker = str_to_chars("://");
    match try_decode(crate::codec::b64_decode_standard(compact_str.as_str()), marker.as_slice()) {
        Some(s) => {
            return Some(s);
        },
        None => {},
    }
    match try_decode(
        crate::codec::b64_decode_standard_no_pad(compact_str.as_str()),
        marker.as_slice(),
    ) {
        Some(s) => {
            return Some(s);
        },
        None => {},
    }
    match try_decode(crate::codec::b64_decode_url_safe(compact_str.as_str()), marker.as_slice()) {
        Some(s) => {
            return Some(s);
        },
        None => {},
    }
    try_decode(crate::codec::b64_decode_url_safe_no_pad(compact_str.as_str()), marker.as_slice())
}

} // verus!

verus! {

/// Every group a structured document yields is well-formed.
pub proof fn lemma_groups_from_raw_wf(gs: Seq<RawGroupView>)
    ensures
        forall|i: int|
            0 <= i < groups_from_raw(gs).len() ==> (#[trigger] groups_from_raw(gs)[i]).wf(),
    decreases gs.len(),
{
    if gs.len() > 0 {
        lemma_groups_from_raw_wf(gs.drop_first());
        let rest = groups_from_raw(gs.drop_first());
        if trim_spec(gs[0].name).len() > 0 {
            let whole = seq![group_from_raw(gs[0])] + rest;
            assert forall|i: int| 0 <= i < whole.len() implies (#[trigger] whole[i]).wf() by {
                if i == 0 {
                    assert(whole[0] == group_from_raw(gs[0]));
                } else {
                    assert(whole[i] == rest[i - 1]);
                }
            }
        }
    }
}

/// Whatever a structured document parses to is well-formed, carries one
/// node per document proxy, and always has at least one group.
pub proof fn lemma_clash_parsed_wf(doc: RawDocView, host: Option<Seq<char>>)
    ensures
        clash_parsed(doc, host).wf(),
        clash_parsed(doc, host).node_count == doc.proxies.len(),
        clash_parsed(doc, host).group_count >= 1,
{
    lemma_groups_from_raw_wf(doc.groups);
    if groups_from_raw(doc.groups).len() == 0 {
        assert(clash_groups(doc).len() == 1);
    }
}

/// The subscription stage succeeds: the raw text yields nodes, or the
/// decoded payload differs from the raw text and yields nodes.
pub open spec fn sub_stage_ok(content: Seq<char>) -> bool {
    ||| sub_text_nodes(content).len() > 0
    ||| (match decode_payload_spec(content) {
        Some(d) => trim_spec(d) != trim_spec(content) && sub_text_nodes(d).len() > 0,
        None => false,
    })
}

/// Parses content as a plain or base64-encoded newline list of proxy URIs.
///
/// The raw text is tried first; if it yields no node and the content looks
/// like one base64 blob, each decoding variant is tried.
pub fn parse_subscription_profile(source_url: &str, content: &str) -> (r: Result<
    ParsedProfile,
    CoreError,
>)
    ensures
        r is Ok <==> sub_stage_ok(content@),
        r matches Err(e) ==> e is InvalidProfile,
        r matches Ok(p) ==> {
            if sub_text_nodes(content@).len() > 0 {
                is_sub_parse_of(p@, url_host_of(source_url@), sub_text_nodes(content@))
            } else {
                match decode_payload_spec(content@) {
                    Some(d) => is_sub_parse_of(p@, url_host_of(source_url@), sub_text_nodes(d)),
                    None => false,
                }
            }
        },
{
    match parse_subscription_text(source_url, content) {
        Some(p) => {
            return Ok(p);
        },
        None => {},
    }
    match decode_subscription_payload(content) {
        Some(decoded) => {
            let dc = str_to_chars(decoded.as_str());
            let cc = str_to_chars(content);
            let dt = trim(dc.as_slice());
            let ct = trim(cc.as_slice());
            if !crate::text::eq_chars(dt.as_slice(), ct.as_slice()) {
                match parse_subscription_text(source_url, decoded.as_str()) {
                    Some(p) => {
                        return Ok(p);
                    },
                    None => {},
                }
            }
        },
        None => {},
    }
    Err(CoreError::InvalidProfile("unsupported profile format".to_owned()))
}

/// Leading byte-order marks dropped.
pub open spec fn strip_bom(s: Seq<char>) -> Seq<char>
    decreases s.len(),
{
    if s.len() > 0 && s[0] == '\u{feff}' {
        strip_bom(s.drop_first())
    } else {
        s
    }
}

/// The content reads as a structured routing-config document: it mentions a
/// proxies or group section, or starts with a well-known top-level key.
pub open spec fn looks_like_clash_yaml_spec(content: Seq<char>) -> bool {
    let t = crate::text::trim_start_spec(strip_bom(content));
    ||| text::contains_sub(t, "proxies:"@)
    ||| text::contains_sub(t, "proxy-groups:"@)
    ||| "mixed-port:"@.is_prefix_of(t)
    ||| "port:"@.is_prefix_of(t)
    ||| "mode:"@.is_prefix_of(t)
}

/// Whether fetched content looks like a structured routing-config document.
pub fn looks_like_clash_yaml(content: &str) -> (r: bool)
    ensures
        r == looks_like_clash_yaml_spec(content@),
{
    let chars = str_to_chars(content);
    let n = chars.len();
    let mut lo: usize = 0;
    assert(chars@.subrange(0, n as int) =~= chars@);
    while lo < n && chars[lo] == '\u{feff}'
        invariant
            0 <= lo <= n,
            n == chars@.len(),
            strip_bom(content@) == strip_bom(chars@.subrange(lo as int, n as int)),
        decreases n - lo,
    {
        proof {
            let cur = chars@.subrange(lo as int, n as int);
            assert(cur.drop_first() =~= chars@.subrange(lo + 1, n as int));
        }
        lo = lo + 1;
    }
    proof {
        let cur = chars@.subrange(lo as int, n as int);
        assert(strip_bom(cur) == cur);
    }
    let stripped = sub_vec(chars.as_slice(), lo, n);
    let t = crate::text::trim_start(stripped.as_slice());
    let p1 = str_to_chars("proxies:");
    let p2 = str_to_chars("proxy-groups:");
    let p3 = str_to_chars("mixed-port:");
    let p4 = str_to_chars("port:");
    let p5 = str_to_chars("mode:");
    text::contains_chars(t.as_slice(), p1.as_slice()) || text::contains_chars(
        t.as_slice(),
        p2.as_slice(),
    ) || crate::text::starts_with(t.as_slice(), p3.as_slice()) || crate::text::starts_with(
        t.as_slice(),
        p4.as_slice(),
    ) || crate::text::starts_with(t.as_slice(), p5.as_slice())
}

/// Parses subscription content: first as a structured routing-config
/// document, then as a plain or base64-encoded proxy URI list. Fails only
/// when both stages fail — in particular, content the subscription stage
/// accepts always parses — and every success is a well-formed profile with
/// at least one node and one group.
pub fn parse_profile_yaml(source_url: &str, content: &str) -> (r: Result<ParsedProfile, CoreError>)
    ensures
        r matches Ok(p) ==> p@.wf() && p@.node_count >= 1 && p@.group_count >= 1,
        r matches Err(e) ==> e is InvalidProfile,
        sub_stage_ok(content@) ==> r is Ok,
{
    match extract_raw_doc(content) {
        Some(doc) => {
            match normalize_clash_doc(source_url, &doc) {
                Ok(p) => {
                    proof {
                        lemma_clash_parsed_wf(doc@, url_host_of(source_url@));
                    }
                    return Ok(p);
                },
                Err(_) => {},
            }
        },
        None => {},
    }
    let r = parse_subscription_profile(source_url, content);
    proof {
        assert(r matches Ok(p) ==> p@.node_count >= 1 && p@.group_count >= 1) by {
            if r is Ok && sub_text_nodes(content@).len() == 0 {
                assert(decode_payload_spec(content@) matches Some(d) && sub_text_nodes(d).len()
                    > 0);
            }
        }
    }
    r
}

} // verus!
