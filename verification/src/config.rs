//! Reading Stash's `config.yaml` into a `ConfigReport`: subscription,
//! settings, ports, DNS, proxy nodes, groups and rules.
use vstd::prelude::*;
use crate::sorting::{insert_by, sort_by, sorted_by, strict_order, lemma_sort_by};
use crate::counter::{
    Counter, CountSeq, bump, count_seq_wf, max_count, lemma_bump, lemma_max_count_ge_count, has_key,
    lemma_bump_keys,
};
use crate::text::{
    has_substr, starts_with, trim, strip_all_prefixes, lines, lex_lt, uppercased, to_chars,
    lemma_lex_lt_irrefl, lemma_lex_lt_trans, lemma_lex_lt_total,
    owned, contains_str, starts_with_str, split_lines, trim_chars, strip_prefixes, string_of,
    string_of_range, to_upper, lex_lt_exec,
};
use crate::yaml::{
    YamlValue, yaml_get, yaml_get_opt, yaml_str, yaml_bool, yaml_u64, yaml_seq, deref_opt, get_opt,
    str_opt, seq_opt,
};

verus! {

// ---------------------------------------------------------------------------
// Node names and subscription URLs
// ---------------------------------------------------------------------------
/// The region names looked for in node names, in the order they are tried.
pub open spec fn region_keywords() -> Seq<Seq<char>> {
    seq![
        "香港"@, "日本"@, "新加坡"@, "台湾"@, "美国"@, "韩国"@, "德国"@, "英国"@, "法国"@,
        "荷兰"@, "加拿大"@, "澳大利亚"@, "印度"@, "摩尔多瓦"@, "乌克兰"@, "意大利"@, "匈牙利"@,
        "西班牙"@, "土耳其"@, "阿根廷"@, "巴西"@, "智利"@, "新西兰"@, "印尼"@, "泰国"@,
        "越南"@, "巴基斯坦"@, "以色列"@, "阿联酋"@, "菲律宾"@, "马来西亚"@, "埃及"@, "尼日利亚"@,
    ]
}

/// The first of `ks` that occurs in `name`.
pub open spec fn first_keyword(ks: Seq<Seq<char>>, name: Seq<char>) -> Option<Seq<char>>
    decreases ks.len(),
{
    if ks.len() == 0 {
        None
    } else if has_substr(name, ks[0]) {
        Some(ks[0])
    } else {
        first_keyword(ks.drop_first(), name)
    }
}

/// The region of a node: the first region name its name mentions, or "其他".
pub open spec fn region_of(name: Seq<char>) -> Seq<char> {
    match first_keyword(region_keywords(), name) {
        Some(k) => k,
        None => "其他"@,
    }
}

/// The region of a node, from its name.
pub fn extract_region(name: &str) -> (r: String)
    ensures
        r@ == region_of(name@),
{
    let n = to_chars(name);
    let keywords: Vec<&str> = vec![
        "香港", "日本", "新加坡", "台湾", "美国", "韩国", "德国", "英国", "法国", "荷兰", "加拿大",
        "澳大利亚", "印度", "摩尔多瓦", "乌克兰", "意大利", "匈牙利", "西班牙", "土耳其", "阿根廷",
        "巴西", "智利", "新西兰", "印尼", "泰国", "越南", "巴基斯坦", "以色列", "阿联酋", "菲律宾",
        "马来西亚", "埃及", "尼日利亚",
    ];
    let ghost ks = region_keywords();
    assert(keywords@.len() == ks.len());
    assert(forall|j: int| 0 <= j < ks.len() ==> #[trigger] keywords@[j]@ == ks[j]);
    let mut i: usize = 0;
    assert(ks.skip(0) =~= ks);
    while i < keywords.len()
        invariant
            i <= keywords@.len(),
            keywords@.len() == ks.len(),
            ks == region_keywords(),
            forall|j: int| 0 <= j < ks.len() ==> #[trigger] keywords@[j]@ == ks[j],
            n@ == name@,
            first_keyword(ks, name@) == first_keyword(ks.skip(i as int), name@),
        decreases keywords@.len() - i,
    {
        assert(ks.skip(i as int).drop_first() =~= ks.skip(i + 1));
        assert(ks.skip(i as int)[0] == ks[i as int]);
        if contains_str(&n, keywords[i]) {
            assert(first_keyword(ks.skip(i as int), name@) == Some(ks[i as int]));
            return owned(keywords[i]);
        }
        i = i + 1;
    }
    owned("其他")
}

/// The service tier of a node: "高级", "实验性" or "标准" when its name says
/// so (in that order of precedence), otherwise "其他".
pub open spec fn tier_of(name: Seq<char>) -> Seq<char> {
    if has_substr(name, "高级"@) {
        "高级"@
    } else if has_substr(name, "实验性"@) {
        "实验性"@
    } else if has_substr(name, "标准"@) {
        "标准"@
    } else {
        "其他"@
    }
}

/// The service tier of a node, from its name.
pub fn extract_tier(name: &str) -> (r: String)
    ensures
        r@ == tier_of(name@),
{
    let n = to_chars(name);
    if contains_str(&n, "高级") {
        owned("高级")
    } else if contains_str(&n, "实验性") {
        owned("实验性")
    } else if contains_str(&n, "标准") {
        owned("标准")
    } else {
        owned("其他")
    }
}

/// Index of the first "//" in `s`, or -1.
pub open spec fn first_double_slash(s: Seq<char>) -> int
    decreases s.len(),
{
    if s.len() < 2 {
        -1
    } else if s[0] == '/' && s[1] == '/' {
        0
    } else {
        let r = first_double_slash(s.drop_first());
        if r >= 0 {
            r + 1
        } else {
            -1
        }
    }
}

/// The characters of `s` before its first '/'.
pub open spec fn before_slash(s: Seq<char>) -> Seq<char>
    decreases s.len(),
{
    if s.len() == 0 || s[0] == '/' {
        Seq::empty()
    } else {
        seq![s[0]] + before_slash(s.drop_first())
    }
}

/// The host part of a URL: what follows the first "//" up to the next '/'.
pub open spec fn url_host(url: Seq<char>) -> Option<Seq<char>> {
    let p = first_double_slash(url);
    if p >= 0 {
        Some(before_slash(url.skip(p + 2)))
    } else {
        None
    }
}

/// The provider of a subscription URL: a known provider by name, otherwise
/// the URL's host.
pub open spec fn provider_of(url: Seq<char>) -> Option<Seq<char>> {
    if has_substr(url, "huacloud"@) || has_substr(url, "233netboom"@) || has_substr(
        url,
        "xmancdn"@,
    ) {
        Some("233netboom (花云)"@)
    } else if has_substr(url, "sub-store"@) {
        Some("Sub-Store"@)
    } else {
        url_host(url)
    }
}

/// The provider of a subscription URL.
pub fn extract_provider(url: &str) -> (r: Option<String>)
    ensures
        r.deep_view() == provider_of(url@),
{
    let u = to_chars(url);
    if contains_str(&u, "huacloud") || contains_str(&u, "233netboom") || contains_str(
        &u,
        "xmancdn",
    ) {
        return Some(owned("233netboom (花云)"));
    }
    if contains_str(&u, "sub-store") {
        return Some(owned("Sub-Store"));
    }
    // find the first "//"
    let mut p: usize = 0;
    assert(u@.skip(0) =~= u@);
    while u.len() >= 2 && p < u.len() - 1 && !(u[p] == '/' && u[p + 1] == '/')
        invariant
            p <= u@.len(),
            first_double_slash(u@) == (if first_double_slash(u@.skip(p as int)) >= 0 {
                first_double_slash(u@.skip(p as int)) + p
            } else {
                -1
            }),
        decreases u@.len() - p,
    {
        assert(u@.skip(p as int).drop_first() =~= u@.skip(p + 1));
        p = p + 1;
    }
    if u.len() < 2 || p >= u.len() - 1 {
        assert(first_double_slash(u@.skip(p as int)) == -1);
        return None;
    }
    assert(first_double_slash(u@.skip(p as int)) == 0);
    let start = p + 2;
    let mut q = start;
    assert(u@.skip(start as int).subrange(0, 0) =~= Seq::<char>::empty());
    while q < u.len() && u[q] != '/'
        invariant
            start <= q <= u@.len(),
            before_slash(u@.skip(start as int)) == u@.subrange(start as int, q as int)
                + before_slash(u@.skip(q as int)),
        decreases u@.len() - q,
    {
        assert(u@.skip(q as int).drop_first() =~= u@.skip(q + 1));
        assert(u@.subrange(start as int, q + 1) =~= u@.subrange(start as int, q as int) + seq![
            u@[q as int],
        ]);
        q = q + 1;
    }
    assert(before_slash(u@.skip(q as int)) =~= Seq::<char>::empty());
    assert(u@.subrange(start as int, q as int) + Seq::<char>::empty() =~= u@.subrange(
        start as int,
        q as int,
    ));
    Some(string_of_range(&u, start, q))
}

/// The subscription URL noted on the first line that starts with
/// "#SUBSCRIBED", if any.
pub open spec fn subscription_in(ls: Seq<Seq<char>>) -> Option<Seq<char>>
    decreases ls.len(),
{
    if ls.len() == 0 {
        None
    } else if starts_with(ls[0], "#SUBSCRIBED"@) {
        Some(trim(strip_all_prefixes(ls[0], "#SUBSCRIBED"@)))
    } else {
        subscription_in(ls.drop_first())
    }
}

/// The subscription URL noted in the config text, if any.
pub fn subscription_url(content: &str) -> (r: Option<String>)
    ensures
        r.deep_view() == subscription_in(lines(content@)),
{
    let cs = to_chars(content);
    let ls = split_lines(&cs);
    let ghost all = lines(content@);
    let mut i: usize = 0;
    assert(all.skip(0) =~= all);
    while i < ls.len()
        invariant
            i <= ls@.len(),
            ls@.len() == all.len(),
            all == lines(content@),
            forall|k: int| 0 <= k < ls@.len() ==> #[trigger] ls@[k]@ == all[k],
            subscription_in(all) == subscription_in(all.skip(i as int)),
        decreases ls@.len() - i,
    {
        assert(all.skip(i as int).drop_first() =~= all.skip(i + 1));
        assert(all.skip(i as int)[0] == all[i as int]);
        if starts_with_str(&ls[i], "#SUBSCRIBED") {
            let rest = strip_prefixes(&ls[i], "#SUBSCRIBED");
            let t = trim_chars(&rest);
            assert(subscription_in(all.skip(i as int)) == Some(trim(strip_all_prefixes(all[i as int], "#SUBSCRIBED"@))));
            return Some(string_of(&t));
        }
        i = i + 1;
    }
    None
}

// ---------------------------------------------------------------------------
// Sorting names
// ---------------------------------------------------------------------------
/// `x` inserted into `r` before the first element it sorts strictly before.
pub open spec fn insert_lex(r: Seq<Seq<char>>, x: Seq<char>) -> Seq<Seq<char>>
    decreases r.len(),
{
    if r.len() == 0 {
        seq![x]
    } else if lex_lt(x, r[0]) {
        seq![x] + r
    } else {
        seq![r[0]] + insert_lex(r.drop_first(), x)
    }
}

/// `s` sorted by insertion, in the lexicographic order of code points.
pub open spec fn sort_lex(s: Seq<Seq<char>>) -> Seq<Seq<char>>
    decreases s.len(),
{
    if s.len() == 0 {
        s
    } else {
        insert_lex(sort_lex(s.drop_last()), s.last())
    }
}

/// The strings `v`, sorted.
pub fn sort_strings(v: &Vec<String>) -> (r: Vec<String>)
    ensures
        r.deep_view() == sort_lex(v.deep_view()),
{
    let mut r: Vec<String> = Vec::new();
    let mut i: usize = 0;
    let ghost all = v.deep_view();
    assert(all.take(0) =~= Seq::<Seq<char>>::empty());
    while i < v.len()
        invariant
            i <= v@.len(),
            all == v.deep_view(),
            r.deep_view() == sort_lex(all.take(i as int)),
        decreases v@.len() - i,
    {
        let x = v[i].clone();
        let xc = to_chars(x.as_str());
        let ghost before = r.deep_view();
        let mut k: usize = 0;
        assert(before.skip(0) =~= before);
        assert(before.take(0) + insert_lex(before.skip(0), x@) =~= insert_lex(before, x@));
        while k < r.len() && !lex_lt_exec(&xc, &to_chars(r[k].as_str()))
            invariant
                k <= r@.len(),
                before == r.deep_view(),
                xc@ == x@,
                insert_lex(before, x@) == before.take(k as int) + insert_lex(before.skip(k as int), x@),
            decreases r@.len() - k,
        {
            assert(before.skip(k as int)[0] == before[k as int]);
            assert(before.skip(k as int).drop_first() =~= before.skip(k + 1));
            assert(before.take(k + 1) =~= before.take(k as int) + seq![before[k as int]]);
            k = k + 1;
        }
        proof {
            if k < r@.len() {
                assert(before.skip(k as int)[0] == before[k as int]);
                assert(insert_lex(before.skip(k as int), x@) == seq![x@] + before.skip(k as int));
            } else {
                assert(before.skip(k as int) =~= Seq::<Seq<char>>::empty());
            }
        }
        r.insert(k, x);
        assert(r.deep_view() =~= insert_lex(before, x@));
        assert(all.take(i + 1).drop_last() =~= all.take(i as int));
        i = i + 1;
    }
    assert(all.take(all.len() as int) =~= all);
    r
}

// ---------------------------------------------------------------------------
// Proxy nodes
// ---------------------------------------------------------------------------
/// What the proxy list tells, tallied node by node.
pub struct ProxyTally {
    pub by_region: CountSeq,
    pub by_tier: CountSeq,
    pub by_type: CountSeq,
    pub by_cipher: CountSeq,
    pub traffic: Option<Seq<char>>,
    pub expiry: Option<Seq<char>>,
    /// distinct passwords, in first-seen order
    pub passwords: Seq<Seq<char>>,
    /// distinct non-empty server addresses, in first-seen order
    pub servers: Seq<Seq<char>>,
}

pub open spec fn empty_tally() -> ProxyTally {
    ProxyTally {
        by_region: Seq::empty(),
        by_tier: Seq::empty(),
        by_type: Seq::empty(),
        by_cipher: Seq::empty(),
        traffic: None,
        expiry: None,
        passwords: Seq::empty(),
        servers: Seq::empty(),
    }
}

/// `v`, or `d` when absent.
pub open spec fn text_or(v: Option<Seq<char>>, d: Seq<char>) -> Seq<char> {
    match v {
        Some(t) => t,
        None => d,
    }
}

/// `s` with `x` appended unless already there.
pub open spec fn add_distinct(s: Seq<Seq<char>>, x: Seq<char>) -> Seq<Seq<char>> {
    if s.contains(x) {
        s
    } else {
        s.push(x)
    }
}

/// The string field `key` of a node, or `d`.
pub open spec fn node_field(p: YamlValue, key: Seq<char>, d: Seq<char>) -> Seq<char> {
    text_or(yaml_str(yaml_get(p, key)), d)
}

/// The tally after the node `p`: a node named "Traffic:…" or "Expire:…"
/// only carries the subscription's traffic or expiry note; any other node is
/// counted by region, tier, protocol and cipher.
pub open spec fn tally_node(t: ProxyTally, p: YamlValue) -> ProxyTally {
    let name = node_field(p, "name"@, ""@);
    let ptype = node_field(p, "type"@, "unknown"@);
    let cipher = node_field(p, "cipher"@, "none"@);
    let password = node_field(p, "password"@, ""@);
    let server = node_field(p, "server"@, ""@);
    if starts_with(name, "Traffic:"@) {
        ProxyTally { traffic: Some(name), ..t }
    } else if starts_with(name, "Expire:"@) {
        ProxyTally { expiry: Some(name), ..t }
    } else {
        ProxyTally {
            by_region: bump(t.by_region, region_of(name)),
            by_tier: bump(t.by_tier, tier_of(name)),
            by_type: bump(t.by_type, uppercased(ptype)),
            by_cipher: bump(t.by_cipher, cipher),
            passwords: add_distinct(t.passwords, password),
            servers: if server.len() > 0 {
                add_distinct(t.servers, server)
            } else {
                t.servers
            },
            ..t
        }
    }
}

/// The tally of the nodes `ps`, in order.
pub open spec fn tally_nodes(ps: Seq<YamlValue>) -> ProxyTally
    decreases ps.len(),
{
    if ps.len() == 0 {
        empty_tally()
    } else {
        tally_node(tally_nodes(ps.drop_last()), ps.last())
    }
}

/// The tally of the proxy nodes, built node by node.
pub struct Tally {
    pub by_region: Counter,
    pub by_tier: Counter,
    pub by_type: Counter,
    pub by_cipher: Counter,
    pub traffic: Option<String>,
    pub expiry: Option<String>,
    pub passwords: Vec<String>,
    pub servers: Vec<String>,
}

impl View for Tally {
    type V = ProxyTally;

    open spec fn view(&self) -> ProxyTally {
        ProxyTally {
            by_region: self.by_region@,
            by_tier: self.by_tier@,
            by_type: self.by_type@,
            by_cipher: self.by_cipher@,
            traffic: self.traffic.deep_view(),
            expiry: self.expiry.deep_view(),
            passwords: self.passwords.deep_view(),
            servers: self.servers.deep_view(),
        }
    }
}

/// Appends `x` to `v` unless it is already there.
fn push_distinct(v: &mut Vec<String>, x: String)
    ensures
        final(v).deep_view() == add_distinct(old(v).deep_view(), x@),
{
    let ghost dv = v.deep_view();
    let mut i: usize = 0;
    while i < v.len()
        invariant
            i <= v@.len(),
            dv == v.deep_view(),
            forall|k: int| 0 <= k < i ==> dv[k] != x@,
        decreases v@.len() - i,
    {
        if v[i] == x {
            assert(dv[i as int] == x@);
            assert(dv.contains(x@));
            return ;
        }
        i = i + 1;
    }
    assert(!dv.contains(x@));
    v.push(x);
    assert(v.deep_view() =~= dv.push(x@));
}

/// The string field `key` of a node, or `d`.
fn node_text(p: &YamlValue, key: &str, d: &str) -> (r: String)
    ensures
        r@ == node_field(*p, key@, d@),
{
    match p.get(key) {
        Some(v) => match v.as_str() {
            Some(s) => s.clone(),
            None => owned(d),
        },
        None => owned(d),
    }
}

/// Tallies the proxy nodes `ps`.
pub fn tally_proxies(ps: &Vec<YamlValue>) -> (t: Tally)
    ensures
        t@ == tally_nodes(ps@),
        count_seq_wf(t@.by_region),
        count_seq_wf(t@.by_tier),
        count_seq_wf(t@.by_type),
        count_seq_wf(t@.by_cipher),
{
    let mut t = Tally {
        by_region: Counter::new(),
        by_tier: Counter::new(),
        by_type: Counter::new(),
        by_cipher: Counter::new(),
        traffic: None,
        expiry: None,
        passwords: Vec::new(),
        servers: Vec::new(),
    };
    assert(t.passwords.deep_view() =~= Seq::<Seq<char>>::empty());
    assert(t.servers.deep_view() =~= Seq::<Seq<char>>::empty());
    assert(t@ == empty_tally());
    let mut i: usize = 0;
    assert(ps@.take(0) =~= Seq::<YamlValue>::empty());
    while i < ps.len()
        invariant
            i <= ps@.len(),
            t@ == tally_nodes(ps@.take(i as int)),
            t.by_region.wf(),
            t.by_tier.wf(),
            t.by_type.wf(),
            t.by_cipher.wf(),
            max_count(t.by_region@) <= i,
            max_count(t.by_tier@) <= i,
            max_count(t.by_type@) <= i,
            max_count(t.by_cipher@) <= i,
        decreases ps@.len() - i,
    {
        let p = &ps[i];
        assert(ps@.take(i + 1).drop_last() =~= ps@.take(i as int));
        let name = node_text(p, "name", "");
        let ptype = node_text(p, "type", "unknown");
        let cipher = node_text(p, "cipher", "none");
        let password = node_text(p, "password", "");
        let server = node_text(p, "server", "");
        let nc = to_chars(name.as_str());
        if starts_with_str(&nc, "Traffic:") {
            t.traffic = Some(name);
        } else if starts_with_str(&nc, "Expire:") {
            t.expiry = Some(name);
        } else {
            let region = extract_region(name.as_str());
            let tier = extract_tier(name.as_str());
            let up = to_upper(ptype.as_str());
            proof {
                lemma_max_count_ge_count(t.by_region@, region@);
                lemma_max_count_ge_count(t.by_tier@, tier@);
                lemma_max_count_ge_count(t.by_type@, up@);
                lemma_max_count_ge_count(t.by_cipher@, cipher@);
                lemma_bump(t.by_region@, region@);
                lemma_bump(t.by_tier@, tier@);
                lemma_bump(t.by_type@, up@);
                lemma_bump(t.by_cipher@, cipher@);
            }
            t.by_region.increment(region);
            t.by_tier.increment(tier);
            t.by_type.increment(up);
            t.by_cipher.increment(cipher);
            push_distinct(&mut t.passwords, password);
            if !server.as_str().is_empty() {
                push_distinct(&mut t.servers, server);
            }
        }
        i = i + 1;
    }
    assert(ps@.take(ps@.len() as int) =~= ps@);
    t
}

// ---------------------------------------------------------------------------
// The report
// ---------------------------------------------------------------------------
/// What the configuration tells.
pub struct ConfigReport {
    pub subscription_url: Option<String>,
    pub subscription_provider: Option<String>,
    pub proxy_count: usize,
    pub group_count: usize,
    pub rule_count: usize,
    /// region -> count
    pub nodes_by_region: Counter,
    /// tier (标准/高级/实验性) -> count
    pub nodes_by_tier: Counter,
    /// protocol type -> count
    pub nodes_by_type: Counter,
    /// cipher -> count
    pub nodes_by_cipher: Counter,
    /// proxy group names
    pub group_names: Vec<String>,
    /// traffic info
    pub traffic_info: Option<String>,
    /// expiry info
    pub expiry_info: Option<String>,
    /// port settings, by setting name
    pub ports: Vec<(String, u16)>,
    /// dns servers
    pub dns_servers: Vec<String>,
    /// mode
    pub mode: String,
    /// ipv6 enabled
    pub ipv6: bool,
    /// allow-lan
    pub allow_lan: bool,
    /// server addresses (unique, sorted)
    pub unique_servers: Vec<String>,
    /// all ciphers are the same?
    pub single_cipher: bool,
    /// all passwords are the same?
    pub single_password: bool,
}

/// The mathematical content of a `ConfigReport`.
pub struct ConfigView {
    pub subscription_url: Option<Seq<char>>,
    pub subscription_provider: Option<Seq<char>>,
    pub proxy_count: nat,
    pub group_count: nat,
    pub rule_count: nat,
    pub nodes_by_region: CountSeq,
    pub nodes_by_tier: CountSeq,
    pub nodes_by_type: CountSeq,
    pub nodes_by_cipher: CountSeq,
    pub group_names: Seq<Seq<char>>,
    pub traffic_info: Option<Seq<char>>,
    pub expiry_info: Option<Seq<char>>,
    pub ports: Seq<(Seq<char>, u16)>,
    pub dns_servers: Seq<Seq<char>>,
    pub mode: Seq<char>,
    pub ipv6: bool,
    pub allow_lan: bool,
    pub unique_servers: Seq<Seq<char>>,
    pub single_cipher: bool,
    pub single_password: bool,
}

impl View for ConfigReport {
    type V = ConfigView;

    open spec fn view(&self) -> ConfigView {
        ConfigView {
            subscription_url: self.subscription_url.deep_view(),
            subscription_provider: self.subscription_provider.deep_view(),
            proxy_count: self.proxy_count as nat,
            group_count: self.group_count as nat,
            rule_count: self.rule_count as nat,
            nodes_by_region: self.nodes_by_region@,
            nodes_by_tier: self.nodes_by_tier@,
            nodes_by_type: self.nodes_by_type@,
            nodes_by_cipher: self.nodes_by_cipher@,
            group_names: self.group_names.deep_view(),
            traffic_info: self.traffic_info.deep_view(),
            expiry_info: self.expiry_info.deep_view(),
            ports: self.ports.deep_view(),
            dns_servers: self.dns_servers.deep_view(),
            mode: self.mode@,
            ipv6: self.ipv6,
            allow_lan: self.allow_lan,
            unique_servers: self.unique_servers.deep_view(),
            single_cipher: self.single_cipher,
            single_password: self.single_password,
        }
    }
}

impl ConfigReport {
    /// The report's count tables are well formed.
    pub open spec fn wf(&self) -> bool {
        &&& self.nodes_by_region.wf()
        &&& self.nodes_by_tier.wf()
        &&& self.nodes_by_type.wf()
        &&& self.nodes_by_cipher.wf()
    }
}

/// The strings among `items`, in order.
pub open spec fn strings_in(items: Seq<YamlValue>) -> Seq<Seq<char>>
    decreases items.len(),
{
    if items.len() == 0 {
        Seq::empty()
    } else {
        let prev = strings_in(items.drop_last());
        match yaml_str(Some(items.last())) {
            Some(s) => prev.push(s),
            None => prev,
        }
    }
}

/// The string `name` fields of `items`, in order.
pub open spec fn names_in(items: Seq<YamlValue>) -> Seq<Seq<char>>
    decreases items.len(),
{
    if items.len() == 0 {
        Seq::empty()
    } else {
        let prev = names_in(items.drop_last());
        match yaml_str(yaml_get(items.last(), "name"@)) {
            Some(s) => prev.push(s),
            None => prev,
        }
    }
}

/// The port setting `key` of the document, as a one-entry list when set.
/// A port number is kept modulo 65536.
pub open spec fn port_entry(root: YamlValue, key: Seq<char>) -> Seq<(Seq<char>, u16)> {
    match yaml_u64(yaml_get(root, key)) {
        Some(p) => seq![(key, p as u16)],
        None => Seq::empty(),
    }
}

/// The port settings of the document, in the order port, socks-port,
/// redir-port, mixed-port.
pub open spec fn ports_in(root: YamlValue) -> Seq<(Seq<char>, u16)> {
    port_entry(root, "port"@) + port_entry(root, "socks-port"@) + port_entry(root, "redir-port"@)
        + port_entry(root, "mixed-port"@)
}

/// The DNS name servers of the document.
pub open spec fn dns_in(root: YamlValue) -> Seq<Seq<char>> {
    match yaml_seq(yaml_get_opt(yaml_get(root, "dns"@), "nameserver"@)) {
        Some(items) => strings_in(items),
        None => Seq::empty(),
    }
}

/// The number of items of an optional sequence (0 when absent).
pub open spec fn seq_count(s: Option<Seq<YamlValue>>) -> nat {
    match s {
        Some(items) => items.len(),
        None => 0,
    }
}

/// The report from the configuration text `content`, whose parsed YAML
/// document is `doc` (`None` when it does not parse).
pub open spec fn config_spec(content: Seq<char>, doc: Option<YamlValue>) -> ConfigView {
    let url = subscription_in(lines(content));
    let provider = match url {
        Some(u) => provider_of(u),
        None => None,
    };
    match doc {
        None => ConfigView {
            subscription_url: url,
            subscription_provider: provider,
            proxy_count: 0,
            group_count: 0,
            rule_count: 0,
            nodes_by_region: Seq::empty(),
            nodes_by_tier: Seq::empty(),
            nodes_by_type: Seq::empty(),
            nodes_by_cipher: Seq::empty(),
            group_names: Seq::empty(),
            traffic_info: None,
            expiry_info: None,
            ports: Seq::empty(),
            dns_servers: Seq::empty(),
            mode: Seq::empty(),
            ipv6: false,
            allow_lan: false,
            unique_servers: Seq::empty(),
            single_cipher: true,
            single_password: true,
        },
        Some(root) => {
            let proxies = yaml_seq(yaml_get(root, "proxies"@));
            let groups = yaml_seq(yaml_get(root, "proxy-groups"@));
            let t = match proxies {
                Some(ps) => tally_nodes(ps),
                None => empty_tally(),
            };
            ConfigView {
                subscription_url: url,
                subscription_provider: provider,
                proxy_count: seq_count(proxies),
                group_count: seq_count(groups),
                rule_count: seq_count(yaml_seq(yaml_get(root, "rules"@))),
                nodes_by_region: t.by_region,
                nodes_by_tier: t.by_tier,
                nodes_by_type: t.by_type,
                nodes_by_cipher: t.by_cipher,
                group_names: match groups {
                    Some(gs) => names_in(gs),
                    None => Seq::empty(),
                },
                traffic_info: t.traffic,
                expiry_info: t.expiry,
                ports: ports_in(root),
                dns_servers: dns_in(root),
                mode: text_or(yaml_str(yaml_get(root, "mode"@)), Seq::empty()),
                ipv6: yaml_bool(yaml_get(root, "ipv6"@)) == Some(true),
                allow_lan: yaml_bool(yaml_get(root, "allow-lan"@)) == Some(true),
                unique_servers: sort_lex(t.servers),
                single_cipher: t.by_cipher.len() <= 1,
                single_password: t.passwords.len() <= 1,
            }
        },
    }
}

/// The strings among `items`.
fn strings_of(items: &Vec<YamlValue>) -> (r: Vec<String>)
    ensures
        r.deep_view() == strings_in(items@),
{
    let mut r: Vec<String> = Vec::new();
    let mut i: usize = 0;
    assert(items@.take(0) =~= Seq::<YamlValue>::empty());
    assert(r.deep_view() =~= Seq::<Seq<char>>::empty());
    while i < items.len()
        invariant
            i <= items@.len(),
            r.deep_view() == strings_in(items@.take(i as int)),
        decreases items@.len() - i,
    {
        assert(items@.take(i + 1).drop_last() =~= items@.take(i as int));
        let ghost before = r.deep_view();
        match items[i].as_str() {
            Some(s) => {
                r.push(s.clone());
                assert(r.deep_view() =~= before.push(s@));
            },
            None => {},
        }
        i = i + 1;
    }
    assert(items@.take(items@.len() as int) =~= items@);
    r
}

/// The string `name` fields of `items`.
fn names_of(items: &Vec<YamlValue>) -> (r: Vec<String>)
    ensures
        r.deep_view() == names_in(items@),
{
    let mut r: Vec<String> = Vec::new();
    let mut i: usize = 0;
    assert(items@.take(0) =~= Seq::<YamlValue>::empty());
    assert(r.deep_view() =~= Seq::<Seq<char>>::empty());
    while i < items.len()
        invariant
            i <= items@.len(),
            r.deep_view() == names_in(items@.take(i as int)),
        decreases items@.len() - i,
    {
        assert(items@.take(i + 1).drop_last() =~= items@.take(i as int));
        let ghost before = r.deep_view();
        match str_opt(items[i].get("name")) {
            Some(s) => {
                r.push(s.clone());
                assert(r.deep_view() =~= before.push(s@));
            },
            None => {},
        }
        i = i + 1;
    }
    assert(items@.take(items@.len() as int) =~= items@);
    r
}

/// Appends the port setting `key` of `root` to `ports` when set.
fn push_port(ports: &mut Vec<(String, u16)>, root: &YamlValue, key: &str)
    ensures
        final(ports).deep_view() == old(ports).deep_view() + port_entry(*root, key@),
{
    let value = match root.get(key) {
        Some(v) => v.as_u64(),
        None => None,
    };
    let ghost before = ports.deep_view();
    match value {
        Some(p) => {
            #[verifier::truncate]
            let port = p as u16;
            ports.push((owned(key), port));
            assert(ports.deep_view() =~= before + port_entry(*root, key@));
        },
        None => {
            assert(ports.deep_view() =~= before + port_entry(*root, key@));
        },
    }
}

/// Reads the configuration: `content` is the text of `config.yaml` and
/// `doc` its parsed YAML document (`None` when it does not parse).  The
/// subscription URL comes from the "#SUBSCRIBED" comment line; everything
/// else from the document.
pub fn parse_config(content: &str, doc: Option<&YamlValue>) -> (r: ConfigReport)
    ensures
        r.wf(),
        r@ == config_spec(content@, deref_opt(doc)),
{
    let url = subscription_url(content);
    let provider = match &url {
        Some(u) => extract_provider(u.as_str()),
        None => None,
    };
    let root = match doc {
        Some(r) => r,
        None => {
            let r = ConfigReport {
                subscription_url: url,
                subscription_provider: provider,
                proxy_count: 0,
                group_count: 0,
                rule_count: 0,
                nodes_by_region: Counter::new(),
                nodes_by_tier: Counter::new(),
                nodes_by_type: Counter::new(),
                nodes_by_cipher: Counter::new(),
                group_names: Vec::new(),
                traffic_info: None,
                expiry_info: None,
                ports: Vec::new(),
                dns_servers: Vec::new(),
                mode: String::new(),
                ipv6: false,
                allow_lan: false,
                unique_servers: Vec::new(),
                single_cipher: true,
                single_password: true,
            };
            assert(r.group_names.deep_view() =~= Seq::<Seq<char>>::empty());
            assert(r.ports.deep_view() =~= Seq::<(Seq<char>, u16)>::empty());
            assert(r.dns_servers.deep_view() =~= Seq::<Seq<char>>::empty());
            assert(r.unique_servers.deep_view() =~= Seq::<Seq<char>>::empty());
            return r;
        },
    };
    let mode = match str_opt(root.get("mode")) {
        Some(m) => m.clone(),
        None => String::new(),
    };
    let ipv6 = match root.get("ipv6") {
        Some(v) => v.as_bool() == Some(true),
        None => false,
    };
    let allow_lan = match root.get("allow-lan") {
        Some(v) => v.as_bool() == Some(true),
        None => false,
    };
    let mut ports: Vec<(String, u16)> = Vec::new();
    assert(ports.deep_view() =~= Seq::<(Seq<char>, u16)>::empty());
    push_port(&mut ports, root, "port");
    push_port(&mut ports, root, "socks-port");
    push_port(&mut ports, root, "redir-port");
    push_port(&mut ports, root, "mixed-port");
    assert(ports.deep_view() =~= ports_in(*root));
    let dns_servers = match seq_opt(get_opt(root.get("dns"), "nameserver")) {
        Some(items) => strings_of(items),
        None => {
            let v: Vec<String> = Vec::new();
            assert(v.deep_view() =~= Seq::<Seq<char>>::empty());
            v
        },
    };
    let proxies = seq_opt(root.get("proxies"));
    let (proxy_count, tally) = match proxies {
        Some(ps) => (ps.len(), tally_proxies(ps)),
        None => {
            let empty: Vec<YamlValue> = Vec::new();
            assert(empty@ =~= Seq::<YamlValue>::empty());
            (0, tally_proxies(&empty))
        },
    };
    let unique_servers = sort_strings(&tally.servers);
    let single_cipher = tally.by_cipher.len() <= 1;
    let single_password = tally.passwords.len() <= 1;
    let groups = seq_opt(root.get("proxy-groups"));
    let (group_count, group_names) = match groups {
        Some(gs) => (gs.len(), names_of(gs)),
        None => {
            let v: Vec<String> = Vec::new();
            assert(v.deep_view() =~= Seq::<Seq<char>>::empty());
            (0, v)
        },
    };
    let rule_count = match seq_opt(root.get("rules")) {
        Some(rs) => rs.len(),
        None => 0,
    };
    ConfigReport {
        subscription_url: url,
        subscription_provider: provider,
        proxy_count,
        group_count,
        rule_count,
        nodes_by_region: tally.by_region,
        nodes_by_tier: tally.by_tier,
        nodes_by_type: tally.by_type,
        nodes_by_cipher: tally.by_cipher,
        group_names,
        traffic_info: tally.traffic,
        expiry_info: tally.expiry,
        ports,
        dns_servers,
        mode,
        ipv6,
        allow_lan,
        unique_servers,
        single_cipher,
        single_password,
    }
}

// ---------------------------------------------------------------------------
// Laws
// ---------------------------------------------------------------------------
/// The order `sort_lex` sorts by, as a value.
pub open spec fn lex_order() -> spec_fn(Seq<char>, Seq<char>) -> bool {
    |a: Seq<char>, b: Seq<char>| lex_lt(a, b)
}

proof fn lemma_insert_lex(r: Seq<Seq<char>>, x: Seq<char>)
    ensures
        insert_lex(r, x) == insert_by(r, x, lex_order()),
    decreases r.len(),
{
    if r.len() > 0 {
        lemma_insert_lex(r.drop_first(), x);
    }
}

proof fn lemma_sort_lex(s: Seq<Seq<char>>)
    ensures
        sort_lex(s) == sort_by(s, lex_order()),
    decreases s.len(),
{
    if s.len() > 0 {
        lemma_sort_lex(s.drop_last());
        lemma_insert_lex(sort_lex(s.drop_last()), s.last());
    }
}

proof fn lemma_lex_order_strict()
    ensures
        strict_order(lex_order()),
{
    assert forall|a: Seq<char>| !#[trigger] lex_order()(a, a) by {
        lemma_lex_lt_irrefl(a);
    }
    assert forall|a: Seq<char>, b: Seq<char>, c: Seq<char>|
        #[trigger] lex_order()(a, b) && #[trigger] lex_order()(b, c) implies lex_order()(a, c) by {
        lemma_lex_lt_trans(a, b, c);
    }
}

/// A node is counted (not a "Traffic:" or "Expire:" note).
pub open spec fn counted_node(p: YamlValue) -> bool {
    let name = node_field(p, "name"@, ""@);
    !starts_with(name, "Traffic:"@) && !starts_with(name, "Expire:"@)
}

/// The proxy nodes of a parsed document (none when absent).
pub open spec fn proxy_nodes(doc: Option<YamlValue>) -> Seq<YamlValue> {
    match doc {
        Some(root) => match yaml_seq(yaml_get(root, "proxies"@)) {
            Some(ps) => ps,
            None => Seq::empty(),
        },
        None => Seq::empty(),
    }
}

proof fn lemma_tally_servers(ps: Seq<YamlValue>)
    ensures
        tally_nodes(ps).servers.no_duplicates(),
        forall|x: Seq<char>|
            tally_nodes(ps).servers.contains(x) <==> exists|i: int|
                0 <= i < ps.len() && counted_node(#[trigger] ps[i]) && node_field(
                    ps[i],
                    "server"@,
                    ""@,
                ) == x && x.len() > 0,
    decreases ps.len(),
{
    if ps.len() > 0 {
        let prev = ps.drop_last();
        lemma_tally_servers(prev);
        let p = ps.last();
        let t = tally_nodes(prev);
        assert forall|x: Seq<char>|
            tally_nodes(ps).servers.contains(x) <==> exists|i: int|
                0 <= i < ps.len() && counted_node(#[trigger] ps[i]) && node_field(
                    ps[i],
                    "server"@,
                    ""@,
                ) == x && x.len() > 0 by {
            if tally_nodes(ps).servers.contains(x) {
                if t.servers.contains(x) {
                    let i = choose|i: int|
                        0 <= i < prev.len() && counted_node(#[trigger] prev[i]) && node_field(
                            prev[i],
                            "server"@,
                            ""@,
                        ) == x && x.len() > 0;
                    assert(ps[i] == prev[i]);
                } else {
                    assert(ps[ps.len() - 1] == p);
                    let srv = node_field(p, "server"@, ""@);
                    assert(counted_node(p));
                    assert(srv.len() > 0);
                    let ns = add_distinct(t.servers, srv);
                    assert(ns.contains(x));
                    let k = choose|k: int| 0 <= k < ns.len() && ns[k] == x;
                    if !t.servers.contains(srv) {
                        assert(ns == t.servers.push(srv));
                        if k < t.servers.len() {
                            assert(t.servers[k] == x);
                        }
                    }
                    assert(x == srv);
                }
            }
            if exists|i: int|
                0 <= i < ps.len() && counted_node(#[trigger] ps[i]) && node_field(
                    ps[i],
                    "server"@,
                    ""@,
                ) == x && x.len() > 0 {
                let i = choose|i: int|
                    0 <= i < ps.len() && counted_node(#[trigger] ps[i]) && node_field(
                        ps[i],
                        "server"@,
                        ""@,
                    ) == x && x.len() > 0;
                if i < ps.len() - 1 {
                    assert(prev[i] == ps[i]);
                    assert(t.servers.contains(x));
                    let k = choose|k: int| 0 <= k < t.servers.len() && t.servers[k] == x;
                    let ns = tally_nodes(ps).servers;
                    if counted_node(p) && node_field(p, "server"@, ""@).len() > 0 && !t.servers.contains(
                        node_field(p, "server"@, ""@),
                    ) {
                        assert(ns[k] == x);
                    }
                } else {
                    let srv = node_field(p, "server"@, ""@);
                    assert(ps[i] == p);
                    let ns = tally_nodes(ps).servers;
                    if !t.servers.contains(srv) {
                        assert(ns[ns.len() - 1] == srv);
                    }
                }
            }
        }
    }
}

/// The server list of a configuration report is sorted in strictly
/// increasing order (so without repeats), and holds exactly the non-empty
/// server addresses of the counted proxy nodes.
pub proof fn law_unique_servers(content: Seq<char>, doc: Option<YamlValue>)
    ensures
        forall|i: int, j: int|
            0 <= i < j < config_spec(content, doc).unique_servers.len() ==> lex_lt(
                #[trigger] config_spec(content, doc).unique_servers[i],
                #[trigger] config_spec(content, doc).unique_servers[j],
            ),
        forall|x: Seq<char>|
            config_spec(content, doc).unique_servers.contains(x) <==> exists|i: int|
                0 <= i < proxy_nodes(doc).len() && counted_node(#[trigger] proxy_nodes(doc)[i])
                    && node_field(proxy_nodes(doc)[i], "server"@, ""@) == x && x.len() > 0,
{
    let ps = proxy_nodes(doc);
    let servers = tally_nodes(ps).servers;
    lemma_tally_servers(ps);
    lemma_sort_lex(servers);
    lemma_lex_order_strict();
    lemma_sort_by(servers, lex_order());
    let u = sort_lex(servers);
    assert(u == config_spec(content, doc).unique_servers) by {
        match doc {
            Some(root) => {
                match yaml_seq(yaml_get(root, "proxies"@)) {
                    Some(q) => {},
                    None => {
                        assert(ps =~= Seq::<YamlValue>::empty());
                    },
                }
            },
            None => {
                assert(servers =~= Seq::<Seq<char>>::empty());
            },
        }
    }
    servers.lemma_multiset_has_no_duplicates();
    assert forall|x: Seq<char>| u.to_multiset().contains(x) implies u.to_multiset().count(x)
        == 1 by {}
    u.lemma_multiset_has_no_duplicates_conv();
    assert forall|i: int, j: int| 0 <= i < j < u.len() implies lex_lt(
        #[trigger] u[i],
        #[trigger] u[j],
    ) by {
        assert(!lex_order()(u[j], u[i]));
        lemma_lex_lt_total(u[i], u[j]);
    }
    assert forall|x: Seq<char>| u.contains(x) <==> servers.contains(x) by {
        vstd::seq_lib::to_multiset_contains(u, x);
        vstd::seq_lib::to_multiset_contains(servers, x);
    }
}

/// The field `key` of a node is the same on every counted node.
pub open spec fn counted_nodes_agree_on(ps: Seq<YamlValue>, key: Seq<char>, d: Seq<char>) -> bool {
    forall|i: int, j: int|
        0 <= i < ps.len() && 0 <= j < ps.len() && counted_node(#[trigger] ps[i]) && counted_node(
            #[trigger] ps[j],
        ) ==> node_field(ps[i], key, d) == node_field(ps[j], key, d)
}

proof fn lemma_tally_ciphers_passwords(ps: Seq<YamlValue>)
    ensures
        count_seq_wf(tally_nodes(ps).by_cipher),
        forall|x: Seq<char>|
            has_key(tally_nodes(ps).by_cipher, x) <==> exists|i: int|
                0 <= i < ps.len() && counted_node(#[trigger] ps[i]) && node_field(
                    ps[i],
                    "cipher"@,
                    "none"@,
                ) == x,
        tally_nodes(ps).passwords.no_duplicates(),
        forall|x: Seq<char>|
            tally_nodes(ps).passwords.contains(x) <==> exists|i: int|
                0 <= i < ps.len() && counted_node(#[trigger] ps[i]) && node_field(
                    ps[i],
                    "password"@,
                    ""@,
                ) == x,
    decreases ps.len(),
{
    if ps.len() > 0 {
        let prev = ps.drop_last();
        lemma_tally_ciphers_passwords(prev);
        let p = ps.last();
        let t = tally_nodes(prev);
        let cipher = node_field(p, "cipher"@, "none"@);
        let pw = node_field(p, "password"@, ""@);
        lemma_bump(t.by_cipher, cipher);
        lemma_bump_keys(t.by_cipher, cipher);
        assert(ps[ps.len() - 1] == p);
        assert forall|x: Seq<char>|
            has_key(tally_nodes(ps).by_cipher, x) <==> exists|i: int|
                0 <= i < ps.len() && counted_node(#[trigger] ps[i]) && node_field(
                    ps[i],
                    "cipher"@,
                    "none"@,
                ) == x by {
            if exists|i: int|
                0 <= i < ps.len() && counted_node(#[trigger] ps[i]) && node_field(
                    ps[i],
                    "cipher"@,
                    "none"@,
                ) == x {
                let i = choose|i: int|
                    0 <= i < ps.len() && counted_node(#[trigger] ps[i]) && node_field(
                        ps[i],
                        "cipher"@,
                        "none"@,
                    ) == x;
                if i < ps.len() - 1 {
                    assert(prev[i] == ps[i]);
                }
            }
            if has_key(tally_nodes(ps).by_cipher, x) && !has_key(t.by_cipher, x) {
                assert(counted_node(p));
            }
            if has_key(t.by_cipher, x) {
                let i = choose|i: int|
                    0 <= i < prev.len() && counted_node(#[trigger] prev[i]) && node_field(
                        prev[i],
                        "cipher"@,
                        "none"@,
                    ) == x;
                assert(ps[i] == prev[i]);
            }
        }
        assert forall|x: Seq<char>|
            tally_nodes(ps).passwords.contains(x) <==> exists|i: int|
                0 <= i < ps.len() && counted_node(#[trigger] ps[i]) && node_field(
                    ps[i],
                    "password"@,
                    ""@,
                ) == x by {
            let np = tally_nodes(ps).passwords;
            if exists|i: int|
                0 <= i < ps.len() && counted_node(#[trigger] ps[i]) && node_field(
                    ps[i],
                    "password"@,
                    ""@,
                ) == x {
                let i = choose|i: int|
                    0 <= i < ps.len() && counted_node(#[trigger] ps[i]) && node_field(
                        ps[i],
                        "password"@,
                        ""@,
                    ) == x;
                if i < ps.len() - 1 {
                    assert(prev[i] == ps[i]);
                    assert(counted_node(prev[i]));
                    assert(t.passwords.contains(x));
                    let k = choose|k: int| 0 <= k < t.passwords.len() && t.passwords[k] == x;
                    if counted_node(p) && !t.passwords.contains(pw) {
                        assert(np[k] == x);
                    }
                } else {
                    if !t.passwords.contains(pw) {
                        assert(np[np.len() - 1] == pw);
                    }
                }
            }
            if np.contains(x) {
                if t.passwords.contains(x) {
                    let i = choose|i: int|
                        0 <= i < prev.len() && counted_node(#[trigger] prev[i]) && node_field(
                            prev[i],
                            "password"@,
                            ""@,
                        ) == x;
                    assert(ps[i] == prev[i]);
                } else {
                    assert(counted_node(p));
                    let k = choose|k: int| 0 <= k < np.len() && np[k] == x;
                    if !t.passwords.contains(pw) {
                        assert(np == t.passwords.push(pw));
                        if k < t.passwords.len() {
                            assert(t.passwords[k] == x);
                        }
                    }
                    assert(x == pw);
                }
            }
        }
    }
}

/// `single_cipher` holds exactly when every counted proxy node uses the same
/// cipher, and `single_password` exactly when every counted node uses the
/// same password.
pub proof fn law_single_cipher_password(content: Seq<char>, doc: Option<YamlValue>)
    ensures
        config_spec(content, doc).single_cipher <==> counted_nodes_agree_on(
            proxy_nodes(doc),
            "cipher"@,
            "none"@,
        ),
        config_spec(content, doc).single_password <==> counted_nodes_agree_on(
            proxy_nodes(doc),
            "password"@,
            ""@,
        ),
{
    let ps = proxy_nodes(doc);
    let t = tally_nodes(ps);
    lemma_tally_ciphers_passwords(ps);
    assert(config_spec(content, doc).single_cipher == (t.by_cipher.len() <= 1)
        && config_spec(content, doc).single_password == (t.passwords.len() <= 1)) by {
        match doc {
            Some(root) => {
                match yaml_seq(yaml_get(root, "proxies"@)) {
                    Some(q) => {},
                    None => {
                        assert(ps =~= Seq::<YamlValue>::empty());
                    },
                }
            },
            None => {
                assert(ps =~= Seq::<YamlValue>::empty());
            },
        }
    }
    // ciphers
    if t.by_cipher.len() <= 1 {
        assert forall|i: int, j: int|
            0 <= i < ps.len() && 0 <= j < ps.len() && counted_node(#[trigger] ps[i])
                && counted_node(#[trigger] ps[j]) implies node_field(ps[i], "cipher"@, "none"@)
            == node_field(ps[j], "cipher"@, "none"@) by {
            let a = node_field(ps[i], "cipher"@, "none"@);
            let b = node_field(ps[j], "cipher"@, "none"@);
            assert(has_key(t.by_cipher, a));
            assert(has_key(t.by_cipher, b));
            let ka = choose|k: int| 0 <= k < t.by_cipher.len() && (#[trigger] t.by_cipher[k]).0 == a;
            let kb = choose|k: int| 0 <= k < t.by_cipher.len() && (#[trigger] t.by_cipher[k]).0 == b;
        }
    } else {
        let a = t.by_cipher[0].0;
        let b = t.by_cipher[1].0;
        assert(a != b);
        assert(has_key(t.by_cipher, a));
        assert(has_key(t.by_cipher, b));
        let i = choose|i: int|
            0 <= i < ps.len() && counted_node(#[trigger] ps[i]) && node_field(
                ps[i],
                "cipher"@,
                "none"@,
            ) == a;
        let j = choose|j: int|
            0 <= j < ps.len() && counted_node(#[trigger] ps[j]) && node_field(
                ps[j],
                "cipher"@,
                "none"@,
            ) == b;
        assert(!counted_nodes_agree_on(ps, "cipher"@, "none"@));
    }
    // passwords
    if t.passwords.len() <= 1 {
        assert forall|i: int, j: int|
            0 <= i < ps.len() && 0 <= j < ps.len() && counted_node(#[trigger] ps[i])
                && counted_node(#[trigger] ps[j]) implies node_field(ps[i], "password"@, ""@)
            == node_field(ps[j], "password"@, ""@) by {
            let a = node_field(ps[i], "password"@, ""@);
            let b = node_field(ps[j], "password"@, ""@);
            assert(t.passwords.contains(a));
            assert(t.passwords.contains(b));
        }
    } else {
        let a = t.passwords[0];
        let b = t.passwords[1];
        assert(a != b);
        assert(t.passwords.contains(a));
        assert(t.passwords.contains(b));
        let i = choose|i: int|
            0 <= i < ps.len() && counted_node(#[trigger] ps[i]) && node_field(
                ps[i],
                "password"@,
                ""@,
            ) == a;
        let j = choose|j: int|
            0 <= j < ps.len() && counted_node(#[trigger] ps[j]) && node_field(
                ps[j],
                "password"@,
                ""@,
            ) == b;
        assert(!counted_nodes_agree_on(ps, "password"@, ""@));
    }
}

/// The first keyword of `ks` that a name mentions is the `m`-th when the
/// name mentions it and none before it.
proof fn lemma_first_keyword_at(ks: Seq<Seq<char>>, name: Seq<char>, m: int)
    requires
        0 <= m < ks.len(),
        has_substr(name, ks[m]),
        forall|j: int| 0 <= j < m ==> !has_substr(name, #[trigger] ks[j]),
    ensures
        first_keyword(ks, name) == Some(ks[m]),
    decreases m,
{
    if m > 0 {
        assert forall|j: int| 0 <= j < m - 1 implies !has_substr(name, #[trigger] ks.drop_first()[j]) by {
            assert(ks.drop_first()[j] == ks[j + 1]);
        }
        assert(!has_substr(name, ks[0]));
        lemma_first_keyword_at(ks.drop_first(), name, m - 1);
    }
}

/// A name that mentions none of `ks` has no first keyword.
proof fn lemma_first_keyword_none(ks: Seq<Seq<char>>, name: Seq<char>)
    requires
        forall|j: int| 0 <= j < ks.len() ==> !has_substr(name, #[trigger] ks[j]),
    ensures
        first_keyword(ks, name) is None,
    decreases ks.len(),
{
    if ks.len() > 0 {
        assert forall|j: int| 0 <= j < ks.len() - 1 implies !has_substr(name, #[trigger] ks.drop_first()[j]) by {
            assert(ks.drop_first()[j] == ks[j + 1]);
        }
        assert(!has_substr(name, ks[0]));
        lemma_first_keyword_none(ks.drop_first(), name);
    }
}

/// The regions a node name can name, in their order of precedence, are
/// those of `table`: 香港, 日本, 新加坡, 台湾, 美国, 韩国, 德国, 英国, 法国,
/// 荷兰, 加拿大, 澳大利亚, 印度, 摩尔多瓦, 乌克兰, 意大利, 匈牙利, 西班牙,
/// 土耳其, 阿根廷, 巴西, 智利, 新西兰, 印尼, 泰国, 越南, 巴基斯坦, 以色列,
/// 阿联酋, 菲律宾, 马来西亚, 埃及, 尼日利亚.  A node is of the first of these
/// its name mentions, and of "其他" when it mentions none.
pub proof fn law_region_table(table: Seq<Seq<char>>, name: Seq<char>)
    requires
        table == seq![
            "香港"@,
            "日本"@,
            "新加坡"@,
            "台湾"@,
            "美国"@,
            "韩国"@,
            "德国"@,
            "英国"@,
            "法国"@,
            "荷兰"@,
            "加拿大"@,
            "澳大利亚"@,
            "印度"@,
            "摩尔多瓦"@,
            "乌克兰"@,
            "意大利"@,
            "匈牙利"@,
            "西班牙"@,
            "土耳其"@,
            "阿根廷"@,
            "巴西"@,
            "智利"@,
            "新西兰"@,
            "印尼"@,
            "泰国"@,
            "越南"@,
            "巴基斯坦"@,
            "以色列"@,
            "阿联酋"@,
            "菲律宾"@,
            "马来西亚"@,
            "埃及"@,
            "尼日利亚"@,
        ],
    ensures
        forall|m: int|
            0 <= m < table.len() && has_substr(name, #[trigger] table[m]) && (forall|j: int|
                0 <= j < m ==> !has_substr(name, #[trigger] table[j])) ==> region_of(name) == table[m],
        (forall|m: int| 0 <= m < table.len() ==> !has_substr(name, #[trigger] table[m]))
            ==> region_of(name) == "其他"@,
{
    assert(region_keywords() == table);
    assert forall|m: int|
        0 <= m < table.len() && has_substr(name, #[trigger] table[m]) && (forall|j: int|
            0 <= j < m ==> !has_substr(name, #[trigger] table[j])) implies region_of(name) == table[m] by {
        lemma_first_keyword_at(table, name, m);
    }
    if forall|m: int| 0 <= m < table.len() ==> !has_substr(name, #[trigger] table[m]) {
        lemma_first_keyword_none(table, name);
    }
}

/// What a concatenation contains is what either part contains.
proof fn lemma_concat_contains<A>(a: Seq<A>, b: Seq<A>, x: A)
    ensures
        (a + b).contains(x) <==> a.contains(x) || b.contains(x),
{
    if a.contains(x) {
        let i = choose|i: int| 0 <= i < a.len() && a[i] == x;
        assert((a + b)[i] == x);
    }
    if b.contains(x) {
        let i = choose|i: int| 0 <= i < b.len() && b[i] == x;
        assert((a + b)[a.len() + i] == x);
    }
    if (a + b).contains(x) {
        let i = choose|i: int| 0 <= i < (a + b).len() && (a + b)[i] == x;
        if i < a.len() {
            assert(a[i] == x);
        } else {
            assert(b[i - a.len()] == x);
        }
    }
}

/// The port entry of one setting.
proof fn lemma_port_entry(root: YamlValue, key: Seq<char>, x: (Seq<char>, u16))
    ensures
        port_entry(root, key).contains(x) <==> (x.0 == key && yaml_u64(yaml_get(root, key)) is Some
            && x.1 == yaml_u64(yaml_get(root, key)).unwrap() as u16),
{
    if port_entry(root, key).contains(x) {
        let i = choose|i: int| 0 <= i < port_entry(root, key).len() && port_entry(root, key)[i] == x;
    }
    if x.0 == key && yaml_u64(yaml_get(root, key)) is Some && x.1 == yaml_u64(yaml_get(root, key)).unwrap() as u16 {
        assert(port_entry(root, key)[0] == x);
    }
}

/// The ports of a report are the settings port, socks-port, redir-port and
/// mixed-port that the document gives as unsigned integers, each as its low
/// 16 bits; without a document there are none.
pub proof fn law_ports(content: Seq<char>, root: YamlValue)
    ensures
        forall|k: Seq<char>, v: u16|
            #[trigger] config_spec(content, Some(root)).ports.contains((k, v)) <==> ((k == "port"@
                || k == "socks-port"@ || k == "redir-port"@ || k == "mixed-port"@) && yaml_u64(
                yaml_get(root, k),
            ) is Some && v == yaml_u64(yaml_get(root, k)).unwrap() as u16),
        config_spec(content, None).ports.len() == 0,
{
    let e1 = port_entry(root, "port"@);
    let e2 = port_entry(root, "socks-port"@);
    let e3 = port_entry(root, "redir-port"@);
    let e4 = port_entry(root, "mixed-port"@);
    assert(config_spec(content, Some(root)).ports == e1 + e2 + e3 + e4);
    assert forall|k: Seq<char>, v: u16|
        #[trigger] config_spec(content, Some(root)).ports.contains((k, v)) <==> ((k == "port"@
            || k == "socks-port"@ || k == "redir-port"@ || k == "mixed-port"@) && yaml_u64(
            yaml_get(root, k),
        ) is Some && v == yaml_u64(yaml_get(root, k)).unwrap() as u16) by {
        let x = (k, v);
        lemma_concat_contains(e1 + e2 + e3, e4, x);
        lemma_concat_contains(e1 + e2, e3, x);
        lemma_concat_contains(e1, e2, x);
        lemma_port_entry(root, "port"@, x);
        lemma_port_entry(root, "socks-port"@, x);
        lemma_port_entry(root, "redir-port"@, x);
        lemma_port_entry(root, "mixed-port"@, x);
    }
}

/// The tier of a node: "高级" whenever its name says so, whatever else it
/// says; otherwise "实验性" when it says so; otherwise "标准" when it says so;
/// otherwise "其他".
pub proof fn law_tier_precedence(name: Seq<char>)
    ensures
        has_substr(name, "高级"@) ==> tier_of(name) == "高级"@,
        !has_substr(name, "高级"@) && has_substr(name, "实验性"@) ==> tier_of(name) == "实验性"@,
        !has_substr(name, "高级"@) && !has_substr(name, "实验性"@) && has_substr(name, "标准"@)
            ==> tier_of(name) == "标准"@,
        !has_substr(name, "高级"@) && !has_substr(name, "实验性"@) && !has_substr(name, "标准"@)
            ==> tier_of(name) == "其他"@,
{
}

/// The provider of a subscription: "233netboom (花云)" for a URL naming
/// huacloud, 233netboom or xmancdn; otherwise "Sub-Store" for one naming
/// sub-store; otherwise the URL's host, what follows its first "//" up to
/// the next '/', and none when it has no "//".
pub proof fn law_provider(url: Seq<char>)
    ensures
        has_substr(url, "huacloud"@) || has_substr(url, "233netboom"@) || has_substr(url, "xmancdn"@)
            ==> provider_of(url) == Some("233netboom (花云)"@),
        !(has_substr(url, "huacloud"@) || has_substr(url, "233netboom"@) || has_substr(
            url,
            "xmancdn"@,
        )) && has_substr(url, "sub-store"@) ==> provider_of(url) == Some("Sub-Store"@),
        !(has_substr(url, "huacloud"@) || has_substr(url, "233netboom"@) || has_substr(
            url,
            "xmancdn"@,
        )) && !has_substr(url, "sub-store"@) ==> (provider_of(url) is Some <==> first_double_slash(
            url,
        ) >= 0),
{
}

} // verus!
