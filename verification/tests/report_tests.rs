use vvpn::config::ConfigReport;
use vvpn::counter::Counter;
use vvpn::diagnosis::{Issue, Severity};
use vvpn::logs::LogReport;
use vvpn::report::{
    bar_scale, html_escape, render, render_bar_chart, render_bar_chart_dark, render_dns_card,
    render_map_inline, render_minor_issues, render_ports_card, render_recent_errors,
    render_subscription_card, render_top_issues, top_bars, truncate_str, BarPercents,
};

fn counter(entries: &[(&str, usize)]) -> Counter {
    let mut c = Counter::new();
    for (k, n) in entries {
        for _ in 0..*n {
            c.increment(k.to_string());
        }
    }
    c
}

fn config() -> ConfigReport {
    ConfigReport {
        subscription_url: Some("https://sub.example.org/x".to_string()),
        subscription_provider: Some("sub.example.org".to_string()),
        proxy_count: 3,
        group_count: 1,
        rule_count: 2,
        nodes_by_region: counter(&[("香港", 2), ("日本", 1)]),
        nodes_by_tier: counter(&[("标准", 3)]),
        nodes_by_type: counter(&[("ss", 2), ("vmess", 1)]),
        nodes_by_cipher: counter(&[("aes-128-gcm", 3)]),
        group_names: vec!["PROXY".to_string()],
        traffic_info: Some("10 GB / 100 GB".to_string()),
        expiry_info: None,
        ports: vec![("socks-port".to_string(), 7891), ("mixed-port".to_string(), 7890)],
        dns_servers: vec!["1.1.1.1".to_string(), "<bad>".to_string()],
        mode: "rule".to_string(),
        ipv6: false,
        allow_lan: true,
        unique_servers: vec!["a".to_string(), "b".to_string()],
        single_cipher: true,
        single_password: true,
    }
}

fn issue(sev: Severity, title: &str, solution: &str) -> Issue {
    Issue {
        severity: sev,
        title: title.to_string(),
        description: "d & e".to_string(),
        solution: solution.to_string(),
        count: 1,
    }
}

#[test]
fn escape_special_characters() {
    assert_eq!(html_escape("a<b>&\"c\"'"), "a&lt;b&gt;&amp;&quot;c&quot;'");
    assert_eq!(html_escape(""), "");
    assert_eq!(html_escape("香港 & 日本"), "香港 &amp; 日本");
    assert_eq!(html_escape("&amp;"), "&amp;amp;");
}

#[test]
fn truncation() {
    assert_eq!(truncate_str("short", 22), "short");
    assert_eq!(truncate_str("abcdef", 6), "abcdef");
    assert_eq!(truncate_str("abcdefg", 6), "abcde…");
    assert_eq!(truncate_str("香港高级专线节点", 4), "香港高…");
    assert_eq!(truncate_str("", 0), "");
    assert_eq!(truncate_str("ab", 1), "…");
}

#[test]
fn bars_are_largest_first_and_at_most_ten() {
    let c = counter(&[("a", 1), ("b", 3), ("c", 2), ("d", 3)]);
    let bars = top_bars(&c);
    assert_eq!(
        bars,
        vec![("b".to_string(), 3), ("d".to_string(), 3), ("c".to_string(), 2), ("a".to_string(), 1)]
    );
    assert_eq!(bar_scale(&bars), 3);

    let names: Vec<String> = (0..12).map(|i| format!("k{}", i)).collect();
    let mut many = Counter::new();
    for (i, n) in names.iter().enumerate() {
        for _ in 0..(i + 1) {
            many.increment(n.clone());
        }
    }
    let bars = top_bars(&many);
    assert_eq!(bars.len(), 10);
    assert_eq!(bars[0], ("k11".to_string(), 12));
    assert_eq!(bars[9], ("k2".to_string(), 3));
    assert_eq!(bar_scale(&vec![]), 1);
    assert_eq!(bar_scale(&vec![("z".to_string(), 0)]), 1);
}

#[test]
fn bar_chart_rows() {
    let items = vec![("a<b".to_string(), 4), ("一二三四五六七八九十一二三四五六七八九十一二三".to_string(), 2)];
    let html = render_bar_chart(&items, &vec![100, 50], "#DA291C");
    assert_eq!(
        html,
        "<div class=\"bar-row\">\n  <span class=\"bar-label\" title=\"a&lt;b\">a&lt;b</span>\n  <div class=\"bar-track\"><div class=\"bar-fill\" style=\"width:100%;background:#DA291C\"></div></div>\n  <span class=\"bar-value\">4</span>\n</div>\
<div class=\"bar-row\">\n  <span class=\"bar-label\" title=\"一二三四五六七八九十一二三四五六七八九十一二三\">一二三四五六七八九十一二三四五六七八九十一…</span>\n  <div class=\"bar-track\"><div class=\"bar-fill\" style=\"width:50%;background:#DA291C\"></div></div>\n  <span class=\"bar-value\">2</span>\n</div>"
    );
    let dark = render_bar_chart_dark(&vec![("x".to_string(), 1)], &vec![7], "#181818");
    assert_eq!(
        dark,
        "<div class=\"bar-row\">\n  <span class=\"bar-label dark-label\" title=\"x\">x</span>\n  <div class=\"bar-track light-track\"><div class=\"bar-fill\" style=\"width:7%;background:#181818\"></div></div>\n  <span class=\"bar-value dark-label\">1</span>\n</div>"
    );
    assert_eq!(render_bar_chart(&vec![], &vec![], "#000"), "");
}

#[test]
fn inline_map() {
    assert_eq!(render_map_inline(&counter(&[("ss", 2), ("v<m>", 1)])), "ss (2), v&lt;m&gt; (1)");
    assert_eq!(render_map_inline(&Counter::new()), "");
}

#[test]
fn recent_errors_latest_first() {
    let errs = vec!["first".to_string(), "second <x>".to_string()];
    assert_eq!(
        render_recent_errors(&errs),
        "<div class=\"log-line\">second &lt;x&gt;</div>\n<div class=\"log-line\">first</div>"
    );
    assert_eq!(render_recent_errors(&vec![]), "");
}

#[test]
fn cards() {
    let c = config();
    assert_eq!(
        render_ports_card(&c),
        "<div class=\"info-card\">\n  <div class=\"card-label\">PORTS</div>\n  <div class=\"card-body\">\n    \
<div class=\"kv\"><span class=\"k\">mixed-port</span><span class=\"v\">7890</span></div>\
<div class=\"kv\"><span class=\"k\">socks-port</span><span class=\"v\">7891</span></div>\n    \
<div class=\"kv\"><span class=\"k\">IPv6</span><span class=\"v\">禁用</span></div>\n    \
<div class=\"kv\"><span class=\"k\">局域网</span><span class=\"v\">启用</span></div>\n  </div>\n</div>"
    );
    assert_eq!(
        render_dns_card(&c),
        "<div class=\"info-card\">\n  <div class=\"card-label\">DNS</div>\n  <div class=\"card-body\">\n    \
<div class=\"dns-item\">1.1.1.1</div><div class=\"dns-item\">&lt;bad&gt;</div>\n  </div>\n</div>"
    );
    let sub = render_subscription_card(&c);
    assert!(sub.contains("<span class=\"v strong\">sub.example.org</span>"));
    assert!(sub.contains("<span class=\"v\">10 GB / 100 GB</span>"));
    assert!(sub.contains("<span class=\"k\">到期</span><span class=\"v\">未知</span>"));
    assert!(sub.contains("<span class=\"k\">模式</span><span class=\"v\">rule</span>"));
}

#[test]
fn issue_cards() {
    let issues = vec![
        issue(Severity::Critical, "A", "1. one\n  \n2. <two>\n"),
        issue(Severity::Info, "B", ""),
    ];
    let top = render_top_issues(&issues);
    assert!(top.starts_with("<div class=\"issue\">\n  <div class=\"issue-top\">\n    <span class=\"issue-num\">#1</span>\n    <span class=\"badge badge-critical\">CRITICAL</span>"));
    assert!(top.contains("<span class=\"issue-num\">#2</span>\n    <span class=\"badge badge-info\">INFO</span>"));
    assert!(top.contains("<p class=\"issue-desc\">d &amp; e</p>"));
    assert!(top.contains("<div class=\"step\">1. one</div><div class=\"step\">2. &lt;two&gt;</div>\n    </div>"));
    assert_eq!(render_minor_issues(&[]), "");
    let minor = render_minor_issues(&issues[1..]);
    assert!(minor.starts_with("<section class=\"section-dark\">"));
    assert!(minor.contains("<span class=\"badge badge-info badge-sm\">INFO</span>\n      <span class=\"minor-title\">B</span>"));
    assert!(minor.contains("<div class=\"action-label\">SUGGESTION</div>\n        <div class=\"action-steps\"></div>"));
}

#[test]
fn whole_page() {
    let mut logs = LogReport::new();
    logs.parse_core_log(
        "2026-04-11-111015.log",
        "[ERRO] [10:00:01] [stashlink] StashLink server is down\n[WARN] [10:00:02] [dns] slow answer\n",
    );
    logs.file_count = 1;
    let c = config();
    let issues = vec![
        issue(Severity::Critical, "one", "x"),
        issue(Severity::Warning, "two", "y"),
        issue(Severity::Warning, "three", "z"),
        issue(Severity::Info, "four", "w"),
    ];
    let percents = BarPercents {
        patterns: vec![100; top_bars(&logs.error_patterns).len()],
        modules: vec![100; top_bars(&logs.errors_by_module).len()],
        regions: vec![100, 50],
        tiers: vec![100],
    };
    let page = render(&logs, &c, &issues, "2026-04-12 08:00", &percents);
    assert!(page.starts_with("<!DOCTYPE html>\n<html lang=\"zh-CN\">"));
    assert!(page.ends_with("</html>"));
    assert!(page.contains("<p class=\"hero-sub\">vvpn · 2026-04-12 08:00 · Stash for macOS</p>"));
    assert!(page.contains("<span class=\"stat-value\">3</span>\n        <span class=\"stat-name\">NODES</span>"));
    assert!(page.contains("<span class=\"stat-value accent-red\">1</span>"));
    assert!(page.contains("<span class=\"stat-value accent-amber\">1</span>"));
    assert!(page.contains("<span class=\"issue-num\">#3</span>"));
    assert!(!page.contains("<span class=\"issue-num\">#4</span>"));
    assert!(page.contains("<span class=\"minor-title\">four</span>"));
    assert!(page.contains("title=\"StashLink 服务崩溃重启\""));
    assert!(page.contains("style=\"width:50%;background:#181818\""));
    assert!(page.contains("<span class=\"detail-val\">ss (2), vmess (1)</span>"));
    assert!(page.contains("<span class=\"detail-val\">2 台</span>"));
    assert!(page.contains("<span class=\"detail-key\">密码统一</span><span class=\"detail-val\">是</span>"));
    assert!(page.contains("<span>1 条记录</span>"));
    assert!(page.contains("<div class=\"log-line\">[2026-04-11 10:00:01] [stashlink] StashLink server is down</div>"));
}

#[test]
fn escaping_is_one_to_one() {
    assert_ne!(html_escape("&lt;"), html_escape("<"));
    assert_eq!(html_escape("<"), "&lt;");
    assert_eq!(html_escape("&lt;"), "&amp;lt;");
    assert_eq!(html_escape("plain text 香港"), "plain text 香港");
}

#[test]
fn dark_chart_differs_only_in_classes() {
    let items = vec![("a".to_string(), 3), ("b<".to_string(), 1)];
    let pcts = vec![100, 33];
    let light = render_bar_chart(&items, &pcts, "#123456");
    let dark = render_bar_chart_dark(&items, &pcts, "#123456");
    let expected = light
        .replace("class=\"bar-label\"", "class=\"bar-label dark-label\"")
        .replace("class=\"bar-track\"", "class=\"bar-track light-track\"")
        .replace("class=\"bar-value\"", "class=\"bar-value dark-label\"");
    assert_eq!(dark, expected);
}
