use vvpn::config::ConfigReport;
use vvpn::counter::Counter;
use vvpn::diagnosis::{diagnose, problem_count, sort_by_severity, Issue, Severity};
use vvpn::logs::LogReport;

fn quiet_config() -> ConfigReport {
    ConfigReport {
        subscription_url: None,
        subscription_provider: None,
        proxy_count: 0,
        group_count: 0,
        rule_count: 5,
        nodes_by_region: Counter::new(),
        nodes_by_tier: Counter::new(),
        nodes_by_type: Counter::new(),
        nodes_by_cipher: Counter::new(),
        group_names: vec![],
        traffic_info: None,
        expiry_info: None,
        ports: vec![],
        dns_servers: vec![],
        mode: "rule".to_string(),
        ipv6: true,
        allow_lan: false,
        unique_servers: vec![],
        single_cipher: false,
        single_password: false,
    }
}

fn logs_with(patterns: &[(&str, usize)]) -> LogReport {
    let mut r = LogReport::new();
    for (k, n) in patterns {
        for _ in 0..*n {
            r.error_patterns.increment(k.to_string());
        }
    }
    r
}

fn issue(sev: Severity, title: &str, count: usize) -> Issue {
    Issue {
        severity: sev,
        title: title.to_string(),
        description: String::new(),
        solution: String::new(),
        count,
    }
}

#[test]
fn severity_labels_and_colors() {
    assert_eq!(Severity::Critical.label(), "严重");
    assert_eq!(Severity::Warning.label(), "警告");
    assert_eq!(Severity::Info.label(), "提示");
    assert_eq!(Severity::Critical.color(), "#ef4444");
    assert_eq!(Severity::Warning.color(), "#f59e0b");
    assert_eq!(Severity::Info.color(), "#3b82f6");
    assert!(Severity::Critical < Severity::Warning);
    assert!(Severity::Warning < Severity::Info);
}

#[test]
fn nothing_to_report() {
    let issues = diagnose(&LogReport::new(), &quiet_config());
    assert!(issues.is_empty());
    assert_eq!(problem_count(&issues), 0);
}

#[test]
fn thresholds_are_strict() {
    let logs = logs_with(&[
        ("StashLink 服务崩溃重启", 5),
        ("NAT 类型检测失败 (UDP)", 10),
        ("默认网络接口丢失", 3),
    ]);
    assert!(diagnose(&logs, &quiet_config()).is_empty());

    let logs = logs_with(&[
        ("StashLink 服务崩溃重启", 6),
        ("NAT 类型检测失败 (UDP)", 11),
        ("默认网络接口丢失", 4),
    ]);
    let issues = diagnose(&logs, &quiet_config());
    let titles: Vec<&str> = issues.iter().map(|i| i.title.as_str()).collect();
    assert_eq!(
        titles,
        vec!["UDP NAT 检测大量失败 (11 次)", "StashLink 频繁崩溃 (6 次)", "网络接口频繁丢失 (4 次)"]
    );
    assert_eq!(issues[1].count, 6);
    assert_eq!(
        issues[1].description,
        "StashLink 服务在日志期间崩溃并重启了 6 次。这是 Stash 的内网穿透/局域网代理功能，频繁崩溃意味着该功能基本不可用。可能是 underlying proxy 配置为空或所选节点不稳定导致。"
    );
}

#[test]
fn every_occurrence_counts_for_some_patterns() {
    let logs = logs_with(&[
        ("代理组无可用节点", 1),
        ("TLS 安全连接失败 (-1200)", 2),
        ("网络请求超时 (NSURLErrorDomain -1001)", 1),
    ]);
    let issues = diagnose(&logs, &quiet_config());
    assert_eq!(issues.len(), 3);
    assert_eq!(issues[0].severity, Severity::Critical);
    assert_eq!(issues[0].title, "代理组缺少可用节点");
    assert_eq!(
        issues[0].description,
        "有 1 次日志记录显示代理组找不到可用的代理节点，直接回退到 DIRECT 直连。这意味着在这些时段，你的翻墙完全失效了。"
    );
    assert_eq!(issues[1].title, "TLS 连接错误 (2 次)");
    assert_eq!(issues[2].title, "网络请求超时 (1 次)");
    assert_eq!(problem_count(&issues), 3);
}

#[test]
fn configuration_issues() {
    let mut config = quiet_config();
    config.ipv6 = false;
    config.rule_count = 0;
    config.single_cipher = true;
    config.single_password = true;
    config.proxy_count = 11;
    let issues = diagnose(&LogReport::new(), &config);
    let titles: Vec<&str> = issues.iter().map(|i| i.title.as_str()).collect();
    assert_eq!(titles, vec!["规则列表为空", "所有节点使用相同密码和加密方式", "IPv6 已禁用"]);
    assert_eq!(issues[1].count, 11);
    assert_eq!(issues[2].count, 0);
    assert_eq!(
        issues[1].description,
        "全部 11 个节点使用相同的 cipher (aes-128-gcm) 和同一密码。这是机场订阅的正常配置，但意味着一旦密码泄露，所有节点都会受影响。"
    );
    assert_eq!(problem_count(&issues), 1);

    config.proxy_count = 10;
    let issues = diagnose(&LogReport::new(), &config);
    assert_eq!(issues.len(), 2);
}

#[test]
fn sorted_by_severity_then_count() {
    let v = vec![
        issue(Severity::Info, "a", 9),
        issue(Severity::Warning, "b", 1),
        issue(Severity::Critical, "c", 2),
        issue(Severity::Warning, "d", 5),
        issue(Severity::Critical, "e", 7),
        issue(Severity::Warning, "f", 5),
    ];
    let sorted = sort_by_severity(v);
    let titles: Vec<&str> = sorted.iter().map(|i| i.title.as_str()).collect();
    assert_eq!(titles, vec!["e", "c", "d", "f", "b", "a"]);
}

#[test]
fn solution_text_is_kept() {
    let logs = logs_with(&[("TLS 安全连接失败 (-1200)", 1)]);
    let issues = diagnose(&logs, &quiet_config());
    assert_eq!(
        issues[0].solution,
        "1. 这是一个无害的错误，不影响代理功能\n2. 可以在规则中添加 DOMAIN,app-analytics-services.com,DIRECT 来消除此错误"
    );
}
