use vvpn::config::{extract_provider, extract_region, extract_tier, subscription_url};
use vvpn::logs::normalize_error;
use vvpn::paths::{confirms, downloads_report_path, size_unit, stash_core_dir, stash_dir, SizeUnit};
use vvpn::text::{decimal_chars, to_chars, trim_chars};

#[test]
fn normalize_known_causes() {
    assert_eq!(normalize_error("StashLink server is down, restarting"), "StashLink 服务崩溃重启");
    assert_eq!(normalize_error("failed to get nat type: timeout"), "NAT 类型检测失败 (UDP)");
    assert_eq!(normalize_error("default interface not found"), "默认网络接口丢失");
    assert_eq!(normalize_error("[PROXY] no proxy available, fallback"), "代理组无可用节点");
    assert_eq!(normalize_error("dial tcp: connection refused"), "连接被拒绝");
    assert_eq!(normalize_error("dial tcp 1.2.3.4:443: i/o timeout"), "连接超时");
    assert_eq!(normalize_error("read: operation timed out"), "连接超时");
}

#[test]
fn normalize_keeps_first_sixty_chars() {
    let long = "x".repeat(100);
    assert_eq!(normalize_error(&long), "x".repeat(60));
    assert_eq!(normalize_error("short message"), "short message");
    let wide = "错".repeat(70);
    assert_eq!(normalize_error(&wide).chars().count(), 60);
}

#[test]
fn normalized_patterns_are_short() {
    for m in ["StashLink server is down", "a".repeat(200).as_str(), "", "timeout"] {
        assert!(normalize_error(m).chars().count() <= 60);
    }
}

#[test]
fn region_first_keyword_wins() {
    assert_eq!(extract_region("🇭🇰 香港 01 高级"), "香港");
    assert_eq!(extract_region("日本东京"), "日本");
    assert_eq!(extract_region("美国-香港 中转"), "香港");
    assert_eq!(extract_region("尼日利亚 01"), "尼日利亚");
    assert_eq!(extract_region("Mars relay"), "其他");
}

#[test]
fn tier_precedence() {
    assert_eq!(extract_tier("香港 高级 IEPL"), "高级");
    assert_eq!(extract_tier("实验性 节点"), "实验性");
    assert_eq!(extract_tier("标准 01"), "标准");
    assert_eq!(extract_tier("标准 高级"), "高级");
    assert_eq!(extract_tier("plain"), "其他");
}

#[test]
fn provider_known_and_host() {
    assert_eq!(extract_provider("https://sub.huacloud.com/x").as_deref(), Some("233netboom (花云)"));
    assert_eq!(extract_provider("https://a.xmancdn.net/y").as_deref(), Some("233netboom (花云)"));
    assert_eq!(extract_provider("https://my.sub-store.app/x").as_deref(), Some("Sub-Store"));
    assert_eq!(extract_provider("https://example.com/path/to").as_deref(), Some("example.com"));
    assert_eq!(extract_provider("https://example.com").as_deref(), Some("example.com"));
    assert_eq!(extract_provider("a///b").as_deref(), Some(""));
    assert_eq!(extract_provider("no scheme here"), None);
}

#[test]
fn subscription_comment_line() {
    let text = "mode: rule\n#SUBSCRIBED   https://example.com/sub?token=1  \r\nport: 7890\n";
    assert_eq!(subscription_url(text).as_deref(), Some("https://example.com/sub?token=1"));
    let twice = "#SUBSCRIBED#SUBSCRIBED https://a.b/c\n#SUBSCRIBED https://other";
    assert_eq!(subscription_url(twice).as_deref(), Some("https://a.b/c"));
    assert_eq!(subscription_url("mode: rule\n"), None);
}

#[test]
fn trim_and_decimal() {
    let t: String = trim_chars(&to_chars(" \t\u{3000}abc d \r\n")).into_iter().collect();
    assert_eq!(t, "abc d");
    let d: String = decimal_chars(0).into_iter().collect();
    assert_eq!(d, "0");
    let d: String = decimal_chars(1203).into_iter().collect();
    assert_eq!(d, "1203");
}

#[test]
fn stash_paths() {
    assert_eq!(stash_dir("/Users/me"), "/Users/me/Library/Application Support/Stash");
    assert_eq!(
        stash_core_dir("/Users/me/Library/Application Support/Stash"),
        "/Users/me/Library/Application Support/Stash/Core"
    );
    assert_eq!(downloads_report_path("/Users/me"), "/Users/me/Downloads/vvpn_report.html");
}

#[test]
fn size_units() {
    assert_eq!(size_unit(0), SizeUnit::Bytes);
    assert_eq!(size_unit(1023), SizeUnit::Bytes);
    assert_eq!(size_unit(1024), SizeUnit::KiloBytes);
    assert_eq!(size_unit(1024 * 1024 - 1), SizeUnit::KiloBytes);
    assert_eq!(size_unit(1024 * 1024), SizeUnit::MegaBytes);
}

#[test]
fn confirmation_answers() {
    assert!(confirms(""));
    assert!(confirms("  \n"));
    assert!(confirms("y\n"));
    assert!(confirms("YES"));
    assert!(confirms(" Yes "));
    assert!(!confirms("n"));
    assert!(!confirms("yep"));
}
