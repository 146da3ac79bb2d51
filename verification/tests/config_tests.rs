use vvpn::config::{parse_config, sort_strings, ConfigReport};
use vvpn::yaml::YamlValue;

fn s(x: &str) -> YamlValue {
    YamlValue::String(x.to_string())
}

fn map(entries: Vec<(&str, YamlValue)>) -> YamlValue {
    YamlValue::Mapping(entries.into_iter().map(|(k, v)| (s(k), v)).collect())
}

fn node(name: &str, ptype: &str, cipher: &str, password: &str, server: &str) -> YamlValue {
    map(vec![
        ("name", s(name)),
        ("type", s(ptype)),
        ("cipher", s(cipher)),
        ("password", s(password)),
        ("server", s(server)),
    ])
}

fn counts(c: &vvpn::counter::Counter) -> Vec<(String, usize)> {
    (0..c.len()).map(|i| {
        let (k, n) = c.entry(i);
        (k.clone(), n)
    }).collect()
}

fn sample() -> YamlValue {
    map(vec![
        ("mode", s("rule")),
        ("ipv6", YamlValue::Bool(true)),
        ("allow-lan", YamlValue::Tagged(Box::new(YamlValue::Bool(true)))),
        ("port", YamlValue::Number(Some(7890))),
        ("socks-port", YamlValue::Number(Some(65536 + 7891))),
        ("mixed-port", YamlValue::Number(None)),
        ("dns", map(vec![("nameserver", YamlValue::Sequence(vec![s("1.1.1.1"), YamlValue::Null, s("8.8.8.8")]))])),
        (
            "proxies",
            YamlValue::Sequence(vec![
                node("Traffic: 10 GB / 100 GB", "ss", "aes-128-gcm", "p", "x.example"),
                node("Expire: 2026-12-31", "ss", "aes-128-gcm", "p", "x.example"),
                node("香港 01 高级", "ss", "aes-128-gcm", "p", "b.example"),
                node("日本 02 标准", "vmess", "aes-128-gcm", "p", "a.example"),
                node("香港 03 实验性", "ss", "chacha20", "q", "b.example"),
                map(vec![("name", s("bare"))]),
            ]),
        ),
        ("proxy-groups", YamlValue::Sequence(vec![map(vec![("name", s("PROXY"))]), map(vec![("type", s("select"))])])),
        ("rules", YamlValue::Sequence(vec![s("MATCH,PROXY"), s("GEOIP,CN,DIRECT")])),
    ])
}

#[test]
fn config_from_document() {
    let doc = sample();
    let text = "#SUBSCRIBED https://sub.example.org/api?t=1\nmode: rule\n";
    let c: ConfigReport = parse_config(text, Some(&doc));
    assert_eq!(c.subscription_url.as_deref(), Some("https://sub.example.org/api?t=1"));
    assert_eq!(c.subscription_provider.as_deref(), Some("sub.example.org"));
    assert_eq!(c.mode, "rule");
    assert!(c.ipv6);
    assert!(c.allow_lan);
    assert_eq!(c.ports, vec![("port".to_string(), 7890), ("socks-port".to_string(), 7891)]);
    assert_eq!(c.dns_servers, vec!["1.1.1.1".to_string(), "8.8.8.8".to_string()]);
    assert_eq!(c.proxy_count, 6);
    assert_eq!(c.traffic_info.as_deref(), Some("Traffic: 10 GB / 100 GB"));
    assert_eq!(c.expiry_info.as_deref(), Some("Expire: 2026-12-31"));
    assert_eq!(counts(&c.nodes_by_region), vec![("香港".to_string(), 2), ("日本".to_string(), 1), ("其他".to_string(), 1)]);
    assert_eq!(
        counts(&c.nodes_by_tier),
        vec![("高级".to_string(), 1), ("标准".to_string(), 1), ("实验性".to_string(), 1), ("其他".to_string(), 1)]
    );
    assert_eq!(counts(&c.nodes_by_type), vec![("SS".to_string(), 2), ("VMESS".to_string(), 1), ("UNKNOWN".to_string(), 1)]);
    assert_eq!(
        counts(&c.nodes_by_cipher),
        vec![("aes-128-gcm".to_string(), 2), ("chacha20".to_string(), 1), ("none".to_string(), 1)]
    );
    assert_eq!(c.unique_servers, vec!["a.example".to_string(), "b.example".to_string()]);
    assert!(!c.single_cipher);
    assert!(!c.single_password);
    assert_eq!(c.group_count, 2);
    assert_eq!(c.group_names, vec!["PROXY".to_string()]);
    assert_eq!(c.rule_count, 2);
}

#[test]
fn config_uniform_nodes() {
    let doc = map(vec![(
        "proxies",
        YamlValue::Sequence(vec![
            node("香港 01", "ss", "aes-128-gcm", "same", "h1"),
            node("香港 02", "ss", "aes-128-gcm", "same", ""),
        ]),
    )]);
    let c = parse_config("", Some(&doc));
    assert!(c.single_cipher);
    assert!(c.single_password);
    assert_eq!(c.unique_servers, vec!["h1".to_string()]);
    assert!(!c.ipv6);
    assert_eq!(c.mode, "");
    assert_eq!(c.rule_count, 0);
}

#[test]
fn config_without_document() {
    let c = parse_config("#SUBSCRIBED https://x.233netboom.com/s\nnot: [valid", None);
    assert_eq!(c.subscription_url.as_deref(), Some("https://x.233netboom.com/s"));
    assert_eq!(c.subscription_provider.as_deref(), Some("233netboom (花云)"));
    assert_eq!(c.proxy_count, 0);
    assert!(c.single_cipher && c.single_password);
    assert!(c.ports.is_empty());
}

#[test]
fn config_root_not_a_mapping() {
    let doc = s("just text");
    let c = parse_config("", Some(&doc));
    assert_eq!(c.proxy_count, 0);
    assert_eq!(c.group_count, 0);
    assert!(c.dns_servers.is_empty());
}

#[test]
fn servers_sort_by_code_point() {
    let v = vec!["b".to_string(), "B".to_string(), "a".to_string(), "ab".to_string(), "香港".to_string()];
    assert_eq!(
        sort_strings(&v),
        vec!["B".to_string(), "a".to_string(), "ab".to_string(), "b".to_string(), "香港".to_string()]
    );
}

#[test]
fn yaml_lookup_through_tags() {
    let doc = YamlValue::Tagged(Box::new(map(vec![("mode", YamlValue::Tagged(Box::new(s("global"))))])));
    assert_eq!(doc.get("mode").and_then(|v| v.as_str()).map(|s| s.as_str()), Some("global"));
    assert!(doc.get("missing").is_none());
    assert_eq!(YamlValue::Number(Some(3)).as_u64(), Some(3));
    assert_eq!(s("3").as_u64(), None);
}
