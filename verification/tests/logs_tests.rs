use vvpn::date::Date;
use vvpn::logs::{
    crash_samples_ok, normalize_error, try_scan_logs, date_label_of, date_of_name, extension_of, is_log_name, scan_logs, stem_of, LogFile,
    LogReport, CORE_LINE_PATTERN,
};

fn file(name: &str, content: &str) -> LogFile {
    LogFile { name: name.to_string(), content: Some(content.to_string()), modified: None }
}

const CORE_SAMPLE: &str = "[INFO] [10:00:00] [core] started\n\
[ERRO] [10:00:01] [stashlink] StashLink server is down\n\
[WARN] [10:00:02] [dns] slow answer\n\
[WARN] [10:00:03] [tunnel] no proxy available for PROXY\n\
[ERRO] [10:00:04] [tunnel] dial tcp: connection refused\n\
garbage line\n\
[DEBG] [10:00:05] [core] ignored level\r\n";

#[test]
fn core_log_counts() {
    let mut r = LogReport::new();
    r.parse_core_log("2026-04-11-111015.log", CORE_SAMPLE);
    assert_eq!(r.error_count, 2);
    assert_eq!(r.warn_count, 2);
    assert_eq!(r.info_count, 1);
    assert_eq!(r.errors_by_module.get("stashlink"), Some(1));
    assert_eq!(r.errors_by_module.get("tunnel"), Some(1));
    assert_eq!(r.errors_by_module.get("tunnel(WARN)"), Some(1));
    assert_eq!(r.errors_by_module.get("dns(WARN)"), None);
    assert_eq!(r.errors_by_date.get("2026-04-11"), Some(2));
    assert_eq!(r.error_patterns.get("StashLink 服务崩溃重启"), Some(1));
    assert_eq!(r.error_patterns.get("代理组无可用节点"), Some(1));
    assert_eq!(r.error_patterns.get("连接被拒绝"), Some(1));
    assert_eq!(
        r.recent_errors,
        vec![
            "[2026-04-11 10:00:01] [stashlink] StashLink server is down".to_string(),
            "[2026-04-11 10:00:04] [tunnel] dial tcp: connection refused".to_string(),
        ]
    );
}

#[test]
fn core_line_pattern_groups() {
    let mut r = LogReport::new();
    r.parse_core_log("x.log", "[ERRO] [12:34:56] [dns] lookup failed\n[ERRO] 12:34:56 dns lookup\n[ERRO] [1:2:3] [m] short time\n");
    assert_eq!(r.error_count, 1);
    assert_eq!(r.errors_by_module.get("dns"), Some(1));
    assert_eq!(r.error_patterns.get("lookup failed"), Some(1));
    assert_eq!(r.recent_errors, vec!["[unknown 12:34:56] [dns] lookup failed".to_string()]);
    assert_eq!(r.errors_by_date.get("unknown"), Some(1));
}

#[test]
fn record_core_line_from_captures() {
    let mut r = LogReport::new();
    let caps = Some(vec![
        Some("whole".to_string()),
        Some("ERRO".to_string()),
        Some("01:02:03".to_string()),
        Some("m".to_string()),
        Some("failed to get nat type".to_string()),
    ]);
    r.record_core_line("unknown", caps);
    assert_eq!(r.error_count, 1);
    assert_eq!(r.error_patterns.get("NAT 类型检测失败 (UDP)"), Some(1));
    assert_eq!(r.recent_errors, vec!["[unknown 01:02:03] [m] failed to get nat type".to_string()]);
    r.record_core_line("unknown", None);
    r.record_core_line("unknown", Some(vec![Some("x".to_string())]));
    assert_eq!(r.error_count, 1);
}

const CRASH_SAMPLE: &str = "boot ok\n\
Error Domain=NSURLErrorDomain Code=-1001 \"请求超时。\"\n\
TLS错误 while connecting\n\
WARNING: reentrant operation on NSTableView\n\
IMK mach port failed to connect\n\
something failed quietly\n\
all fine\n";

#[test]
fn crash_log_counts() {
    let mut r = LogReport::new();
    r.parse_crash_log("Stash-2026.log", CRASH_SAMPLE);
    assert_eq!(r.error_count, 5);
    assert_eq!(r.error_patterns.get("网络请求超时 (NSURLErrorDomain -1001)"), Some(1));
    assert_eq!(r.error_patterns.get("TLS 安全连接失败 (-1200)"), Some(1));
    assert_eq!(r.error_patterns.get("NSTableView reentrant 操作警告"), Some(1));
    assert_eq!(r.error_patterns.get("IMK mach port 通信错误"), Some(1));
    assert_eq!(r.crash_summaries, vec!["Stash-2026.log: 5 条错误/警告".to_string()]);
}

#[test]
fn crash_log_without_errors_has_no_summary() {
    let mut r = LogReport::new();
    r.parse_crash_log("quiet.log", "all good\nnothing here\n");
    assert_eq!(r.error_count, 0);
    assert!(r.crash_summaries.is_empty());
}

#[test]
fn crash_match_is_case_insensitive() {
    let mut r = LogReport::new();
    r.record_crash_line("x", false);
    assert_eq!(r.error_count, 0);
    r.parse_crash_log("c.log", "An eRRoR happened\n");
    assert_eq!(r.error_count, 1);
}

#[test]
fn file_name_parts() {
    assert_eq!(extension_of("a.log").as_deref(), Some("log"));
    assert_eq!(extension_of("a.tar.gz").as_deref(), Some("gz"));
    assert_eq!(extension_of(".log"), None);
    assert_eq!(extension_of("noext"), None);
    assert_eq!(extension_of(".."), None);
    let stem: String = stem_of("2026-04-11-111015.log").into_iter().collect();
    assert_eq!(stem, "2026-04-11-111015");
    assert!(is_log_name("x.log"));
    assert!(!is_log_name("x.txt"));
    assert!(!is_log_name(".log"));
}

#[test]
fn date_from_file_name() {
    assert_eq!(date_label_of("2026-04-11-111015.log"), "2026-04-11");
    assert_eq!(date_label_of("short.log"), "unknown");
    assert_eq!(date_of_name("2026-04-11-111015.log"), Some(Date { year: 2026, month: 4, day: 11 }));
    assert_eq!(date_of_name("2026-13-11-111015.log"), None);
    assert_eq!(date_of_name("Stash-crash-report.log"), None);
}

#[test]
fn scan_filters_and_counts() {
    let core = vec![
        file("2026-04-01-000000.log", "[ERRO] [00:00:01] [a] old failure\n"),
        file("2026-04-11-111015.log", "[ERRO] [00:00:02] [b] new failure\n"),
        file("notes.txt", "[ERRO] [00:00:03] [c] not a log\n"),
        LogFile { name: "2026-04-12-000000.log".to_string(), content: None, modified: None },
    ];
    let crashes = vec![
        LogFile {
            name: "crash-a.log".to_string(),
            content: Some("ERROR one\n".to_string()),
            modified: Some(Date { year: 2026, month: 3, day: 1 }),
        },
        LogFile {
            name: "crash-b.log".to_string(),
            content: Some("ERROR two\n".to_string()),
            modified: None,
        },
    ];
    let all = scan_logs(&core, &crashes, None);
    assert_eq!(all.file_count, 5);
    assert_eq!(all.error_count, 4);
    let since = Some(Date { year: 2026, month: 4, day: 10 });
    let recent = scan_logs(&core, &crashes, since);
    assert_eq!(recent.file_count, 3);
    assert_eq!(recent.error_count, 2);
    assert_eq!(recent.recent_errors, vec!["[2026-04-11 00:00:02] [b] new failure".to_string()]);
    assert_eq!(recent.crash_summaries, vec!["crash-b.log: 1 条错误/警告".to_string()]);
}

#[test]
fn scan_keeps_latest_twenty_errors() {
    let mut text = String::new();
    for i in 0..45 {
        text.push_str(&format!("[ERRO] [00:00:{:02}] [m] failure {}\n", i % 60, i));
    }
    let core = vec![file("2026-04-11-000000.log", &text)];
    let r = scan_logs(&core, &Vec::new(), None);
    assert_eq!(r.error_count, 45);
    assert_eq!(r.errors_by_date.get("2026-04-11"), Some(45));
    assert_eq!(r.recent_errors.len(), 20);
    assert!(r.recent_errors[0].ends_with("failure 25"));
    assert!(r.recent_errors[19].ends_with("failure 44"));
}

#[test]
fn empty_scan() {
    let r = scan_logs(&Vec::new(), &Vec::new(), None);
    assert_eq!(r.file_count, 0);
    assert_eq!(r.error_count, 0);
    assert!(r.recent_errors.is_empty());
}

#[test]
fn crash_samples_must_be_cuttable() {
    // 119 ASCII bytes, then a 3-byte character spanning bytes 119..122.
    let split = format!("error {}请求超时", "x".repeat(113));
    assert_eq!(split.len(), 131);
    assert!(!split.is_char_boundary(120));
    assert!(!crash_samples_ok(&split));
    // The same line is harmless when it is not a problem line ...
    let quiet = format!("note {}中文文字", "x".repeat(114));
    assert!(!quiet.is_char_boundary(120));
    assert!(crash_samples_ok(&quiet));
    // ... or when three problem lines come before it.
    let late = format!("error a\nfailed b\nWARNING c\n{}", split);
    assert!(crash_samples_ok(&late));
    let early = format!("error a\nfailed b\n{}", split);
    assert!(!crash_samples_ok(&early));
    // A boundary at byte 120, or a line of at most 120 bytes, is fine.
    let aligned = format!("error {}请求超时", "x".repeat(114));
    assert!(aligned.is_char_boundary(120));
    assert!(crash_samples_ok(&aligned));
    let short = format!("error {}请", "x".repeat(111));
    assert_eq!(short.len(), 120);
    assert!(crash_samples_ok(&short));
    assert!(crash_samples_ok(""));
}

#[test]
fn core_logs_are_read_in_name_order() {
    let core = vec![
        file("2026-04-12-000000.log", "[ERRO] [00:00:02] [m] second day\n"),
        file("2026-04-11-000000.log", "[ERRO] [00:00:01] [m] first day\n"),
    ];
    let r = scan_logs(&core, &Vec::new(), None);
    assert_eq!(
        r.recent_errors,
        vec![
            "[2026-04-11 00:00:01] [m] first day".to_string(),
            "[2026-04-12 00:00:02] [m] second day".to_string(),
        ]
    );
    assert_eq!(r.errors_by_date.entry(0).0, "2026-04-11");
}

#[test]
fn checked_scan_refuses_uncuttable_samples() {
    let bad = format!("error {}请求超时", "x".repeat(113));
    let crashes = vec![file("c.log", &bad)];
    assert!(try_scan_logs(&Vec::new(), &crashes, None).is_none());
    let skipped = vec![file("c.txt", &bad)];
    let r = try_scan_logs(&Vec::new(), &skipped, None).unwrap();
    assert_eq!(r.file_count, 0);
    let fine = vec![file("c.log", "error here\n")];
    let r = try_scan_logs(&Vec::new(), &fine, None).unwrap();
    assert_eq!(r.file_count, 1);
    assert_eq!(r.error_count, 1);
}

#[test]
fn later_start_counts_less() {
    let core = vec![
        file("2026-04-01-000000.log", "[ERRO] [00:00:01] [m] a\n[WARN] [00:00:01] [m] w\n"),
        file("2026-04-10-000000.log", "[ERRO] [00:00:01] [m] b\n[INFO] [00:00:01] [m] i\n"),
        file("2026-04-20-000000.log", "[ERRO] [00:00:01] [m] c\n"),
    ];
    let none = scan_logs(&core, &Vec::new(), None);
    let d1 = scan_logs(&core, &Vec::new(), Some(Date { year: 2026, month: 4, day: 5 }));
    let d2 = scan_logs(&core, &Vec::new(), Some(Date { year: 2026, month: 4, day: 15 }));
    assert_eq!((none.file_count, none.error_count, none.warn_count, none.info_count), (3, 3, 1, 1));
    assert_eq!((d1.file_count, d1.error_count, d1.warn_count, d1.info_count), (2, 2, 0, 1));
    assert_eq!((d2.file_count, d2.error_count, d2.warn_count, d2.info_count), (1, 1, 0, 0));
}

#[test]
fn normalizing_twice_changes_nothing() {
    for m in [
        "StashLink server is down",
        "dial tcp: i/o timeout",
        "read: connection timed out",
        "something unusual happened that goes on and on and on for a long while past sixty",
        "",
    ] {
        let n = normalize_error(m);
        assert_eq!(normalize_error(&n), n);
    }
}
