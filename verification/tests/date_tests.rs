use vvpn::date::{parse_since, range_label, Date};
use vvpn::logs::date_of_name;

fn args(v: &[&str]) -> Vec<String> {
    v.iter().map(|s| s.to_string()).collect()
}

#[test]
fn since_options() {
    let today = Date { year: 2026, month: 3, day: 3 };
    assert_eq!(parse_since(&args(&[]), today), Ok(None));
    assert_eq!(parse_since(&args(&["--today"]), today), Ok(Some(today)));
    assert_eq!(
        parse_since(&args(&["--week"]), today),
        Ok(Some(Date { year: 2026, month: 2, day: 25 }))
    );
    assert_eq!(
        parse_since(&args(&["--month"]), today),
        Ok(Some(Date { year: 2026, month: 2, day: 2 }))
    );
    assert_eq!(
        parse_since(&args(&["--month"]), Date { year: 2026, month: 3, day: 31 }),
        Ok(Some(Date { year: 2026, month: 3, day: 2 }))
    );
    assert_eq!(
        parse_since(&args(&["--month"]), Date { year: 2026, month: 3, day: 15 }),
        Ok(Some(Date { year: 2026, month: 2, day: 14 }))
    );
    assert_eq!(parse_since(&args(&["--year"]), today), Err("--year".to_string()));
    assert_eq!(parse_since(&args(&["--today", "--bogus"]), today), Ok(Some(today)));
}

#[test]
fn date_order_and_parse() {
    let a = Date { year: 2026, month: 4, day: 10 };
    let b = Date { year: 2026, month: 4, day: 11 };
    let c = Date { year: 2025, month: 12, day: 31 };
    assert!(a.before(&b));
    assert!(!b.before(&a));
    assert!(!a.before(&a));
    assert!(c.before(&a));
    assert_eq!(date_of_name("2024-02-29-000000.log"), Some(Date { year: 2024, month: 2, day: 29 }));
    assert_eq!(date_of_name("2023-02-29-000000.log"), None);
}

#[test]
fn range_labels() {
    assert_eq!(range_label(None), "全部");
    assert_eq!(range_label(Some(Date { year: 2026, month: 4, day: 5 })), "2026-04-05 至今");
    assert_eq!(range_label(Some(Date { year: 987, month: 12, day: 31 })), "0987-12-31 至今");
    assert_eq!(range_label(Some(Date { year: -7, month: 1, day: 1 })), "-0007-01-01 至今");
    assert_eq!(range_label(Some(Date { year: 12345, month: 6, day: 7 })), "+12345-06-07 至今");
}
