use zstats::date::{is_earlier, Date};
use zstats::records::{cleanup, file_for, read_range, Sweeps, RETENTION_DAYS};

fn date(year: i16, month: i8, day: i8) -> Date {
    Date { year, month, day }
}

#[test]
fn cleanup_removes_only_expired_jsonl() {
    let today = date(2026, 8, 10);
    let names: Vec<String> = [
        "2026-07-10.jsonl", // 31 days old: expired
        "2026-07-12.jsonl", // 29 days old: kept
        "2026-08-10.jsonl", // today: kept
        "notes.txt",        // not a metrics file: kept
        "garbage.jsonl",    // unparseable date: kept
    ]
    .iter()
    .map(|n| n.to_string())
    .collect();

    let removed = cleanup(&names, today, 30);
    assert_eq!(removed, vec!["2026-07-10.jsonl".to_string()]);

    let remaining: Vec<&str> = names
        .iter()
        .map(|n| n.as_str())
        .filter(|n| !removed.iter().any(|r| r == n))
        .collect();
    assert_eq!(
        remaining,
        [
            "2026-07-12.jsonl",
            "2026-08-10.jsonl",
            "notes.txt",
            "garbage.jsonl"
        ]
    );
}

#[test]
fn the_day_at_the_limit_is_kept() {
    let names = vec!["2026-07-11.jsonl".to_string(), "2026-07-10.jsonl".to_string()];
    assert_eq!(
        cleanup(&names, date(2026, 8, 10), RETENTION_DAYS),
        vec!["2026-07-10.jsonl".to_string()]
    );
    // No such day: nothing is deleted
    assert!(cleanup(&names, date(-9999, 1, 5), 30).is_empty());
    assert!(cleanup(&names, date(9999, 12, 5), -30).is_empty());
    // A cutoff in the future
    assert_eq!(cleanup(&names, date(2026, 7, 10), -1).len(), 1);
}

#[test]
fn a_day_has_its_own_file() {
    assert_eq!(
        file_for("/d", date(2026, 8, 1), "linux"),
        "/d/data/2026-08-01.jsonl"
    );
    assert_eq!(
        file_for("/d", date(7, 12, 31), "linux"),
        "/d/data/0007-12-31.jsonl"
    );
    assert_eq!(
        file_for("C:\\d", date(2026, 8, 1), "windows"),
        "C:\\d\\data\\2026-08-01.jsonl"
    );
    assert_eq!(
        file_for("/d", date(-12, 2, 29), "linux"),
        "/d/data/-000012-02-29.jsonl"
    );
    let name = "-000012-02-29.jsonl".to_string();
    assert_eq!(cleanup(&vec![name.clone()], date(2026, 1, 1), 30), vec![name]);
}

#[test]
fn a_range_holds_both_ends() {
    assert_eq!(
        read_range(date(2024, 2, 28), date(2024, 3, 1)),
        vec![date(2024, 2, 28), date(2024, 2, 29), date(2024, 3, 1)]
    );
    assert_eq!(
        read_range(date(2025, 12, 31), date(2026, 1, 1)),
        vec![date(2025, 12, 31), date(2026, 1, 1)]
    );
    assert_eq!(
        read_range(date(2026, 8, 3), date(2026, 8, 3)),
        vec![date(2026, 8, 3)]
    );
    assert!(read_range(date(2026, 8, 3), date(2026, 8, 1)).is_empty());
    assert_eq!(
        read_range(date(9999, 12, 31), date(9999, 12, 31)),
        vec![date(9999, 12, 31)]
    );
    assert_eq!(read_range(date(2000, 1, 1), date(2000, 12, 31)).len(), 366);
    assert_eq!(read_range(date(1900, 1, 1), date(1900, 12, 31)).len(), 365);
}

#[test]
fn days_are_compared_field_by_field() {
    assert!(is_earlier(date(2025, 12, 31), date(2026, 1, 1)));
    assert!(is_earlier(date(2026, 1, 31), date(2026, 2, 1)));
    assert!(!is_earlier(date(2026, 2, 1), date(2026, 2, 1)));
}

#[test]
fn a_directory_is_swept_once_a_day() {
    let mut sweeps = Sweeps::new();
    assert!(sweeps.maybe_cleanup("/a", date(2026, 8, 10)));
    assert!(!sweeps.maybe_cleanup("/a", date(2026, 8, 10)));
    assert!(sweeps.maybe_cleanup("/b", date(2026, 8, 10)));
    assert!(sweeps.maybe_cleanup("/a", date(2026, 8, 11)));
}
