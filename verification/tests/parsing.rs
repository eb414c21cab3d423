use todo_or_die::date::{date_is_valid, is_on_or_before, SimpleDate};
use todo_or_die::decimal::{cache_ttl_seconds, parse_u64_numeral};
use todo_or_die::github::OrgRepoIssue;
use todo_or_die::krate::latest_version;

#[test]
fn parse_plain_numerals() {
    assert_eq!(parse_u64_numeral(b"0"), Some(0));
    assert_eq!(parse_u64_numeral(b"123"), Some(123));
    assert_eq!(parse_u64_numeral(b"+42"), Some(42));
    assert_eq!(parse_u64_numeral(b"007"), Some(7));
    assert_eq!(parse_u64_numeral(b"18446744073709551615"), Some(u64::MAX));
}

#[test]
fn reject_bad_numerals() {
    assert_eq!(parse_u64_numeral(b""), None);
    assert_eq!(parse_u64_numeral(b"+"), None);
    assert_eq!(parse_u64_numeral(b"-1"), None);
    assert_eq!(parse_u64_numeral(b"12a"), None);
    assert_eq!(parse_u64_numeral(b" 1"), None);
    assert_eq!(parse_u64_numeral(b"1 "), None);
    assert_eq!(parse_u64_numeral(b"18446744073709551616"), None);
    assert_eq!(parse_u64_numeral(b"99999999999999999999999"), None);
}

#[test]
fn ttl_default_and_override() {
    assert_eq!(cache_ttl_seconds(None), 3600);
    assert_eq!(cache_ttl_seconds(Some(&b"60".to_vec())), 60);
    assert_eq!(cache_ttl_seconds(Some(&b"0".to_vec())), 0);
    assert_eq!(cache_ttl_seconds(Some(&b"garbage".to_vec())), 3600);
    assert_eq!(cache_ttl_seconds(Some(&b"".to_vec())), 3600);
    assert_eq!(cache_ttl_seconds(Some(&b"-5".to_vec())), 3600);
}

#[test]
fn parse_issue_reference() {
    let r = OrgRepoIssue::parse(&b"tokio-rs/axum#266".to_vec()).unwrap();
    assert_eq!(r.org, b"tokio-rs".to_vec());
    assert_eq!(r.repo, b"axum".to_vec());
    assert_eq!(r.issue, 266);
}

#[test]
fn parse_issue_reference_splits_at_first_separators() {
    let r = OrgRepoIssue::parse(&b"a/b/c#1".to_vec()).unwrap();
    assert_eq!(r.org, b"a".to_vec());
    assert_eq!(r.repo, b"b/c".to_vec());
    assert_eq!(r.issue, 1);
}

#[test]
fn reject_bad_issue_references() {
    assert!(OrgRepoIssue::parse(&b"".to_vec()).is_none());
    assert!(OrgRepoIssue::parse(&b"no-separators".to_vec()).is_none());
    assert!(OrgRepoIssue::parse(&b"org/repo".to_vec()).is_none());
    assert!(OrgRepoIssue::parse(&b"org#repo/1".to_vec()).is_none());
    assert!(OrgRepoIssue::parse(&b"org/repo#".to_vec()).is_none());
    assert!(OrgRepoIssue::parse(&b"org/repo#x".to_vec()).is_none());
    assert!(OrgRepoIssue::parse(&b"org/repo#1x".to_vec()).is_none());
}

#[test]
fn date_validity() {
    assert!(date_is_valid(&SimpleDate { year: 2024, month: 2, day: 29 }));
    assert!(!date_is_valid(&SimpleDate { year: 2023, month: 2, day: 29 }));
    assert!(!date_is_valid(&SimpleDate { year: 1900, month: 2, day: 29 }));
    assert!(date_is_valid(&SimpleDate { year: 2000, month: 2, day: 29 }));
    assert!(date_is_valid(&SimpleDate { year: 3000, month: 1, day: 1 }));
    assert!(!date_is_valid(&SimpleDate { year: 2021, month: 0, day: 1 }));
    assert!(!date_is_valid(&SimpleDate { year: 2021, month: 13, day: 1 }));
    assert!(!date_is_valid(&SimpleDate { year: 2021, month: 4, day: 31 }));
    assert!(date_is_valid(&SimpleDate { year: 2021, month: 4, day: 30 }));
    assert!(!date_is_valid(&SimpleDate { year: 2021, month: 1, day: 0 }));
}

#[test]
fn date_ordering() {
    let past = SimpleDate { year: 1994, month: 10, day: 22 };
    let today = SimpleDate { year: 2021, month: 11, day: 7 };
    let future = SimpleDate { year: 3000, month: 1, day: 1 };
    assert!(is_on_or_before(&past, &today));
    assert!(!is_on_or_before(&future, &today));
    assert!(is_on_or_before(&today, &today));
    assert!(is_on_or_before(
        &SimpleDate { year: 2021, month: 11, day: 6 },
        &today
    ));
    assert!(!is_on_or_before(
        &SimpleDate { year: 2021, month: 12, day: 1 },
        &today
    ));
}

#[test]
fn latest_version_is_first_entry() {
    let versions = vec![b"1.2.3".to_vec(), b"1.2.2".to_vec(), b"0.9.0".to_vec()];
    assert_eq!(latest_version(&versions), Some(&b"1.2.3".to_vec()));
    assert_eq!(latest_version(&Vec::new()), None);
}
