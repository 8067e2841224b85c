use guitar::time::{try_git2_timestamp_to_utc, try_gix_timestamp_to_utc, try_gix_timestamp_to_utc_date_time, GitTime, RFC2822_MAX_SECONDS};

#[test]
fn times_show_in_utc_whatever_their_offset() {
    assert_eq!(try_gix_timestamp_to_utc(GitTime { seconds: 0, offset: 0 }).as_deref(), Some("Thu, 1 Jan 1970 00:00:00 +0000"));
    assert_eq!(try_gix_timestamp_to_utc(GitTime { seconds: 0, offset: 3600 }).as_deref(), Some("Thu, 1 Jan 1970 00:00:00 +0000"));
    assert_eq!(try_gix_timestamp_to_utc_date_time(GitTime { seconds: 1_700_000_000, offset: -7200 }).as_deref(), Some("2023-11-14 22:13"));
    assert_eq!(try_git2_timestamp_to_utc(git2::Time::new(86_400, 120)).as_deref(), Some("Fri, 2 Jan 1970 00:00:00 +0000"));
}

#[test]
fn times_that_cannot_be_shown_give_none() {
    assert_eq!(try_gix_timestamp_to_utc(GitTime { seconds: 0, offset: 86_400 }), None);
    assert_eq!(try_gix_timestamp_to_utc(GitTime { seconds: RFC2822_MAX_SECONDS + 1, offset: 0 }), None);
    assert_eq!(try_gix_timestamp_to_utc_date_time(GitTime { seconds: i64::MAX, offset: 0 }), None);
    assert_eq!(try_git2_timestamp_to_utc(git2::Time::new(0, 1440)), None);
}
