use guitar::reflogs::{decimal_chars, is_null_oid, reflog_entries_from, selector_for, ReflogLine};
use guitar::time::GitTime;

fn oid(byte: u8) -> gix::ObjectId {
    gix::ObjectId::from_bytes_or_panic(&[byte; 20])
}

fn line(new: u8, message: &str) -> ReflogLine {
    ReflogLine { previous_oid: oid(9), new_oid: oid(new), message: message.as_bytes().to_vec(), time: GitTime { seconds: 10, offset: 60 } }
}

#[test]
fn selectors_count_lines_in_decimal() {
    assert_eq!(decimal_chars(0), vec!['0']);
    assert_eq!(decimal_chars(907).into_iter().collect::<String>(), "907");
    assert_eq!(selector_for(12), "HEAD@{12}");
}

#[test]
fn null_ids_and_missing_commits_are_skipped_but_counted() {
    assert!(is_null_oid(&oid(0)));
    assert!(!is_null_oid(&oid(1)));
    let lines = vec![line(1, "commit: one"), line(0, "deleted"), line(2, ""), line(3, "gone"), line(4, "caf\u{e9}")];
    let exists = vec![true, true, true, false, true];
    let entries = reflog_entries_from(&lines, &exists);
    let selectors: Vec<&str> = entries.iter().map(|e| e.selector.as_str()).collect();
    assert_eq!(selectors, vec!["HEAD@{0}", "HEAD@{2}", "HEAD@{4}"]);
    assert_eq!(entries[0].message, "commit: one");
    assert_eq!(entries[1].message, "reflog");
    assert_eq!(entries[2].message, "caf\u{e9}");
    assert_eq!(entries[0].new_oid, oid(1));
    assert_eq!(entries[0].old_oid, oid(9));
    assert_eq!(entries[0].time, GitTime { seconds: 10, offset: 60 });
}

#[test]
fn invalid_utf8_messages_are_read_lossily() {
    let mut bad = line(5, "");
    bad.message = vec![b'a', 0xff, b'b'];
    let entries = reflog_entries_from(&vec![bad], &vec![true]);
    assert_eq!(entries[0].message, "a\u{fffd}b");
}
