use vstd::prelude::*;
use vstd::utf8::valid_utf8;
use crate::git_types::{oid_as_bytes, oid_bytes};
use crate::text::string_from_chars;
use crate::time::GitTime;

verus! {

/// One entry of HEAD's reflog that still names a commit.
#[derive(Clone, Debug)]
pub struct HeadReflogEntry {
    /// `HEAD@{n}`, where `n` counts the reflog lines from the newest.
    pub selector: String,
    pub old_oid: gix::ObjectId,
    pub new_oid: gix::ObjectId,
    /// The line's message, or `reflog` when it has none.
    pub message: String,
    pub time: GitTime,
}

/// A reflog line as stored: both ids, the raw message and the committer time.
pub struct ReflogLine {
    pub previous_oid: gix::ObjectId,
    pub new_oid: gix::ObjectId,
    pub message: Vec<u8>,
    pub time: GitTime,
}

/// The decimal digits of `n`, most significant first.
pub open spec fn decimal(n: nat) -> Seq<char>
    decreases n,
{
    if n < 10 {
        seq![(48 + n) as char]
    } else {
        decimal(n / 10).push((48 + n % 10) as char)
    }
}

/// `HEAD@{n}`.
pub open spec fn selector_text(n: nat) -> Seq<char> {
    seq!['H', 'E', 'A', 'D', '@', '{'] + decimal(n) + seq!['}']
}

/// The digits of `n` in base ten.
pub fn decimal_chars(n: usize) -> (r: Vec<char>)
    ensures
        r@ == decimal(n as nat),
    decreases n,
{
    let digit = ((n % 10) as u8 + 48u8) as char;
    if n < 10 {
        let r = vec![digit];
        assert(r@ =~= decimal(n as nat));
        r
    } else {
        let mut r = decimal_chars(n / 10);
        r.push(digit);
        r
    }
}

/// `HEAD@{n}` as text.
pub fn selector_for(n: usize) -> (s: String)
    ensures
        s@ == selector_text(n as nat),
{
    let mut chars: Vec<char> = vec!['H', 'E', 'A', 'D', '@', '{'];
    let mut digits = decimal_chars(n);
    chars.append(&mut digits);
    chars.push('}');
    assert(chars@ =~= selector_text(n as nat));
    string_from_chars(&chars)
}

/// Whether every byte of an id is zero.
pub open spec fn is_null_bytes(bytes: Seq<u8>) -> bool {
    forall|i: int| 0 <= i < bytes.len() ==> bytes[i] == 0u8
}

/// `ObjectId::is_null`: whether the id is all zero bytes.
pub fn is_null_oid(oid: &gix::ObjectId) -> (b: bool)
    ensures
        b == is_null_bytes(oid_bytes(*oid)),
{
    let bytes = oid_as_bytes(oid);
    let mut i: usize = 0;
    while i < bytes.len()
        invariant
            i <= bytes@.len(),
            bytes@ == oid_bytes(*oid),
            forall|k: int| 0 <= k < i ==> bytes@[k] == 0u8,
        decreases bytes@.len() - i,
    {
        if bytes[i] != 0u8 {
            return false;
        }
        i += 1;
    }
    true
}

/// The characters of `String::from_utf8_lossy` of a message.
pub uninterp spec fn utf8_lossy(bytes: Seq<u8>) -> Seq<char>;

/// `String::from_utf8_lossy`, owned: valid UTF-8 reads as itself.
#[verifier::external_body]
pub(crate) fn lossy_string(bytes: &Vec<u8>) -> (s: String)
    ensures
        s@ == utf8_lossy(bytes@),
        valid_utf8(bytes@) ==> vstd::utf8::encode_utf8(s@) == bytes@,
{
    String::from_utf8_lossy(bytes.as_slice()).to_string()
}

/// The message shown for a reflog line.
pub open spec fn shown_message(message: Seq<u8>) -> Seq<char> {
    if message.len() == 0 {
        seq!['r', 'e', 'f', 'l', 'o', 'g']
    } else {
        utf8_lossy(message)
    }
}

/// Whether line `k` is shown: its new id is not null and names a commit (`exists[k]`).
pub open spec fn line_shown(lines: Seq<ReflogLine>, exists: Seq<bool>, k: int) -> bool {
    !is_null_bytes(oid_bytes(lines[k].new_oid)) && exists[k]
}

/// The entry shown for line `k`.
pub open spec fn entry_matches(e: HeadReflogEntry, line: ReflogLine, k: int) -> bool {
    &&& e.selector@ == selector_text(k as nat)
    &&& e.old_oid == line.previous_oid
    &&& e.new_oid == line.new_oid
    &&& e.message@ == shown_message(line.message@)
    &&& e.time == line.time
}

/// The indices of the shown lines among the first `n`, in order.
pub open spec fn shown_indices(lines: Seq<ReflogLine>, exists: Seq<bool>, n: int) -> Seq<int>
    decreases n,
{
    if n <= 0 {
        Seq::empty()
    } else if line_shown(lines, exists, n - 1) {
        shown_indices(lines, exists, n - 1).push(n - 1)
    } else {
        shown_indices(lines, exists, n - 1)
    }
}

/// The reflog entries for `lines`, newest first: line `k` gives `HEAD@{k}` unless its new id is
/// null or names no commit (`exists[k]` false).
pub fn reflog_entries_from(lines: &Vec<ReflogLine>, exists: &Vec<bool>) -> (r: Vec<HeadReflogEntry>)
    requires
        exists@.len() == lines@.len(),
    ensures
        r@.len() == shown_indices(lines@, exists@, lines@.len() as int).len(),
        forall|j: int| 0 <= j < r@.len() ==> entry_matches(#[trigger] r@[j], lines@[shown_indices(lines@, exists@, lines@.len() as int)[j]], shown_indices(lines@, exists@, lines@.len() as int)[j]),
{
    let mut out: Vec<HeadReflogEntry> = Vec::new();
    let mut k: usize = 0;
    while k < lines.len()
        invariant
            k <= lines@.len(),
            exists@.len() == lines@.len(),
            out@.len() == shown_indices(lines@, exists@, k as int).len(),
            forall|j: int| 0 <= j < out@.len() ==> entry_matches(#[trigger] out@[j], lines@[shown_indices(lines@, exists@, k as int)[j]], shown_indices(lines@, exists@, k as int)[j]),
            forall|j: int| 0 <= j < shown_indices(lines@, exists@, k as int).len() ==> 0 <= #[trigger] shown_indices(lines@, exists@, k as int)[j] < k,
        decreases lines@.len() - k,
    {
        let line = &lines[k];
        let null = is_null_oid(&line.new_oid);
        if !null && exists[k] {
            let message = if line.message.len() == 0 {
                let chars: Vec<char> = vec!['r', 'e', 'f', 'l', 'o', 'g'];
                proof {
                    assert(chars@ =~= shown_message(line.message@));
                }
                string_from_chars(&chars)
            } else {
                lossy_string(&line.message)
            };
            let entry = HeadReflogEntry {
                selector: selector_for(k),
                old_oid: line.previous_oid,
                new_oid: line.new_oid,
                message,
                time: line.time,
            };
            let ghost before = out@;
            out.push(entry);
            proof {
                let s = shown_indices(lines@, exists@, k + 1);
                assert(s == shown_indices(lines@, exists@, k as int).push(k as int));
                assert forall|j: int| 0 <= j < out@.len() implies entry_matches(#[trigger] out@[j], lines@[s[j]], s[j]) by {
                    if j < before.len() {
                        assert(out@[j] == before[j]);
                    }
                }
            }
        }
        k += 1;
    }
    out
}

/// `Repository::head`, its `log_iter` and `rev`: the lines of HEAD's reflog, newest first, each
/// read or failed; `Ok(None)` when HEAD has no reflog. What is on disk decides, so nothing is
/// stated.
#[verifier::external_body]
fn head_reflog_lines(repo: &gix::Repository) -> Result<Option<Vec<Result<ReflogLine, git2::Error>>>, git2::Error> {
    let to_error = |error: &dyn std::fmt::Display| git2::Error::from_str(&error.to_string());
    let head = repo.head().map_err(|e| to_error(&e))?;
    let mut log_iter = head.log_iter();
    let Some(reflog) = log_iter.rev().map_err(|e| to_error(&e))? else { return Ok(None) };
    Ok(Some(reflog.map(|line| line.map_err(|e| to_error(&e)).map(|l| ReflogLine {
        previous_oid: l.previous_oid,
        new_oid: l.new_oid,
        message: l.message.into(),
        time: GitTime { seconds: l.signature.time.seconds, offset: l.signature.time.offset },
    })).collect()))
}

/// Whether the id names a readable commit.
fn commit_exists(repo: &gix::Repository, oid: gix::ObjectId) -> bool {
    crate::git_types::find_commit(repo, oid).is_ok()
}

/// Whether `v` is what `reflog_entries_from` gives for the reflog lines `lines`, of which
/// `exists` says which name a commit.
pub open spec fn entries_for_lines(lines: Seq<ReflogLine>, exists: Seq<bool>, v: Seq<HeadReflogEntry>) -> bool {
    &&& exists.len() == lines.len()
    &&& v.len() == shown_indices(lines, exists, lines.len() as int).len()
    &&& forall|j: int| 0 <= j < v.len() ==> entry_matches(#[trigger] v[j], lines[shown_indices(lines, exists, lines.len() as int)[j]], shown_indices(lines, exists, lines.len() as int)[j])
}

/// Whether `v` is what `reflog_entries_from` gives for some reflog lines read.
pub open spec fn entries_for_some_lines(v: Seq<HeadReflogEntry>) -> bool {
    exists|lines: Seq<ReflogLine>, exists: Seq<bool>| #[trigger] entries_for_lines(lines, exists, v)
}

/// The entries of HEAD's reflog that name commits, newest first (see `reflog_entries_from`);
/// an error when HEAD or its reflog cannot be read, and `HEAD reflog not found` when it has none.
pub fn get_head_reflog_entries(repo: &gix::Repository) -> (r: Result<Vec<HeadReflogEntry>, git2::Error>)
    ensures
        r matches Ok(v) ==> entries_for_some_lines(v@),
{
    let read = match head_reflog_lines(repo) {
        Ok(Some(read)) => read,
        Ok(None) => {
            return Err(crate::git_types::error_from_message("HEAD reflog not found"));
        },
        Err(e) => {
            return Err(e);
        },
    };
    let mut lines: Vec<ReflogLine> = Vec::new();
    let mut exists: Vec<bool> = Vec::new();
    for line in read
        invariant
            lines@.len() == exists@.len(),
    {
        match line {
            Ok(line) => {
                let found = !is_null_oid(&line.new_oid) && commit_exists(repo, line.new_oid);
                lines.push(line);
                exists.push(found);
            },
            Err(e) => {
                return Err(e);
            },
        }
    }
    let v = reflog_entries_from(&lines, &exists);
    assert(entries_for_lines(lines@, exists@, v@));
    Ok(v)
}

} // verus!
