use vstd::prelude::*;
use crate::branch_visibility::bytes_as_str;
use crate::files::{rank_file_paths, ranked_among, ranked_for_some_paths, FileSearchResult, MAX_SEARCH_CHARS};
use crate::git_types::open_repo;
use crate::refs::git2_repo_dirs;
use crate::submodule_list::join_path;
use vstd::utf8::{decode_utf8, encode_utf8, valid_utf8};
use crate::text::{normalize_path_seq, normalize_path_chars, str_chars, string_from_chars, trim_chars, trim_seq};

verus! {

/// `index::File::entries` of the repository's index: each entry's path as bytes, in index
/// order. What is on disk decides, so nothing is stated.
#[verifier::external_body]
fn index_entry_paths(repo: &gix::Repository) -> Result<Vec<Vec<u8>>, git2::Error> {
    let index = repo.index().map_err(|error| git2::Error::from_str(&error.to_string()))?;
    Ok(index.entries().iter().map(|entry| entry.path(&index).to_vec()).collect())
}

/// `Path::is_file`. What is on disk decides, so nothing is stated.
#[verifier::external_body]
fn is_file(path: &str) -> bool {
    std::path::Path::new(path).is_file()
}

/// The path the file search offers for an index entry's bytes: their text when they are UTF-8,
/// normalised as the search compares paths, when that is non-empty and within the length limit.
pub open spec fn search_path_of(entry: Seq<u8>) -> Option<Seq<char>> {
    if valid_utf8(entry) {
        let n = normalize_path_seq(decode_utf8(entry));
        if 0 < n.len() && n.len() < MAX_SEARCH_CHARS { Some(n) } else { None }
    } else {
        None
    }
}

/// Whether the index entry `entry` offers the search path `path` (see `search_path_of`).
pub open spec fn offers(entry: Seq<u8>, path: Seq<char>) -> bool {
    search_path_of(entry) == Some(path)
}

/// Whether some entry of `entries` offers the search path `path`.
pub open spec fn offered_by(entries: Seq<Vec<u8>>, path: Seq<char>) -> bool {
    exists|k: int| 0 <= k < entries.len() && offers(#[trigger] entries[k]@, path)
}

/// Whether `f`, asked about the text `path`, can answer `answer`.
pub open spec fn answers<F: Fn(String) -> bool>(f: F, path: Seq<char>, answer: bool) -> bool {
    exists|s: String| s@ == path && #[trigger] call_ensures(f, (s,), answer)
}

/// Whether `paths` holds the text `path`.
pub open spec fn lists(paths: Seq<String>, path: Seq<char>) -> bool {
    exists|j: int| 0 <= j < paths.len() && (#[trigger] paths[j])@ == path
}

/// The search paths of the index entries `entries` (see `search_path_of`) that `is_present`
/// accepts, in entry order: every returned path is the search path of an entry and was accepted,
/// and the search path of every entry is returned unless `is_present` turned it down.
pub fn tracked_paths_among<F: Fn(String) -> bool>(entries: &Vec<Vec<u8>>, is_present: &F) -> (r: Vec<String>)
    requires
        forall|p: String| call_requires(*is_present, (p,)),
    ensures
        forall|j: int| 0 <= j < r@.len() ==> #[trigger] offered_by(entries@, r@[j]@),
        forall|j: int| 0 <= j < r@.len() ==> #[trigger] answers(*is_present, r@[j]@, true),
        forall|k: int| 0 <= k < entries@.len() && (#[trigger] search_path_of(entries@[k]@)) is Some ==>
            lists(r@, search_path_of(entries@[k]@)->0) || answers(*is_present, search_path_of(entries@[k]@)->0, false),
        tracked_selection(entries@, *is_present, r@),
{
    broadcast use vstd::utf8::encode_utf8_decode_utf8;
    let mut paths: Vec<String> = Vec::new();
    let ghost mut src: Seq<int> = Seq::empty();
    let ghost mut yes: Seq<String> = Seq::empty();
    let ghost mut placed: Seq<int> = Seq::empty();
    let ghost mut wit: Seq<String> = Seq::empty();
    let mut i: usize = 0;
    while i < entries.len()
        invariant
            i <= entries@.len(),
            forall|p: String| call_requires(*is_present, (p,)),
            src.len() == paths@.len() && yes.len() == paths@.len(),
            placed.len() == i && wit.len() == i,
            forall|j: int| 0 <= j < paths@.len() ==> 0 <= #[trigger] src[j] < i && offers(entries@[src[j]]@, paths@[j]@),
            forall|j: int| 0 <= j < paths@.len() ==> (#[trigger] yes[j])@ == paths@[j]@ && call_ensures(*is_present, (yes[j],), true),
            forall|k: int| 0 <= k < i && search_path_of(entries@[k]@) is Some ==>
                (0 <= #[trigger] placed[k] < paths@.len() && offers(entries@[k]@, paths@[placed[k]]@))
                || (offers(entries@[k]@, wit[k]@) && call_ensures(*is_present, (wit[k],), false)),
        decreases entries@.len() - i,
    {
        let ghost e = entries@[i as int]@;
        let ghost mut here: int = -1;
        let ghost mut why: String = vstd::pervasive::arbitrary();
        match bytes_as_str(entries[i].as_slice()) {
            Some(text) => {
                proof {
                    vstd::utf8::encode_utf8_decode_utf8(text@);
                    assert(encode_utf8(text@) == e);
                    assert(text@ == decode_utf8(e));
                }
                let normalized = normalize_path_chars(&str_chars(text));
                if normalized.len() > 0 && normalized.len() < MAX_SEARCH_CHARS {
                    let path = string_from_chars(&normalized);
                    let arg = path.clone();
                    let ghost a = arg;
                    let shown = is_present(arg);
                    proof {
                        assert(offers(e, path@));
                        assert(call_ensures(*is_present, (a,), shown));
                    }
                    if shown {
                        proof {
                            here = paths@.len() as int;
                            src = src.push(i as int);
                            yes = yes.push(a);
                        }
                        paths.push(path);
                    } else {
                        proof {
                            why = a;
                        }
                    }
                } else {
                    proof {
                        assert(search_path_of(e) is None);
                    }
                }
            },
            None => {
                proof {
                    assert(search_path_of(e) is None);
                }
            },
        }
        proof {
            placed = placed.push(here);
            wit = wit.push(why);
        }
        i += 1;
    }
    proof {
        assert forall|j: int| 0 <= j < paths@.len() implies #[trigger] offered_by(entries@, paths@[j]@) by {
            assert(offers(entries@[src[j]]@, paths@[j]@));
        }
        assert forall|j: int| 0 <= j < paths@.len() implies #[trigger] answers(*is_present, paths@[j]@, true) by {
            assert(yes[j]@ == paths@[j]@ && call_ensures(*is_present, (yes[j],), true));
        }
        assert forall|k: int| 0 <= k < entries@.len() && (#[trigger] search_path_of(entries@[k]@)) is Some implies
            lists(paths@, search_path_of(entries@[k]@)->0) || answers(*is_present, search_path_of(entries@[k]@)->0, false) by {
            if 0 <= placed[k] < paths@.len() && offers(entries@[k]@, paths@[placed[k]]@) {
                assert(paths@[placed[k]]@ == search_path_of(entries@[k]@)->0);
            } else {
                assert(wit[k]@ == search_path_of(entries@[k]@)->0 && call_ensures(*is_present, (wit[k],), false));
            }
        }
    }
    paths
}

/// Whether `r` is a selection of the search paths of `entries` by `is_present`: each listed
/// path is offered by an entry and was accepted, and each entry's search path is listed unless
/// `is_present` turned it down.
pub open spec fn tracked_selection<F: Fn(String) -> bool>(entries: Seq<Vec<u8>>, is_present: F, r: Seq<String>) -> bool {
    &&& forall|j: int| 0 <= j < r.len() ==> #[trigger] offered_by(entries, r[j]@)
    &&& forall|j: int| 0 <= j < r.len() ==> #[trigger] answers(is_present, r[j]@, true)
    &&& forall|k: int| 0 <= k < entries.len() && (#[trigger] search_path_of(entries[k]@)) is Some ==>
        lists(r, search_path_of(entries[k]@)->0) || answers(is_present, search_path_of(entries[k]@)->0, false)
}

/// The search offers exactly the tracked files that are there: where the presence check never
/// turns a path down, the search path of every index entry that is UTF-8 and normalises to a
/// non-empty path within the length limit is offered (the last entry as much as any); where it
/// never accepts one, nothing is offered.
pub proof fn law_tracked_paths_offered<F: Fn(String) -> bool>(entries: Seq<Vec<u8>>, is_present: F, r: Seq<String>)
    requires
        tracked_selection(entries, is_present, r),
    ensures
        (forall|p: String| !(#[trigger] call_ensures(is_present, (p,), false))) ==>
            forall|k: int| 0 <= k < entries.len() && (#[trigger] search_path_of(entries[k]@)) is Some ==> lists(r, search_path_of(entries[k]@)->0),
        (forall|p: String| !(#[trigger] call_ensures(is_present, (p,), true))) ==> r.len() == 0,
{
    if r.len() > 0 && (forall|p: String| !(#[trigger] call_ensures(is_present, (p,), true))) {
        assert(answers(is_present, r[0]@, true));
    }
}

/// The tracked paths of the index that name files present under `workdir`: the search paths of
/// the index entries (see `tracked_paths_among`) whose file is there.
fn tracked_file_paths(repo: &gix::Repository, workdir: &str) -> (r: Result<Vec<String>, git2::Error>)
    ensures
        r matches Ok(paths) ==> forall|i: int| 0 <= i < paths@.len() ==> (#[trigger] paths@[i])@.len() < MAX_SEARCH_CHARS,
{
    let entries = index_entry_paths(repo)?;
    let paths = tracked_paths_among(&entries, &|p: String| is_file(join_path(workdir, p.as_str()).as_str()));
    proof {
        assert forall|i: int| 0 <= i < paths@.len() implies (#[trigger] paths@[i])@.len() < MAX_SEARCH_CHARS by {
            assert(offered_by(entries@, paths@[i]@));
            let k = choose|k: int| 0 <= k < entries@.len() && offers(#[trigger] entries@[k]@, paths@[i]@);
        }
    }
    Ok(paths)
}

/// Search the tracked files of the working tree for `query` (trimmed), best matches first, at
/// most `limit` of them (see `rank_file_paths`): nothing for an empty query, a zero limit or a
/// repository without a working tree. Queries and paths are searched up to the length limit of
/// the ranking; a longer query finds nothing, longer paths are left out.
pub fn search_tracked_files(repo: &git2::Repository, query: &str, limit: usize) -> (r: Result<Vec<FileSearchResult>, git2::Error>)
    ensures
        trim_seq(query@).len() == 0 || limit == 0 ==> r is Ok,
        r matches Ok(v) ==> v@.len() <= limit && (trim_seq(query@).len() == 0 ==> v@.len() == 0),
        r matches Ok(v) ==> ranked_for_some_paths(trim_seq(query@), limit, v@),
{
    let trimmed = trim_chars(&str_chars(query));
    let (workdir, _) = git2_repo_dirs(repo);
    let ghost none = Seq::<Seq<char>>::empty();
    let workdir = match workdir {
        Some(workdir) => workdir,
        None => {
            let v: Vec<FileSearchResult> = Vec::new();
            assert(ranked_among(none, trim_seq(query@), limit, v@));
            return Ok(v);
        },
    };
    if trimmed.len() == 0 || limit == 0 || trimmed.len() >= MAX_SEARCH_CHARS {
        let v: Vec<FileSearchResult> = Vec::new();
        assert(ranked_among(none, trim_seq(query@), limit, v@));
        return Ok(v);
    }
    let query_text = string_from_chars(&trimmed);
    let gix_repo = open_repo(workdir.as_str())?;
    let paths = tracked_file_paths(&gix_repo, workdir.as_str())?;
    let v = rank_file_paths(paths.as_slice(), query_text.as_str(), limit);
    assert(ranked_among(crate::files::paths_view(paths@), trim_seq(query@), limit, v@));
    Ok(v)
}

} // verus!
