use vstd::prelude::*;
use vstd::string::StringExecFns;
use crate::git_types::open_repo;
use crate::text::{chars_lt, lemma_seq_lt_asym, lemma_seq_lt_trans, seq_lt, str_chars, string_from_chars, trim_seq};

verus! {

broadcast use vstd::seq_lib::group_to_multiset_ensures;

/// The config key naming the remote this tool prefers.
pub const GUITAR_DEFAULT_REMOTE_CONFIG: &'static str = "guitar.defaultRemote";
/// Git's config key for the default push remote.
pub const PUSH_DEFAULT_CONFIG: &'static str = "remote.pushDefault";

/// A configured remote: its name, fetch URL (empty when it has none) and push URL if set.
#[derive(Debug, Clone, PartialEq, Eq)]
pub struct RemoteEntry {
    pub name: String,
    pub url: String,
    pub push_url: Option<String>,
}


/// `Repository::remote_names`: the names of the configured remotes, as bytes. They come from a
/// `BTreeSet`, so no name occurs twice; which names are configured is not stated.
#[verifier::external_body]
fn remote_names(repo: &gix::Repository) -> (r: Vec<Vec<u8>>)
    ensures
        forall|i: int, j: int| 0 <= i < j < r@.len() ==> (#[trigger] r@[i])@ != (#[trigger] r@[j])@,
{
    repo.remote_names().into_iter().map(|name| name.to_vec()).collect()
}

/// `Repository::find_remote` then `Remote::url(Direction::Fetch)` as text (empty when the
/// remote has none). What is configured decides, so nothing is stated.
#[verifier::external_body]
fn remote_fetch_url(repo: &gix::Repository, name: &str) -> Result<String, git2::Error> {
    let remote = repo.find_remote(name).map_err(|error| git2::Error::from_str(&error.to_string()))?;
    Ok(remote.url(gix::remote::Direction::Fetch).map(|url| url.to_string()).unwrap_or_default())
}

/// `config_snapshot().string(key)` read as UTF-8 text (`None` when unset or not UTF-8). What is
/// configured decides, so nothing is stated.
#[verifier::external_body]
pub(crate) fn config_text(repo: &gix::Repository, key: &str) -> Option<String> {
    let value = repo.config_snapshot().string(key)?;
    gix::bstr::ByteSlice::to_str(value.as_slice()).ok().map(|text| text.to_string())
}

/// `Repository::head_name` shortened (`refs/heads/main` gives `main`), as UTF-8 text; `None`
/// when HEAD is detached or unreadable. What is on disk decides, so nothing is stated.
#[verifier::external_body]
fn head_branch_name(repo: &gix::Repository) -> Option<String> {
    let name = repo.head_name().ok().flatten()?;
    let short: &[u8] = name.shorten();
    gix::bstr::ByteSlice::to_str(short).ok().map(|text| text.to_string())
}

/// `ByteSlice::to_str` into an owned string: the text of UTF-8 bytes, `None` otherwise.
#[verifier::external_body]
fn utf8_string(bytes: &Vec<u8>) -> (r: Option<String>)
    ensures
        r is Some <==> vstd::utf8::valid_utf8(bytes@),
        r matches Some(s) ==> vstd::utf8::encode_utf8(s@) == bytes@,
{
    gix::bstr::ByteSlice::to_str(bytes.as_slice()).ok().map(|text| text.to_string())
}

pub open spec fn names_of(remotes: Seq<RemoteEntry>) -> Seq<Seq<char>> {
    remotes.map_values(|r: RemoteEntry| r.name@)
}

pub open spec fn origin_name() -> Seq<char> {
    seq!['o', 'r', 'i', 'g', 'i', 'n']
}

/// A configured remote name, trimmed, when a remote of that name exists.
pub open spec fn configured_remote(names: Seq<Seq<char>>, value: Option<Seq<char>>) -> Option<Seq<char>> {
    match value {
        Some(v) => if names.contains(trim_seq(v)) { Some(trim_seq(v)) } else { None },
        None => None,
    }
}

/// The remote to use by default: the one named by `guitar.defaultRemote`, else by
/// `remote.pushDefault`, else the current branch's upstream remote, else `origin`, else the
/// first remote; each configured name counts only when that remote exists. `None` without
/// remotes.
pub open spec fn default_remote(
    names: Seq<Seq<char>>,
    guitar_default: Option<Seq<char>>,
    push_default: Option<Seq<char>>,
    upstream: Option<Seq<char>>,
) -> Option<Seq<char>> {
    if names.len() == 0 {
        None
    } else if configured_remote(names, guitar_default) is Some {
        configured_remote(names, guitar_default)
    } else if configured_remote(names, push_default) is Some {
        configured_remote(names, push_default)
    } else if configured_remote(names, upstream) is Some {
        configured_remote(names, upstream)
    } else if names.contains(origin_name()) {
        Some(origin_name())
    } else {
        Some(names[0])
    }
}

fn remote_exists(remotes: &[RemoteEntry], name: &String) -> (b: bool)
    ensures
        b == names_of(remotes@).contains(name@),
{
    let mut i: usize = 0;
    while i < remotes.len()
        invariant
            i <= remotes@.len(),
            forall|k: int| 0 <= k < i ==> remotes@[k].name@ != name@,
        decreases remotes@.len() - i,
    {
        if remotes[i].name == *name {
            assert(names_of(remotes@)[i as int] == name@);
            return true;
        }
        i += 1;
    }
    proof {
        if names_of(remotes@).contains(name@) {
            let k = choose|k: int| 0 <= k < names_of(remotes@).len() && names_of(remotes@)[k] == name@;
            assert(remotes@[k].name@ == name@);
        }
    }
    false
}

/// The configured remote name `value`, trimmed, when that remote exists.
fn configured_remote_exec(remotes: &[RemoteEntry], value: Option<String>) -> (r: Option<String>)
    ensures
        match r {
            Some(s) => configured_remote(names_of(remotes@), match value { Some(v) => Some(v@), None => None }) == Some(s@),
            None => configured_remote(names_of(remotes@), match value { Some(v) => Some(v@), None => None }) is None,
        },
{
    match value {
        None => None,
        Some(v) => {
            let chars = str_chars(v.as_str());
            let trimmed = string_from_chars(&crate::text::trim_chars(&chars));
            if remote_exists(remotes, &trimmed) {
                Some(trimmed)
            } else {
                None
            }
        },
    }
}

/// The default remote among `remotes` for the given config values (see `default_remote`).
pub fn choose_default_remote(
    remotes: &[RemoteEntry],
    guitar_default: Option<String>,
    push_default: Option<String>,
    upstream: Option<String>,
) -> (r: Option<String>)
    ensures
        match r {
            Some(s) => default_remote(
                names_of(remotes@),
                match guitar_default { Some(v) => Some(v@), None => None },
                match push_default { Some(v) => Some(v@), None => None },
                match upstream { Some(v) => Some(v@), None => None },
            ) == Some(s@),
            None => default_remote(
                names_of(remotes@),
                match guitar_default { Some(v) => Some(v@), None => None },
                match push_default { Some(v) => Some(v@), None => None },
                match upstream { Some(v) => Some(v@), None => None },
            ) is None,
        },
{
    if remotes.len() == 0 {
        return None;
    }
    if let Some(remote) = configured_remote_exec(remotes, guitar_default) {
        return Some(remote);
    }
    if let Some(remote) = configured_remote_exec(remotes, push_default) {
        return Some(remote);
    }
    if let Some(remote) = configured_remote_exec(remotes, upstream) {
        return Some(remote);
    }
    let origin = String::from_str("origin");
    proof {
        reveal_strlit("origin");
        assert(origin@ =~= origin_name());
    }
    if remote_exists(remotes, &origin) {
        return Some(origin);
    }
    assert(names_of(remotes@)[0] == remotes@[0].name@);
    Some(remotes[0].name.clone())
}

/// `prefix + middle + suffix`.
fn join3(prefix: &str, middle: &str, suffix: &str) -> (s: String)
    ensures
        s@ == prefix@ + middle@ + suffix@,
{
    let mut s = String::from_str(prefix);
    s.append(middle);
    s.append(suffix);
    s
}

/// The upstream remote configured for the current branch (`branch.<name>.remote`).
fn current_branch_upstream(repo: &gix::Repository) -> Option<String> {
    match head_branch_name(repo) {
        None => None,
        Some(branch) => {
            let key = join3("branch.", branch.as_str(), ".remote");
            config_text(repo, key.as_str())
        },
    }
}

/// The text of an optional string.
pub open spec fn text_of(o: Option<String>) -> Option<Seq<char>> {
    match o {
        Some(v) => Some(v@),
        None => None,
    }
}

/// The default remote among `remotes`, with `guitar.defaultRemote` and `remote.pushDefault` as
/// `config` reads them and the branch's `upstream`: `None` without remotes (nothing is read
/// then), else `default_remote` of the remotes' names and those values, in that order.
pub fn resolve_default_remote_with<C: Fn(&str) -> Option<String>>(remotes: &[RemoteEntry], config: &C, upstream: Option<String>) -> (r: Option<String>)
    requires
        forall|key: &str| call_requires(*config, (key,)),
    ensures
        remotes@.len() == 0 ==> r is None,
        remotes@.len() > 0 ==> exists|g: Option<String>, p: Option<String>|
            #![trigger call_ensures(*config, (GUITAR_DEFAULT_REMOTE_CONFIG,), g), call_ensures(*config, (PUSH_DEFAULT_CONFIG,), p)]
            call_ensures(*config, (GUITAR_DEFAULT_REMOTE_CONFIG,), g) && call_ensures(*config, (PUSH_DEFAULT_CONFIG,), p)
            && text_of(r) == default_remote(names_of(remotes@), text_of(g), text_of(p), text_of(upstream)),
{
    if remotes.len() == 0 {
        return None;
    }
    let guitar_default = config(GUITAR_DEFAULT_REMOTE_CONFIG);
    let push_default = config(PUSH_DEFAULT_CONFIG);
    let ghost g = guitar_default;
    let ghost p = push_default;
    let r = choose_default_remote(remotes, guitar_default, push_default, upstream);
    proof {
        assert(text_of(g) == (match g { Some(v) => Some(v@), None => None }));
        assert(text_of(r) == default_remote(names_of(remotes@), text_of(g), text_of(p), text_of(upstream)));
    }
    r
}

/// The default remote for every choice of config values: the remote `guitar.defaultRemote`
/// names wins, then the one `remote.pushDefault` names, then the upstream's, then `origin`, then
/// the first remote; a named remote counts only when it exists, and the answer is always one of
/// the remotes.
pub proof fn law_default_remote_precedence(names: Seq<Seq<char>>, guitar_default: Option<Seq<char>>, push_default: Option<Seq<char>>, upstream: Option<Seq<char>>)
    ensures
        names.len() == 0 <==> default_remote(names, guitar_default, push_default, upstream) is None,
        default_remote(names, guitar_default, push_default, upstream) matches Some(s) ==> names.contains(s),
        names.len() > 0 && configured_remote(names, guitar_default) is Some ==>
            default_remote(names, guitar_default, push_default, upstream) == configured_remote(names, guitar_default),
        names.len() > 0 && configured_remote(names, guitar_default) is None && configured_remote(names, push_default) is Some ==>
            default_remote(names, guitar_default, push_default, upstream) == configured_remote(names, push_default),
        names.len() > 0 && configured_remote(names, guitar_default) is None && configured_remote(names, push_default) is None
            && configured_remote(names, upstream) is Some ==>
            default_remote(names, guitar_default, push_default, upstream) == configured_remote(names, upstream),
        names.len() > 0 && configured_remote(names, guitar_default) is None && configured_remote(names, push_default) is None
            && configured_remote(names, upstream) is None ==>
            default_remote(names, guitar_default, push_default, upstream) == (if names.contains(origin_name()) { Some(origin_name()) } else { Some(names[0]) }),
        forall|v: Seq<char>| #[trigger] configured_remote(names, Some(v)) == (if names.contains(trim_seq(v)) { Some(trim_seq(v)) } else { None }),
{
    if names.len() > 0 {
        assert(names.contains(names[0]));
    }
}

fn resolve_effective_default_remote(repo: &gix::Repository, remotes: &[RemoteEntry]) -> (r: Option<String>)
    ensures
        remotes@.len() == 0 <==> r is None,
        r matches Some(s) ==> names_of(remotes@).contains(s@),
{
    if remotes.len() == 0 {
        return None;
    }
    let upstream = current_branch_upstream(repo);
    let r = resolve_default_remote_with(remotes, &|key: &str| config_text(repo, key), upstream);
    proof {
        let ghost u = upstream;
        assert(names_of(remotes@)[0] == remotes@[0].name@);
        assert(names_of(remotes@).len() > 0);
        law_default_remote_precedence(names_of(remotes@), None, None, None);
    }
    r
}

/// No two entries share a name.
pub open spec fn distinct_names(v: Seq<RemoteEntry>) -> bool {
    forall|i: int, j: int| 0 <= i < j < v.len() ==> (#[trigger] v[i]).name@ != (#[trigger] v[j]).name@
}

pub open spec fn sorted_by_name(v: Seq<RemoteEntry>) -> bool {
    forall|i: int, j: int| 0 <= i < j < v.len() ==> !seq_lt((#[trigger] v[j]).name@, (#[trigger] v[i]).name@)
}

/// The entries ordered by name; entries with equal names keep no particular order.
fn sort_by_name(entries: Vec<RemoteEntry>) -> (r: Vec<RemoteEntry>)
    ensures
        r@.to_multiset() == entries@.to_multiset(),
        sorted_by_name(r@),
        r@.len() == entries@.len(),
        distinct_names(entries@) ==> distinct_names(r@),
{
    let ghost input = entries@;
    let mut rest = entries;
    let mut out: Vec<RemoteEntry> = Vec::new();
    proof {
        assert(out@ + rest@ =~= input);
    }
    while rest.len() > 0
        invariant
            out@.to_multiset().add(rest@.to_multiset()) == input.to_multiset(),
            out@.len() + rest@.len() == input.len(),
            distinct_names(input) ==> distinct_names(out@ + rest@),
            sorted_by_name(out@),
            forall|i: int, j: int| 0 <= i < out@.len() && 0 <= j < rest@.len() ==> !seq_lt((#[trigger] rest@[j]).name@, (#[trigger] out@[i]).name@),
        decreases rest@.len(),
    {
        let mut best: usize = 0;
        let mut best_chars = str_chars(rest[0].name.as_str());
        let mut k: usize = 1;
        proof {
            lemma_seq_lt_asym(rest@[0].name@, rest@[0].name@);
        }
        while k < rest.len()
            invariant
                0 <= best < rest@.len(),
                k <= rest@.len(),
                best_chars@ == rest@[best as int].name@,
                forall|j: int| 0 <= j < k ==> !seq_lt((#[trigger] rest@[j]).name@, rest@[best as int].name@),
            decreases rest@.len() - k,
        {
            let chars = str_chars(rest[k].name.as_str());
            if chars_lt(&chars, &best_chars) {
                proof {
                    assert forall|j: int| 0 <= j < k + 1 implies !seq_lt((#[trigger] rest@[j]).name@, rest@[k as int].name@) by {
                        lemma_seq_lt_asym(rest@[j].name@, rest@[k as int].name@);
                        if j < k && seq_lt(rest@[j].name@, rest@[k as int].name@) {
                            lemma_seq_lt_trans(rest@[j].name@, rest@[k as int].name@, rest@[best as int].name@);
                        }
                    }
                }
                best = k;
                best_chars = chars;
            } else {
                proof {
                    lemma_seq_lt_asym(rest@[k as int].name@, rest@[best as int].name@);
                }
            }
            k += 1;
        }
        let ghost before_rest = rest@;
        let ghost before_out = out@;
        let entry = rest.remove(best);
        proof {
            assert(before_rest.remove(best as int).to_multiset() =~= before_rest.to_multiset().remove(entry));
            assert(out@.push(entry).to_multiset() =~= out@.to_multiset().insert(entry));
        }
        out.push(entry);
        proof {
            if distinct_names(input) {
                let old_all = before_out + before_rest;
                let all = out@ + rest@;
                let n = before_out.len();
                assert forall|i: int, j: int| 0 <= i < j < all.len() implies (#[trigger] all[i]).name@ != (#[trigger] all[j]).name@ by {
                    let fi = if i < n { i } else if i == n { n + best } else if i - n - 1 < best { i - 1 } else { i };
                    let fj = if j < n { j } else if j == n { n + best } else if j - n - 1 < best { j - 1 } else { j };
                    assert(all[i] == old_all[fi]);
                    assert(all[j] == old_all[fj]);
                    assert(fi != fj);
                    if fi < fj {
                        assert(old_all[fi].name@ != old_all[fj].name@);
                    } else {
                        assert(old_all[fj].name@ != old_all[fi].name@);
                    }
                }
            }
            assert forall|i: int, j: int| 0 <= i < out@.len() && 0 <= j < rest@.len() implies !seq_lt((#[trigger] rest@[j]).name@, (#[trigger] out@[i]).name@) by {
                let jj = if j < best { j } else { j + 1 };
                assert(rest@[j] == before_rest[jj]);
                if i < before_out.len() {
                    assert(out@[i] == before_out[i]);
                }
            }
            assert forall|i: int, j: int| 0 <= i < j < out@.len() implies !seq_lt((#[trigger] out@[j]).name@, (#[trigger] out@[i]).name@) by {
                if j < before_out.len() {
                    assert(out@[i] == before_out[i] && out@[j] == before_out[j]);
                } else {
                    assert(out@[i] == before_out[i]);
                    assert(out@[j] == before_rest[best as int]);
                }
            }
        }
    }
    assert(rest@.to_multiset() =~= vstd::multiset::Multiset::empty());
    assert(out@ + rest@ =~= out@);
    out
}

/// The remotes of a repository, ordered by name: each remote whose name is UTF-8, with its fetch
/// URL (empty when it has none) and its `remote.<name>.pushUrl`.
fn list_remotes_from_repo(repo: &gix::Repository) -> (r: Result<Vec<RemoteEntry>, git2::Error>)
    ensures
        r matches Ok(v) ==> sorted_by_name(v@) && distinct_names(v@),
{
    let names = remote_names(repo);
    let mut entries: Vec<RemoteEntry> = Vec::new();
    let mut i: usize = 0;
    while i < names.len()
        invariant
            i <= names@.len(),
            forall|a: int, b: int| 0 <= a < b < names@.len() ==> (#[trigger] names@[a])@ != (#[trigger] names@[b])@,
            distinct_names(entries@),
            forall|p: int| 0 <= p < entries@.len() ==> exists|k: int| 0 <= k < i
                && vstd::utf8::encode_utf8((#[trigger] entries@[p]).name@) == (#[trigger] names@[k])@,
        decreases names@.len() - i,
    {
        match utf8_string(&names[i]) {
            None => {},
            Some(name) => {
                proof {
                    assert forall|p: int| 0 <= p < entries@.len() implies (#[trigger] entries@[p]).name@ != name@ by {
                        let k = choose|k: int| 0 <= k < i && vstd::utf8::encode_utf8(entries@[p].name@) == (#[trigger] names@[k])@;
                        assert(names@[k]@ != names@[i as int]@);
                    }
                }
                let url = match remote_fetch_url(repo, name.as_str()) {
                    Ok(url) => url,
                    Err(e) => {
                        return Err(e);
                    },
                };
                let key = join3("remote.", name.as_str(), ".pushUrl");
                let push_url = config_text(repo, key.as_str());
                let ghost before = entries@;
                let ghost text = name@;
                entries.push(RemoteEntry { name, url, push_url });
                proof {
                    assert(entries@[before.len() as int].name@ == text);
                    assert forall|a: int, b: int| 0 <= a < b < entries@.len() implies (#[trigger] entries@[a]).name@ != (#[trigger] entries@[b]).name@ by {
                        if b < before.len() {
                            assert(entries@[a] == before[a] && entries@[b] == before[b]);
                        } else {
                            assert(entries@[a] == before[a]);
                        }
                    }
                    assert forall|p: int| 0 <= p < entries@.len() implies exists|k: int| 0 <= k < i + 1
                        && vstd::utf8::encode_utf8((#[trigger] entries@[p]).name@) == (#[trigger] names@[k])@ by {
                        if p < before.len() {
                            assert(entries@[p] == before[p]);
                            let k = choose|k: int| 0 <= k < i && vstd::utf8::encode_utf8(before[p].name@) == (#[trigger] names@[k])@;
                            assert(names@[k] == names@[k]);
                        } else {
                            assert(names@[i as int] == names@[i as int]);
                        }
                    }
                }
            },
        }
        i += 1;
    }
    Ok(sort_by_name(entries))
}

/// The remotes of the repository at `path`, ordered by name.
pub fn list_remotes(path: &str) -> (r: Result<Vec<RemoteEntry>, git2::Error>)
    ensures
        r matches Ok(v) ==> sorted_by_name(v@) && distinct_names(v@),
{
    match open_repo(path) {
        Ok(repo) => list_remotes_from_repo(&repo),
        Err(e) => Err(e),
    }
}

/// Whether `s` is the name of one of some remotes, ordered by name, that could be listed.
pub open spec fn listed_remote(s: Seq<char>) -> bool {
    exists|remotes: Seq<RemoteEntry>| #[trigger] sorted_by_name(remotes) && names_of(remotes).contains(s)
}

/// The default remote of the repository at `path`: `None` when it cannot be opened or read or
/// has no remotes, else one of the remotes listed (see `effective_default_remote_from_remotes`).
pub fn effective_default_remote(path: &str) -> (r: Option<String>)
    ensures
        r matches Some(s) ==> listed_remote(s@),
{
    let repo = match open_repo(path) {
        Ok(repo) => repo,
        Err(_) => {
            return None;
        },
    };
    match list_remotes_from_repo(&repo) {
        Ok(remotes) => {
            let r = resolve_effective_default_remote(&repo, remotes.as_slice());
            assert(r matches Some(s) ==> sorted_by_name(remotes@) && names_of(remotes@).contains(s@));
            r
        },
        Err(_) => None,
    }
}

/// The default remote among `remotes` for the repository at `path`: `None` when it cannot be
/// opened or `remotes` is empty, else one of `remotes` (see `default_remote`).
pub fn effective_default_remote_from_remotes(path: &str, remotes: &[RemoteEntry]) -> (r: Option<String>)
    ensures
        remotes@.len() == 0 ==> r is None,
        r matches Some(s) ==> names_of(remotes@).contains(s@),
{
    match open_repo(path) {
        Ok(repo) => resolve_effective_default_remote(&repo, remotes),
        Err(_) => None,
    }
}

} // verus!
