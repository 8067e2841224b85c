use vstd::prelude::*;
use vstd::utf8::encode_utf8;
use crate::refs::prefixed_name;

verus! {

/// The settings of a configuration file: for a section name, an optional subsection and a value
/// name, as `raw_value_by` looks them up, the value it gives (the last one written wins).
pub uninterp spec fn config_values(file: gix::config::File) -> Map<(Seq<char>, Option<Seq<u8>>, Seq<char>), Seq<u8>>;

/// A character in ASCII lower case.
pub open spec fn ascii_lower(c: char) -> char {
    if 'A' <= c <= 'Z' { ((c as u32) + 32) as char } else { c }
}

/// Whether two value names are the same to git, which ignores ASCII case in them.
pub open spec fn same_value_name(a: Seq<char>, b: Seq<char>) -> bool {
    a.len() == b.len() && forall|i: int| 0 <= i < a.len() ==> ascii_lower(#[trigger] a[i]) == ascii_lower(b[i])
}

/// `File::set_raw_value_by(section, Some(subsection), key, value)`: the value is written into the
/// last section of that name (a new one where there is none), over the last value of that name
/// in it or after its values. On success a lookup of the key gives `value`, and lookups of other
/// value names give what they gave. On an error (a name git does not accept) nothing is stated.
#[verifier::external_body]
fn set_raw_value(config: &mut gix::config::File, section: &str, subsection: &str, key: &str, value: &str) -> (r: Result<(), git2::Error>)
    ensures
        r is Ok ==> config_values(*final(config)).dom().contains((section@, Some(encode_utf8(subsection@)), key@)),
        r is Ok ==> config_values(*final(config))[(section@, Some(encode_utf8(subsection@)), key@)] == encode_utf8(value@),
        r is Ok ==> forall|k: (Seq<char>, Option<Seq<u8>>, Seq<char>)| !same_value_name(k.2, key@) ==> (
            #[trigger] config_values(*final(config)).dom().contains(k) == config_values(*old(config)).dom().contains(k)
            && config_values(*final(config))[k] == config_values(*old(config))[k]),
{
    let subsection = gix::bstr::ByteSlice::as_bstr(subsection.as_bytes());
    let value = gix::bstr::ByteSlice::as_bstr(value.as_bytes());
    config.set_raw_value_by(section, Some(subsection), key, value).map(|_| ()).map_err(|error| git2::Error::from_str(&error.to_string()))
}

/// `File::remove_section(section, Some(subsection))`: removes the last section of that name;
/// false where there is none, and then the file is unchanged.
#[verifier::external_body]
fn remove_section(config: &mut gix::config::File, section: &str, subsection: &str) -> (removed: bool)
    ensures
        !removed ==> config_values(*final(config)) == config_values(*old(config)),
{
    config.remove_section(section, Some(gix::bstr::ByteSlice::as_bstr(subsection.as_bytes()))).is_some()
}

/// `File::rename_section(section, Some(subsection), section, Some(new_subsection))`: every section
/// of that name takes the new subsection. `Ok(false)` where there is none, and then the file is
/// unchanged; after `Ok(true)` no value is found under the old subsection, unless it is the new
/// one.
#[verifier::external_body]
fn rename_section(config: &mut gix::config::File, section: &str, subsection: &str, new_subsection: &str) -> (r: Result<bool, git2::Error>)
    ensures
        r matches Ok(false) ==> config_values(*final(config)) == config_values(*old(config)),
        r matches Ok(true) && subsection@ != new_subsection@ ==> forall|k: Seq<char>|
            !#[trigger] config_values(*final(config)).dom().contains((section@, Some(encode_utf8(subsection@)), k)),
{
    let (old, new) = (gix::bstr::ByteSlice::as_bstr(subsection.as_bytes()), gix::bstr::BString::from(new_subsection));
    match config.rename_section(section, Some(old), section, Some(new)) {
        Ok(()) => Ok(true),
        Err(error) if error.is_not_found() => Ok(false),
        Err(error) => Err(git2::Error::from_str(&error.to_string())),
    }
}

/// The value of `key` in the `branch` section of `branch`, if there is one.
pub open spec fn branch_setting(config: gix::config::File, branch: Seq<char>, key: Seq<char>) -> Option<Seq<u8>> {
    let k = ("branch"@, Some(encode_utf8(branch)), key);
    if config_values(config).dom().contains(k) { Some(config_values(config)[k]) } else { None }
}

/// Record the upstream of `branch`: `branch.<branch>.remote` becomes `remote` and
/// `branch.<branch>.merge` becomes `refs/heads/<branch>`. Other settings keep their values.
pub fn set_branch_upstream_in(config: &mut gix::config::File, branch: &str, remote: &str) -> (r: Result<(), git2::Error>)
    ensures
        r is Ok ==> branch_setting(*final(config), branch@, "remote"@) == Some(encode_utf8(remote@)),
        r is Ok ==> branch_setting(*final(config), branch@, "merge"@) == Some(encode_utf8("refs/heads/"@ + branch@)),
        r is Ok ==> forall|k: (Seq<char>, Option<Seq<u8>>, Seq<char>)| !same_value_name(k.2, "remote"@) && !same_value_name(k.2, "merge"@) ==> (
            #[trigger] config_values(*final(config)).dom().contains(k) == config_values(*old(config)).dom().contains(k)
            && config_values(*final(config))[k] == config_values(*old(config))[k]),
{
    let merge_ref = prefixed_name("refs/heads/", branch);
    set_raw_value(config, "branch", branch, "remote", remote)?;
    let ghost mid = *config;
    set_raw_value(config, "branch", branch, "merge", merge_ref.as_str())?;
    proof {
        reveal_strlit("remote");
        reveal_strlit("merge");
        let k = ("branch"@, Some(encode_utf8(branch@)), "remote"@);
        assert(!same_value_name(k.2, "merge"@));
    }
    Ok(())
}

/// Remove the configuration section of `branch`, where there is one (the last one, where there
/// are several); false where there is none, and then nothing changes.
pub fn remove_branch_config_in(config: &mut gix::config::File, branch: &str) -> (removed: bool)
    ensures
        !removed ==> config_values(*final(config)) == config_values(*old(config)),
{
    remove_section(config, "branch", branch)
}

/// Move the configuration of branch `old_name` to `new_name`: every section of the old branch
/// takes the new name. `Ok(false)` where there is none, and then nothing changes; after
/// `Ok(true)` no setting is left under a different old name.
pub fn rename_branch_config_in(config: &mut gix::config::File, old_name: &str, new_name: &str) -> (r: Result<bool, git2::Error>)
    ensures
        r matches Ok(false) ==> config_values(*final(config)) == config_values(*old(config)),
        r matches Ok(true) && old_name@ != new_name@ ==> forall|k: Seq<char>| #[trigger] branch_setting(*final(config), old_name@, k) is None,
{
    let r = rename_section(config, "branch", old_name, new_name);
    proof {
        if r matches Ok(true) {
            if old_name@ != new_name@ {
                assert forall|k: Seq<char>| #[trigger] branch_setting(*config, old_name@, k) is None by {
                    assert(!config_values(*config).dom().contains(("branch"@, Some(encode_utf8(old_name@)), k)));
                }
            }
        }
    }
    r
}

} // verus!
