use vstd::prelude::*;
use crate::chunk::NONE;
use crate::git_types::{oid_as_bytes, oid_bytes, oid_eq};
use vstd::string::StringSliceAdditionalSpecFns;

verus! {

#[verifier::external_type_specification]
#[verifier::external_body]
pub struct ExGit2Oid(git2::Oid);

/// `Clone` of `git2::Oid`, which is `Copy`: the same id.
pub assume_specification[ <git2::Oid as Clone>::clone ](oid: &git2::Oid) -> (r: git2::Oid)
    ensures
        r == *oid,
;

/// The bytes of a git2 object id.
pub uninterp spec fn git2_oid_bytes(oid: git2::Oid) -> Seq<u8>;

/// `ObjectId::null(Kind::Sha1)`: the all-zero SHA-1 id.
#[verifier::external_body]
fn null_oid() -> (oid: gix::ObjectId)
    ensures
        oid_bytes(oid) == Seq::new(20, |i: int| 0u8),
{
    gix::ObjectId::null(gix::hash::Kind::Sha1)
}

/// `ObjectId::from_bytes_or_panic(oid.as_bytes())`: the same id as a gix id. git2 ids have 20
/// bytes, which gix reads as SHA-1.
#[verifier::external_body]
pub fn git2_to_gix_oid(oid: git2::Oid) -> (r: gix::ObjectId)
    ensures
        oid_bytes(r) == git2_oid_bytes(oid),
{
    gix::ObjectId::from_bytes_or_panic(oid.as_bytes())
}

/// `Oid::from_bytes(oid.as_bytes()).unwrap()`: the same id as a git2 id; the source panics on
/// ids that are not 20 bytes long.
#[verifier::external_body]
pub fn gix_to_git2_oid(oid: gix::ObjectId) -> (r: git2::Oid)
    requires
        oid_bytes(oid).len() == 20,
    ensures
        git2_oid_bytes(r) == oid_bytes(oid),
{
    git2::Oid::from_bytes(oid.as_bytes()).unwrap()
}

/// Ids that can be turned into gix ids.
pub trait IntoGixOid {
    /// The bytes of the id.
    spec fn id_bytes(&self) -> Seq<u8>;

    fn into_gix_oid(self) -> (r: gix::ObjectId)
        ensures
            oid_bytes(r) == self.id_bytes(),
    ;
}

impl IntoGixOid for gix::ObjectId {
    open spec fn id_bytes(&self) -> Seq<u8> {
        oid_bytes(*self)
    }

    fn into_gix_oid(self) -> (r: gix::ObjectId) {
        self
    }
}

impl IntoGixOid for git2::Oid {
    open spec fn id_bytes(&self) -> Seq<u8> {
        git2_oid_bytes(*self)
    }

    fn into_gix_oid(self) -> (r: gix::ObjectId) {
        git2_to_gix_oid(self)
    }
}

/// The value of a hexadecimal digit.
pub open spec fn hex_value(byte: u8) -> Option<u8> {
    if 48 <= byte <= 57 {
        Some((byte - 48) as u8)
    } else if 97 <= byte <= 102 {
        Some((byte - 97 + 10) as u8)
    } else if 65 <= byte <= 70 {
        Some((byte - 65 + 10) as u8)
    } else {
        None
    }
}

pub fn hex_nibble(byte: u8) -> (r: Option<u8>)
    ensures
        r == hex_value(byte),
{
    if 48 <= byte && byte <= 57 {
        Some(byte - 48)
    } else if 97 <= byte && byte <= 102 {
        Some(byte - 97 + 10)
    } else if 65 <= byte && byte <= 70 {
        Some(byte - 65 + 10)
    } else {
        None
    }
}

/// The `idx`-th hexadecimal digit of `bytes` (high nibble first).
pub open spec fn nibble_at(bytes: Seq<u8>, idx: int) -> u8 {
    if idx % 2 == 0 { bytes[idx / 2] >> 4u8 } else { bytes[idx / 2] & 0x0fu8 }
}

/// Whether the hexadecimal text `prefix` (either case) begins the id's hexadecimal form.
pub open spec fn hex_prefix_of(bytes: Seq<u8>, prefix: Seq<u8>) -> bool {
    prefix.len() <= 2 * bytes.len() && forall|i: int| 0 <= i < prefix.len() ==> hex_value(#[trigger] prefix[i]) == Some(nibble_at(bytes, i))
}

/// Whether scanning `prefix` against the id runs past the id's digits: the source indexes past
/// the id there and panics.
pub open spec fn prefix_scan_overruns(bytes: Seq<u8>, prefix: Seq<u8>) -> bool {
    prefix.len() > 2 * bytes.len() && hex_prefix_of(bytes, prefix.take(2 * bytes.len() as int)) && hex_value(prefix[2 * bytes.len() as int]) is Some
}

/// Whether `prefix` (hexadecimal, either case) is a prefix of the id's hexadecimal form.
pub fn oid_starts_with_hex_prefix(oid: &gix::ObjectId, prefix: &str) -> (r: bool)
    requires
        !prefix_scan_overruns(oid_bytes(*oid), prefix.spec_bytes()),
    ensures
        r == hex_prefix_of(oid_bytes(*oid), prefix.spec_bytes()),
{
    let bytes = oid_as_bytes(oid);
    let text = prefix.as_bytes();
    let mut idx: usize = 0;
    while idx < text.len()
        invariant
            idx <= text@.len(),
            text@ == prefix.spec_bytes(),
            bytes@ == oid_bytes(*oid),
            idx <= 2 * bytes@.len(),
            !prefix_scan_overruns(bytes@, text@),
            forall|i: int| 0 <= i < idx ==> hex_value(#[trigger] text@[i]) == Some(nibble_at(bytes@, i)),
        decreases text@.len() - idx,
    {
        let nibble = match hex_nibble(text[idx]) {
            None => {
                return false;
            },
            Some(n) => n,
        };
        if idx / 2 >= bytes.len() {
            proof {
                assert(idx == 2 * bytes@.len());
                assert(hex_prefix_of(bytes@, text@.take(2 * bytes@.len() as int)));
            }
            return false;
        }
        let oid_byte = bytes[idx / 2];
        let oid_nibble = if idx % 2 == 0 { oid_byte >> 4u8 } else { oid_byte & 0x0fu8 };
        if nibble != oid_nibble {
            return false;
        }
        idx += 1;
    }
    true
}

/// A map from object ids to their aliases.
#[verifier::external_body]
pub struct AliasIndex {
    map: std::collections::HashMap<gix::ObjectId, u32>,
}

/// The aliases an `AliasIndex` holds, by id bytes.
pub uninterp spec fn alias_index_contents(m: AliasIndex) -> Map<Seq<u8>, u32>;

impl AliasIndex {
    /// `HashMap::new`: no ids.
    #[verifier::external_body]
    pub(crate) fn new() -> (m: AliasIndex)
        ensures
            (alias_index_contents(m) == Map::<Seq<u8>, u32>::empty()),
    {
        AliasIndex { map: std::collections::HashMap::new() }
    }

    /// `HashMap::get`: the alias stored for the id, if any.
    #[verifier::external_body]
    pub(crate) fn get(&self, oid: &gix::ObjectId) -> (r: Option<u32>)
        ensures
            r == (if alias_index_contents(*self).dom().contains(oid_bytes(*oid)) {
                Some(alias_index_contents(*self)[oid_bytes(*oid)])
            } else {
                None
            }),
    {
        self.map.get(oid).copied()
    }

    /// `HashMap::insert`: store the alias for the id.
    #[verifier::external_body]
    pub(crate) fn insert(&mut self, oid: gix::ObjectId, alias: u32)
        ensures
            alias_index_contents(*final(self)) == alias_index_contents(*old(self)).insert(oid_bytes(oid), alias),
    {
        self.map.insert(oid, alias);
    }

    /// `HashMap::shrink_to_fit`: the entries stay.
    #[verifier::external_body]
    pub(crate) fn shrink_to_fit(&mut self)
        ensures
            alias_index_contents(*final(self)) == alias_index_contents(*old(self)),
    {
        self.map.shrink_to_fit();
    }

    /// `HashMap::capacity`: how many entries fit without reallocating; at least the entries
    /// held, which this contract does not state.
    #[verifier::external_body]
    pub(crate) fn capacity(&self) -> usize {
        self.map.capacity()
    }
}

/// Object ids stored once, each with a small numeric alias (in order of first sight) that UI
/// data structures pass around; plus the graph's row order and the stash commits, by alias.
pub struct Oids {
    pub zero: gix::ObjectId,
    /// The id of each alias, by alias.
    pub by_alias: Vec<gix::ObjectId>,
    pub index: AliasIndex,
    pub sorted_aliases: Vec<u32>,
    pub stashes: Vec<u32>,
}

/// `Vec::capacity`: how many items fit without reallocating, never fewer than it holds.
#[verifier::external_body]
fn vec_capacity(v: &Vec<u32>) -> (c: usize)
    ensures
        c >= v@.len(),
{
    v.capacity()
}

/// `Vec::shrink_to_fit`: the items stay.
#[verifier::external_body]
fn vec_shrink_to_fit(v: &mut Vec<u32>)
    ensures
        final(v)@ == old(v)@,
{
    v.shrink_to_fit()
}

impl Default for Oids {
    fn default() -> (o: Oids)
        ensures
            o.wf(),
            o.by_alias@.len() == 0,
            o.sorted_aliases@ == seq![NONE],
            o.stashes@.len() == 0,
    {
        Oids::new()
    }
}

impl Oids {
    /// Each alias names one id and the index maps each id's bytes to its alias.
    pub open spec fn wf(&self) -> bool {
        &&& self.by_alias@.len() <= u32::MAX
        &&& forall|a: int, b: int| 0 <= a < b < self.by_alias@.len() ==> oid_bytes(#[trigger] self.by_alias@[a]) != oid_bytes(#[trigger] self.by_alias@[b])
        &&& forall|a: int| 0 <= a < self.by_alias@.len() ==> alias_index_contents(self.index).dom().contains(oid_bytes(#[trigger] self.by_alias@[a]))
            && alias_index_contents(self.index)[oid_bytes(self.by_alias@[a])] == a
        &&& forall|k: Seq<u8>| #[trigger] alias_index_contents(self.index).dom().contains(k) ==> alias_index_contents(self.index)[k] < self.by_alias@.len()
            && oid_bytes(self.by_alias@[alias_index_contents(self.index)[k] as int]) == k
    }

    /// Whether two values hold the same ids, aliases, graph order and stashes.
    pub open spec fn same_contents(&self, other: Oids) -> bool {
        &&& self.zero == other.zero
        &&& self.by_alias@ == other.by_alias@
        &&& self.index == other.index
        &&& self.sorted_aliases@ == other.sorted_aliases@
        &&& self.stashes@ == other.stashes@
    }

    /// The alias of an id's bytes, if it has one.
    pub open spec fn alias_of(&self, bytes: Seq<u8>) -> Option<u32> {
        if alias_index_contents(self.index).dom().contains(bytes) {
            Some(alias_index_contents(self.index)[bytes])
        } else {
            None
        }
    }

    /// No ids; the graph order starts with the row for uncommitted changes (`NONE`).
    pub fn new() -> (o: Oids)
        ensures
            o.wf(),
            o.by_alias@.len() == 0,
            o.sorted_aliases@ == seq![NONE],
            o.stashes@.len() == 0,
            oid_bytes(o.zero) == Seq::new(20, |i: int| 0u8),
    {
        let o = Oids { zero: null_oid(), by_alias: Vec::new(), index: AliasIndex::new(), sorted_aliases: vec![NONE], stashes: Vec::new() };
        assert(o.sorted_aliases@ =~= seq![NONE]);
        o
    }

    /// The alias of `oid`, giving it the next alias when it has none.
    pub fn get_alias_by_oid<O: IntoGixOid>(&mut self, oid: O) -> (alias: u32)
        requires
            old(self).wf(),
            old(self).alias_of(oid.id_bytes()) is None ==> old(self).by_alias@.len() < u32::MAX,
        ensures
            final(self).wf(),
            alias == match old(self).alias_of(oid.id_bytes()) {
                Some(a) => a,
                None => old(self).by_alias@.len() as u32,
            },
            final(self).alias_of(oid.id_bytes()) == Some(alias),
            final(self).by_alias@ == (if old(self).alias_of(oid.id_bytes()) is Some {
                old(self).by_alias@
            } else {
                old(self).by_alias@.push(final(self).by_alias@.last())
            }),
            final(self).sorted_aliases@ == old(self).sorted_aliases@,
            final(self).stashes@ == old(self).stashes@,
            final(self).zero == old(self).zero,
    {
        let oid = oid.into_gix_oid();
        if let Some(alias) = self.index.get(&oid) {
            return alias;
        }
        let alias = self.by_alias.len() as u32;
        let ghost before = self.by_alias@;
        proof {
            assert forall|a: int| 0 <= a < before.len() implies oid_bytes(#[trigger] before[a]) != oid_bytes(oid) by {
                assert(alias_index_contents(self.index).dom().contains(oid_bytes(before[a])));
            }
        }
        self.by_alias.push(oid);
        self.index.insert(oid, alias);
        proof {
            let m = alias_index_contents(self.index);
            assert forall|a: int| 0 <= a < self.by_alias@.len() implies m.dom().contains(oid_bytes(#[trigger] self.by_alias@[a]))
                && m[oid_bytes(self.by_alias@[a])] == a by {
                if a < before.len() {
                    assert(self.by_alias@[a] == before[a]);
                }
            }
            assert forall|k: Seq<u8>| #[trigger] m.dom().contains(k) implies m[k] < self.by_alias@.len() && oid_bytes(self.by_alias@[m[k] as int]) == k by {
                if k != oid_bytes(oid) {
                    assert(self.by_alias@[m[k] as int] == before[m[k] as int]);
                }
            }
        }
        alias
    }

    /// The alias of `oid`, if it has one.
    pub fn get_existing_alias<O: IntoGixOid>(&self, oid: O) -> (r: Option<u32>)
        ensures
            r == self.alias_of(oid.id_bytes()),
    {
        let oid = oid.into_gix_oid();
        self.index.get(&oid)
    }

    /// The alias at row `idx` of the graph order.
    pub fn get_alias_by_idx(&self, idx: usize) -> (a: u32)
        requires
            idx < self.sorted_aliases@.len(),
        ensures
            a == self.sorted_aliases@[idx as int],
    {
        self.sorted_aliases[idx]
    }

    /// The id of an alias, or the zero id for an unknown alias.
    pub fn get_oid_by_alias(&self, alias: u32) -> (r: &gix::ObjectId)
        ensures
            *r == if alias < self.by_alias@.len() { self.by_alias@[alias as int] } else { self.zero },
    {
        if (alias as usize) < self.by_alias.len() {
            &self.by_alias[alias as usize]
        } else {
            &self.zero
        }
    }

    /// The id of an alias as a git2 id (the zero id for an unknown alias).
    pub fn get_git2_oid_by_alias(&self, alias: u32) -> (r: git2::Oid)
        requires
            forall|a: int| 0 <= a < self.by_alias@.len() ==> oid_bytes(#[trigger] self.by_alias@[a]).len() == 20,
            oid_bytes(self.zero).len() == 20,
        ensures
            git2_oid_bytes(r) == oid_bytes(if alias < self.by_alias@.len() { self.by_alias@[alias as int] } else { self.zero }),
    {
        gix_to_git2_oid(*self.get_oid_by_alias(alias))
    }

    /// The graph order of aliases.
    pub fn get_sorted_aliases(&self) -> (r: &Vec<u32>)
        ensures
            r@ == self.sorted_aliases@,
    {
        &self.sorted_aliases
    }

    /// Append an alias to the graph order.
    pub fn append_sorted_alias(&mut self, alias: u32)
        ensures
            final(self).sorted_aliases@ == old(self).sorted_aliases@.push(alias),
            final(self).by_alias@ == old(self).by_alias@,
            final(self).index == old(self).index,
            final(self).stashes@ == old(self).stashes@,
            final(self).zero == old(self).zero,
    {
        self.sorted_aliases.push(alias);
    }

    /// The number of graph rows.
    pub fn get_commit_count(&self) -> (n: usize)
        ensures
            n == self.sorted_aliases@.len(),
    {
        self.sorted_aliases.len()
    }

    /// The number of ids with an alias.
    pub fn len(&self) -> (n: usize)
        ensures
            n == self.by_alias@.len(),
    {
        self.by_alias.len()
    }

    /// How many aliases the index holds without reallocating.
    pub fn capacity(&self) -> usize {
        self.index.capacity()
    }

    /// The ids with an alias, in alias order.
    pub fn iter_oids(&self) -> (r: &Vec<gix::ObjectId>)
        ensures
            r@ == self.by_alias@,
    {
        &self.by_alias
    }

    /// Make room in the graph order for `additional` more aliases beyond its spare capacity.
    pub fn reserve_aliases(&mut self, additional: usize)
        requires
            old(self).wf(),
        ensures
            final(self).wf(),
            final(self).same_contents(*old(self)),
    {
        let spare = vec_capacity(&self.sorted_aliases).saturating_sub(self.sorted_aliases.len());
        if additional > spare {
            self.sorted_aliases.reserve(additional - spare);
        }
        proof {
            assert(self.sorted_aliases@ =~= old(self).sorted_aliases@);
        }
    }

    /// Make room in the graph order for `total` aliases and the row for uncommitted changes.
    pub fn reserve_total_aliases(&mut self, total: usize)
        requires
            old(self).wf(),
        ensures
            final(self).wf(),
            final(self).same_contents(*old(self)),
    {
        let target = total.saturating_add(1);
        let len = self.sorted_aliases.len();
        let spare = vec_capacity(&self.sorted_aliases).saturating_sub(len);
        if target > len + spare {
            self.sorted_aliases.reserve(target - len - spare);
        }
        proof {
            assert(self.sorted_aliases@ =~= old(self).sorted_aliases@);
        }
    }

    /// Release spare capacity everywhere; the aliases, graph order and stashes stay.
    pub fn shrink_to_fit(&mut self)
        requires
            old(self).wf(),
        ensures
            final(self).wf(),
            final(self).by_alias@ == old(self).by_alias@,
            final(self).sorted_aliases@ == old(self).sorted_aliases@,
            final(self).stashes@ == old(self).stashes@,
            alias_index_contents(final(self).index) == alias_index_contents(old(self).index),
    {
        self.index.shrink_to_fit();
        vec_shrink_to_fit(&mut self.sorted_aliases);
        vec_shrink_to_fit(&mut self.stashes);
    }

    /// Release spare index capacity; the aliases stay.
    pub fn compact_alias_index(&mut self)
        requires
            old(self).wf(),
        ensures
            final(self).wf(),
            final(self).by_alias@ == old(self).by_alias@,
            final(self).sorted_aliases@ == old(self).sorted_aliases@,
            final(self).stashes@ == old(self).stashes@,
            alias_index_contents(final(self).index) == alias_index_contents(old(self).index),
    {
        self.index.shrink_to_fit();
    }

    /// The alias of an id whose hexadecimal form starts with `prefix`, if some id's does (the
    /// first in alias order).
    pub fn get_alias_by_prefix(&self, prefix: &str) -> (r: Option<u32>)
        requires
            forall|a: int| 0 <= a < self.by_alias@.len() ==> !prefix_scan_overruns(oid_bytes(#[trigger] self.by_alias@[a]), prefix.spec_bytes()),
            self.by_alias@.len() <= u32::MAX,
        ensures
            match r {
                Some(a) => a < self.by_alias@.len() && hex_prefix_of(oid_bytes(self.by_alias@[a as int]), prefix.spec_bytes())
                    && forall|b: int| 0 <= b < a ==> !hex_prefix_of(oid_bytes(#[trigger] self.by_alias@[b]), prefix.spec_bytes()),
                None => forall|b: int| 0 <= b < self.by_alias@.len() ==> !hex_prefix_of(oid_bytes(#[trigger] self.by_alias@[b]), prefix.spec_bytes()),
            },
    {
        let mut i: usize = 0;
        while i < self.by_alias.len()
            invariant
                i <= self.by_alias@.len(),
                self.by_alias@.len() <= u32::MAX,
                forall|a: int| 0 <= a < self.by_alias@.len() ==> !prefix_scan_overruns(oid_bytes(#[trigger] self.by_alias@[a]), prefix.spec_bytes()),
                forall|b: int| 0 <= b < i ==> !hex_prefix_of(oid_bytes(#[trigger] self.by_alias@[b]), prefix.spec_bytes()),
            decreases self.by_alias@.len() - i,
        {
            assert(!prefix_scan_overruns(oid_bytes(self.by_alias@[i as int]), prefix.spec_bytes()));
            if oid_starts_with_hex_prefix(&self.by_alias[i], prefix) {
                return Some(i as u32);
            }
            i += 1;
        }
        None
    }

    /// Whether `oid` is the zero id.
    pub fn is_zero(&self, oid: &gix::ObjectId) -> (b: bool)
        ensures
            b == (oid_bytes(self.zero) == oid_bytes(*oid)),
    {
        oid_eq(&self.zero, oid)
    }
}

} // verus!
