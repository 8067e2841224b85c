use guitar::chunk::NONE;
use guitar::oids::{git2_to_gix_oid, gix_to_git2_oid, hex_nibble, oid_starts_with_hex_prefix, Oids};

fn oid(bytes: [u8; 20]) -> gix::ObjectId {
    gix::ObjectId::from_bytes_or_panic(&bytes)
}

#[test]
fn aliases_are_given_in_order_and_kept() {
    let mut oids = Oids::new();
    let a = oid([0xab; 20]);
    let b = oid([0x12; 20]);
    assert_eq!(oids.get_alias_by_oid(a), 0);
    assert_eq!(oids.get_alias_by_oid(b), 1);
    assert_eq!(oids.get_alias_by_oid(a), 0);
    assert_eq!(oids.len(), 2);
    assert_eq!(oids.get_existing_alias(b), Some(1));
    assert_eq!(oids.get_existing_alias(oid([0x99; 20])), None);
    assert_eq!(*oids.get_oid_by_alias(1), b);
    assert!(oids.is_zero(oids.get_oid_by_alias(7)));
    assert_eq!(oids.get_git2_oid_by_alias(0), gix_to_git2_oid(a));
    assert_eq!(oids.iter_oids(), &vec![a, b]);
}

#[test]
fn graph_order_starts_with_the_uncommitted_row() {
    let mut oids = Oids::default();
    assert_eq!(oids.get_sorted_aliases(), &vec![NONE]);
    oids.append_sorted_alias(4);
    assert_eq!(oids.get_commit_count(), 2);
    assert_eq!(oids.get_alias_by_idx(1), 4);
    oids.reserve_aliases(100);
    oids.reserve_total_aliases(100);
    oids.shrink_to_fit();
    oids.compact_alias_index();
    assert_eq!(oids.get_sorted_aliases(), &vec![NONE, 4]);
}

#[test]
fn hex_prefixes_match_either_case() {
    assert_eq!(hex_nibble(b'7'), Some(7));
    assert_eq!(hex_nibble(b'c'), Some(12));
    assert_eq!(hex_nibble(b'F'), Some(15));
    assert_eq!(hex_nibble(b'g'), None);
    let mut bytes = [0u8; 20];
    bytes[0] = 0xab;
    bytes[1] = 0xc1;
    let id = oid(bytes);
    assert!(oid_starts_with_hex_prefix(&id, "abC1"));
    assert!(oid_starts_with_hex_prefix(&id, ""));
    assert!(!oid_starts_with_hex_prefix(&id, "abd"));
    assert!(!oid_starts_with_hex_prefix(&id, "ab-"));
    let mut oids = Oids::new();
    oids.get_alias_by_oid(oid([0x11; 20]));
    oids.get_alias_by_oid(id);
    assert_eq!(oids.get_alias_by_prefix("AB"), Some(1));
    assert_eq!(oids.get_alias_by_prefix("1"), Some(0));
    assert_eq!(oids.get_alias_by_prefix("fe"), None);
}

#[test]
fn git2_and_gix_ids_convert_both_ways() {
    let id = git2::Oid::from_str("0123456789abcdef0123456789abcdef01234567").unwrap();
    let gix_id = git2_to_gix_oid(id);
    assert_eq!(gix_id.to_string(), "0123456789abcdef0123456789abcdef01234567");
    assert_eq!(gix_to_git2_oid(gix_id), id);
}
