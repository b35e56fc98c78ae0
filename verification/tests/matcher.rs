//! Behaviour of the allow-list on concrete configurations.

use bluetooth_scanner::allow_list::AllowList;
use bluetooth_scanner::normalize::normalize;

#[test]
fn empty_configuration_matches_nothing() {
    let list = AllowList::from_config(&b"".to_vec());
    assert_eq!(list.len(), 0);
    assert!(!list.contains_id(&b"aabbcc".to_vec()));
    assert!(!list.contains_id(&b"".to_vec()));
}

#[test]
fn single_entry_exact_membership() {
    let list = AllowList::from_config(&b"aabbcc".to_vec());
    assert_eq!(list.len(), 1);
    assert!(list.contains_id(&b"aabbcc".to_vec()));
    assert!(!list.contains_id(&b"ddeeff".to_vec()));
    assert!(!list.contains_id(&b"aabbc".to_vec()));
}

#[test]
fn comma_separated_entries() {
    let list = AllowList::from_config(&b"aabbcc,ddeeff".to_vec());
    assert_eq!(list.len(), 2);
    assert!(list.contains_id(&b"aabbcc".to_vec()));
    assert!(list.contains_id(&b"ddeeff".to_vec()));
    assert!(!list.contains_id(&b"gghhii".to_vec()));
}

#[test]
fn empty_fields_are_kept() {
    let list = AllowList::from_config(&b"a,,b".to_vec());
    assert_eq!(list.len(), 3);
    assert!(list.contains_id(&b"a".to_vec()));
    assert!(list.contains_id(&b"".to_vec()));
    assert!(list.contains_id(&b"b".to_vec()));
}

#[test]
fn trailing_comma_yields_empty_field() {
    let list = AllowList::from_config(&b"a,".to_vec());
    assert_eq!(list.len(), 2);
    assert!(list.contains_id(&b"a".to_vec()));
    assert!(list.contains_id(&b"".to_vec()));
}

#[test]
fn membership_is_post_normalization() {
    let list = AllowList::from_config(&b"aabbcc".to_vec());
    let canonical = normalize(&b"hci0/dev_AA_BB_CC".to_vec());
    assert!(list.contains_id(&canonical));
    let raw = b"hci0/dev_AA_BB_CC".to_vec();
    assert!(!list.contains_id(&raw));
}
