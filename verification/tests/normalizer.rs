//! Behaviour of the identifier normalizer on concrete inputs.

use bluetooth_scanner::normalize::normalize;

#[test]
fn strips_prefix_and_underscores() {
    let out = normalize(&b"hci0/dev_AA_BB_CC".to_vec());
    assert_eq!(out, b"aabbcc".to_vec());
}

#[test]
fn idempotent_on_samples() {
    let samples: Vec<Vec<u8>> = vec![
        b"hci0/dev_AA_BB_CC".to_vec(),
        b"HCI0/DEV_AA".to_vec(),
        b"plain-id".to_vec(),
        b"a_b_c".to_vec(),
        b"".to_vec(),
        b"hci12/dev_01_02_03".to_vec(),
    ];
    for raw in samples {
        let once = normalize(&raw);
        let twice = normalize(&once);
        assert_eq!(twice, once);
    }
}

#[test]
fn output_free_of_artifacts() {
    let out = normalize(&b"hci0/dev_AA_BB".to_vec());
    assert!(!out.contains(&b'_'));
    assert!(!out
        .windows(9)
        .any(|w| w == b"hci0/dev_"));
}

#[test]
fn lowercases_plain_input() {
    assert_eq!(normalize(&b"ABCdef".to_vec()), b"abcdef".to_vec());
}

#[test]
fn uppercase_prefix_also_stripped() {
    assert_eq!(normalize(&b"HCI0/DEV_AA".to_vec()), b"aa".to_vec());
}

#[test]
fn multi_digit_adapter_index() {
    assert_eq!(normalize(&b"hci12/dev_01_02".to_vec()), b"0102".to_vec());
}

#[test]
fn adapter_without_index() {
    assert_eq!(normalize(&b"hci/dev_XY".to_vec()), b"xy".to_vec());
}

#[test]
fn hci_without_dev_tag_is_kept() {
    assert_eq!(normalize(&b"hcidevice".to_vec()), b"hcidevice".to_vec());
}

#[test]
fn stray_underscores_removed() {
    assert_eq!(normalize(&b"a_b_c".to_vec()), b"abc".to_vec());
}

#[test]
fn empty_input() {
    assert_eq!(normalize(&b"".to_vec()), b"".to_vec());
}
