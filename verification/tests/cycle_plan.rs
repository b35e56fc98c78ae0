//! Behaviour of one cycle's publish plan on concrete reports.

use bluetooth_scanner::allow_list::AllowList;
use bluetooth_scanner::cycle::plan_cycle;
use bluetooth_scanner::cycle::AdapterReport;
use bluetooth_scanner::cycle::Sighting;
use bluetooth_scanner::publish::build_topic;
use bluetooth_scanner::publish::decimal_bytes;

fn sighting(raw_id: &[u8], name: Option<&[u8]>, props_ok: bool) -> Sighting {
    Sighting {
        raw_id: raw_id.to_vec(),
        local_name: name.map(|n| n.to_vec()),
        props_ok,
    }
}

#[test]
fn zero_adapters_zero_publishes() {
    let reports: Vec<AdapterReport> = Vec::new();
    let allow = AllowList::from_config(&b"aabbcc".to_vec());
    let plan = plan_cycle(&reports, &allow, &b"bluetooth_scanner".to_vec(), 1700000000);
    assert_eq!(plan.len(), 0);
}

#[test]
fn adapter_with_no_peripherals_publishes_nothing() {
    let reports = vec![AdapterReport { adapter: b"hci0".to_vec(), sightings: Vec::new() }];
    let allow = AllowList::from_config(&b"aabbcc".to_vec());
    let plan = plan_cycle(&reports, &allow, &b"bluetooth_scanner".to_vec(), 1700000000);
    assert_eq!(plan.len(), 0);
}

#[test]
fn matched_peripheral_publishes_last_seen() {
    let reports = vec![AdapterReport {
        adapter: b"hci0".to_vec(),
        sightings: vec![sighting(b"hci0/dev_AA_BB_CC", Some(b"beacon"), true)],
    }];
    let allow = AllowList::from_config(&b"aabbcc".to_vec());
    let plan = plan_cycle(&reports, &allow, &b"prefix".to_vec(), 1700000000);
    assert_eq!(plan.len(), 1);
    assert_eq!(plan[0].topic, b"prefix/aabbcc/last_seen".to_vec());
    assert_eq!(plan[0].payload, b"1700000000".to_vec());
}

#[test]
fn unmatched_peripheral_not_published() {
    let reports = vec![AdapterReport {
        adapter: b"hci0".to_vec(),
        sightings: vec![sighting(b"hci0/dev_DD_EE_FF", None, true)],
    }];
    let allow = AllowList::from_config(&b"aabbcc".to_vec());
    let plan = plan_cycle(&reports, &allow, &b"prefix".to_vec(), 1700000000);
    assert_eq!(plan.len(), 0);
}

#[test]
fn failed_property_fetch_is_isolated() {
    let reports = vec![AdapterReport {
        adapter: b"hci0".to_vec(),
        sightings: vec![
            sighting(b"hci0/dev_AA_BB_CC", Some(b"one"), true),
            sighting(b"hci0/dev_DD_EE_FF", None, false),
            sighting(b"hci0/dev_11_22_33", Some(b"three"), true),
        ],
    }];
    let allow = AllowList::from_config(&b"aabbcc,ddeeff,112233".to_vec());
    let plan = plan_cycle(&reports, &allow, &b"p".to_vec(), 42);
    assert_eq!(plan.len(), 2);
    assert_eq!(plan[0].topic, b"p/aabbcc/last_seen".to_vec());
    assert_eq!(plan[1].topic, b"p/112233/last_seen".to_vec());
    assert_eq!(plan[0].payload, b"42".to_vec());
    assert_eq!(plan[1].payload, b"42".to_vec());
}

#[test]
fn adapters_processed_in_order() {
    let reports = vec![
        AdapterReport {
            adapter: b"hci0".to_vec(),
            sightings: vec![sighting(b"hci0/dev_AA_BB_CC", None, true)],
        },
        AdapterReport {
            adapter: b"hci1".to_vec(),
            sightings: vec![sighting(b"hci1/dev_DD_EE_FF", None, true)],
        },
    ];
    let allow = AllowList::from_config(&b"aabbcc,ddeeff".to_vec());
    let plan = plan_cycle(&reports, &allow, &b"p".to_vec(), 7);
    assert_eq!(plan.len(), 2);
    assert_eq!(plan[0].topic, b"p/aabbcc/last_seen".to_vec());
    assert_eq!(plan[1].topic, b"p/ddeeff/last_seen".to_vec());
}

#[test]
fn topic_shape_is_prefix_id_last_seen() {
    let topic = build_topic(&b"bluetooth_scanner".to_vec(), &b"aabbcc".to_vec());
    assert_eq!(topic, b"bluetooth_scanner/aabbcc/last_seen".to_vec());
}

#[test]
fn payload_is_decimal_timestamp() {
    assert_eq!(decimal_bytes(0), b"0".to_vec());
    assert_eq!(decimal_bytes(7), b"7".to_vec());
    assert_eq!(decimal_bytes(1234567890), b"1234567890".to_vec());
    assert_eq!(decimal_bytes(u64::MAX), b"18446744073709551615".to_vec());
}

#[test]
fn display_name_falls_back_to_unknown() {
    let named = sighting(b"x", Some(b"beacon"), true);
    assert_eq!(named.display_name(), b"beacon".to_vec());
    let unnamed = sighting(b"x", None, true);
    assert_eq!(unnamed.display_name(), b"<unknown>".to_vec());
}
