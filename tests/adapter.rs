use btleplug::adapter::{Adapter, CandidateReply, ConnectSearch, ConnectStep, RawNotification};
use btleplug::events::{CentralEvent, EventBus};
use btleplug::registry::{name_report, services_report, PeripheralProperties, Registry};
use btleplug::scan::ScanState;
use btleplug::types::{AdapterError, BDAddr, ManufacturerData, PeripheralId, ScanFilter};

fn id_of(v: u64) -> PeripheralId {
    PeripheralId::from_address(BDAddr::from_u64(v).unwrap())
}

fn notification(address: Option<u64>, properties: PeripheralProperties) -> RawNotification {
    RawNotification { address, properties }
}

fn named(name: &str) -> PeripheralProperties {
    let mut p = PeripheralProperties::unknown();
    p.local_name = Some(name.to_string());
    p
}

fn with_rssi(rssi: i16) -> PeripheralProperties {
    let mut p = PeripheralProperties::unknown();
    p.rssi = Some(rssi);
    p
}

#[test]
fn upsert_merge_keeps_earlier_fields() {
    let mut reg = Registry::new();
    let a = id_of(0x11);
    reg.upsert(a, named("pad"));
    reg.upsert(a, with_rssi(-40));
    let p = reg.get(&a).unwrap();
    assert_eq!(p.local_name.as_deref(), Some("pad"));
    assert_eq!(p.rssi, Some(-40));
    reg.upsert(a, named("mouth"));
    let p = reg.get(&a).unwrap();
    assert_eq!(p.local_name.as_deref(), Some("mouth"));
    assert_eq!(p.rssi, Some(-40));
    assert_eq!(reg.len(), 1);
}

#[test]
fn upsert_reports_new_once_per_address() {
    let mut reg = Registry::new();
    let a = id_of(1);
    let b = id_of(2);
    assert_eq!(reg.upsert(a, with_rssi(1)), (a, true));
    assert_eq!(reg.upsert(a, with_rssi(2)), (a, false));
    assert_eq!(reg.upsert(b, with_rssi(3)), (b, true));
    assert_eq!(reg.upsert(a, PeripheralProperties::unknown()), (a, false));
    assert_eq!(reg.len(), 2);
}

#[test]
fn registry_get_unknown_is_none() {
    let reg = Registry::new();
    assert!(reg.get(&id_of(5)).is_none());
    assert_eq!(reg.list().len(), 0);
}

#[test]
fn discovered_comes_before_updated() {
    let mut ad = Adapter::new();
    let s = ad.events();
    assert_eq!(ad.handle_notification(notification(Some(7), named("x"))), Ok(id_of(7)));
    assert_eq!(ad.handle_notification(notification(Some(7), with_rssi(-3))), Ok(id_of(7)));
    assert!(matches!(ad.next_event(s), Some(CentralEvent::DeviceDiscovered(id)) if id == id_of(7)));
    assert!(matches!(ad.next_event(s), Some(CentralEvent::DeviceUpdated(id)) if id == id_of(7)));
    assert!(ad.next_event(s).is_none());
}

#[test]
fn advertisement_events_follow_identity_event() {
    let mut ad = Adapter::new();
    let s = ad.events();
    let mut p = PeripheralProperties::unknown();
    p.manufacturer_data = Some(ManufacturerData { company_id: 0x004c, data: vec![1, 2, 3] });
    p.services = Some(vec![0x180d, 0x180f]);
    ad.handle_notification(notification(Some(9), p)).unwrap();
    assert!(matches!(ad.next_event(s), Some(CentralEvent::DeviceDiscovered(_))));
    match ad.next_event(s) {
        Some(CentralEvent::ManufacturerDataAdvertisement(id, m)) => {
            assert_eq!(id, id_of(9));
            assert_eq!(m.company_id, 0x004c);
            assert_eq!(m.data, vec![1, 2, 3]);
        }
        other => panic!("unexpected {:?}", other),
    }
    match ad.next_event(s) {
        Some(CentralEvent::ServicesAdvertisement(id, services)) => {
            assert_eq!(id, id_of(9));
            assert_eq!(services, vec![0x180d, 0x180f]);
        }
        other => panic!("unexpected {:?}", other),
    }
    assert!(ad.next_event(s).is_none());
    let p = ad.peripheral(&id_of(9)).unwrap();
    assert_eq!(ad.properties(&p).unwrap().services, Some(vec![0x180d, 0x180f]));
}

#[test]
fn late_subscriber_sees_only_later_events() {
    let mut ad = Adapter::new();
    ad.handle_notification(notification(Some(1), named("a"))).unwrap();
    let s = ad.events();
    ad.handle_notification(notification(Some(1), with_rssi(5))).unwrap();
    assert!(matches!(ad.next_event(s), Some(CentralEvent::DeviceUpdated(_))));
    assert!(ad.next_event(s).is_none());
}

#[test]
fn second_start_is_rejected_and_one_stop_returns_to_idle() {
    let mut ad = Adapter::new();
    assert_eq!(ad.start_scan(ScanFilter::new(vec![0xA])), Ok(()));
    assert_eq!(ad.scan_state(), ScanState::Starting);
    assert_eq!(ad.scan_started(true), Ok(()));
    assert_eq!(ad.scan_state(), ScanState::Scanning);
    assert_eq!(ad.start_scan(ScanFilter::new(vec![0xA])), Err(AdapterError::AlreadyScanning));
    assert_eq!(ad.scan_state(), ScanState::Scanning);
    assert!(ad.stop_scan());
    assert_eq!(ad.scan_stopped(true), Ok(()));
    assert_eq!(ad.scan_state(), ScanState::Idle);
}

#[test]
fn failed_platform_start_stays_idle() {
    let mut ad = Adapter::new();
    ad.start_scan(ScanFilter::new(vec![])).unwrap();
    assert_eq!(ad.scan_started(false), Err(AdapterError::PlatformUnavailable));
    assert_eq!(ad.scan_state(), ScanState::Idle);
}

#[test]
fn failed_platform_stop_stays_scanning() {
    let mut ad = Adapter::new();
    ad.start_scan(ScanFilter::new(vec![])).unwrap();
    ad.scan_started(true).unwrap();
    assert!(ad.stop_scan());
    assert_eq!(ad.scan_stopped(false), Err(AdapterError::PlatformUnavailable));
    assert_eq!(ad.scan_state(), ScanState::Scanning);
}

#[test]
fn stop_while_idle_is_a_no_op() {
    let mut ad = Adapter::new();
    assert!(!ad.stop_scan());
    assert_eq!(ad.scan_stopped(true), Ok(()));
    assert_eq!(ad.scan_state(), ScanState::Idle);
}

#[test]
fn malformed_notification_changes_nothing() {
    let mut ad = Adapter::new();
    let s = ad.events();
    ad.handle_notification(notification(Some(3), named("c"))).unwrap();
    assert!(ad.next_event(s).is_some());
    assert_eq!(
        ad.handle_notification(notification(None, named("ghost"))),
        Err(AdapterError::MalformedAddress)
    );
    assert_eq!(
        ad.handle_notification(notification(Some(1u64 << 48), named("wide"))),
        Err(AdapterError::MalformedAddress)
    );
    assert_eq!(ad.peripherals().len(), 1);
    assert!(ad.next_event(s).is_none());
}

#[test]
fn largest_address_is_accepted() {
    let mut ad = Adapter::new();
    let max = 0xFFFF_FFFF_FFFFu64;
    assert_eq!(ad.handle_notification(notification(Some(max), named("m"))), Ok(id_of(max)));
    assert!(BDAddr::from_u64(max + 1).is_none());
    assert_eq!(BDAddr::from_u64(max).unwrap().to_u64(), max);
}

#[test]
fn three_devices_listed_once_despite_updates() {
    let mut ad = Adapter::new();
    for a in [10u64, 20, 30] {
        ad.handle_notification(notification(Some(a), named("d"))).unwrap();
    }
    for round in 0..4 {
        for a in [10u64, 20, 30] {
            ad.handle_notification(notification(Some(a), with_rssi(round))).unwrap();
        }
    }
    let list = ad.peripherals();
    assert_eq!(list.len(), 3);
    assert_eq!(ad.peripheral_count(), 3);
    let mut ids: Vec<u64> = list.iter().map(|p| p.id().address.to_u64()).collect();
    ids.sort();
    assert_eq!(ids, vec![10, 20, 30]);
    for p in &list {
        assert_eq!(ad.properties(p).unwrap().rssi, Some(3));
        assert_eq!(ad.properties(p).unwrap().local_name.as_deref(), Some("d"));
    }
}

#[test]
fn peripheral_lookup_miss_is_device_not_found() {
    let ad = Adapter::new();
    assert!(matches!(ad.peripheral(&id_of(4)), Err(AdapterError::DeviceNotFound)));
}

#[test]
fn add_peripheral_is_unsupported() {
    let ad = Adapter::new();
    assert!(matches!(ad.add_peripheral(&id_of(4)), Err(AdapterError::Unsupported)));
}

#[test]
fn adapter_info_names_the_backend() {
    assert_eq!(Adapter::new().adapter_info(), "WinRT");
}

#[test]
fn connected_peripherals_no_match() {
    let mut ad = Adapter::new();
    let s = ad.events();
    let replies = vec![
        CandidateReply { address: 1, services: Some(vec![0x1, 0x2]) },
        CandidateReply { address: 2, services: Some(vec![0x3]) },
    ];
    let (r, consumed) = ad.connected_peripherals(ScanFilter::new(vec![0x99]), &replies);
    assert_eq!(r, Err(AdapterError::NoMatchingDevice));
    assert_eq!(consumed, 2);
    assert_eq!(ad.peripherals().len(), 0);
    assert!(ad.next_event(s).is_none());
}

#[test]
fn connected_peripherals_stops_at_second_of_three() {
    let mut ad = Adapter::new();
    let s = ad.events();
    let replies = vec![
        CandidateReply { address: 1, services: Some(vec![0x1]) },
        CandidateReply { address: 2, services: Some(vec![0x5, 0x99]) },
        CandidateReply { address: 3, services: Some(vec![0x99]) },
    ];
    let (r, consumed) = ad.connected_peripherals(ScanFilter::new(vec![0x99]), &replies);
    assert_eq!(r, Ok(id_of(2)));
    assert_eq!(consumed, 2);
    assert_eq!(ad.peripherals().len(), 1);
    assert!(matches!(ad.next_event(s), Some(CentralEvent::DeviceDiscovered(id)) if id == id_of(2)));
    assert!(ad.next_event(s).is_none());
}

#[test]
fn connected_peripherals_skips_failed_queries() {
    let mut ad = Adapter::new();
    let replies = vec![
        CandidateReply { address: 1, services: None },
        CandidateReply { address: 1u64 << 50, services: Some(vec![0x99]) },
        CandidateReply { address: 4, services: Some(vec![0x99]) },
    ];
    let (r, consumed) = ad.connected_peripherals(ScanFilter::new(vec![0x99]), &replies);
    assert_eq!(r, Ok(id_of(4)));
    assert_eq!(consumed, 3);
}

#[test]
fn connect_search_queries_one_at_a_time() {
    let mut ad = Adapter::new();
    let mut search = ConnectSearch::new(ScanFilter::new(vec![0x7]), 3);
    assert_eq!(search.step(), ConnectStep::Query(0));
    let miss = CandidateReply { address: 5, services: Some(vec![0x1]) };
    assert_eq!(ad.offer_candidate(&mut search, &miss), ConnectStep::Query(1));
    let hit = CandidateReply { address: 6, services: Some(vec![0x7]) };
    assert_eq!(ad.offer_candidate(&mut search, &hit), ConnectStep::Found(id_of(6)));
    assert_eq!(search.queried(), 2);
    assert_eq!(ad.offer_candidate(&mut search, &miss), ConnectStep::Found(id_of(6)));
    assert_eq!(search.queried(), 2);
}

#[test]
fn empty_candidate_list_has_no_match() {
    let mut ad = Adapter::new();
    let (r, consumed) = ad.connected_peripherals(ScanFilter::new(vec![]), &vec![]);
    assert_eq!(r, Err(AdapterError::NoMatchingDevice));
    assert_eq!(consumed, 0);
}

#[test]
fn empty_filter_matches_any_device() {
    let f = ScanFilter::new(vec![]);
    assert!(f.matches(&vec![]));
    assert!(f.matches(&vec![0x1]));
    let g = ScanFilter::new(vec![0x2, 0x3]);
    assert!(g.matches(&vec![0x9, 0x3]));
    assert!(!g.matches(&vec![0x9]));
    assert!(!g.matches(&vec![]));
}

#[test]
fn slow_subscriber_does_not_hold_back_another() {
    let mut ad = Adapter::new();
    let slow = ad.events();
    let healthy = ad.events();
    for a in 0..50u64 {
        ad.handle_notification(notification(Some(a), with_rssi(1))).unwrap();
        assert!(matches!(ad.next_event(healthy), Some(CentralEvent::DeviceDiscovered(id)) if id == id_of(a)));
    }
    assert!(ad.next_event(healthy).is_none());
    let mut backlog = 0;
    while ad.next_event(slow).is_some() {
        backlog += 1;
    }
    assert_eq!(backlog, 50);
}

#[test]
fn cancelled_subscriber_receives_nothing_more() {
    let mut bus = EventBus::new();
    let a = bus.subscribe();
    let b = bus.subscribe();
    bus.emit(&CentralEvent::StateUpdate);
    bus.unsubscribe(a);
    bus.emit(&CentralEvent::DeviceConnected(id_of(1)));
    assert!(bus.next_event(a).is_none());
    assert!(matches!(bus.next_event(b), Some(CentralEvent::StateUpdate)));
    assert!(matches!(bus.next_event(b), Some(CentralEvent::DeviceConnected(_))));
    assert_eq!(bus.subscriber_count(), 2);
}

#[test]
fn scan_filter_is_held_while_scanning() {
    let mut ad = Adapter::new();
    assert!(ad.scan_filter().is_none());
    ad.start_scan(ScanFilter::new(vec![0xA, 0xB])).unwrap();
    ad.scan_started(true).unwrap();
    assert_eq!(ad.scan_filter().unwrap().services, vec![0xA, 0xB]);
    assert_eq!(ad.start_scan(ScanFilter::new(vec![0xC])), Err(AdapterError::AlreadyScanning));
    assert_eq!(ad.scan_filter().unwrap().services, vec![0xA, 0xB]);
    assert!(ad.stop_scan());
    ad.scan_stopped(true).unwrap();
    assert!(ad.scan_filter().is_none());
}

#[test]
fn handles_taken_before_and_after_an_update_agree() {
    let mut ad = Adapter::new();
    ad.handle_notification(notification(Some(8), with_rssi(-70))).unwrap();
    let before = ad.peripheral(&id_of(8)).unwrap();
    ad.handle_notification(notification(Some(8), with_rssi(-20))).unwrap();
    let after = ad.peripheral(&id_of(8)).unwrap();
    assert_eq!(before, after);
    assert_eq!(before.id(), id_of(8));
    assert_eq!(ad.properties(&before).unwrap().rssi, Some(-20));
    assert_eq!(ad.properties(&after).unwrap().rssi, Some(-20));
}

#[test]
fn failed_stop_keeps_the_filter() {
    let mut ad = Adapter::new();
    ad.start_scan(ScanFilter::new(vec![0x5])).unwrap();
    ad.scan_started(true).unwrap();
    assert!(ad.stop_scan());
    assert_eq!(ad.scan_filter().unwrap().services, vec![0x5]);
    assert_eq!(ad.scan_stopped(false), Err(AdapterError::PlatformUnavailable));
    assert_eq!(ad.scan_filter().unwrap().services, vec![0x5]);
}

#[test]
fn empty_reports_count_as_absent() {
    assert_eq!(name_report(String::new()), None);
    assert_eq!(name_report("pad".to_string()), Some("pad".to_string()));
    assert_eq!(services_report(vec![]), None);
    assert_eq!(services_report(vec![0x1]), Some(vec![0x1]));
}
