use nakamoto::addrmgr::{is_unroutable, AddressManager, Endpoint, Source};

fn ip(a: u8, b: u8, c: u8, d: u8) -> u32 {
    u32::from_be_bytes([a, b, c, d])
}

fn ep(a: u8, b: u8, c: u8, d: u8) -> Endpoint {
    Endpoint { ip: ip(a, b, c, d), port: 8333 }
}

#[test]
fn refused_ranges() {
    for bad in [
        ip(0, 0, 0, 0),
        ip(10, 1, 2, 3),
        ip(127, 0, 0, 1),
        ip(169, 254, 1, 1),
        ip(172, 16, 0, 1),
        ip(172, 31, 255, 255),
        ip(192, 168, 1, 1),
        ip(100, 64, 0, 1),
        ip(100, 127, 255, 255),
        ip(192, 0, 2, 7),
        ip(198, 51, 100, 7),
        ip(203, 0, 113, 7),
        ip(198, 18, 0, 1),
        ip(198, 19, 255, 255),
        ip(224, 0, 0, 1),
        ip(239, 255, 255, 255),
        ip(240, 0, 0, 1),
        ip(255, 255, 255, 255),
    ] {
        assert!(is_unroutable(bad), "{:x}", bad);
    }
    for good in [
        ip(1, 1, 1, 1),
        ip(8, 8, 8, 8),
        ip(172, 15, 255, 255),
        ip(172, 32, 0, 0),
        ip(100, 63, 255, 255),
        ip(100, 128, 0, 0),
        ip(192, 0, 3, 1),
        ip(198, 20, 0, 0),
        ip(223, 255, 255, 255),
    ] {
        assert!(!is_unroutable(good), "{:x}", good);
    }
}

#[test]
fn insert_is_idempotent_and_filters() {
    let mut m = AddressManager::new();
    assert!(m.insert(ep(1, 2, 3, 4), Source::Dns, 1));
    assert!(!m.insert(ep(1, 2, 3, 4), Source::User, 9));
    assert!(!m.insert(ep(10, 0, 0, 1), Source::Dns, 1));
    assert_eq!(m.sample(0, &vec![]), Some(ep(1, 2, 3, 4)));
    assert_eq!(m.sample(0, &vec![ep(1, 2, 3, 4)]), None);
}

#[test]
fn sample_prefers_services_then_oldest_attempt() {
    let mut m = AddressManager::new();
    m.insert(ep(1, 0, 0, 1), Source::Dns, 1);
    m.insert(ep(1, 0, 0, 2), Source::Peer(7), 65);
    m.insert(ep(1, 0, 0, 3), Source::Imported, 65);
    // Both offer services 65; neither attempted: the first learned.
    assert_eq!(m.sample(65, &vec![]), Some(ep(1, 0, 0, 2)));
    m.record_attempt(ep(1, 0, 0, 2), 500);
    assert_eq!(m.sample(65, &vec![]), Some(ep(1, 0, 0, 3)));
    m.record_attempt(ep(1, 0, 0, 3), 400);
    assert_eq!(m.sample(65, &vec![]), Some(ep(1, 0, 0, 3)));
    m.record_success(ep(1, 0, 0, 3), 450);
    assert_eq!(m.sample(65, &vec![ep(1, 0, 0, 3)]), Some(ep(1, 0, 0, 2)));
    // Without the required services, the never-attempted one comes first.
    assert_eq!(
        m.sample(65, &vec![ep(1, 0, 0, 2), ep(1, 0, 0, 3)]),
        Some(ep(1, 0, 0, 1))
    );
    assert_eq!(m.sample(0, &vec![]), Some(ep(1, 0, 0, 1)));
}
