use serial_bridge::registry::ClientRegistry;

#[test]
fn register_returns_strictly_increasing_ids() {
    let mut r = ClientRegistry::new();
    let mut last: Option<u64> = None;
    for _ in 0..50 {
        let id = r.register();
        if let Some(prev) = last {
            assert!(id > prev);
        }
        last = Some(id);
    }
    assert_eq!(r.len(), 50);
}

#[test]
fn ids_are_not_reused_after_removal() {
    let mut r = ClientRegistry::new();
    let a = r.register();
    let b = r.register();
    r.remove(a);
    r.remove(b);
    let c = r.register();
    assert!(c > b);
    assert!(b > a);
}

#[test]
fn remove_is_idempotent() {
    let mut r = ClientRegistry::new();
    let a = r.register();
    let b = r.register();
    let c = r.register();
    r.remove(b);
    let once = r.snapshot();
    r.remove(b);
    let twice = r.snapshot();
    assert_eq!(once, twice);
    assert_eq!(once, vec![a, c]);
}

#[test]
fn remove_of_absent_id_is_a_no_op() {
    let mut r = ClientRegistry::new();
    let a = r.register();
    r.remove(a + 17);
    assert_eq!(r.snapshot(), vec![a]);
    assert!(r.contains(a));
    assert!(!r.contains(a + 17));
}

#[test]
fn snapshot_lists_ids_in_registration_order() {
    let mut r = ClientRegistry::new();
    let a = r.register();
    let b = r.register();
    let c = r.register();
    assert_eq!(r.snapshot(), vec![a, b, c]);
    r.remove(b);
    assert_eq!(r.snapshot(), vec![a, c]);
    assert_eq!(r.len(), 2);
}

#[test]
fn empty_registry_contains_nothing() {
    let r = ClientRegistry::new();
    assert_eq!(r.len(), 0);
    assert!(!r.contains(0));
    assert_eq!(r.snapshot(), Vec::<u64>::new());
}
