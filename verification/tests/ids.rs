use neogen::ids::{IdIssuer, RoverId};

#[test]
fn ids_are_sequential_from_one() {
    let mut issuer = IdIssuer::new();
    assert_eq!(issuer.issue(), RoverId::from_raw(1));
    assert_eq!(issuer.issue(), RoverId::from_raw(2));
    assert_eq!(issuer.issue(), RoverId::from_raw(3));
}

#[test]
fn cloned_issuers_continue_the_same_sequence() {
    let mut a = IdIssuer::new();
    a.issue();
    a.issue();
    let mut b = a;
    assert_eq!(a.issue(), b.issue());
}

#[test]
fn display_is_human_readable() {
    assert_eq!(RoverId::from_raw(7).label(), "rover#7");
}

#[test]
fn unknown_rover_helpers_stay_out() {
    let _ = RoverId::from_raw(1);
}

#[test]
fn raw_round_trips_through_from_raw() {
    assert_eq!(RoverId::from_raw(42).raw(), 42);
    assert_eq!(RoverId::from_raw(u32::MAX).raw(), u32::MAX);
}

#[test]
fn label_renders_zero_and_large_ids() {
    assert_eq!(RoverId::from_raw(0).label(), "rover#0");
    assert_eq!(RoverId::from_raw(4_294_967_295).label(), "rover#4294967295");
}

#[test]
fn resumed_issuer_starts_at_its_watermark() {
    let mut issuer = IdIssuer::resume(10);
    assert_eq!(issuer.next_raw(), 10);
    assert_eq!(issuer.issue(), RoverId::from_raw(10));
    assert_eq!(issuer.next_raw(), 11);
}

#[test]
fn issued_ids_ascend_strictly() {
    let mut issuer = IdIssuer::new();
    let mut last = issuer.issue();
    for _ in 0..100 {
        let next = issuer.issue();
        assert!(next.raw() > last.raw());
        last = next;
    }
}
