use property_photos::permits::PermitCounter;

#[test]
fn permits_are_limited() {
    let mut c = PermitCounter::new(2);
    assert!(c.try_acquire());
    assert!(c.try_acquire());
    assert!(!c.try_acquire());
    assert_eq!(c.active(), 2);
    c.release();
    assert_eq!(c.active(), 1);
    assert!(c.try_acquire());
}
