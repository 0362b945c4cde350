use plinth::package_open::PendingPackageOpen;

#[test]
fn a_parked_package_is_handed_over_once() {
    let mut pending = PendingPackageOpen::new(Some("/x/release.3dpak".to_string()));
    assert_eq!(pending.take().as_deref(), Some("/x/release.3dpak"));
    assert_eq!(pending.take(), None);
    let mut nothing = PendingPackageOpen::new(None);
    assert_eq!(nothing.take(), None);
}
