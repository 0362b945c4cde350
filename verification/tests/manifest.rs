use plinth::manifest::canonical_date;

#[test]
fn normalizes_builder_dates_and_passes_canonical_through() {
    assert_eq!(canonical_date("5/2026"), "2026-05");
    assert_eq!(canonical_date("12/2026"), "2026-12");
    assert_eq!(canonical_date("2026-05"), "2026-05");
    assert_eq!(canonical_date("nonsense"), "nonsense");
}
