use plinth::jobs::{cancel, CatalogJobs, JobKind, JobRegistry};

#[test]
fn a_second_catalog_writer_is_refused_by_name() {
    let mut registry = JobRegistry::new();
    let scan = registry.claim(JobKind::Scan).unwrap();

    let err = registry.claim(JobKind::Duplicate).unwrap_err();
    assert!(err
        .message()
        .ends_with("A catalog scan is running — scan for duplicates when it finishes"));
    // …and the reverse pairing, plus scan against itself
    assert!(registry.claim(JobKind::Geometry).is_err());
    assert!(registry.claim(JobKind::Scan).is_err());

    registry.release(scan);
    assert!(registry.claim(JobKind::Duplicate).is_ok());
}

#[test]
fn reading_files_overlaps_a_writer_but_not_a_mover() {
    let mut registry = JobRegistry::new();
    let dedupe = registry.claim(JobKind::Duplicate).unwrap();
    // opening a packed model only reads rows: it need not wait
    let extract = registry.claim(JobKind::Extract).unwrap();
    registry.release(extract);
    registry.release(dedupe);

    let pack = registry.claim(JobKind::Pack).unwrap();
    // …but packing deletes the very bytes an extraction is reading
    assert!(registry.claim(JobKind::Extract).is_err());
    registry.release(pack);
}

#[test]
fn cancelling_sets_the_flag_the_job_polls() {
    let mut registry = JobRegistry::new();
    let permit = registry.claim(JobKind::Geometry).unwrap();
    assert!(!permit.cancel_flag(&registry));
    let id = permit.id().to_string();
    assert!(cancel(&mut registry, &id));
    assert!(permit.cancel_flag(&registry));

    registry.release(permit);
    // a finished job's id no longer cancels anything
    assert!(!cancel(&mut registry, &id));
}

#[test]
fn job_ids_carry_their_kind() {
    let mut registry = JobRegistry::new();
    let scan = registry.claim(JobKind::Scan).unwrap();
    assert!(scan.id().starts_with("scan:"));
    assert!(scan.id().len() > "scan:".len());
    registry.release(scan);
    let pack = registry.claim(JobKind::Unpack).unwrap();
    assert!(pack.id().starts_with("pack:"));
    assert_eq!(pack.kind(), JobKind::Unpack);
}

#[test]
fn releasing_a_claim_leaves_the_registry_as_it_was() {
    let mut registry = JobRegistry::new();
    let extract = registry.claim(JobKind::Extract).unwrap();
    assert_eq!(registry.len(), 1);
    let scan = registry.claim(JobKind::Scan).unwrap();
    assert_eq!(registry.len(), 2);
    registry.release(scan);
    assert_eq!(registry.len(), 1);
    assert!(!registry.is_cancelled(extract.id()));
    registry.release(extract);
    assert_eq!(registry.len(), 0);
}

#[test]
fn labels_name_the_holder() {
    assert_eq!(JobKind::Scan.label(), "A catalog scan");
    assert_eq!(JobKind::Unpack.label(), "An unpack job");
    assert_eq!(JobKind::BatchRender.label(), "A batch render");
}

#[test]
fn catalog_jobs_cancel_only_while_registered() {
    let mut jobs = CatalogJobs::new();
    jobs.register_job("scan-1");
    assert!(!jobs.is_cancelled("scan-1"));
    assert!(jobs.cancel_catalog_job("scan-1").is_ok());
    assert!(jobs.is_cancelled("scan-1"));
    // registering again starts from a fresh flag
    jobs.register_job("scan-1");
    assert!(!jobs.is_cancelled("scan-1"));
    jobs.unregister_job("scan-1");
    let err = jobs.cancel_catalog_job("scan-1").unwrap_err();
    assert_eq!(err.message(), "No active catalog job with ID: scan-1");
}
