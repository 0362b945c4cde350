use plinth::manifest::canonical_date;
use plinth::release::{
    component_check, import_dir_name, import_exists_error, model_folder, release_dir_name,
    release_not_found,
};

#[test]
fn staged_releases_are_named_designer_date_name() {
    assert_eq!(
        release_dir_name("Dragon Trappers", "5/2026", "Critter Folk").unwrap(),
        "dragon_trappers-05-2026-critter_folk"
    );
    assert_eq!(release_dir_name("DTL", " 12 / 2026 ", "x").unwrap(), "dtl-12-2026-x");
    for bad in ["13/2026", "2026-05", "5/2026/1", "may/2026", ""] {
        let err = release_dir_name("DTL", bad, "x").unwrap_err();
        assert_eq!(err.message(), format!("Invalid release date '{}': expected MM/YYYY", bad));
    }
}

#[test]
fn imported_releases_land_where_they_were_staged() {
    for date in ["5/2026", "12/2030", "01/1999"] {
        let staged = release_dir_name("Dragon Trappers", date, "Critter Folk").unwrap();
        let imported = import_dir_name("Dragon Trappers", &canonical_date(date), "Critter Folk");
        assert_eq!(staged, imported);
    }
    assert_eq!(import_dir_name("DTL", "undated", "x"), "dtl-undated-x");
}

#[test]
fn models_sit_in_their_group_folder() {
    assert_eq!(model_folder("Bog Hag", Some("Swamp Things"), '/'), "swamp_things/bog_hag");
    assert_eq!(model_folder("Bog Hag", None, '/'), "bog_hag");
}

#[test]
fn imported_components_are_checked_before_extraction() {
    assert_eq!(
        component_check("galeb", "galeb.zip", false, "", "blake3:aa"),
        Err("galeb: archive 'galeb.zip' is missing".to_string())
    );
    assert_eq!(
        component_check("galeb", "galeb.zip", true, "blake3:bb", "blake3:aa"),
        Err("galeb: checksum mismatch — the archive is corrupted or was modified".to_string())
    );
    assert_eq!(component_check("galeb", "galeb.zip", true, "blake3:aa", "blake3:aa"), Ok(()));
    assert_eq!(
        import_exists_error("/lib/x").message(),
        "'/lib/x' already exists — remove it first to re-import"
    );
    assert_eq!(release_not_found("/s/r").message(), "Release directory '/s/r' not found");
}
