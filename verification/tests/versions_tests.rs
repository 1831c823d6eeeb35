use klyradb::engine::DbType;
use klyradb::versions::{families, latest, major_key, major_match, SUPPORTED_MAJORS};

#[test]
fn every_engine_lists_stable_families_newest_first() {
    for db in DbType::all() {
        let fams = families(db);
        assert!(!fams.is_empty(), "{} has no families", db.as_str());
        assert!(fams.len() <= SUPPORTED_MAJORS);
        assert_eq!(latest(db), Some(fams[0]));
    }
}

#[test]
fn major_key_handles_single_and_dotted_majors() {
    assert_eq!(major_key("17.4", false), "17");
    assert_eq!(major_key("8.4.2", true), "8.4");
    assert_eq!(major_key("18", false), "18");
}

#[test]
fn major_match_respects_family_shape() {
    assert!(major_match("17.4", "17"));
    assert!(major_match("8.4.2", "8.4"));
    assert!(!major_match("8.0.1", "8.4"));
    assert!(!major_match("16.2", "17"));
}

#[test]
fn every_family_matches_its_own_patch_releases() {
    for db in DbType::all() {
        for fam in families(db) {
            assert!(major_match(&format!("{fam}.3"), fam), "{fam}");
        }
    }
}
