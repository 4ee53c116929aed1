use ft_vox::mods::{apply_step, ApplyStep, check_conditions, check_mods, duplicate_ids, version_incompatible, ModHeader, ModInfo, ModsConstructionError};

fn header(id: &str, major: u16, minor: u16) -> ModHeader {
    ModHeader {
        id: id.to_string(),
        compatible_engine_major_version: major,
        compatible_engine_minor_version: minor,
    }
}

fn names(v: &[&str]) -> Vec<String> {
    v.iter().map(|s| s.to_string()).collect()
}

fn pairs(v: &[ModInfo]) -> Vec<(String, String)> {
    v.iter().map(|m| (m.name().clone(), m.id().clone())).collect()
}

#[test]
fn compatible_distinct_mods_pass() {
    let n = names(&["a.so", "b.so"]);
    let h = vec![header("alpha", 1, 2), header("beta", 1, 0)];
    assert!(check_mods(&n, &h, 1, 2).is_ok());
    assert!(check_mods(&Vec::new(), &Vec::new(), 0, 0).is_ok());
}

#[test]
fn version_mismatch_lists_every_incompatible_mod() {
    let n = names(&["a.so", "b.so", "c.so"]);
    let h = vec![header("alpha", 2, 0), header("beta", 1, 1), header("gamma", 1, 3)];
    let v = version_incompatible(&n, &h, 1, 2);
    assert_eq!(pairs(&v), vec![("a.so".to_string(), "alpha".to_string()), ("c.so".to_string(), "gamma".to_string())]);
    match check_mods(&n, &h, 1, 2) {
        Err(ModsConstructionError::VersionIncompatible(v)) => assert_eq!(v.len(), 2),
        _ => panic!("expected a version error"),
    }
}

#[test]
fn duplicate_ids_list_every_sharing_mod() {
    let n = names(&["a.so", "b.so", "c.so", "d.so"]);
    let h = vec![header("x", 1, 0), header("y", 1, 0), header("x", 1, 0), header("z", 1, 0)];
    let d = duplicate_ids(&n, &h);
    assert_eq!(pairs(&d), vec![("a.so".to_string(), "x".to_string()), ("c.so".to_string(), "x".to_string())]);
    match check_mods(&n, &h, 1, 0) {
        Err(ModsConstructionError::DuplicateIds(v)) => assert_eq!(pairs(&v), pairs(&d)),
        _ => panic!("expected a duplicate-id error"),
    }
}

#[test]
fn version_errors_come_before_duplicates() {
    let n = names(&["a.so", "b.so"]);
    let h = vec![header("x", 1, 0), header("x", 3, 0)];
    match check_mods(&n, &h, 1, 0) {
        Err(ModsConstructionError::VersionIncompatible(v)) => {
            assert_eq!(pairs(&v), vec![("b.so".to_string(), "x".to_string())])
        }
        _ => panic!("expected a version error"),
    }
}

#[test]
fn failed_conditions_are_reported() {
    let n = names(&["a.so", "b.so"]);
    let h = vec![header("alpha", 1, 0), header("beta", 1, 0)];
    assert!(check_conditions(&n, &h, &vec![false, false]).is_ok());
    match check_conditions(&n, &h, &vec![false, true]) {
        Err(ModsConstructionError::ConditionNotMet(v)) => {
            assert_eq!(pairs(&v), vec![("b.so".to_string(), "beta".to_string())])
        }
        _ => panic!("expected a condition error"),
    }
    let info = ModInfo::new("a.so".to_string(), "alpha".to_string());
    assert_eq!(info.name(), "a.so");
    assert_eq!(info.id(), "alpha");
}

#[test]
fn tmap_insert_outcomes() {
    use_tmap();
}

fn use_tmap() {
    assert_eq!(ft_vox::tmap::insert_result(false, false), Ok(()));
    assert_eq!(ft_vox::tmap::insert_result(false, true), Ok(()));
    assert_eq!(
        ft_vox::tmap::insert_result(true, true),
        Err(ft_vox::tmap::TMapInsertError::AlreadyExist)
    );
    assert_eq!(ft_vox::tmap::TMapInsertError::AlreadyExist.to_string(), "AlreadyExist");
}

#[test]
fn apply_stops_at_first_failure() {
    let n = vec!["first".to_string(), "second".to_string(), "third".to_string()];
    let h = vec![
        ModHeader { id: "a".to_string(), compatible_engine_major_version: 1, compatible_engine_minor_version: 0 },
        ModHeader { id: "b".to_string(), compatible_engine_major_version: 1, compatible_engine_minor_version: 0 },
        ModHeader { id: "c".to_string(), compatible_engine_major_version: 1, compatible_engine_minor_version: 0 },
    ];
    assert!(matches!(apply_step(&n, &h, 0, false), ApplyStep::Apply(0)));
    assert!(matches!(apply_step(&n, &h, 1, false), ApplyStep::Apply(1)));
    match apply_step(&n, &h, 2, true) {
        ApplyStep::Stop(ModsConstructionError::FailedToLoad(m)) => {
            assert_eq!(m.name(), "second");
            assert_eq!(m.id(), "b");
        }
        _ => panic!("expected the second mod to be reported"),
    }
    assert!(matches!(apply_step(&n, &h, 3, false), ApplyStep::Done));
}
