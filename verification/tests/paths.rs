use ble_calculator_native::paths::is_database_path;

#[test]
fn recognizes_app_database_path() {
    assert!(is_database_path("/tmp/evolve-calc.sqlite3"));
}

#[test]
fn database_path_is_judged_by_its_final_component() {
    assert!(is_database_path("evolve-calc.sqlite3"));
    assert!(is_database_path("data/evolve-calc.sqlite3/"));
    assert!(!is_database_path("/tmp/evolve-calc.sqlite3.bak"));
    assert!(!is_database_path("/tmp/evolve-calc.sqlite3/.."));
    assert!(!is_database_path("/tmp/other.sqlite3"));
    assert!(!is_database_path(""));
}
