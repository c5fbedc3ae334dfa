use dev_storage_cleaner::config::{Config, DEFAULT_THRESHOLD_DAYS, MAX_THRESHOLD_DAYS};

#[test]
fn default_configuration_scans_the_home_directory() {
    let config = Config::default_in(Some("/home/me".to_string()));
    assert_eq!(config, Config { scan_path: "/home/me".to_string(), threshold_days: 30 });
    assert_eq!(DEFAULT_THRESHOLD_DAYS, 30);
    assert_eq!(MAX_THRESHOLD_DAYS, 365);
}

#[test]
fn default_configuration_without_a_home_scans_the_current_directory() {
    let config = Config::default_in(None);
    assert_eq!(config, Config { scan_path: ".".to_string(), threshold_days: 30 });
}

#[test]
fn load_keeps_what_was_stored() {
    let stored = Config { scan_path: "/data/work".to_string(), threshold_days: 90 };
    let config = Config::load(Some(stored.clone()), Some("/home/me".to_string()));
    assert_eq!(config, stored);
}

#[test]
fn load_falls_back_to_the_defaults() {
    let config = Config::load(None, Some("/home/me".to_string()));
    assert_eq!(config, Config { scan_path: "/home/me".to_string(), threshold_days: 30 });
    assert_eq!(Config::load(None, None), Config::default_in(None));
}
