use elcron::config::{read_env_file, Config, ConfigError};

fn env_test_lines() -> Vec<String> {
    vec![
        "# test configuration".to_string(),
        "API_KEY=\"test_api_key\"".to_string(),
        "AREA=\"test_area\"".to_string(),
        "# COMMENTED_KEY=\"hidden\"".to_string(),
    ]
}

fn lookup(pairs: &[(String, String)], key: &str) -> Option<String> {
    pairs.iter().rev().find(|p| p.0 == key).map(|p| p.1.clone())
}

#[test]
fn test_read_env_file() {
    let pairs = read_env_file(&env_test_lines());
    assert!(lookup(&pairs, "API_KEY").is_some());
    assert_eq!(lookup(&pairs, "API_KEY").unwrap(), "test_api_key");
    assert!(lookup(&pairs, "AREA").is_some());
    assert_eq!(lookup(&pairs, "AREA").unwrap(), "test_area");
    assert!(lookup(&pairs, "COMMENTED_KEY").is_none());
}

#[test]
fn test_config_from_file() {
    let config = Config::from_file(&env_test_lines()).unwrap();
    assert_eq!(config.api_key, "test_api_key");
    assert_eq!(config.area, "test_area");
}

#[test]
fn test_config_missing_entries() {
    let no_key = vec!["AREA=fi".to_string()];
    assert!(matches!(Config::from_file(&no_key), Err(ConfigError::MissingApiKey)));
    let no_area = vec!["API_KEY=abc".to_string()];
    assert!(matches!(Config::from_file(&no_area), Err(ConfigError::MissingArea)));
}

#[test]
fn test_env_trimming_and_quotes() {
    let lines = vec!["  API_KEY  =  \"with space\"  ".to_string(), "AREA=plain".to_string()];
    let config = Config::from_file(&lines).unwrap();
    assert_eq!(config.api_key, "with space");
    assert_eq!(config.area, "plain");
}

#[test]
fn test_env_last_definition_wins() {
    let lines = vec![
        "API_KEY=first".to_string(),
        "AREA=fi".to_string(),
        "API_KEY=second".to_string(),
    ];
    let config = Config::from_file(&lines).unwrap();
    assert_eq!(config.api_key, "second");
}

#[test]
fn test_env_skips_lines_without_one_equals() {
    let pairs = read_env_file(&vec![
        "no equals here".to_string(),
        "a=b=c".to_string(),
        "KEY=value".to_string(),
    ]);
    assert_eq!(pairs.len(), 1);
    assert_eq!(pairs[0].0, "KEY");
    assert_eq!(pairs[0].1, "value");
}
