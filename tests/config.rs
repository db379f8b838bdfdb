use talent_loadouts::config::{Config, ConfigError};

#[test]
fn test_example_config_is_valid() {
    let config = Config::example();
    assert!(config.validate().is_ok());
}

#[test]
fn test_empty_characters_fails_validation() {
    let mut config = Config::example();
    config.characters.clear();
    assert!(config.validate().is_err());
}

#[test]
fn test_character_without_class_fails_validation() {
    let mut config = Config::example();
    config.characters[0].class = String::new();
    assert!(config.validate().is_err());
}

#[test]
fn test_character_without_specs_fails_validation() {
    let mut config = Config::example();
    config.characters[0].specializations.clear();
    assert!(config.validate().is_err());
}

#[test]
fn validation_reports_each_error() {
    let mut config = Config::example();
    config.characters.clear();
    assert_eq!(config.validate(), Err(ConfigError::NoCharacters));

    let mut config = Config::example();
    config.raid_difficulties.clear();
    config.raid_bosses.clear();
    config.dungeons.clear();
    assert_eq!(config.validate(), Err(ConfigError::NoContent));

    let mut config = Config::example();
    config.characters[1].class = String::new();
    assert_eq!(config.validate(), Err(ConfigError::MissingClass));

    let mut config = Config::example();
    config.characters[1].specializations.clear();
    assert_eq!(config.validate(), Err(ConfigError::MissingSpecializations));

    let mut config = Config::example();
    config.raid_bosses.clear();
    config.raid_difficulties.clear();
    assert_eq!(config.validate(), Ok(()));
}
