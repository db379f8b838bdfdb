use talent_loadouts::wow::WowClass;

#[test]
fn test_parse_class_from_string() {
    assert_eq!(WowClass::from_str("Warrior"), Some(WowClass::Warrior));
    assert_eq!(WowClass::from_str("DeathKnight"), Some(WowClass::DeathKnight));
    assert_eq!(WowClass::from_str("DemonHunter"), Some(WowClass::DemonHunter));
    assert_eq!(WowClass::from_str("InvalidClass"), None);
}

#[test]
fn test_class_to_url_format() {
    assert_eq!(WowClass::Warrior.to_url_format(), "warrior");
    assert_eq!(WowClass::DeathKnight.to_url_format(), "death-knight");
    assert_eq!(WowClass::DemonHunter.to_url_format(), "demon-hunter");
}

#[test]
fn test_class_to_lua_format() {
    assert_eq!(WowClass::Warrior.to_lua_format(), "WARRIOR");
    assert_eq!(WowClass::DeathKnight.to_lua_format(), "DEATHKNIGHT");
    assert_eq!(WowClass::DemonHunter.to_lua_format(), "DEMONHUNTER");
}

#[test]
fn test_spec_indices() {
    assert_eq!(WowClass::Warrior.spec_index("arms"), Some(1));
    assert_eq!(WowClass::Warrior.spec_index("fury"), Some(2));
    assert_eq!(WowClass::Warrior.spec_index("protection"), Some(3));
    assert_eq!(WowClass::Warrior.spec_index("invalid"), None);

    assert_eq!(WowClass::DeathKnight.spec_index("blood"), Some(1));
    assert_eq!(WowClass::DeathKnight.spec_index("frost"), Some(2));
    assert_eq!(WowClass::DeathKnight.spec_index("unholy"), Some(3));

    assert_eq!(WowClass::Mage.spec_index("arcane"), Some(1));
    assert_eq!(WowClass::Mage.spec_index("fire"), Some(2));
    assert_eq!(WowClass::Mage.spec_index("frost"), Some(3));

    assert_eq!(WowClass::Druid.spec_index("balance"), Some(1));
    assert_eq!(WowClass::Druid.spec_index("feral"), Some(2));
    assert_eq!(WowClass::Druid.spec_index("guardian"), Some(3));
    assert_eq!(WowClass::Druid.spec_index("restoration"), Some(4));
}

#[test]
fn test_valid_specs() {
    let warrior_specs = WowClass::Warrior.valid_specs();
    assert!(warrior_specs.contains(&"arms"));
    assert!(warrior_specs.contains(&"fury"));
    assert!(warrior_specs.contains(&"protection"));
    assert_eq!(warrior_specs.len(), 3);

    let druid_specs = WowClass::Druid.valid_specs();
    assert_eq!(druid_specs.len(), 4);
}

#[test]
fn class_names_are_case_sensitive_and_complete() {
    assert_eq!(WowClass::from_str("warrior"), None);
    assert_eq!(WowClass::from_str(""), None);
    assert_eq!(WowClass::from_str("Evoker"), Some(WowClass::Evoker));
    assert_eq!(WowClass::Evoker.valid_specs(), vec!["devastation", "preservation"]);
    assert_eq!(WowClass::DemonHunter.spec_index("vengeance"), Some(2));
    assert_eq!(WowClass::DemonHunter.spec_index("restoration"), None);
    assert_eq!(WowClass::Paladin.get_spec_map(), vec![("holy", 1), ("protection", 2), ("retribution", 3)]);
}
