use talent_loadouts::wow_scanner::{
    default_wow_path_candidates, discover_characters, AccountFolder, DiscoveredCharacter, PathCandidate,
    Platform, RealmFolder,
};

#[test]
fn default_install_places_by_platform() {
    assert_eq!(
        default_wow_path_candidates(Platform::MacOs),
        vec![PathCandidate::Absolute("/Applications/World of Warcraft/_retail_".to_string())]
    );
    assert_eq!(
        default_wow_path_candidates(Platform::Windows),
        vec![
            PathCandidate::Absolute("C:\\Program Files (x86)\\World of Warcraft\\_retail_".to_string()),
            PathCandidate::Absolute("C:\\Program Files\\World of Warcraft\\_retail_".to_string()),
        ]
    );
    assert_eq!(
        default_wow_path_candidates(Platform::Linux),
        vec![PathCandidate::UnderHome(
            ".wine/drive_c/Program Files (x86)/World of Warcraft/_retail_".to_string()
        )]
    );
    assert!(default_wow_path_candidates(Platform::Other).is_empty());
}

#[test]
fn talent_loadouts_path_of_an_account() {
    let scanner = talent_loadouts::wow_scanner::WowScanner::new("/games/wow/_retail_".to_string());
    assert_eq!(
        scanner.get_talent_loadouts_path("12345#1"),
        "/games/wow/_retail_/WTF/Account/12345#1/SavedVariables/TalentLoadoutsEx.lua"
    );
}

#[test]
fn characters_are_found_under_accounts_and_realms() {
    let realm = |name: &str, chars: &[&str]| RealmFolder {
        name: name.to_string(),
        characters: chars.iter().map(|c| c.to_string()).collect(),
    };
    let accounts = vec![
        AccountFolder {
            name: "111#1".to_string(),
            realms: vec![realm("Silvermoon", &["Aria", "Bram"]), realm("SavedVariables", &["X"])],
        },
        AccountFolder { name: "SavedVariables".to_string(), realms: vec![realm("Nope", &["Y"])] },
        AccountFolder { name: "222#1".to_string(), realms: vec![realm("Draenor", &["Cora"])] },
    ];
    let found = discover_characters(&accounts);
    let who = |n: &str, r: &str, a: &str| DiscoveredCharacter {
        name: n.to_string(),
        realm: r.to_string(),
        class: "Unknown".to_string(),
        account_id: a.to_string(),
    };
    assert_eq!(
        found,
        vec![who("Aria", "Silvermoon", "111#1"), who("Bram", "Silvermoon", "111#1"), who("Cora", "Draenor", "222#1")]
    );
    assert!(discover_characters(&Vec::new()).is_empty());
}
