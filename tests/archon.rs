use talent_loadouts::archon::{
    ArchonUrlBuilder, MythicPlusTimespan, RaidDifficulty, TalentIdentifier,
};
use talent_loadouts::wow::WowClass;

#[test]
fn test_raid_difficulty_parsing() {
    assert_eq!(RaidDifficulty::from_str("normal"), Some(RaidDifficulty::Normal));
    assert_eq!(RaidDifficulty::from_str("heroic"), Some(RaidDifficulty::Heroic));
    assert_eq!(RaidDifficulty::from_str("mythic"), Some(RaidDifficulty::Mythic));
    assert_eq!(RaidDifficulty::from_str("HEROIC"), Some(RaidDifficulty::Heroic));
    assert_eq!(RaidDifficulty::from_str("invalid"), None);
}

#[test]
fn test_mythic_plus_timespan_fallback() {
    assert_eq!(MythicPlusTimespan::ThisWeek.fallback(), MythicPlusTimespan::LastWeek);
    assert_eq!(MythicPlusTimespan::LastWeek.fallback(), MythicPlusTimespan::ThisWeek);
}

#[test]
fn test_talent_identifier_raid() {
    let id = TalentIdentifier::Raid {
        difficulty: RaidDifficulty::Heroic,
        boss: "sikran".to_string(),
    };
    assert_eq!(id.as_identifier(), "R-heroic-sikran");
    assert_eq!(id.as_talent_name(), "R-heroic-sikran_ARCT");
}

#[test]
fn test_talent_identifier_mythic_plus() {
    let id = TalentIdentifier::MythicPlus {
        dungeon: "ara-kara".to_string(),
    };
    assert_eq!(id.as_identifier(), "M+-ara-kara");
    assert_eq!(id.as_talent_name(), "M+-ara-kara_ARCT");
}

#[test]
fn test_build_raid_url() {
    let builder = ArchonUrlBuilder::new();
    let url = builder.build_raid_url(WowClass::Mage, "frost", RaidDifficulty::Heroic, "broodtwister");
    assert_eq!(
        url,
        "https://www.archon.gg/wow/builds/frost/mage/raid/overview/heroic/broodtwister"
    );
}

#[test]
fn test_build_raid_url_death_knight() {
    let builder = ArchonUrlBuilder::new();
    let url = builder.build_raid_url(WowClass::DeathKnight, "unholy", RaidDifficulty::Heroic, "sikran");
    assert_eq!(
        url,
        "https://www.archon.gg/wow/builds/unholy/death-knight/raid/overview/heroic/sikran"
    );
}

#[test]
fn test_build_mythic_plus_url() {
    let builder = ArchonUrlBuilder::new();
    let url = builder.build_mythic_plus_url(
        WowClass::Warrior,
        "protection",
        "ara-kara",
        MythicPlusTimespan::ThisWeek,
    );
    assert_eq!(
        url,
        "https://www.archon.gg/wow/builds/protection/warrior/mythic-plus/overview/10//ara-kara/this-week"
    );
}

#[test]
fn test_build_mythic_plus_url_with_last_week() {
    let builder = ArchonUrlBuilder::new();
    let url = builder.build_mythic_plus_url(
        WowClass::DeathKnight,
        "unholy",
        "mists-of-tirna-scithe",
        MythicPlusTimespan::LastWeek,
    );
    assert_eq!(
        url,
        "https://www.archon.gg/wow/builds/unholy/death-knight/mythic-plus/overview/10//mists-of-tirna-scithe/last-week"
    );
}

#[test]
fn test_url_double_slash_for_mythic_plus() {
    let builder = ArchonUrlBuilder::new();
    let url = builder.build_mythic_plus_url(
        WowClass::Mage,
        "fire",
        "city-of-threads",
        MythicPlusTimespan::ThisWeek,
    );
    assert!(url.contains("overview/10//city-of-threads"));
}

#[test]
fn raid_url_lowercases_spec_and_boss() {
    let builder = ArchonUrlBuilder::new();
    let url = builder.build_raid_url(WowClass::Druid, "Balance", RaidDifficulty::Mythic, "Queen-Ansurek");
    assert_eq!(
        url,
        "https://www.archon.gg/wow/builds/balance/druid/raid/overview/mythic/queen-ansurek"
    );
}

#[test]
fn mythic_plus_url_lowercases_dungeon() {
    let builder = ArchonUrlBuilder::new();
    let url = builder.build_mythic_plus_url(
        WowClass::DemonHunter,
        "HAVOC",
        "Ara-Kara",
        MythicPlusTimespan::LastWeek,
    );
    assert_eq!(
        url,
        "https://www.archon.gg/wow/builds/havoc/demon-hunter/mythic-plus/overview/10//ara-kara/last-week"
    );
}

#[test]
fn difficulty_names_and_mixed_case() {
    assert_eq!(RaidDifficulty::Normal.as_str(), "normal");
    assert_eq!(RaidDifficulty::Mythic.as_str(), "mythic");
    assert_eq!(RaidDifficulty::from_str("MyThIc"), Some(RaidDifficulty::Mythic));
    assert_eq!(RaidDifficulty::from_lowercase("HEROIC"), None);
    assert_eq!(RaidDifficulty::from_str(""), None);
}

#[test]
fn primary_window_is_last_week_on_reset_day_only() {
    assert_eq!(MythicPlusTimespan::primary_for_weekday(2), MythicPlusTimespan::LastWeek);
    for day in [0u32, 1, 3, 4, 5, 6] {
        assert_eq!(MythicPlusTimespan::primary_for_weekday(day), MythicPlusTimespan::ThisWeek);
    }
    assert_eq!(MythicPlusTimespan::ThisWeek.as_str(), "this-week");
    assert_eq!(MythicPlusTimespan::LastWeek.as_str(), "last-week");
}

#[test]
fn default_builder_uses_public_pages() {
    let url = ArchonUrlBuilder::default().build_raid_url(WowClass::Evoker, "devastation", RaidDifficulty::Normal, "sikran");
    assert_eq!(
        url,
        "https://www.archon.gg/wow/builds/devastation/evoker/raid/overview/normal/sikran"
    );
}
