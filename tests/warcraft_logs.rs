use talent_loadouts::warcraft_logs::{
    Child, Expansion, Header, Panel, Section, WarcraftLogsService, ZoneSidebar,
};

#[test]
fn test_to_slug() {
    assert_eq!(WarcraftLogsService::to_slug("Queen Ansurek"), "queen-ansurek");
    assert_eq!(WarcraftLogsService::to_slug("The Dawnbreaker"), "the-dawnbreaker");
    assert_eq!(WarcraftLogsService::to_slug("Mists of Tirna Scithe"), "mists-of-tirna-scithe");
}

#[test]
fn slug_drops_punctuation_trims_and_collapses_dashes() {
    assert_eq!(WarcraftLogsService::to_slug("  Ara-Kara, City of Echoes  "), "ara-kara-city-of-echoes");
    assert_eq!(WarcraftLogsService::to_slug("Rasha'nan"), "rashanan");
    assert_eq!(WarcraftLogsService::to_slug("Operation: Floodgate"), "operation-floodgate");
    assert_eq!(WarcraftLogsService::to_slug("Cinderbrew Meadery (Hard)!"), "cinderbrew-meadery-hard");
    assert_eq!(WarcraftLogsService::to_slug("A - B"), "a--b");
    assert_eq!(WarcraftLogsService::to_slug(""), "");
    assert_eq!(WarcraftLogsService::strip_punctuation("a.b&c\"d"), "abcd");
    assert_eq!(WarcraftLogsService::slug_of_lowercase("x  y"), "x-y");
}

fn child(title: &str, kind: &str) -> Child {
    Child { title: title.to_string(), child_type: kind.to_string() }
}

fn section(header: Option<&str>, children: Vec<Child>) -> Section {
    Section {
        header: header.map(|h| Header { content_type_name: h.to_string() }),
        children,
    }
}

fn zone(id: &str, sections: Vec<Section>) -> ZoneSidebar {
    ZoneSidebar {
        id: id.to_string(),
        expansions: vec![
            Expansion { panel: Some(Panel { sections }) },
            Expansion { panel: Some(Panel { sections: vec![section(Some("zones"), vec![child("Old Boss", "boss")])] }) },
        ],
    }
}

#[test]
fn discovery_picks_current_bosses_and_dungeons() {
    let listing = vec![
        zone("other", vec![section(Some("zones"), vec![child("Nope", "boss")])]),
        zone(
            "raid-content",
            vec![
                section(Some("zones"), vec![child("Queen Ansurek", "boss"), child("", "boss"), child("Trash", "npc")]),
                section(Some("other"), vec![child("Skipped", "boss")]),
                section(None, vec![child("Also Skipped", "boss")]),
                section(Some("zones"), vec![child("Sikran, Captain", "boss")]),
            ],
        ),
        zone(
            "dungeons-content",
            vec![
                section(None, vec![child("The Dawnbreaker", "boss"), child("Ara-Kara", "boss")]),
                section(None, vec![child("Last Season", "boss")]),
            ],
        ),
    ];
    let found = WarcraftLogsService::discover_from_listing(&listing);
    assert_eq!(found.raid_bosses, vec!["queen-ansurek", "sikran-captain"]);
    assert_eq!(found.dungeons, vec!["the-dawnbreaker", "ara-kara"]);
    let empty = WarcraftLogsService::discover_from_listing(&Vec::new());
    assert!(empty.raid_bosses.is_empty() && empty.dungeons.is_empty());
}

#[test]
fn trim_removes_unicode_white_space() {
    assert_eq!(talent_loadouts::warcraft_logs::trim("\u{3000}\t a b \u{a0}\n"), "a b");
    assert_eq!(talent_loadouts::warcraft_logs::trim("   "), "");
    assert_eq!(talent_loadouts::warcraft_logs::trim("x"), "x");
    assert_eq!(WarcraftLogsService::to_slug("\u{2003}Sikran\u{2003}"), "sikran");
}
