use talent_loadouts::archon::MythicPlusTimespan;
use talent_loadouts::config::{Character, Config};
use talent_loadouts::lua_talent::{LuaTalentManager, TalentLoadout};
use talent_loadouts::orchestrator::{
    SyncAction, SyncError, SyncRun, SyncStep, TalentOrchestrator, UpdateSummary,
};

fn config(
    class: &str,
    specs: &[&str],
    difficulties: &[&str],
    bosses: &[&str],
    dungeons: &[&str],
    clear: bool,
) -> Config {
    let strings = |v: &[&str]| v.iter().map(|s| s.to_string()).collect::<Vec<String>>();
    Config {
        characters: vec![Character {
            name: "Someone".to_string(),
            class: class.to_string(),
            specializations: strings(specs),
        }],
        raid_difficulties: strings(difficulties),
        raid_bosses: strings(bosses),
        dungeons: strings(dungeons),
        clear_previous_builds: clear,
        output_path: "TalentLoadoutsEx.lua".to_string(),
    }
}

fn drive(run: &mut SyncRun, source: &dyn Fn(&str) -> Option<String>) -> Vec<String> {
    let mut fetched = Vec::new();
    loop {
        match run.next_action() {
            SyncAction::Fetch(url) => {
                let found = source(&url);
                fetched.push(url);
                run.on_result(found);
            }
            SyncAction::Finished => return fetched,
        }
    }
}

fn loadout(icon: i64, name: &str, text: &str) -> TalentLoadout {
    TalentLoadout { icon, name: name.to_string(), text: text.to_string() }
}

const RAID_URL: &str = "https://www.archon.gg/wow/builds/arms/warrior/raid/overview/heroic/sikran";

#[test]
fn end_to_end_single_raid_build() {
    let orchestrator = TalentOrchestrator::new(config("Warrior", &["arms"], &["heroic"], &["sikran"], &[], false));
    let mut run = orchestrator.start(LuaTalentManager::new(), MythicPlusTimespan::ThisWeek).unwrap();
    let fetched = drive(&mut run, &|url: &str| {
        if url == RAID_URL {
            Some("warrior/arms/XYZ".to_string())
        } else {
            None
        }
    });
    assert_eq!(fetched, vec![RAID_URL.to_string()]);
    let (store, summary) = run.finish();
    assert_eq!(
        store.get_spec_talents("WARRIOR", 1).unwrap(),
        &vec![loadout(0, "R-heroic-sikran_ARCT", "warrior/arms/XYZ")]
    );
    assert_eq!(store.get_class_talents("WARRIOR").unwrap().len(), 1);
    assert_eq!(
        summary,
        UpdateSummary {
            total_talents_updated: 1,
            raid_talents: 1,
            mythic_plus_talents: 0,
            characters_processed: 1,
        }
    );
}

#[test]
fn dungeon_lookup_falls_back_to_the_other_window() {
    let orchestrator = TalentOrchestrator::new(config("Mage", &["frost"], &[], &[], &["ara-kara"], false));
    let mut run = orchestrator.start(LuaTalentManager::new(), MythicPlusTimespan::ThisWeek).unwrap();
    let primary = "https://www.archon.gg/wow/builds/frost/mage/mythic-plus/overview/10//ara-kara/this-week";
    let fallback = "https://www.archon.gg/wow/builds/frost/mage/mythic-plus/overview/10//ara-kara/last-week";
    let fetched = drive(&mut run, &|url: &str| {
        if url == fallback {
            Some("mage/frost/FALLBACK".to_string())
        } else {
            None
        }
    });
    assert_eq!(fetched, vec![primary.to_string(), fallback.to_string()]);
    let (store, summary) = run.finish();
    assert_eq!(
        store.get_spec_talents("MAGE", 3).unwrap(),
        &vec![loadout(0, "M+-ara-kara_ARCT", "mage/frost/FALLBACK")]
    );
    assert_eq!(summary.mythic_plus_talents, 1);
    assert_eq!(summary.raid_talents, 0);
}

#[test]
fn reset_day_tries_last_week_first_and_gives_up_after_both() {
    let orchestrator = TalentOrchestrator::new(config("Mage", &["fire"], &[], &[], &["city-of-threads"], false));
    let primary = MythicPlusTimespan::primary_for_weekday(2);
    let mut run = orchestrator.start(LuaTalentManager::new(), primary).unwrap();
    let fetched = drive(&mut run, &|_: &str| None);
    assert_eq!(
        fetched,
        vec![
            "https://www.archon.gg/wow/builds/fire/mage/mythic-plus/overview/10//city-of-threads/last-week".to_string(),
            "https://www.archon.gg/wow/builds/fire/mage/mythic-plus/overview/10//city-of-threads/this-week".to_string(),
        ]
    );
    let (store, summary) = run.finish();
    assert!(store.get_spec_talents("MAGE", 2).is_none());
    assert_eq!(summary.total_talents_updated, 0);
}

#[test]
fn scoped_clear_replaces_only_updated_slots() {
    let mut store = LuaTalentManager::new();
    store.add_talent("WARRIOR".to_string(), 1, loadout(0, "R-heroic-sikran_ARCT", "stale"));
    store.add_talent("WARRIOR".to_string(), 1, loadout(9, "Mine", "keep"));
    store.add_talent("WARRIOR".to_string(), 2, loadout(0, "R-heroic-sikran_ARCT", "other"));
    let orchestrator = TalentOrchestrator::new(config("Warrior", &["arms"], &["heroic"], &["sikran"], &[], false));
    let mut run = orchestrator.start(store, MythicPlusTimespan::ThisWeek).unwrap();
    drive(&mut run, &|_: &str| Some("fresh".to_string()));
    let (store, _) = run.finish();
    assert_eq!(
        store.get_spec_talents("WARRIOR", 1).unwrap(),
        &vec![loadout(9, "Mine", "keep"), loadout(0, "R-heroic-sikran_ARCT", "fresh")]
    );
    assert_eq!(
        store.get_spec_talents("WARRIOR", 2).unwrap(),
        &vec![loadout(0, "R-heroic-sikran_ARCT", "other")]
    );
}

#[test]
fn global_clear_removes_generated_entries_everywhere() {
    let mut store = LuaTalentManager::new();
    store.add_talent("WARRIOR".to_string(), 2, loadout(0, "R-heroic-sikran_ARCT", "other"));
    store.add_talent("PRIEST".to_string(), 3, loadout(4, "Shadow", "mine"));
    let orchestrator = TalentOrchestrator::new(config("Warrior", &["arms"], &["heroic"], &["sikran"], &[], true));
    let mut run = orchestrator.start(store, MythicPlusTimespan::ThisWeek).unwrap();
    drive(&mut run, &|_: &str| None);
    let (store, _) = run.finish();
    assert_eq!(store.get_spec_talents("WARRIOR", 2).unwrap().len(), 0);
    assert_eq!(store.get_spec_talents("PRIEST", 3).unwrap(), &vec![loadout(4, "Shadow", "mine")]);
    assert!(store.get_spec_talents("WARRIOR", 1).is_none());
}

#[test]
fn plan_orders_bosses_then_difficulties_then_dungeons() {
    let orchestrator = TalentOrchestrator::new(config(
        "DeathKnight",
        &["unholy"],
        &["heroic", "Mythic"],
        &["a", "b"],
        &["d"],
        false,
    ));
    let steps = orchestrator.plan(MythicPlusTimespan::LastWeek).unwrap();
    let names: Vec<String> = steps
        .iter()
        .map(|s| match s {
            SyncStep::Clear { class_key, spec_index } => format!("clear {} {}", class_key, spec_index),
            SyncStep::Lookup { name, .. } => name.clone(),
        })
        .collect();
    assert_eq!(
        names,
        vec![
            "clear DEATHKNIGHT 3",
            "R-heroic-a_ARCT",
            "R-mythic-a_ARCT",
            "R-heroic-b_ARCT",
            "R-mythic-b_ARCT",
            "M+-d_ARCT",
        ]
    );
}

#[test]
fn configuration_errors_stop_the_run() {
    let bad_class = TalentOrchestrator::new(config("Bard", &["lute"], &["heroic"], &["x"], &[], false));
    assert_eq!(
        bad_class.start(LuaTalentManager::new(), MythicPlusTimespan::ThisWeek).err().map(|_| ()),
        Some(())
    );
    assert_eq!(bad_class.plan(MythicPlusTimespan::ThisWeek).err(), Some(SyncError::UnknownClass));
    let bad_spec = TalentOrchestrator::new(config("Warrior", &["holy"], &["heroic"], &["x"], &[], false));
    assert_eq!(bad_spec.plan(MythicPlusTimespan::ThisWeek).err(), Some(SyncError::UnknownSpecialization));
    let bad_difficulty = TalentOrchestrator::new(config("Warrior", &["arms"], &["lfr"], &["x"], &[], false));
    assert_eq!(bad_difficulty.plan(MythicPlusTimespan::ThisWeek).err(), Some(SyncError::UnknownDifficulty));
    let unused_difficulty = TalentOrchestrator::new(config("Warrior", &["arms"], &["lfr"], &[], &["d"], false));
    assert_eq!(unused_difficulty.plan(MythicPlusTimespan::ThisWeek).unwrap().len(), 2);
}
