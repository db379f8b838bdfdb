use talent_loadouts::lua_talent::{LuaParseError, LuaTalentManager, TalentLoadout};

fn create_test_lua() -> String {
    r#"TalentLoadoutEx = {
  ["WARRIOR"] = {
    [1] = {
      { ["icon"] = 132355, ["name"] = "My Arms Build", ["text"] = "warrior/arms/ABC123" },
      { ["icon"] = 0, ["name"] = "R-heroic-sikran_ARCT", ["text"] = "warrior/arms/XYZ789" },
    },
    [2] = {
      { ["icon"] = 132347, ["name"] = "My Fury Build", ["text"] = "warrior/fury/DEF456" },
    },
  },
  ["MAGE"] = {
    [3] = {
      { ["icon"] = 135846, ["name"] = "M+-ara-kara_ARCT", ["text"] = "mage/frost/GHI789" },
    },
  },
  ["OPTION"] = { ["IsEnabledPvp"] = false },
}"#
    .to_string()
}

fn loadout(icon: i64, name: &str, text: &str) -> TalentLoadout {
    TalentLoadout { icon, name: name.to_string(), text: text.to_string() }
}

#[test]
fn test_parse_lua() {
    let lua = create_test_lua();
    let manager = LuaTalentManager::parse_lua(&lua).unwrap();

    let warrior_talents = manager.get_class_talents("WARRIOR").unwrap();
    assert_eq!(warrior_talents.len(), 2);

    let arms_talents = warrior_talents.get(&1).unwrap();
    assert_eq!(arms_talents.len(), 2);

    assert_eq!(arms_talents[0].name, "My Arms Build");
    assert_eq!(arms_talents[1].name, "R-heroic-sikran_ARCT");

    let frost_talents = manager.get_spec_talents("MAGE", 3).unwrap();
    assert_eq!(frost_talents.len(), 1);
    assert_eq!(frost_talents[0].name, "M+-ara-kara_ARCT");
}

#[test]
fn test_is_auto_generated() {
    let auto = TalentLoadout::new("R-heroic-sikran_ARCT".to_string(), "test".to_string());
    assert!(auto.is_auto_generated());

    let manual = TalentLoadout::new("My Build".to_string(), "test".to_string());
    assert!(!manual.is_auto_generated());
}

#[test]
fn test_remove_auto_generated() {
    let lua = create_test_lua();
    let mut manager = LuaTalentManager::parse_lua(&lua).unwrap();

    manager.remove_auto_generated("WARRIOR", 1);

    let arms_talents = manager.get_spec_talents("WARRIOR", 1).unwrap();
    assert_eq!(arms_talents.len(), 1);
    assert_eq!(arms_talents[0].name, "My Arms Build");
}

#[test]
fn test_add_talent() {
    let mut manager = LuaTalentManager::new();

    let talent = TalentLoadout::new(
        "R-normal-broodtwister_ARCT".to_string(),
        "warrior/arms/TEST123".to_string(),
    );

    manager.add_talent("WARRIOR".to_string(), 1, talent);

    let talents = manager.get_spec_talents("WARRIOR", 1).unwrap();
    assert_eq!(talents.len(), 1);
    assert_eq!(talents[0].name, "R-normal-broodtwister_ARCT");
}

#[test]
fn test_to_lua_string() {
    let mut manager = LuaTalentManager::new();

    let talent1 = TalentLoadout {
        icon: 132355,
        name: "Build 1".to_string(),
        text: "warrior/arms/ABC".to_string(),
    };

    manager.add_talent("WARRIOR".to_string(), 1, talent1);

    let lua_string = manager.to_lua_string();

    assert!(lua_string.contains("TalentLoadoutEx"));
    assert!(lua_string.contains("[\"WARRIOR\"]"));
    assert!(lua_string.contains("[1]"));
    assert!(lua_string.contains("Build 1"));
    assert!(lua_string.contains("warrior/arms/ABC"));
    assert!(lua_string.contains("[\"OPTION\"]"));
}

#[test]
fn encoding_is_exact() {
    let mut manager = LuaTalentManager::new();
    manager.add_talent("WARRIOR".to_string(), 1, loadout(132355, "Build 1", "warrior/arms/ABC"));
    manager.add_talent("MAGE".to_string(), 3, loadout(-7, "Frost", "mage/frost/X"));
    let expected = [
        "TalentLoadoutEx = {\n",
        "  [\"MAGE\"] = {\n",
        "    [3] = {\n",
        "      { [\"icon\"] = -7, [\"name\"] = \"Frost\", [\"text\"] = \"mage/frost/X\" },\n",
        "    },\n",
        "  },\n",
        "  [\"WARRIOR\"] = {\n",
        "    [1] = {\n",
        "      { [\"icon\"] = 132355, [\"name\"] = \"Build 1\", [\"text\"] = \"warrior/arms/ABC\" },\n",
        "    },\n",
        "  },\n",
        "  [\"OPTION\"] = { [\"IsEnabledPvp\"] = false },\n",
        "}\n",
    ]
    .concat();
    assert_eq!(manager.to_lua_string(), expected);
}

#[test]
fn empty_store_encodes_only_options() {
    let manager = LuaTalentManager::new();
    assert_eq!(
        manager.to_lua_string(),
        "TalentLoadoutEx = {\n  [\"OPTION\"] = { [\"IsEnabledPvp\"] = false },\n}\n"
    );
}

#[test]
fn round_trip_keeps_contents_and_order() {
    let mut manager = LuaTalentManager::new();
    manager.add_talent("WARRIOR".to_string(), 2, loadout(1, "b", "payload-b"));
    manager.add_talent("WARRIOR".to_string(), 1, loadout(2, "a", "payload-a"));
    manager.add_talent("WARRIOR".to_string(), 1, loadout(3, "R-heroic-sikran_ARCT", "payload-c"));
    manager.add_talent("DRUID".to_string(), 4, loadout(i64::MIN, "quote \" back \\ nl \n cr \r", "x"));
    manager.add_talent("DRUID".to_string(), 4, loadout(i64::MAX, "", ""));
    let text = manager.to_lua_string();
    let back = LuaTalentManager::parse_lua(&text).unwrap();
    assert_eq!(back.to_lua_string(), text);
    let arms = back.get_spec_talents("WARRIOR", 1).unwrap();
    assert_eq!(arms.len(), 2);
    assert_eq!(arms[0], loadout(2, "a", "payload-a"));
    assert_eq!(arms[1], loadout(3, "R-heroic-sikran_ARCT", "payload-c"));
    let resto = back.get_spec_talents("DRUID", 4).unwrap();
    assert_eq!(resto[0], loadout(i64::MIN, "quote \" back \\ nl \n cr \r", "x"));
    assert_eq!(resto[1], loadout(i64::MAX, "", ""));
    assert_eq!(back.get_class_talents("WARRIOR").unwrap().len(), 2);
}

#[test]
fn insertion_order_does_not_change_the_text() {
    let mut a = LuaTalentManager::new();
    a.add_talent("WARRIOR".to_string(), 1, loadout(0, "x", "1"));
    a.add_talent("MAGE".to_string(), 2, loadout(0, "y", "2"));
    a.add_talent("MAGE".to_string(), 1, loadout(0, "z", "3"));
    let mut b = LuaTalentManager::new();
    b.add_talent("MAGE".to_string(), 1, loadout(0, "z", "3"));
    b.add_talent("MAGE".to_string(), 2, loadout(0, "y", "2"));
    b.add_talent("WARRIOR".to_string(), 1, loadout(0, "x", "1"));
    assert_eq!(a.to_lua_string(), b.to_lua_string());
}

#[test]
fn scoped_clear_touches_one_slot() {
    let mut manager = LuaTalentManager::new();
    manager.add_talent("WARRIOR".to_string(), 1, loadout(0, "R-heroic-sikran_ARCT", "m"));
    manager.add_talent("WARRIOR".to_string(), 1, loadout(5, "Mine", "u"));
    manager.add_talent("WARRIOR".to_string(), 2, loadout(0, "M+-ara-kara_ARCT", "m2"));
    manager.remove_auto_generated("WARRIOR", 1);
    assert_eq!(manager.get_spec_talents("WARRIOR", 1).unwrap(), &vec![loadout(5, "Mine", "u")]);
    assert_eq!(manager.get_spec_talents("WARRIOR", 2).unwrap().len(), 1);
    manager.remove_auto_generated("MAGE", 1);
    manager.remove_auto_generated("WARRIOR", 9);
    assert!(manager.get_class_talents("MAGE").is_none());
    assert!(manager.get_spec_talents("WARRIOR", 9).is_none());
}

#[test]
fn global_clear_keeps_user_entries_everywhere() {
    let mut manager = LuaTalentManager::new();
    manager.add_talent("WARRIOR".to_string(), 1, loadout(0, "R-heroic-sikran_ARCT", "m"));
    manager.add_talent("WARRIOR".to_string(), 1, loadout(5, "Mine", "u"));
    manager.add_talent("MAGE".to_string(), 3, loadout(0, "M+-ara-kara_ARCT", "m2"));
    manager.add_talent("MAGE".to_string(), 3, loadout(1, "ARCT", "u2"));
    manager.remove_all_auto_generated();
    assert_eq!(manager.get_spec_talents("WARRIOR", 1).unwrap(), &vec![loadout(5, "Mine", "u")]);
    assert_eq!(manager.get_spec_talents("MAGE", 3).unwrap(), &vec![loadout(1, "ARCT", "u2")]);
}

#[test]
fn set_spec_talents_replaces_one_slot() {
    let mut manager = LuaTalentManager::new();
    manager.add_talent("ROGUE".to_string(), 1, loadout(0, "old", "o"));
    manager.add_talent("ROGUE".to_string(), 2, loadout(0, "keep", "k"));
    manager.set_spec_talents("ROGUE".to_string(), 1, vec![loadout(1, "new", "n")]);
    assert_eq!(manager.get_spec_talents("ROGUE", 1).unwrap(), &vec![loadout(1, "new", "n")]);
    assert_eq!(manager.get_spec_talents("ROGUE", 2).unwrap(), &vec![loadout(0, "keep", "k")]);
}

#[test]
fn decoding_skips_what_it_does_not_understand() {
    let text = "-- saved by the game\n\
OtherTable = { 1, 2, 3 }\n\
TalentLoadoutEx = {\n\
  ['WARRIOR'] = {\n\
    [1] = { { icon = 7, name = 'Bare \\'keys\\'', text = \"t\", extra = true }, 42, { [\"icon\"] = \"nope\" } },\n\
    [300] = { { name = \"too big\" } },\n\
    [\"2\"] = { { name = \"string key\" } },\n\
  };\n\
  [\"MAGE\"] = \"not a table\",\n\
  [\"OPTION\"] = { [\"IsEnabledPvp\"] = true },\n\
}\n";
    let manager = LuaTalentManager::parse_lua(text).unwrap();
    let warrior = manager.get_class_talents("WARRIOR").unwrap();
    assert_eq!(warrior.len(), 1);
    let slot = warrior.get(&1).unwrap();
    assert_eq!(slot, &vec![loadout(7, "Bare 'keys'", "t"), loadout(0, "", "")]);
    assert!(manager.get_class_talents("MAGE").is_none());
    assert!(manager.get_class_talents("OPTION").is_none());
    assert!(manager.to_lua_string().contains("[\"IsEnabledPvp\"] = false"));
}

#[test]
fn later_duplicates_replace_earlier_ones() {
    let text = "TalentLoadoutEx = { [\"MAGE\"] = { [1] = { { name = \"a\" } }, [1] = { { name = \"b\" } } } }\n\
TalentLoadoutEx = { [\"HUNTER\"] = { [2] = { { name = \"c\", icon = 99999999999999999999 } } } }";
    let manager = LuaTalentManager::parse_lua(text).unwrap();
    assert!(manager.get_class_talents("MAGE").is_none());
    assert_eq!(manager.get_spec_talents("HUNTER", 2).unwrap(), &vec![loadout(0, "c", "")]);
}

#[test]
fn malformed_text_is_refused() {
    assert_eq!(
        LuaTalentManager::parse_lua("TalentLoadoutEx = {").err(),
        Some(LuaParseError::InvalidSyntax)
    );
    assert_eq!(
        LuaTalentManager::parse_lua("TalentLoadoutEx = { [\"A\"] = \"unterminated }").err(),
        Some(LuaParseError::InvalidSyntax)
    );
    assert_eq!(LuaTalentManager::parse_lua("print(1)").err(), Some(LuaParseError::InvalidSyntax));
    assert!(LuaTalentManager::parse_lua("").unwrap().get_class_talents("WARRIOR").is_none());
}

#[test]
fn default_store_is_empty() {
    let manager = LuaTalentManager::default();
    assert!(manager.get_class_talents("WARRIOR").is_none());
    assert_eq!(manager.to_lua_string(), LuaTalentManager::new().to_lua_string());
}

#[test]
fn lua_literal_forms_are_read() {
    let text = r#"--[[ a block
comment ]] TalentLoadoutEx = {
  --[==[ another ]] one ]==]
  ["WARRIOR"] = {
    [1] = {
      { icon = 1.5, name = [[long
name]], text = "a\65\tb\q\
c" },
      { icon = 0x10, name = [==[
x]]y]==] },
      { icon = 1e3, name = "\7\a\v" },
    },
    [2.0] = { { name = 'skipped slot' } },
  },
}"#;
    let manager = LuaTalentManager::parse_lua(text).unwrap();
    assert_eq!(manager.get_class_talents("WARRIOR").unwrap().len(), 1);
    assert_eq!(
        manager.get_spec_talents("WARRIOR", 1).unwrap(),
        &vec![
            loadout(0, "long\nname", "aA\tbq\nc"),
            loadout(0, "x]]y", ""),
            loadout(0, "\u{7}\u{7}\u{b}", ""),
        ]
    );
}

#[test]
fn lua_syntax_errors_are_refused() {
    assert_eq!(
        LuaTalentManager::parse_lua("TalentLoadoutEx = { \"\\300\" }").err(),
        Some(LuaParseError::InvalidSyntax)
    );
    assert_eq!(
        LuaTalentManager::parse_lua("TalentLoadoutEx = { [[never closed }").err(),
        Some(LuaParseError::InvalidSyntax)
    );
    assert_eq!(
        LuaTalentManager::parse_lua("TalentLoadoutEx = { \"line\nbreak\" }").err(),
        Some(LuaParseError::InvalidSyntax)
    );
}
