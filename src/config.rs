//! The configuration of a sync pass: characters to update, content to look
//! up, and where the saved table lives.

use vstd::prelude::*;
use crate::text::{owned, strings_view};

verus! {

/// A character whose talent loadouts are kept up to date.
#[derive(Debug, Clone)]
pub struct Character {
    /// The character's name, for identification only.
    pub name: String,
    /// The class in configuration spelling (`DeathKnight`).
    pub class: String,
    /// Specialization names in lowercase (`frost`).
    pub specializations: Vec<String>,
}

/// What a sync pass updates and where it writes.
#[derive(Debug, Clone)]
pub struct Config {
    pub characters: Vec<Character>,
    /// Raid difficulty names (`heroic`).
    pub raid_difficulties: Vec<String>,
    /// Raid boss slugs (`queen-ansurek`).
    pub raid_bosses: Vec<String>,
    /// Dungeon slugs (`ara-kara`).
    pub dungeons: Vec<String>,
    /// Clear every generated loadout first, not only those of the slots updated.
    pub clear_previous_builds: bool,
    /// Where the saved table is read and written.
    pub output_path: String,
}

/// Why a configuration is refused.
#[derive(Debug, Clone, Copy, PartialEq, Eq, Structural)]
pub enum ConfigError {
    NoCharacters,
    NoContent,
    MissingClass,
    MissingSpecializations,
}

/// The first configuration error, checking characters, then content, then
/// each character's class and specializations in order.
pub open spec fn config_error(c: Config) -> Option<ConfigError> {
    if c.characters@.len() == 0 {
        Some(ConfigError::NoCharacters)
    } else if c.raid_difficulties@.len() == 0 && c.raid_bosses@.len() == 0 && c.dungeons@.len() == 0 {
        Some(ConfigError::NoContent)
    } else {
        character_error(c.characters@)
    }
}

/// The first character without a class or without specializations.
pub open spec fn character_error(cs: Seq<Character>) -> Option<ConfigError>
    decreases cs.len(),
{
    if cs.len() == 0 {
        None
    } else if cs[0].class@.len() == 0 {
        Some(ConfigError::MissingClass)
    } else if cs[0].specializations@.len() == 0 {
        Some(ConfigError::MissingSpecializations)
    } else {
        character_error(cs.drop_first())
    }
}

/// Owned copies of `names`, in order.
fn owned_all(names: &[&str]) -> (r: Vec<String>)
    ensures
        r@.len() == names@.len(),
        forall|k: int| 0 <= k < names@.len() ==> (#[trigger] r@[k])@ == names@[k]@,
{
    let mut out: Vec<String> = Vec::new();
    let mut i: usize = 0;
    while i < names.len()
        invariant
            i <= names@.len(),
            out@.len() == i,
            forall|k: int| 0 <= k < i ==> (#[trigger] out@[k])@ == names@[k]@,
        decreases names.len() - i,
    {
        out.push(owned(names[i]));
        i += 1;
    }
    out
}

impl Config {
    /// An example configuration: a warrior and a mage, two raid difficulties,
    /// three bosses and three dungeons, clearing only the slots updated.
    pub fn example() -> (r: Self)
        ensures
            config_error(r) is None,
            r.characters@.len() == 2,
            r.characters@[0].name@ == "MyWarrior"@,
            r.characters@[0].class@ == "Warrior"@,
            r.characters@[1].name@ == "MyMage"@,
            r.characters@[1].class@ == "Mage"@,
            strings_view(r.characters@[0].specializations@) == seq!["arms"@, "fury"@],
            strings_view(r.characters@[1].specializations@) == seq!["frost"@, "fire"@],
            strings_view(r.raid_difficulties@) == seq!["heroic"@, "normal"@],
            strings_view(r.raid_bosses@) == seq!["broodtwister"@, "sikran"@, "queen-ansurek"@],
            strings_view(r.dungeons@) == seq!["ara-kara"@, "city-of-threads"@, "mists-of-tirna-scithe"@],
            !r.clear_previous_builds,
            r.output_path@
                == "/Applications/World of Warcraft/_retail_/WTF/Account/YOUR_ACCOUNT_ID/SavedVariables/TalentLoadoutsEx.lua"@,
    {
        let warrior = Character {
            name: owned("MyWarrior"),
            class: owned("Warrior"),
            specializations: owned_all(&["arms", "fury"]),
        };
        let mage = Character {
            name: owned("MyMage"),
            class: owned("Mage"),
            specializations: owned_all(&["frost", "fire"]),
        };
        let mut characters: Vec<Character> = Vec::new();
        characters.push(warrior);
        characters.push(mage);
        let r = Config {
            characters,
            raid_difficulties: owned_all(&["heroic", "normal"]),
            raid_bosses: owned_all(&["broodtwister", "sikran", "queen-ansurek"]),
            dungeons: owned_all(&["ara-kara", "city-of-threads", "mists-of-tirna-scithe"]),
            clear_previous_builds: false,
            output_path: owned(
                "/Applications/World of Warcraft/_retail_/WTF/Account/YOUR_ACCOUNT_ID/SavedVariables/TalentLoadoutsEx.lua",
            ),
        };
        proof {
            reveal_strlit("Warrior");
            reveal_strlit("Mage");
            assert(strings_view(r.characters@[0].specializations@) =~= seq!["arms"@, "fury"@]);
            assert(strings_view(r.characters@[1].specializations@) =~= seq!["frost"@, "fire"@]);
            assert(strings_view(r.raid_difficulties@) =~= seq!["heroic"@, "normal"@]);
            assert(strings_view(r.raid_bosses@) =~= seq!["broodtwister"@, "sikran"@, "queen-ansurek"@]);
            assert(strings_view(r.dungeons@) =~= seq!["ara-kara"@, "city-of-threads"@, "mists-of-tirna-scithe"@]);
            let cs = r.characters@;
            assert(cs[0].class@.len() > 0 && cs[1].class@.len() > 0);
            assert(cs[0].specializations@.len() == 2 && cs[1].specializations@.len() == 2);
            assert(cs.drop_first()[0] == cs[1]);
            assert(character_error(cs.drop_first().drop_first()) is None);
            assert(character_error(cs.drop_first()) is None);
            assert(character_error(cs) is None);
        }
        r
    }

    /// Checks that there is a character, some content, and that every
    /// character has a class and a specialization.
    pub fn validate(&self) -> (r: Result<(), ConfigError>)
        ensures
            match config_error(*self) {
                Some(e) => r == Err::<(), ConfigError>(e),
                None => r is Ok,
            },
    {
        if self.characters.len() == 0 {
            return Err(ConfigError::NoCharacters);
        }
        if self.raid_difficulties.len() == 0 && self.raid_bosses.len() == 0 && self.dungeons.len() == 0 {
            return Err(ConfigError::NoContent);
        }
        let mut i: usize = 0;
        assert(self.characters@.skip(0) =~= self.characters@);
        while i < self.characters.len()
            invariant
                i <= self.characters@.len(),
                config_error(*self) == character_error(self.characters@.skip(i as int)),
            decreases self.characters.len() - i,
        {
            let ch = &self.characters[i];
            assert(self.characters@.skip(i as int).drop_first() =~= self.characters@.skip(i + 1));
            if ch.class.as_str().is_empty() {
                return Err(ConfigError::MissingClass);
            }
            if ch.specializations.len() == 0 {
                return Err(ConfigError::MissingSpecializations);
            }
            i += 1;
        }
        Ok(())
    }
}

} // verus!
