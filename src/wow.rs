//! The class catalogue: class names in their several spellings and the
//! specialization indices of each class.

use vstd::prelude::*;
use crate::text::str_eq;

verus! {

/// A playable class.
#[derive(Debug, Clone, Copy, PartialEq, Eq, Hash, Structural)]
pub enum WowClass {
    Warrior,
    Paladin,
    Hunter,
    Rogue,
    Priest,
    DeathKnight,
    Shaman,
    Mage,
    Warlock,
    Monk,
    Druid,
    DemonHunter,
    Evoker,
}

/// The first specialization index paired with `name` in `table`, if any.
pub open spec fn lookup_index(table: Seq<(Seq<char>, u8)>, name: Seq<char>) -> Option<u8>
    decreases table.len(),
{
    if table.len() == 0 {
        None
    } else if table[0].0 == name {
        Some(table[0].1)
    } else {
        lookup_index(table.drop_first(), name)
    }
}

impl WowClass {
    /// The class's name as written in configuration (`DeathKnight`).
    pub open spec fn pascal_name(self) -> Seq<char> {
        match self {
            WowClass::Warrior => "Warrior"@,
            WowClass::Paladin => "Paladin"@,
            WowClass::Hunter => "Hunter"@,
            WowClass::Rogue => "Rogue"@,
            WowClass::Priest => "Priest"@,
            WowClass::DeathKnight => "DeathKnight"@,
            WowClass::Shaman => "Shaman"@,
            WowClass::Mage => "Mage"@,
            WowClass::Warlock => "Warlock"@,
            WowClass::Monk => "Monk"@,
            WowClass::Druid => "Druid"@,
            WowClass::DemonHunter => "DemonHunter"@,
            WowClass::Evoker => "Evoker"@,
        }
    }

    /// The class's name as it appears in lookup URLs (`death-knight`).
    pub open spec fn url_name(self) -> Seq<char> {
        match self {
            WowClass::Warrior => "warrior"@,
            WowClass::Paladin => "paladin"@,
            WowClass::Hunter => "hunter"@,
            WowClass::Rogue => "rogue"@,
            WowClass::Priest => "priest"@,
            WowClass::DeathKnight => "death-knight"@,
            WowClass::Shaman => "shaman"@,
            WowClass::Mage => "mage"@,
            WowClass::Warlock => "warlock"@,
            WowClass::Monk => "monk"@,
            WowClass::Druid => "druid"@,
            WowClass::DemonHunter => "demon-hunter"@,
            WowClass::Evoker => "evoker"@,
        }
    }

    /// The class's key in the saved talent table (`DEATHKNIGHT`).
    pub open spec fn table_key(self) -> Seq<char> {
        match self {
            WowClass::Warrior => "WARRIOR"@,
            WowClass::Paladin => "PALADIN"@,
            WowClass::Hunter => "HUNTER"@,
            WowClass::Rogue => "ROGUE"@,
            WowClass::Priest => "PRIEST"@,
            WowClass::DeathKnight => "DEATHKNIGHT"@,
            WowClass::Shaman => "SHAMAN"@,
            WowClass::Mage => "MAGE"@,
            WowClass::Warlock => "WARLOCK"@,
            WowClass::Monk => "MONK"@,
            WowClass::Druid => "DRUID"@,
            WowClass::DemonHunter => "DEMONHUNTER"@,
            WowClass::Evoker => "EVOKER"@,
        }
    }

    /// The class's specializations with their indices, in index order.
    pub open spec fn spec_table(self) -> Seq<(Seq<char>, u8)> {
        match self {
            WowClass::Warrior => seq![("arms"@, 1u8), ("fury"@, 2u8), ("protection"@, 3u8)],
            WowClass::Paladin => seq![("holy"@, 1u8), ("protection"@, 2u8), ("retribution"@, 3u8)],
            WowClass::Hunter => seq![("beast-mastery"@, 1u8), ("marksmanship"@, 2u8), ("survival"@, 3u8)],
            WowClass::Rogue => seq![("assassination"@, 1u8), ("combat"@, 2u8), ("subtlety"@, 3u8)],
            WowClass::Priest => seq![("discipline"@, 1u8), ("holy"@, 2u8), ("shadow"@, 3u8)],
            WowClass::DeathKnight => seq![("blood"@, 1u8), ("frost"@, 2u8), ("unholy"@, 3u8)],
            WowClass::Shaman => seq![("elemental"@, 1u8), ("enhancement"@, 2u8), ("restoration"@, 3u8)],
            WowClass::Mage => seq![("arcane"@, 1u8), ("fire"@, 2u8), ("frost"@, 3u8)],
            WowClass::Warlock => seq![("affliction"@, 1u8), ("demonology"@, 2u8), ("destruction"@, 3u8)],
            WowClass::Monk => seq![("brewmaster"@, 1u8), ("mistweaver"@, 2u8), ("windwalker"@, 3u8)],
            WowClass::Druid => seq![("balance"@, 1u8), ("feral"@, 2u8), ("guardian"@, 3u8), ("restoration"@, 4u8)],
            WowClass::DemonHunter => seq![("havoc"@, 1u8), ("vengeance"@, 2u8)],
            WowClass::Evoker => seq![("devastation"@, 1u8), ("preservation"@, 2u8)],
        }
    }

    /// The class whose configuration spelling is exactly `s`, if any.
    pub open spec fn named(s: Seq<char>) -> Option<WowClass> {
        if s == "Warrior"@ {
            Some(WowClass::Warrior)
        } else if s == "Paladin"@ {
            Some(WowClass::Paladin)
        } else if s == "Hunter"@ {
            Some(WowClass::Hunter)
        } else if s == "Rogue"@ {
            Some(WowClass::Rogue)
        } else if s == "Priest"@ {
            Some(WowClass::Priest)
        } else if s == "DeathKnight"@ {
            Some(WowClass::DeathKnight)
        } else if s == "Shaman"@ {
            Some(WowClass::Shaman)
        } else if s == "Mage"@ {
            Some(WowClass::Mage)
        } else if s == "Warlock"@ {
            Some(WowClass::Warlock)
        } else if s == "Monk"@ {
            Some(WowClass::Monk)
        } else if s == "Druid"@ {
            Some(WowClass::Druid)
        } else if s == "DemonHunter"@ {
            Some(WowClass::DemonHunter)
        } else if s == "Evoker"@ {
            Some(WowClass::Evoker)
        } else {
            None
        }
    }

    /// The index of specialization `name` in this class, if it has one.
    pub open spec fn spec_index_of(self, name: Seq<char>) -> Option<u8> {
        lookup_index(self.spec_table(), name)
    }

    /// Parses a class from its configuration spelling (`"DeathKnight"`).
    pub fn from_str(s: &str) -> (r: Option<Self>)
        ensures
            r == Self::named(s@),
            r matches Some(c) ==> c.pascal_name() == s@,
            r is None ==> forall|c: WowClass| #[trigger] c.pascal_name() != s@,
    {
        let r = if str_eq(s, "Warrior") {
            Some(WowClass::Warrior)
        } else if str_eq(s, "Paladin") {
            Some(WowClass::Paladin)
        } else if str_eq(s, "Hunter") {
            Some(WowClass::Hunter)
        } else if str_eq(s, "Rogue") {
            Some(WowClass::Rogue)
        } else if str_eq(s, "Priest") {
            Some(WowClass::Priest)
        } else if str_eq(s, "DeathKnight") {
            Some(WowClass::DeathKnight)
        } else if str_eq(s, "Shaman") {
            Some(WowClass::Shaman)
        } else if str_eq(s, "Mage") {
            Some(WowClass::Mage)
        } else if str_eq(s, "Warlock") {
            Some(WowClass::Warlock)
        } else if str_eq(s, "Monk") {
            Some(WowClass::Monk)
        } else if str_eq(s, "Druid") {
            Some(WowClass::Druid)
        } else if str_eq(s, "DemonHunter") {
            Some(WowClass::DemonHunter)
        } else if str_eq(s, "Evoker") {
            Some(WowClass::Evoker)
        } else {
            None
        };
        proof {
            if r is None {
                assert forall|c: WowClass| #[trigger] c.pascal_name() != s@ by {
                    match c {
                        _ => {},
                    }
                }
            }
        }
        r
    }

    /// The class's name in lookup URLs (`"death-knight"`).
    pub fn to_url_format(&self) -> (r: &'static str)
        ensures
            r@ == self.url_name(),
    {
        match self {
            WowClass::Warrior => "warrior",
            WowClass::Paladin => "paladin",
            WowClass::Hunter => "hunter",
            WowClass::Rogue => "rogue",
            WowClass::Priest => "priest",
            WowClass::DeathKnight => "death-knight",
            WowClass::Shaman => "shaman",
            WowClass::Mage => "mage",
            WowClass::Warlock => "warlock",
            WowClass::Monk => "monk",
            WowClass::Druid => "druid",
            WowClass::DemonHunter => "demon-hunter",
            WowClass::Evoker => "evoker",
        }
    }

    /// The class's key in the saved talent table (`"DEATHKNIGHT"`).
    pub fn to_lua_format(&self) -> (r: &'static str)
        ensures
            r@ == self.table_key(),
    {
        match self {
            WowClass::Warrior => "WARRIOR",
            WowClass::Paladin => "PALADIN",
            WowClass::Hunter => "HUNTER",
            WowClass::Rogue => "ROGUE",
            WowClass::Priest => "PRIEST",
            WowClass::DeathKnight => "DEATHKNIGHT",
            WowClass::Shaman => "SHAMAN",
            WowClass::Mage => "MAGE",
            WowClass::Warlock => "WARLOCK",
            WowClass::Monk => "MONK",
            WowClass::Druid => "DRUID",
            WowClass::DemonHunter => "DEMONHUNTER",
            WowClass::Evoker => "EVOKER",
        }
    }

    /// The class's specializations with their indices, in index order.
    pub fn get_spec_map(&self) -> (r: Vec<(&'static str, u8)>)
        ensures
            r@.len() == self.spec_table().len(),
            forall|k: int| 0 <= k < r@.len() ==> (#[trigger] r@[k]).0@ == self.spec_table()[k].0
                && r@[k].1 == self.spec_table()[k].1,
    {
        let r = match self {
            WowClass::Warrior => vec![("arms", 1u8), ("fury", 2u8), ("protection", 3u8)],
            WowClass::Paladin => vec![("holy", 1u8), ("protection", 2u8), ("retribution", 3u8)],
            WowClass::Hunter => vec![("beast-mastery", 1u8), ("marksmanship", 2u8), ("survival", 3u8)],
            WowClass::Rogue => vec![("assassination", 1u8), ("combat", 2u8), ("subtlety", 3u8)],
            WowClass::Priest => vec![("discipline", 1u8), ("holy", 2u8), ("shadow", 3u8)],
            WowClass::DeathKnight => vec![("blood", 1u8), ("frost", 2u8), ("unholy", 3u8)],
            WowClass::Shaman => vec![("elemental", 1u8), ("enhancement", 2u8), ("restoration", 3u8)],
            WowClass::Mage => vec![("arcane", 1u8), ("fire", 2u8), ("frost", 3u8)],
            WowClass::Warlock => vec![("affliction", 1u8), ("demonology", 2u8), ("destruction", 3u8)],
            WowClass::Monk => vec![("brewmaster", 1u8), ("mistweaver", 2u8), ("windwalker", 3u8)],
            WowClass::Druid => vec![("balance", 1u8), ("feral", 2u8), ("guardian", 3u8), ("restoration", 4u8)],
            WowClass::DemonHunter => vec![("havoc", 1u8), ("vengeance", 2u8)],
            WowClass::Evoker => vec![("devastation", 1u8), ("preservation", 2u8)],
        };
        r
    }

    /// The index of specialization `spec_name` in this class, if it has one.
    pub fn spec_index(&self, spec_name: &str) -> (r: Option<u8>)
        ensures
            r == self.spec_index_of(spec_name@),
    {
        let table = self.get_spec_map();
        let ghost t = self.spec_table();
        let mut i: usize = 0;
        assert(t.skip(0) =~= t);
        while i < table.len()
            invariant
                t == self.spec_table(),
                table@.len() == t.len(),
                forall|k: int| 0 <= k < table@.len() ==> (#[trigger] table@[k]).0@ == t[k].0
                    && table@[k].1 == t[k].1,
                i <= table.len(),
                lookup_index(t, spec_name@) == lookup_index(t.skip(i as int), spec_name@),
            decreases table.len() - i,
        {
            let (name, index) = table[i];
            assert(t.skip(i as int).drop_first() =~= t.skip(i + 1));
            assert(t.skip(i as int)[0] == t[i as int]);
            if str_eq(name, spec_name) {
                return Some(index);
            }
            i += 1;
        }
        assert(t.skip(i as int).len() == 0);
        None
    }

    /// The names of this class's specializations, in index order.
    pub fn valid_specs(&self) -> (r: Vec<&'static str>)
        ensures
            r@.len() == self.spec_table().len(),
            forall|k: int| 0 <= k < r@.len() ==> (#[trigger] r@[k])@ == self.spec_table()[k].0,
    {
        let table = self.get_spec_map();
        let mut names: Vec<&'static str> = Vec::new();
        let mut i: usize = 0;
        while i < table.len()
            invariant
                table@.len() == self.spec_table().len(),
                forall|k: int| 0 <= k < table@.len() ==> (#[trigger] table@[k]).0@ == self.spec_table()[k].0
                    && table@[k].1 == self.spec_table()[k].1,
                i <= table.len(),
                names@.len() == i,
                forall|k: int| 0 <= k < i ==> (#[trigger] names@[k])@ == self.spec_table()[k].0,
            decreases table.len() - i,
        {
            names.push(table[i].0);
            i += 1;
        }
        names
    }
}

} // verus!
