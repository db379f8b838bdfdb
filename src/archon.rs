//! Lookup content, the naming scheme for generated entries and the lookup URLs
//! of the build-aggregation site.

use vstd::prelude::*;
use crate::text::{has_suffix, lower_of, lowercase, push_str, str_eq};
use crate::wow::WowClass;

verus! {

/// The kind of content a build is published for.
#[derive(Debug, Clone, Copy, PartialEq, Eq, Structural)]
pub enum ContentType {
    Raid,
    MythicPlus,
}

/// A raid difficulty.
#[derive(Debug, Clone, Copy, PartialEq, Eq, Structural)]
pub enum RaidDifficulty {
    Normal,
    Heroic,
    Mythic,
}

impl RaidDifficulty {
    /// The difficulty's lowercase name.
    pub open spec fn name(self) -> Seq<char> {
        match self {
            RaidDifficulty::Normal => "normal"@,
            RaidDifficulty::Heroic => "heroic"@,
            RaidDifficulty::Mythic => "mythic"@,
        }
    }

    /// The difficulty whose lowercase name is exactly `s`, if any.
    pub open spec fn named(s: Seq<char>) -> Option<RaidDifficulty> {
        if s == "normal"@ {
            Some(RaidDifficulty::Normal)
        } else if s == "heroic"@ {
            Some(RaidDifficulty::Heroic)
        } else if s == "mythic"@ {
            Some(RaidDifficulty::Mythic)
        } else {
            None
        }
    }

    /// Parses an already lowercased difficulty name.
    pub fn from_lowercase(s: &str) -> (r: Option<Self>)
        ensures
            r == Self::named(s@),
    {
        if str_eq(s, "normal") {
            Some(RaidDifficulty::Normal)
        } else if str_eq(s, "heroic") {
            Some(RaidDifficulty::Heroic)
        } else if str_eq(s, "mythic") {
            Some(RaidDifficulty::Mythic)
        } else {
            None
        }
    }

    /// Parses a difficulty name in any letter case.
    pub fn from_str(s: &str) -> (r: Option<Self>)
        ensures
            r == Self::named(lower_of(s@)),
    {
        let lower = lowercase(s);
        Self::from_lowercase(lower.as_str())
    }

    /// The difficulty's lowercase name.
    pub fn as_str(&self) -> (r: &'static str)
        ensures
            r@ == self.name(),
    {
        match self {
            RaidDifficulty::Normal => "normal",
            RaidDifficulty::Heroic => "heroic",
            RaidDifficulty::Mythic => "mythic",
        }
    }
}

/// The weekday on which rotating content resets, counted from Monday = 0.
pub const RESET_WEEKDAY_FROM_MONDAY: u32 = 2;

/// The time window of published dungeon builds.
#[derive(Debug, Clone, Copy, PartialEq, Eq, Structural)]
pub enum MythicPlusTimespan {
    ThisWeek,
    LastWeek,
}

impl MythicPlusTimespan {
    /// The window's name in lookup URLs.
    pub open spec fn name(self) -> Seq<char> {
        match self {
            MythicPlusTimespan::ThisWeek => "this-week"@,
            MythicPlusTimespan::LastWeek => "last-week"@,
        }
    }

    /// The opposite window.
    pub open spec fn opposite(self) -> MythicPlusTimespan {
        match self {
            MythicPlusTimespan::ThisWeek => MythicPlusTimespan::LastWeek,
            MythicPlusTimespan::LastWeek => MythicPlusTimespan::ThisWeek,
        }
    }

    /// The window tried first on a weekday (Monday = 0): last week's on the
    /// reset day, this week's on every other day.
    pub open spec fn primary_on(weekday: u32) -> MythicPlusTimespan {
        if weekday == RESET_WEEKDAY_FROM_MONDAY {
            MythicPlusTimespan::LastWeek
        } else {
            MythicPlusTimespan::ThisWeek
        }
    }

    /// The window's name in lookup URLs.
    pub fn as_str(&self) -> (r: &'static str)
        ensures
            r@ == self.name(),
    {
        match self {
            MythicPlusTimespan::ThisWeek => "this-week",
            MythicPlusTimespan::LastWeek => "last-week",
        }
    }

    /// The window tried first on the given weekday of the user's local
    /// calendar (Monday = 0).
    pub fn primary_for_weekday(weekday: u32) -> (r: Self)
        ensures
            r == Self::primary_on(weekday),
    {
        if weekday == RESET_WEEKDAY_FROM_MONDAY {
            MythicPlusTimespan::LastWeek
        } else {
            MythicPlusTimespan::ThisWeek
        }
    }

    /// The window tried when the first one has no build.
    pub fn fallback(&self) -> (r: Self)
        ensures
            r == self.opposite(),
    {
        match self {
            MythicPlusTimespan::ThisWeek => MythicPlusTimespan::LastWeek,
            MythicPlusTimespan::LastWeek => MythicPlusTimespan::ThisWeek,
        }
    }
}

/// The suffix that marks an entry's name as generated by this library.
pub open spec fn machine_suffix() -> Seq<char> {
    "_ARCT"@
}

/// Whether an entry name marks a generated entry.
pub open spec fn is_machine_name(name: Seq<char>) -> bool {
    has_suffix(name, machine_suffix())
}

/// The name given to a generated entry with identifier `id`.
pub open spec fn machine_name(id: Seq<char>) -> Seq<char> {
    id + machine_suffix()
}

/// Ownership is told by the name alone: every name built from an identifier
/// is taken for a generated one, and a name without the suffix never is.
pub proof fn lemma_ownership_predicate(id: Seq<char>, user_name: Seq<char>)
    requires
        !has_suffix(user_name, machine_suffix()),
    ensures
        is_machine_name(machine_name(id)),
        !is_machine_name(user_name),
{
    let n = machine_name(id);
    assert(n.subrange(n.len() - machine_suffix().len(), n.len() as int) =~= machine_suffix());
}

/// What a generated build is for: a raid boss on a difficulty, or a dungeon.
#[derive(Debug, Clone, PartialEq, Eq)]
pub enum TalentIdentifier {
    Raid { difficulty: RaidDifficulty, boss: String },
    MythicPlus { dungeon: String },
}

impl TalentIdentifier {
    /// The identifier text: `R-<difficulty>-<boss>` or `M+-<dungeon>`.
    pub open spec fn text(&self) -> Seq<char> {
        match self {
            TalentIdentifier::Raid { difficulty, boss } => "R-"@ + difficulty.name() + "-"@ + boss@,
            TalentIdentifier::MythicPlus { dungeon } => "M+-"@ + dungeon@,
        }
    }

    /// The identifier text: `R-<difficulty>-<boss>` or `M+-<dungeon>`.
    pub fn as_identifier(&self) -> (r: String)
        ensures
            r@ == self.text(),
    {
        match self {
            TalentIdentifier::Raid { difficulty, boss } => {
                let mut r = String::new();
                push_str(&mut r, "R-");
                push_str(&mut r, difficulty.as_str());
                push_str(&mut r, "-");
                push_str(&mut r, boss.as_str());
                r
            },
            TalentIdentifier::MythicPlus { dungeon } => {
                let mut r = String::new();
                push_str(&mut r, "M+-");
                push_str(&mut r, dungeon.as_str());
                r
            },
        }
    }

    /// The entry name: the identifier followed by the machine suffix.
    pub fn as_talent_name(&self) -> (r: String)
        ensures
            r@ == machine_name(self.text()),
    {
        let mut r = self.as_identifier();
        push_str(&mut r, "_ARCT");
        r
    }
}

/// The lookup URL of a raid build, from lowercased specialization and boss.
pub open spec fn raid_url(
    base: Seq<char>,
    class: WowClass,
    spec: Seq<char>,
    difficulty: RaidDifficulty,
    boss: Seq<char>,
) -> Seq<char> {
    base + "/"@ + spec + "/"@ + class.url_name() + "/raid/overview/"@ + difficulty.name() + "/"@
        + boss
}

/// The lookup URL of a dungeon build, from lowercased specialization and dungeon.
pub open spec fn mythic_plus_url(
    base: Seq<char>,
    class: WowClass,
    spec: Seq<char>,
    dungeon: Seq<char>,
    timespan: MythicPlusTimespan,
) -> Seq<char> {
    base + "/"@ + spec + "/"@ + class.url_name() + "/mythic-plus/overview/10//"@ + dungeon + "/"@
        + timespan.name()
}

/// Builds lookup URLs on the build-aggregation site.
pub struct ArchonUrlBuilder {
    base_url: String,
}

impl Default for ArchonUrlBuilder {
    /// A builder for the site's public build pages.
    fn default() -> (r: Self)
        ensures
            r.base() == "https://www.archon.gg/wow/builds"@,
    {
        ArchonUrlBuilder::new()
    }
}

impl ArchonUrlBuilder {
    /// The URL that every lookup URL starts with.
    pub closed spec fn base(&self) -> Seq<char> {
        self.base_url@
    }

    /// A builder for the site's public build pages.
    pub fn new() -> (r: Self)
        ensures
            r.base() == "https://www.archon.gg/wow/builds"@,
    {
        ArchonUrlBuilder { base_url: "https://www.archon.gg/wow/builds".to_string() }
    }

    /// The raid build URL, from a specialization and boss already lowercased.
    pub fn raid_url_from_slugs(
        &self,
        class: WowClass,
        spec: &str,
        difficulty: RaidDifficulty,
        boss: &str,
    ) -> (r: String)
        ensures
            r@ == raid_url(self.base(), class, spec@, difficulty, boss@),
    {
        let mut r = self.base_url.clone();
        push_str(&mut r, "/");
        push_str(&mut r, spec);
        push_str(&mut r, "/");
        push_str(&mut r, class.to_url_format());
        push_str(&mut r, "/raid/overview/");
        push_str(&mut r, difficulty.as_str());
        push_str(&mut r, "/");
        push_str(&mut r, boss);
        r
    }

    /// The raid build URL: `<base>/<spec>/<class>/raid/overview/<difficulty>/<boss>`.
    pub fn build_raid_url(
        &self,
        class: WowClass,
        spec: &str,
        difficulty: RaidDifficulty,
        boss: &str,
    ) -> (r: String)
        ensures
            r@ == raid_url(self.base(), class, lower_of(spec@), difficulty, lower_of(boss@)),
    {
        let spec_lower = lowercase(spec);
        let boss_lower = lowercase(boss);
        self.raid_url_from_slugs(class, spec_lower.as_str(), difficulty, boss_lower.as_str())
    }

    /// The dungeon build URL, from a specialization and dungeon already lowercased.
    pub fn mythic_plus_url_from_slugs(
        &self,
        class: WowClass,
        spec: &str,
        dungeon: &str,
        timespan: MythicPlusTimespan,
    ) -> (r: String)
        ensures
            r@ == mythic_plus_url(self.base(), class, spec@, dungeon@, timespan),
    {
        let mut r = self.base_url.clone();
        push_str(&mut r, "/");
        push_str(&mut r, spec);
        push_str(&mut r, "/");
        push_str(&mut r, class.to_url_format());
        push_str(&mut r, "/mythic-plus/overview/10//");
        push_str(&mut r, dungeon);
        push_str(&mut r, "/");
        push_str(&mut r, timespan.as_str());
        r
    }

    /// The dungeon build URL:
    /// `<base>/<spec>/<class>/mythic-plus/overview/10//<dungeon>/<window>`.
    pub fn build_mythic_plus_url(
        &self,
        class: WowClass,
        spec: &str,
        dungeon: &str,
        timespan: MythicPlusTimespan,
    ) -> (r: String)
        ensures
            r@ == mythic_plus_url(self.base(), class, lower_of(spec@), lower_of(dungeon@), timespan),
    {
        let spec_lower = lowercase(spec);
        let dungeon_lower = lowercase(dungeon);
        self.mythic_plus_url_from_slugs(class, spec_lower.as_str(), dungeon_lower.as_str(), timespan)
    }
}

} // verus!
