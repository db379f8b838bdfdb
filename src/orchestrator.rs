//! The reconciliation policy of a sync pass. Planning turns a configuration
//! into an ordered list of steps; a run then walks those steps, asking its
//! driver to fetch build pages and applying what comes back to the store.

use vstd::prelude::*;
use crate::archon::{
    machine_name, mythic_plus_url, raid_url, ArchonUrlBuilder, MythicPlusTimespan, RaidDifficulty,
    TalentIdentifier,
};
use crate::config::{Character, Config};
use crate::lua_talent::{
    has_class, lemma_user_owned_idempotent, slot_of, store_wf, user_owned, without_machine_owned,
    LoadoutView, LuaTalentManager, StoreModel, TalentLoadout,
};
use crate::text::{lower_of, owned, strings_view};
use crate::wow::WowClass;

verus! {

/// Counts reported at the end of a sync pass.
#[derive(Debug, Clone, Copy, PartialEq, Eq, Structural)]
pub struct UpdateSummary {
    pub total_talents_updated: usize,
    pub raid_talents: usize,
    pub mythic_plus_talents: usize,
    pub characters_processed: usize,
}

/// Why a sync pass cannot run.
#[derive(Debug, Clone, Copy, PartialEq, Eq, Structural)]
pub enum SyncError {
    UnknownClass,
    UnknownSpecialization,
    UnknownDifficulty,
}

/// One step of a sync pass.
#[derive(Debug)]
pub enum SyncStep {
    /// Drop the generated loadouts of one slot.
    Clear { class_key: String, spec_index: u8 },
    /// Look a build up at `url`, then at `fallback` if there is one and the
    /// first had none, and add what is found to the slot under `name`.
    Lookup {
        class_key: String,
        spec_index: u8,
        name: String,
        raid: bool,
        url: String,
        fallback: Option<String>,
    },
}

/// A step, as values.
pub enum StepView {
    Clear(Seq<char>, u8),
    Lookup(Seq<char>, u8, Seq<char>, bool, Seq<char>, Option<Seq<char>>),
}

/// A step as values.
pub open spec fn step_view(s: SyncStep) -> StepView {
    match s {
        SyncStep::Clear { class_key, spec_index } => StepView::Clear(class_key@, spec_index),
        SyncStep::Lookup { class_key, spec_index, name, raid, url, fallback } => StepView::Lookup(
            class_key@,
            spec_index,
            name@,
            raid,
            url@,
            match fallback {
                Some(f) => Some(f@),
                None => None,
            },
        ),
    }
}

/// Steps as values.
pub open spec fn steps_view(v: Seq<SyncStep>) -> Seq<StepView> {
    v.map_values(|s: SyncStep| step_view(s))
}

/// The difficulties named, in any letter case; `None` if one is unknown.
pub open spec fn difficulties_of(names: Seq<Seq<char>>) -> Option<Seq<RaidDifficulty>>
    decreases names.len(),
{
    if names.len() == 0 {
        Some(Seq::empty())
    } else {
        match RaidDifficulty::named(lower_of(names[0])) {
            None => None,
            Some(d) => match difficulties_of(names.drop_first()) {
                Some(r) => Some(seq![d] + r),
                None => None,
            },
        }
    }
}

/// Raid lookups are made: there are bosses and difficulties.
pub open spec fn raid_enabled(c: Config) -> bool {
    c.raid_bosses@.len() > 0 && c.raid_difficulties@.len() > 0
}

/// The lookup of a raid build for one boss on one difficulty.
pub open spec fn raid_step(
    base: Seq<char>,
    class: WowClass,
    spec: Seq<char>,
    index: u8,
    difficulty: RaidDifficulty,
    boss: Seq<char>,
) -> StepView {
    StepView::Lookup(
        class.table_key(),
        index,
        machine_name("R-"@ + difficulty.name() + "-"@ + boss),
        true,
        raid_url(base, class, lower_of(spec), difficulty, lower_of(boss)),
        None,
    )
}

/// The raid lookups for one boss, one per difficulty in order.
pub open spec fn boss_steps(
    base: Seq<char>,
    class: WowClass,
    spec: Seq<char>,
    index: u8,
    difficulties: Seq<RaidDifficulty>,
    boss: Seq<char>,
) -> Seq<StepView> {
    difficulties.map_values(|d: RaidDifficulty| raid_step(base, class, spec, index, d, boss))
}

/// The raid lookups for every boss in order, each over every difficulty.
pub open spec fn raid_steps(
    base: Seq<char>,
    class: WowClass,
    spec: Seq<char>,
    index: u8,
    difficulties: Seq<RaidDifficulty>,
    bosses: Seq<Seq<char>>,
) -> Seq<StepView>
    decreases bosses.len(),
{
    if bosses.len() == 0 {
        Seq::empty()
    } else {
        raid_steps(base, class, spec, index, difficulties, bosses.drop_last()) + boss_steps(
            base,
            class,
            spec,
            index,
            difficulties,
            bosses.last(),
        )
    }
}

/// The lookup of a dungeon build: the primary window's page, then the other's.
pub open spec fn dungeon_step(
    base: Seq<char>,
    class: WowClass,
    spec: Seq<char>,
    index: u8,
    dungeon: Seq<char>,
    primary: MythicPlusTimespan,
) -> StepView {
    StepView::Lookup(
        class.table_key(),
        index,
        machine_name("M+-"@ + dungeon),
        false,
        mythic_plus_url(base, class, lower_of(spec), lower_of(dungeon), primary),
        Some(mythic_plus_url(base, class, lower_of(spec), lower_of(dungeon), primary.opposite())),
    )
}

/// The dungeon lookups, one per dungeon in order.
pub open spec fn dungeon_steps(
    base: Seq<char>,
    class: WowClass,
    spec: Seq<char>,
    index: u8,
    dungeons: Seq<Seq<char>>,
    primary: MythicPlusTimespan,
) -> Seq<StepView> {
    dungeons.map_values(|d: Seq<char>| dungeon_step(base, class, spec, index, d, primary))
}

/// The steps for one specialization: its scoped clear unless everything was
/// cleared first, then its raid lookups, then its dungeon lookups.
#[verifier::opaque]
pub open spec fn spec_steps(
    c: Config,
    base: Seq<char>,
    primary: MythicPlusTimespan,
    class: WowClass,
    spec: Seq<char>,
    index: u8,
    difficulties: Seq<RaidDifficulty>,
) -> Seq<StepView> {
    (if c.clear_previous_builds {
        Seq::empty()
    } else {
        seq![StepView::Clear(class.table_key(), index)]
    }) + (if raid_enabled(c) {
        raid_steps(base, class, spec, index, difficulties, strings_view(c.raid_bosses@))
    } else {
        Seq::empty()
    }) + (if c.dungeons@.len() > 0 {
        dungeon_steps(base, class, spec, index, strings_view(c.dungeons@), primary)
    } else {
        Seq::empty()
    })
}

/// The steps for a character's specializations in order; the first unknown
/// specialization, or an unknown difficulty once raid lookups are due, stops
/// the plan.
pub open spec fn plan_specs(
    c: Config,
    base: Seq<char>,
    primary: MythicPlusTimespan,
    class: WowClass,
    specs: Seq<Seq<char>>,
) -> Result<Seq<StepView>, SyncError>
    decreases specs.len(),
{
    if specs.len() == 0 {
        Ok(Seq::empty())
    } else {
        match class.spec_index_of(specs[0]) {
            None => Err(SyncError::UnknownSpecialization),
            Some(index) => {
                let diffs = difficulties_of(strings_view(c.raid_difficulties@));
                if raid_enabled(c) && diffs is None {
                    Err(SyncError::UnknownDifficulty)
                } else {
                    let here = spec_steps(
                        c,
                        base,
                        primary,
                        class,
                        specs[0],
                        index,
                        match diffs {
                            Some(d) => d,
                            None => Seq::empty(),
                        },
                    );
                    match plan_specs(c, base, primary, class, specs.drop_first()) {
                        Ok(rest) => Ok(here + rest),
                        Err(e) => Err(e),
                    }
                }
            },
        }
    }
}

/// The steps for each character in order; the first unknown class stops the plan.
pub open spec fn plan_characters(
    c: Config,
    base: Seq<char>,
    primary: MythicPlusTimespan,
    chars: Seq<Character>,
) -> Result<Seq<StepView>, SyncError>
    decreases chars.len(),
{
    if chars.len() == 0 {
        Ok(Seq::empty())
    } else {
        match WowClass::named(chars[0].class@) {
            None => Err(SyncError::UnknownClass),
            Some(class) => match plan_specs(
                c,
                base,
                primary,
                class,
                strings_view(chars[0].specializations@),
            ) {
                Err(e) => Err(e),
                Ok(a) => match plan_characters(c, base, primary, chars.drop_first()) {
                    Ok(b) => Ok(a + b),
                    Err(e) => Err(e),
                },
            },
        }
    }
}

/// Drives sync passes for one configuration.
pub struct TalentOrchestrator {
    config: Config,
    url_builder: ArchonUrlBuilder,
}

impl TalentOrchestrator {
    /// The configuration this orchestrator runs.
    pub closed spec fn config(&self) -> Config {
        self.config
    }

    /// The URL every lookup URL starts with.
    pub closed spec fn base(&self) -> Seq<char> {
        self.url_builder.base()
    }

    /// An orchestrator for `config` that looks builds up on the site's public pages.
    pub fn new(config: Config) -> (r: Self)
        ensures
            r.config() == config,
            r.base() == "https://www.archon.gg/wow/builds"@,
    {
        TalentOrchestrator { config, url_builder: ArchonUrlBuilder::new() }
    }

    /// The difficulties configured, in order; `None` if one is unknown.
    fn parse_difficulties(&self) -> (r: Option<Vec<RaidDifficulty>>)
        ensures
            match r {
                Some(v) => difficulties_of(strings_view(self.config().raid_difficulties@)) == Some(v@),
                None => difficulties_of(strings_view(self.config().raid_difficulties@)) is None,
            },
    {
        let names = &self.config.raid_difficulties;
        let ghost all = strings_view(names@);
        let mut out: Vec<RaidDifficulty> = Vec::new();
        let mut k: usize = 0;
        assert(all.skip(0) =~= all);
        while k < names.len()
            invariant
                all == strings_view(names@),
                names == &self.config.raid_difficulties,
                k <= names@.len(),
                difficulties_of(all) == match difficulties_of(all.skip(k as int)) {
                    Some(r) => Some(out@ + r),
                    None => None,
                },
            decreases names.len() - k,
        {
            assert(all.skip(k as int).drop_first() =~= all.skip(k + 1));
            assert(all.skip(k as int)[0] == names@[k as int]@);
            match RaidDifficulty::from_str(names[k].as_str()) {
                None => {
                    return None;
                },
                Some(d) => {
                    let ghost before = out@;
                    out.push(d);
                    proof {
                        if let Some(r) = difficulties_of(all.skip(k + 1)) {
                            assert(before + (seq![d] + r) =~= out@ + r);
                        }
                    }
                },
            }
            k += 1;
        }
        assert(all.skip(k as int) =~= Seq::<Seq<char>>::empty());
        assert(out@ + Seq::<RaidDifficulty>::empty() =~= out@);
        Some(out)
    }

    /// Appends the raid lookups of one specialization.
    fn push_raid_steps(
        &self,
        class: WowClass,
        spec: &str,
        index: u8,
        diffs: &Vec<RaidDifficulty>,
        out: &mut Vec<SyncStep>,
    )
        ensures
            steps_view(final(out)@) == steps_view(old(out)@) + raid_steps(
                self.base(),
                class,
                spec@,
                index,
                diffs@,
                strings_view(self.config().raid_bosses@),
            ),
    {
        let bosses = &self.config.raid_bosses;
        let ghost bv = strings_view(bosses@);
        let ghost start = steps_view(out@);
        let ghost base = self.base();
        let mut b: usize = 0;
        assert(bv.take(0) =~= Seq::<Seq<char>>::empty());
        assert(start + Seq::<StepView>::empty() =~= start);
        while b < bosses.len()
            invariant
                bosses == &self.config.raid_bosses,
                bv == strings_view(bosses@),
                base == self.base(),
                b <= bosses@.len(),
                steps_view(out@) == start + raid_steps(base, class, spec@, index, diffs@, bv.take(b as int)),
            decreases bosses.len() - b,
        {
            let boss = &bosses[b];
            let ghost mid = steps_view(out@);
            let mut j: usize = 0;
            assert(diffs@.take(0).map_values(|d: RaidDifficulty| raid_step(base, class, spec@, index, d, boss@)) =~= Seq::<StepView>::empty());
            assert(mid + Seq::<StepView>::empty() =~= mid);
            while j < diffs.len()
                invariant
                    base == self.base(),
                    j <= diffs@.len(),
                    steps_view(out@) == mid + diffs@.take(j as int).map_values(
                        |d: RaidDifficulty| raid_step(base, class, spec@, index, d, boss@),
                    ),
                decreases diffs.len() - j,
            {
                let d = diffs[j];
                let id = TalentIdentifier::Raid { difficulty: d, boss: boss.clone() };
                let name = id.as_talent_name();
                let url = self.url_builder.build_raid_url(class, spec, d, boss.as_str());
                let step = SyncStep::Lookup {
                    class_key: owned(class.to_lua_format()),
                    spec_index: index,
                    name,
                    raid: true,
                    url,
                    fallback: None,
                };
                let ghost before = out@;
                out.push(step);
                proof {
                    assert(step_view(step) == raid_step(base, class, spec@, index, d, boss@));
                    assert(steps_view(out@) =~= steps_view(before).push(step_view(step)));
                    assert(diffs@.take(j + 1) =~= diffs@.take(j as int).push(d));
                    assert(diffs@.take(j + 1).map_values(|d: RaidDifficulty| raid_step(base, class, spec@, index, d, boss@))
                        =~= diffs@.take(j as int).map_values(|d: RaidDifficulty| raid_step(base, class, spec@, index, d, boss@)).push(raid_step(base, class, spec@, index, d, boss@)));
                }
                j += 1;
            }
            proof {
                assert(diffs@.take(j as int) =~= diffs@);
                assert(bv.take(b + 1).drop_last() =~= bv.take(b as int));
                assert(bv.take(b + 1).last() == boss@);
            }
            b += 1;
        }
        assert(bv.take(b as int) =~= bv);
    }

    /// Appends the dungeon lookups of one specialization.
    fn push_dungeon_steps(
        &self,
        class: WowClass,
        spec: &str,
        index: u8,
        primary: MythicPlusTimespan,
        out: &mut Vec<SyncStep>,
    )
        ensures
            steps_view(final(out)@) == steps_view(old(out)@) + dungeon_steps(
                self.base(),
                class,
                spec@,
                index,
                strings_view(self.config().dungeons@),
                primary,
            ),
    {
        let dungeons = &self.config.dungeons;
        let ghost dv = strings_view(dungeons@);
        let ghost start = steps_view(out@);
        let ghost base = self.base();
        let fallback = primary.fallback();
        let mut k: usize = 0;
        assert(dv.take(0).map_values(|d: Seq<char>| dungeon_step(base, class, spec@, index, d, primary)) =~= Seq::<StepView>::empty());
        assert(start + Seq::<StepView>::empty() =~= start);
        while k < dungeons.len()
            invariant
                dungeons == &self.config.dungeons,
                dv == strings_view(dungeons@),
                base == self.base(),
                fallback == primary.opposite(),
                k <= dungeons@.len(),
                steps_view(out@) == start + dv.take(k as int).map_values(
                    |d: Seq<char>| dungeon_step(base, class, spec@, index, d, primary),
                ),
            decreases dungeons.len() - k,
        {
            let dungeon = &dungeons[k];
            let id = TalentIdentifier::MythicPlus { dungeon: dungeon.clone() };
            let name = id.as_talent_name();
            let url = self.url_builder.build_mythic_plus_url(class, spec, dungeon.as_str(), primary);
            let other = self.url_builder.build_mythic_plus_url(class, spec, dungeon.as_str(), fallback);
            let step = SyncStep::Lookup {
                class_key: owned(class.to_lua_format()),
                spec_index: index,
                name,
                raid: false,
                url,
                fallback: Some(other),
            };
            let ghost before = out@;
            out.push(step);
            proof {
                assert(step_view(step) == dungeon_step(base, class, spec@, index, dungeon@, primary));
                assert(steps_view(out@) =~= steps_view(before).push(step_view(step)));
                assert(dv.take(k + 1) =~= dv.take(k as int).push(dungeon@));
                assert(dv.take(k + 1).map_values(|d: Seq<char>| dungeon_step(base, class, spec@, index, d, primary))
                    =~= dv.take(k as int).map_values(|d: Seq<char>| dungeon_step(base, class, spec@, index, d, primary)).push(dungeon_step(base, class, spec@, index, dungeon@, primary)));
            }
            k += 1;
        }
        assert(dv.take(k as int) =~= dv);
    }

    /// Appends the steps of one specialization.
    fn push_spec_steps(
        &self,
        class: WowClass,
        spec: &str,
        index: u8,
        diffs: &Vec<RaidDifficulty>,
        primary: MythicPlusTimespan,
        out: &mut Vec<SyncStep>,
    )
        ensures
            steps_view(final(out)@) == steps_view(old(out)@) + spec_steps(
                self.config(),
                self.base(),
                primary,
                class,
                spec@,
                index,
                diffs@,
            ),
    {
        let ghost start = steps_view(out@);
        if !self.config.clear_previous_builds {
            out.push(SyncStep::Clear { class_key: owned(class.to_lua_format()), spec_index: index });
            assert(steps_view(out@) =~= start + seq![StepView::Clear(class.table_key(), index)]);
        } else {
            assert(steps_view(out@) =~= start + Seq::<StepView>::empty());
        }
        let ghost mid = steps_view(out@);
        if self.config.raid_bosses.len() > 0 && self.config.raid_difficulties.len() > 0 {
            self.push_raid_steps(class, spec, index, diffs, out);
        } else {
            assert(steps_view(out@) =~= mid + Seq::<StepView>::empty());
        }
        let ghost mid2 = steps_view(out@);
        if self.config.dungeons.len() > 0 {
            self.push_dungeon_steps(class, spec, index, primary, out);
        } else {
            assert(steps_view(out@) =~= mid2 + Seq::<StepView>::empty());
        }
        reveal(spec_steps);
        assert(steps_view(out@) =~= start + spec_steps(self.config(), self.base(), primary, class, spec@, index, diffs@));
    }

    /// Appends the steps of one character's specializations.
    fn push_character_steps(
        &self,
        class: WowClass,
        specs: &Vec<String>,
        diffs: &Option<Vec<RaidDifficulty>>,
        primary: MythicPlusTimespan,
        out: &mut Vec<SyncStep>,
    ) -> (r: Result<(), SyncError>)
        requires
            match diffs {
                Some(v) => difficulties_of(strings_view(self.config().raid_difficulties@)) == Some(v@),
                None => difficulties_of(strings_view(self.config().raid_difficulties@)) is None,
            },
        ensures
            match plan_specs(self.config(), self.base(), primary, class, strings_view(specs@)) {
                Ok(a) => r is Ok && steps_view(final(out)@) == steps_view(old(out)@) + a,
                Err(e) => r == Err::<(), SyncError>(e),
            },
    {
        let ghost cfg = self.config();
        let ghost base = self.base();
        let ghost sv = strings_view(specs@);
        let ghost start = steps_view(out@);
        let ghost mut acc: Seq<StepView> = Seq::empty();
        let raid = self.config.raid_bosses.len() > 0 && self.config.raid_difficulties.len() > 0;
        let mut k: usize = 0;
        assert(sv.skip(0) =~= sv);
        assert(start + Seq::<StepView>::empty() =~= start);
        while k < specs.len()
            invariant
                cfg == self.config(),
                base == self.base(),
                sv == strings_view(specs@),
                raid == raid_enabled(cfg),
                k <= specs@.len(),
                steps_view(out@) == start + acc,
                match diffs {
                    Some(v) => difficulties_of(strings_view(cfg.raid_difficulties@)) == Some(v@),
                    None => difficulties_of(strings_view(cfg.raid_difficulties@)) is None,
                },
                plan_specs(cfg, base, primary, class, sv) == match plan_specs(cfg, base, primary, class, sv.skip(k as int)) {
                    Ok(rest) => Ok(acc + rest),
                    Err(e) => Err(e),
                },
            decreases specs.len() - k,
        {
            let spec = &specs[k];
            assert(sv.skip(k as int).drop_first() =~= sv.skip(k + 1));
            assert(sv.skip(k as int)[0] == spec@);
            match class.spec_index(spec.as_str()) {
                None => {
                    return Err(SyncError::UnknownSpecialization);
                },
                Some(index) => {
                    let empty: Vec<RaidDifficulty> = Vec::new();
                    let ds = match diffs {
                        Some(v) => v,
                        None => {
                            if raid {
                                return Err(SyncError::UnknownDifficulty);
                            }
                            &empty
                        },
                    };
                    let ghost before = steps_view(out@);
                    self.push_spec_steps(class, spec.as_str(), index, ds, primary, out);
                    proof {
                        let tail = sv.skip(k as int);
                        assert(plan_specs(cfg, base, primary, class, tail) == match plan_specs(cfg, base, primary, class, tail.drop_first()) {
                            Ok(rest) => Ok(spec_steps(cfg, base, primary, class, spec@, index, ds@) + rest),
                            Err(e) => Err::<Seq<StepView>, SyncError>(e),
                        });
                        let here = spec_steps(cfg, base, primary, class, spec@, index, ds@);
                        assert(ds@ == match difficulties_of(strings_view(cfg.raid_difficulties@)) {
                            Some(d) => d,
                            None => Seq::<RaidDifficulty>::empty(),
                        });
                        if let Ok(rest) = plan_specs(cfg, base, primary, class, sv.skip(k + 1)) {
                            assert(acc + (here + rest) =~= (acc + here) + rest);
                        }
                        assert(start + acc + here =~= start + (acc + here));
                        acc = acc + here;
                    }
                },
            }
            k += 1;
        }
        assert(sv.skip(k as int) =~= Seq::<Seq<char>>::empty());
        assert(acc + Seq::<StepView>::empty() =~= acc);
        Ok(())
    }

    /// The steps of a sync pass in order: for each character and each of its
    /// specializations, the scoped clear (unless everything is cleared first),
    /// the raid lookups and the dungeon lookups, dungeon pages tried in
    /// `primary` window first. Fails on the first unknown class, unknown
    /// specialization, or unknown difficulty once raid lookups are due.
    /// Difficulty names are read only when raid lookups are made, that is
    /// when both bosses and difficulties are configured: a difficulty list
    /// without bosses is never used, so an unknown name in it is not an error.
    pub fn plan(&self, primary: MythicPlusTimespan) -> (r: Result<Vec<SyncStep>, SyncError>)
        ensures
            match plan_characters(self.config(), self.base(), primary, self.config().characters@) {
                Ok(a) => r matches Ok(v) && steps_view(v@) == a,
                Err(e) => r matches Err(x) && x == e,
            },
    {
        let ghost cfg = self.config();
        let ghost base = self.base();
        let chars = &self.config.characters;
        let diffs = self.parse_difficulties();
        let mut out: Vec<SyncStep> = Vec::new();
        let mut k: usize = 0;
        assert(chars@.skip(0) =~= chars@);
        assert(steps_view(out@) =~= Seq::<StepView>::empty());
        while k < chars.len()
            invariant
                cfg == self.config(),
                base == self.base(),
                chars == &self.config.characters,
                k <= chars@.len(),
                match diffs {
                    Some(v) => difficulties_of(strings_view(cfg.raid_difficulties@)) == Some(v@),
                    None => difficulties_of(strings_view(cfg.raid_difficulties@)) is None,
                },
                plan_characters(cfg, base, primary, chars@) == match plan_characters(cfg, base, primary, chars@.skip(k as int)) {
                    Ok(rest) => Ok(steps_view(out@) + rest),
                    Err(e) => Err(e),
                },
            decreases chars.len() - k,
        {
            let ch = &chars[k];
            assert(chars@.skip(k as int).drop_first() =~= chars@.skip(k + 1));
            assert(chars@.skip(k as int)[0] == *ch);
            match WowClass::from_str(ch.class.as_str()) {
                None => {
                    return Err(SyncError::UnknownClass);
                },
                Some(class) => {
                    let ghost before = steps_view(out@);
                    match self.push_character_steps(class, &ch.specializations, &diffs, primary, &mut out) {
                        Err(e) => {
                            return Err(e);
                        },
                        Ok(()) => {
                            proof {
                                if let Ok(rest) = plan_characters(cfg, base, primary, chars@.skip(k + 1)) {
                                    let a2 = match plan_specs(cfg, base, primary, class, strings_view(ch.specializations@)) {
                                        Ok(x) => x,
                                        Err(_) => Seq::empty(),
                                    };
                                    assert(before + (a2 + rest) =~= steps_view(out@) + rest);
                                }
                            }
                        },
                    }
                },
            }
            k += 1;
        }
        assert(chars@.skip(k as int) =~= Seq::<Character>::empty());
        assert(steps_view(out@) + Seq::<StepView>::empty() =~= steps_view(out@));
        Ok(out)
    }
}

/// What the driver of a run does next.
#[derive(Debug)]
pub enum SyncAction {
    /// Fetch this page and hand what it holds to `on_result`.
    Fetch(String),
    /// Every step is done: take the store and the summary with `finish`.
    Finished,
}

/// A run, as values: its steps, the step it stands at, whether the current
/// lookup is on its fallback page, the store, and the counts so far.
pub struct RunView {
    pub steps: Seq<StepView>,
    pub pos: int,
    pub on_fallback: bool,
    pub store: StoreModel,
    pub raid: int,
    pub dungeon: int,
    pub characters: int,
}

/// A run in a consistent state.
pub open spec fn run_wf(r: RunView) -> bool {
    &&& 0 <= r.pos <= r.steps.len()
    &&& store_wf(r.store)
    &&& 0 <= r.raid
    &&& 0 <= r.dungeon
    &&& r.raid + r.dungeon <= r.pos
    &&& r.on_fallback ==> r.pos < r.steps.len() && (r.steps[r.pos] matches StepView::Lookup(
        _,
        _,
        _,
        _,
        _,
        Some(_),
    ))
}

/// The page the current lookup fetches.
pub open spec fn current_url(r: RunView) -> Seq<char> {
    match r.steps[r.pos] {
        StepView::Lookup(_, _, _, _, url, fallback) => if r.on_fallback {
            match fallback {
                Some(f) => f,
                None => url,
            }
        } else {
            url
        },
        StepView::Clear(_, _) => Seq::empty(),
    }
}

/// Store `b` is store `a` with loadout `e` appended to slot `i` of class `c`,
/// which is created if absent.
pub open spec fn appended(a: StoreModel, b: StoreModel, c: Seq<char>, i: u8, e: LoadoutView) -> bool {
    &&& forall|x: Seq<char>| #[trigger] has_class(b, x) == (x == c || has_class(a, x))
    &&& forall|x: Seq<char>, j: u8| #[trigger] slot_of(b, x, j) == if x == c && j == i {
        Some(
            match slot_of(a, c, i) {
                Some(s) => s,
                None => Seq::empty(),
            }.push(e),
        )
    } else {
        slot_of(a, x, j)
    }
}

/// Whether some step in `steps[from..to]` clears slot `i` of class `c`.
pub open spec fn cleared_between(steps: Seq<StepView>, from: int, to: int, c: Seq<char>, i: u8) -> bool {
    exists|k: int| from <= k < to && steps[k] == StepView::Clear(c, i)
}

/// What `next_action` does: it carries out the clear steps from the current
/// step on and stops at the next lookup or at the end.
pub open spec fn settled(a: RunView, b: RunView) -> bool {
    &&& b.steps == a.steps
    &&& b.on_fallback == a.on_fallback
    &&& b.raid == a.raid
    &&& b.dungeon == a.dungeon
    &&& b.characters == a.characters
    &&& a.pos <= b.pos <= a.steps.len()
    &&& forall|k: int| a.pos <= k < b.pos ==> (#[trigger] a.steps[k]) is Clear
    &&& b.pos < a.steps.len() ==> a.steps[b.pos] is Lookup
    &&& forall|c: Seq<char>| #[trigger] has_class(b.store, c) == has_class(a.store, c)
    &&& forall|c: Seq<char>, i: u8| #[trigger] slot_of(b.store, c, i) == if cleared_between(
        a.steps,
        a.pos,
        b.pos,
        c,
        i,
    ) {
        match slot_of(a.store, c, i) {
            Some(e) => Some(user_owned(e)),
            None => None,
        }
    } else {
        slot_of(a.store, c, i)
    }
}

/// What `on_result` does with the outcome `found` of the current lookup: a
/// found build is added as a generated loadout and counted; a miss on the
/// first page moves to the fallback page if there is one; otherwise the run
/// moves on with nothing added.
pub open spec fn result_step(a: RunView, found: Option<Seq<char>>, b: RunView) -> bool {
    &&& b.steps == a.steps
    &&& b.characters == a.characters
    &&& match a.steps[a.pos] {
        StepView::Lookup(key, index, name, raid, _, fallback) => match found {
            Some(p) => {
                &&& b.pos == a.pos + 1
                &&& !b.on_fallback
                &&& b.raid == a.raid + if raid { 1int } else { 0int }
                &&& b.dungeon == a.dungeon + if raid { 0int } else { 1int }
                &&& appended(a.store, b.store, key, index, LoadoutView { icon: 0, name, text: p })
            },
            None => {
                &&& b.raid == a.raid
                &&& b.dungeon == a.dungeon
                &&& b.store == a.store
                &&& if !a.on_fallback && fallback is Some {
                    b.pos == a.pos && b.on_fallback
                } else {
                    b.pos == a.pos + 1 && !b.on_fallback
                }
            },
        },
        StepView::Clear(_, _) => false,
    }
}

/// One sync pass in progress.
pub struct SyncRun {
    steps: Vec<SyncStep>,
    pos: usize,
    on_fallback: bool,
    store: LuaTalentManager,
    raid_added: usize,
    dungeon_added: usize,
    characters: usize,
}

impl View for SyncRun {
    type V = RunView;

    closed spec fn view(&self) -> RunView {
        RunView {
            steps: steps_view(self.steps@),
            pos: self.pos as int,
            on_fallback: self.on_fallback,
            store: self.store@,
            raid: self.raid_added as int,
            dungeon: self.dungeon_added as int,
            characters: self.characters as int,
        }
    }
}

impl SyncRun {
    /// Carries out the clear steps from the current step on, then says what to
    /// fetch next, or that the run is done.
    pub fn next_action(&mut self) -> (r: SyncAction)
        requires
            run_wf(old(self)@),
        ensures
            run_wf(final(self)@),
            settled(old(self)@, final(self)@),
            match r {
                SyncAction::Fetch(u) => final(self)@.pos < final(self)@.steps.len() && u@ == current_url(
                    final(self)@,
                ),
                SyncAction::Finished => final(self)@.pos == final(self)@.steps.len(),
            },
    {
        let ghost a = self@;
        loop
            invariant
                a == old(self)@,
                run_wf(a),
                run_wf(self@),
                self@.steps == a.steps,
                self@.on_fallback == a.on_fallback,
                self@.raid == a.raid,
                self@.dungeon == a.dungeon,
                self@.characters == a.characters,
                a.pos <= self@.pos <= a.steps.len(),
                forall|k: int| a.pos <= k < self@.pos ==> (#[trigger] a.steps[k]) is Clear,
                forall|c: Seq<char>| #[trigger] has_class(self@.store, c) == has_class(a.store, c),
                forall|c: Seq<char>, i: u8| #[trigger] slot_of(self@.store, c, i) == if cleared_between(
                    a.steps,
                    a.pos,
                    self@.pos,
                    c,
                    i,
                ) {
                    match slot_of(a.store, c, i) {
                        Some(e) => Some(user_owned(e)),
                        None => None,
                    }
                } else {
                    slot_of(a.store, c, i)
                },
            decreases self.steps@.len() - self.pos,
        {
            if self.pos >= self.steps.len() {
                return SyncAction::Finished;
            }
            let ghost before = self@;
            proof {
                assert(before.steps[before.pos] == step_view(self.steps@[self.pos as int]));
            }
            match &self.steps[self.pos] {
                SyncStep::Clear { class_key, spec_index } => {
                    let ghost c0 = class_key@;
                    let ghost i0 = *spec_index;
                    self.store.remove_auto_generated(class_key.as_str(), *spec_index);
                    self.pos = self.pos + 1;
                    proof {
                        assert(a.steps[before.pos] == StepView::Clear(c0, i0));
                        assert forall|c: Seq<char>, i: u8| #[trigger] slot_of(self@.store, c, i) == if cleared_between(
                            a.steps,
                            a.pos,
                            self@.pos,
                            c,
                            i,
                        ) {
                            match slot_of(a.store, c, i) {
                                Some(e) => Some(user_owned(e)),
                                None => None,
                            }
                        } else {
                            slot_of(a.store, c, i)
                        } by {
                            if c == c0 && i == i0 {
                                assert(cleared_between(a.steps, a.pos, self@.pos, c, i));
                                if let Some(e) = slot_of(a.store, c, i) {
                                    lemma_user_owned_idempotent(e);
                                }
                            } else {
                                if cleared_between(a.steps, a.pos, self@.pos, c, i) {
                                    let k = choose|k: int| a.pos <= k < self@.pos && a.steps[k] == StepView::Clear(c, i);
                                    assert(k < before.pos);
                                    assert(cleared_between(a.steps, a.pos, before.pos, c, i));
                                } else {
                                    assert(!cleared_between(a.steps, a.pos, before.pos, c, i));
                                }
                            }
                        }
                    }
                },
                SyncStep::Lookup { url, fallback, .. } => {
                    if self.on_fallback {
                        match fallback {
                            Some(f) => {
                                return SyncAction::Fetch(f.clone());
                            },
                            None => {
                                return SyncAction::Fetch(url.clone());
                            },
                        }
                    }
                    return SyncAction::Fetch(url.clone());
                },
            }
        }
    }

    /// Applies the outcome of the current lookup: `Some` with the build found,
    /// or `None` if the page had none.
    pub fn on_result(&mut self, found: Option<String>)
        requires
            run_wf(old(self)@),
            old(self)@.pos < old(self)@.steps.len(),
            old(self)@.steps[old(self)@.pos] is Lookup,
        ensures
            run_wf(final(self)@),
            result_step(
                old(self)@,
                match found {
                    Some(p) => Some(p@),
                    None => None,
                },
                final(self)@,
            ),
    {
        let ghost a = self@;
        let n = self.steps.len();
        proof {
            assert(a.steps[a.pos] == step_view(self.steps@[self.pos as int]));
        }
        match &self.steps[self.pos] {
            SyncStep::Lookup { class_key, spec_index, name, raid, fallback, .. } => {
                match found {
                    Some(p) => {
                        let entry = TalentLoadout::new(name.clone(), p);
                        self.store.add_talent(class_key.clone(), *spec_index, entry);
                        if *raid {
                            self.raid_added = self.raid_added + 1;
                        } else {
                            self.dungeon_added = self.dungeon_added + 1;
                        }
                        self.pos = self.pos + 1;
                        self.on_fallback = false;
                    },
                    None => {
                        if !self.on_fallback && fallback.is_some() {
                            self.on_fallback = true;
                        } else {
                            self.pos = self.pos + 1;
                            self.on_fallback = false;
                        }
                    },
                }
            },
            SyncStep::Clear { .. } => {},
        }
    }

    /// The store and the counts of the run.
    pub fn finish(self) -> (r: (LuaTalentManager, UpdateSummary))
        requires
            run_wf(self@),
        ensures
            r.0@ == self@.store,
            r.0.wf(),
            r.1.raid_talents == self@.raid,
            r.1.mythic_plus_talents == self@.dungeon,
            r.1.total_talents_updated == self@.raid + self@.dungeon,
            r.1.characters_processed == self@.characters,
    {
        let summary = UpdateSummary {
            total_talents_updated: self.raid_added + self.dungeon_added,
            raid_talents: self.raid_added,
            mythic_plus_talents: self.dungeon_added,
            characters_processed: self.characters,
        };
        (self.store, summary)
    }
}

impl TalentOrchestrator {
    /// Starts a sync pass over `store`: plans its steps (see `plan`) and, if
    /// the configuration asks for it, clears every generated loadout first.
    pub fn start(&self, store: LuaTalentManager, primary: MythicPlusTimespan) -> (r: Result<SyncRun, SyncError>)
        requires
            store.wf(),
        ensures
            match plan_characters(self.config(), self.base(), primary, self.config().characters@) {
                Ok(a) => r matches Ok(run) && run_wf(run@) && run@ == (RunView {
                    steps: a,
                    pos: 0,
                    on_fallback: false,
                    store: if self.config().clear_previous_builds {
                        without_machine_owned(store@)
                    } else {
                        store@
                    },
                    raid: 0,
                    dungeon: 0,
                    characters: self.config().characters@.len() as int,
                }),
                Err(e) => r matches Err(x) && x == e,
            },
    {
        let steps = match self.plan(primary) {
            Ok(v) => v,
            Err(e) => {
                return Err(e);
            },
        };
        let mut store = store;
        if self.config.clear_previous_builds {
            store.remove_all_auto_generated();
        }
        Ok(SyncRun {
            steps,
            pos: 0,
            on_fallback: false,
            store,
            raid_added: 0,
            dungeon_added: 0,
            characters: self.config.characters.len(),
        })
    }
}

/// Fallback timing: when the first page of a dungeon lookup has no build and
/// its fallback page has one, the run moves to the fallback page, then records
/// exactly one dungeon loadout, holding the fallback's build, and no raid one.
pub proof fn lemma_fallback_timing(r0: RunView, r1: RunView, r2: RunView, build: Seq<char>)
    requires
        r0.pos < r0.steps.len(),
        !r0.on_fallback,
        r0.steps[r0.pos] matches StepView::Lookup(_, _, _, raid, _, fallback) && !raid && fallback is Some,
        result_step(r0, None, r1),
        result_step(r1, Some(build), r2),
    ensures
        r1.pos == r0.pos,
        r1.on_fallback,
        r1.store == r0.store,
        r2.pos == r0.pos + 1,
        r2.dungeon == r0.dungeon + 1,
        r2.raid == r0.raid,
        match r0.steps[r0.pos] {
            StepView::Lookup(key, index, name, _, _, Some(f)) => current_url(r1) == f && appended(
                r0.store,
                r2.store,
                key,
                index,
                LoadoutView { icon: 0, name, text: build },
            ),
            _ => false,
        },
{
}

/// The plan of a configuration with one character, one specialization, one
/// dungeon and no raid lookups: the slot's scoped clear (unless everything is
/// cleared first), then the dungeon's lookup.
pub proof fn lemma_single_dungeon_plan(c: Config, base: Seq<char>, primary: MythicPlusTimespan, class: WowClass, index: u8)
    requires
        c.characters@.len() == 1,
        WowClass::named(c.characters@[0].class@) == Some(class),
        c.characters@[0].specializations@.len() == 1,
        class.spec_index_of(c.characters@[0].specializations@[0]@) == Some(index),
        c.dungeons@.len() == 1,
        !raid_enabled(c),
    ensures
        plan_characters(c, base, primary, c.characters@) == Ok::<Seq<StepView>, SyncError>(
            (if c.clear_previous_builds {
                Seq::empty()
            } else {
                seq![StepView::Clear(class.table_key(), index)]
            }).push(
                dungeon_step(
                    base,
                    class,
                    c.characters@[0].specializations@[0]@,
                    index,
                    c.dungeons@[0]@,
                    primary,
                ),
            ),
        ),
{
    reveal(spec_steps);
    let ch = c.characters@[0];
    let specs = strings_view(ch.specializations@);
    let sp = specs[0];
    let dv = strings_view(c.dungeons@);
    assert(dv.map_values(|d: Seq<char>| dungeon_step(base, class, sp, index, d, primary)) =~= seq![
        dungeon_step(base, class, sp, index, c.dungeons@[0]@, primary),
    ]);
    assert(specs.drop_first().len() == 0);
    assert(c.characters@.drop_first().len() == 0);
    let here = spec_steps(c, base, primary, class, sp, index, match difficulties_of(strings_view(c.raid_difficulties@)) {
        Some(d) => d,
        None => Seq::empty(),
    });
    assert(plan_specs(c, base, primary, class, specs.drop_first()) == Ok::<Seq<StepView>, SyncError>(Seq::empty()));
    assert(plan_characters(c, base, primary, c.characters@.drop_first()) == Ok::<Seq<StepView>, SyncError>(Seq::empty()));
    assert(here + Seq::<StepView>::empty() =~= here);
    assert(here =~= (if c.clear_previous_builds {
        Seq::empty()
    } else {
        seq![StepView::Clear(class.table_key(), index)]
    }).push(dungeon_step(base, class, sp, index, c.dungeons@[0]@, primary)));
}

/// Fallback timing, from a configuration: with one character, one
/// specialization, one dungeon and no raid lookups, a run started on the plan
/// first fetches the dungeon's page for the primary window; when that page has
/// no build and the other window's page has one, it fetches that page next,
/// then records exactly one dungeon loadout, named for the dungeon and holding
/// the fallback's build, and no raid loadout, and has no page left to fetch.
pub proof fn lemma_fallback_timing_from_config(
    c: Config,
    base: Seq<char>,
    primary: MythicPlusTimespan,
    class: WowClass,
    index: u8,
    store: StoreModel,
    r1: RunView,
    r2: RunView,
    r3: RunView,
    build: Seq<char>,
)
    requires
        c.characters@.len() == 1,
        WowClass::named(c.characters@[0].class@) == Some(class),
        c.characters@[0].specializations@.len() == 1,
        class.spec_index_of(c.characters@[0].specializations@[0]@) == Some(index),
        c.dungeons@.len() == 1,
        !raid_enabled(c),
        store_wf(store),
        settled(
            RunView {
                steps: match plan_characters(c, base, primary, c.characters@) {
                    Ok(a) => a,
                    Err(_) => Seq::empty(),
                },
                pos: 0,
                on_fallback: false,
                store,
                raid: 0,
                dungeon: 0,
                characters: 1,
            },
            r1,
        ),
        result_step(r1, None, r2),
        result_step(r2, Some(build), r3),
    ensures
        ({
            let spec = c.characters@[0].specializations@[0]@;
            let d = c.dungeons@[0]@;
            &&& current_url(r1) == mythic_plus_url(base, class, lower_of(spec), lower_of(d), primary)
            &&& current_url(r2) == mythic_plus_url(base, class, lower_of(spec), lower_of(d), primary.opposite())
            &&& r3.dungeon == 1
            &&& r3.raid == 0
            &&& r3.pos == r3.steps.len()
            &&& appended(
                r1.store,
                r3.store,
                class.table_key(),
                index,
                LoadoutView { icon: 0, name: machine_name("M+-"@ + d), text: build },
            )
        }),
{
    lemma_single_dungeon_plan(c, base, primary, class, index);
    let steps = (if c.clear_previous_builds {
        Seq::empty()
    } else {
        seq![StepView::Clear(class.table_key(), index)]
    }).push(
        dungeon_step(base, class, c.characters@[0].specializations@[0]@, index, c.dungeons@[0]@, primary),
    );
    let last = steps.len() - 1;
    assert(steps[last] is Lookup);
    assert(r1.pos == last) by {
        if r1.pos < last {
            assert(steps[r1.pos] is Clear);
        }
    }
    lemma_fallback_timing(r1, r2, r3, build);
}

} // verus!
