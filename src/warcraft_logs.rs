//! Names of current raid bosses and dungeons, as published by a combat-log
//! site, turned into the slugs that lookup URLs use.

use vstd::prelude::*;
use crate::text::{chars_of, lower_of, lowercase, str_eq, string_of};

verus! {

/// Raid bosses and dungeons of the current season, as slugs.
#[derive(Debug, Clone)]
pub struct DiscoveredContent {
    pub raid_bosses: Vec<String>,
    pub dungeons: Vec<String>,
}

/// Punctuation that slugs leave out.
pub open spec fn is_dropped(c: char) -> bool {
    c == '\'' || c == ',' || c == ':' || c == '"' || c == '(' || c == ')' || c == '.' || c == '!'
        || c == '&'
}

/// `s` without the punctuation that slugs leave out.
pub open spec fn without_punctuation(s: Seq<char>) -> Seq<char> {
    s.filter(|c: char| !is_dropped(c))
}

/// `s` with every space turned into a dash.
pub open spec fn spaces_to_dashes(s: Seq<char>) -> Seq<char> {
    s.map_values(|c: char| if c == ' ' { '-' } else { c })
}

/// `s` with each pair of dashes, read left to right, made one.
pub open spec fn collapse_dashes(s: Seq<char>) -> Seq<char>
    decreases s.len(),
{
    if s.len() == 0 {
        Seq::empty()
    } else if s.len() >= 2 && s[0] == '-' && s[1] == '-' {
        seq!['-'] + collapse_dashes(s.subrange(2, s.len() as int))
    } else {
        seq![s[0]] + collapse_dashes(s.drop_first())
    }
}

/// A character with the Unicode `White_Space` property, as `char::is_whitespace`
/// and so `str::trim` define it.
pub open spec fn is_white_space(c: char) -> bool {
    ('\u{9}' <= c && c <= '\u{d}') || c == ' ' || c == '\u{85}' || c == '\u{a0}' || c == '\u{1680}'
        || ('\u{2000}' <= c && c <= '\u{200a}') || c == '\u{2028}' || c == '\u{2029}' || c
        == '\u{202f}' || c == '\u{205f}' || c == '\u{3000}'
}

/// `s` without its leading white space.
pub open spec fn trim_start(s: Seq<char>) -> Seq<char>
    decreases s.len(),
{
    if s.len() > 0 && is_white_space(s[0]) {
        trim_start(s.drop_first())
    } else {
        s
    }
}

/// `s` without its trailing white space.
pub open spec fn trim_end(s: Seq<char>) -> Seq<char>
    decreases s.len(),
{
    if s.len() > 0 && is_white_space(s.last()) {
        trim_end(s.drop_last())
    } else {
        s
    }
}

/// `s` without its leading and trailing white space.
pub open spec fn trimmed(s: Seq<char>) -> Seq<char> {
    trim_end(trim_start(s))
}

fn white_space(c: char) -> (r: bool)
    ensures
        r == is_white_space(c),
{
    ('\u{9}' <= c && c <= '\u{d}') || c == ' ' || c == '\u{85}' || c == '\u{a0}' || c == '\u{1680}'
        || ('\u{2000}' <= c && c <= '\u{200a}') || c == '\u{2028}' || c == '\u{2029}' || c
        == '\u{202f}' || c == '\u{205f}' || c == '\u{3000}'
}

/// `s` without its leading and trailing white space.
pub fn trim(s: &str) -> (r: String)
    ensures
        r@ == trimmed(s@),
{
    let cs = chars_of(s);
    let n = cs.len();
    let mut i: usize = 0;
    assert(s@.skip(0) =~= s@);
    while i < n && white_space(cs[i])
        invariant
            cs@ == s@,
            n == cs@.len(),
            i <= n,
            trim_start(s@) == trim_start(s@.skip(i as int)),
        decreases n - i,
    {
        assert(s@.skip(i as int).drop_first() =~= s@.skip(i + 1));
        i += 1;
    }
    assert(trim_start(s@) == s@.subrange(i as int, n as int)) by {
        assert(s@.skip(i as int) =~= s@.subrange(i as int, n as int));
    }
    let mut j: usize = n;
    while j > i && white_space(cs[j - 1])
        invariant
            cs@ == s@,
            n == cs@.len(),
            i <= j <= n,
            trimmed(s@) == trim_end(s@.subrange(i as int, j as int)),
        decreases j - i,
    {
        assert(s@.subrange(i as int, j as int).drop_last() =~= s@.subrange(i as int, j - 1));
        j -= 1;
    }
    let mut out: Vec<char> = Vec::new();
    let mut k: usize = i;
    while k < j
        invariant
            cs@ == s@,
            i <= k <= j <= n,
            n == cs@.len(),
            out@ == s@.subrange(i as int, k as int),
        decreases j - k,
    {
        out.push(cs[k]);
        assert(out@ =~= s@.subrange(i as int, k + 1));
        k += 1;
    }
    string_of(&out)
}

/// The discovery service of the combat-log site.
pub struct WarcraftLogsService;

impl WarcraftLogsService {
    /// `name` without the punctuation that slugs leave out.
    pub fn strip_punctuation(name: &str) -> (r: String)
        ensures
            r@ == without_punctuation(name@),
    {
        let cs = chars_of(name);
        let mut out: Vec<char> = Vec::new();
        let mut i: usize = 0;
        while i < cs.len()
            invariant
                cs@ == name@,
                i <= cs.len(),
                out@ == without_punctuation(name@.take(i as int)),
            decreases cs.len() - i,
        {
            let c = cs[i];
            proof {
                reveal(Seq::filter);
                assert(name@.take(i + 1).drop_last() =~= name@.take(i as int));
                assert(name@.take(i + 1).last() == c);
            }
            if !(c == '\'' || c == ',' || c == ':' || c == '"' || c == '(' || c == ')' || c == '.' || c
                == '!' || c == '&') {
                out.push(c);
            }
            i += 1;
        }
        assert(name@.take(i as int) =~= name@);
        string_of(&out)
    }

    /// The slug of an already trimmed and lowercased name: spaces become
    /// dashes, then each pair of dashes becomes one.
    pub fn slug_of_lowercase(s: &str) -> (r: String)
        ensures
            r@ == collapse_dashes(spaces_to_dashes(s@)),
    {
        let cs = chars_of(s);
        let ghost d = spaces_to_dashes(s@);
        let mut out: Vec<char> = Vec::new();
        let mut i: usize = 0;
        assert(d.skip(0) =~= d);
        while i < cs.len()
            invariant
                cs@ == s@,
                d == spaces_to_dashes(s@),
                d.len() == cs@.len(),
                i <= cs.len(),
                out@ + collapse_dashes(d.skip(i as int)) == collapse_dashes(d),
            decreases cs.len() - i,
        {
            let c = if cs[i] == ' ' { '-' } else { cs[i] };
            assert(d[i as int] == c);
            let ghost rest = d.skip(i as int);
            if c == '-' && i + 1 < cs.len() && (cs[i + 1] == ' ' || cs[i + 1] == '-') {
                assert(d[i + 1] == '-');
                assert(rest.subrange(2, rest.len() as int) =~= d.skip(i + 2));
                out.push('-');
                assert(out@ + collapse_dashes(d.skip(i + 2)) =~= collapse_dashes(d));
                i += 2;
            } else {
                if i + 1 < cs.len() {
                    assert(rest[1] == d[i + 1]);
                }
                assert(rest.drop_first() =~= d.skip(i + 1));
                out.push(c);
                assert(out@ + collapse_dashes(d.skip(i + 1)) =~= collapse_dashes(d));
                i += 1;
            }
        }
        assert(d.skip(i as int) =~= Seq::<char>::empty());
        assert(out@ =~= collapse_dashes(d));
        string_of(&out)
    }

    /// The URL slug of a boss or dungeon name: punctuation dropped, trimmed,
    /// lowercased, spaces made dashes and doubled dashes made single.
    pub fn to_slug(name: &str) -> (r: String)
        ensures
            r@ == collapse_dashes(spaces_to_dashes(lower_of(trimmed(without_punctuation(name@))))),
    {
        let stripped = Self::strip_punctuation(name);
        let t = trim(stripped.as_str());
        let lower = lowercase(t.as_str());
        Self::slug_of_lowercase(lower.as_str())
    }
}

/// An entry under a section of the zone listing: a boss, a dungeon or another item.
#[derive(Debug, Clone)]
pub struct Child {
    pub title: String,
    pub child_type: String,
}

/// The header of a section of the zone listing.
#[derive(Debug, Clone)]
pub struct Header {
    pub content_type_name: String,
}

/// A section of the zone listing.
#[derive(Debug, Clone)]
pub struct Section {
    pub header: Option<Header>,
    pub children: Vec<Child>,
}

/// The panel of an expansion in the zone listing.
#[derive(Debug, Clone)]
pub struct Panel {
    pub sections: Vec<Section>,
}

/// An expansion in the zone listing, newest first.
#[derive(Debug, Clone)]
pub struct Expansion {
    pub panel: Option<Panel>,
}

/// One kind of content in the zone listing (`raid-content`, `dungeons-content`).
#[derive(Debug, Clone)]
pub struct ZoneSidebar {
    pub id: String,
    pub expansions: Vec<Expansion>,
}

/// The slug of a published name.
pub open spec fn slug(name: Seq<char>) -> Seq<char> {
    collapse_dashes(spaces_to_dashes(lower_of(trimmed(without_punctuation(name)))))
}

/// The slugs of the bosses among `cs`, in order: children of type `boss`
/// with a title.
pub open spec fn boss_slugs(cs: Seq<Child>) -> Seq<Seq<char>>
    decreases cs.len(),
{
    if cs.len() == 0 {
        Seq::empty()
    } else if cs.last().child_type@ == "boss"@ && cs.last().title@.len() > 0 {
        boss_slugs(cs.drop_last()).push(slug(cs.last().title@))
    } else {
        boss_slugs(cs.drop_last())
    }
}

/// The boss slugs of the sections whose header names zones, in order.
pub open spec fn zone_section_slugs(ss: Seq<Section>) -> Seq<Seq<char>>
    decreases ss.len(),
{
    if ss.len() == 0 {
        Seq::empty()
    } else {
        zone_section_slugs(ss.drop_last()) + match ss.last().header {
            Some(h) => if h.content_type_name@ == "zones"@ {
                boss_slugs(ss.last().children@)
            } else {
                Seq::empty()
            },
            None => Seq::empty(),
        }
    }
}

/// The panel of the newest expansion of the first listing with id `id`.
pub open spec fn current_panel(data: Seq<ZoneSidebar>, id: Seq<char>) -> Option<Panel>
    decreases data.len(),
{
    if data.len() == 0 {
        None
    } else if data[0].id@ == id {
        if data[0].expansions@.len() > 0 {
            data[0].expansions@[0].panel
        } else {
            None
        }
    } else {
        current_panel(data.drop_first(), id)
    }
}

/// The current raid bosses: the boss slugs of the zone sections of the raid panel.
pub open spec fn raid_boss_slugs(data: Seq<ZoneSidebar>) -> Seq<Seq<char>> {
    match current_panel(data, "raid-content"@) {
        Some(p) => zone_section_slugs(p.sections@),
        None => Seq::empty(),
    }
}

/// The current dungeons: the boss slugs of the first section of the dungeon panel.
pub open spec fn dungeon_slugs(data: Seq<ZoneSidebar>) -> Seq<Seq<char>> {
    match current_panel(data, "dungeons-content"@) {
        Some(p) => if p.sections@.len() > 0 {
            boss_slugs(p.sections@[0].children@)
        } else {
            Seq::empty()
        },
        None => Seq::empty(),
    }
}

impl WarcraftLogsService {
    /// The panel of the newest expansion of the first listing with id `id`.
    fn find_panel<'a>(data: &'a Vec<ZoneSidebar>, id: &str) -> (r: Option<&'a Panel>)
        ensures
            match r {
                Some(p) => current_panel(data@, id@) == Some(*p),
                None => current_panel(data@, id@) is None,
            },
    {
        let mut i: usize = 0;
        assert(data@.skip(0) =~= data@);
        while i < data.len()
            invariant
                i <= data@.len(),
                current_panel(data@, id@) == current_panel(data@.skip(i as int), id@),
            decreases data.len() - i,
        {
            assert(data@.skip(i as int)[0] == data@[i as int]);
            assert(data@.skip(i as int).drop_first() =~= data@.skip(i + 1));
            if str_eq(data[i].id.as_str(), id) {
                if data[i].expansions.len() > 0 {
                    return match &data[i].expansions[0].panel {
                        Some(p) => Some(p),
                        None => None,
                    };
                }
                return None;
            }
            i += 1;
        }
        None
    }

    /// Appends the slugs of the bosses among `children`.
    fn push_boss_slugs(children: &Vec<Child>, out: &mut Vec<String>)
        ensures
            crate::text::strings_view(final(out)@) == crate::text::strings_view(old(out)@) + boss_slugs(
                children@,
            ),
    {
        let ghost start = crate::text::strings_view(out@);
        let mut i: usize = 0;
        assert(children@.take(0) =~= Seq::<Child>::empty());
        assert(start + Seq::<Seq<char>>::empty() =~= start);
        while i < children.len()
            invariant
                i <= children@.len(),
                crate::text::strings_view(out@) == start + boss_slugs(children@.take(i as int)),
            decreases children.len() - i,
        {
            let c = &children[i];
            let ghost before = crate::text::strings_view(out@);
            proof {
                assert(children@.take(i + 1).drop_last() =~= children@.take(i as int));
                assert(children@.take(i + 1).last() == *c);
            }
            if str_eq(c.child_type.as_str(), "boss") && !c.title.as_str().is_empty() {
                let sl = Self::to_slug(c.title.as_str());
                out.push(sl);
                assert(crate::text::strings_view(out@) =~= before.push(sl@));
                assert(start + boss_slugs(children@.take(i + 1)) =~= (start + boss_slugs(children@.take(i as int))).push(slug(c.title@)));
            }
            i += 1;
        }
        assert(children@.take(i as int) =~= children@);
    }

    /// The current raid bosses and dungeons in a zone listing: the bosses of
    /// the zone sections of the newest raid expansion, and the dungeons of the
    /// first section of the newest dungeon expansion, as slugs.
    pub fn discover_from_listing(data: &Vec<ZoneSidebar>) -> (r: DiscoveredContent)
        ensures
            crate::text::strings_view(r.raid_bosses@) == raid_boss_slugs(data@),
            crate::text::strings_view(r.dungeons@) == dungeon_slugs(data@),
    {
        let mut raid_bosses: Vec<String> = Vec::new();
        assert(crate::text::strings_view(raid_bosses@) =~= Seq::<Seq<char>>::empty());
        match Self::find_panel(data, "raid-content") {
            Some(panel) => {
                let ss = &panel.sections;
                let mut i: usize = 0;
                assert(ss@.take(0) =~= Seq::<Section>::empty());
                while i < ss.len()
                    invariant
                        i <= ss@.len(),
                        crate::text::strings_view(raid_bosses@) == zone_section_slugs(ss@.take(i as int)),
                    decreases ss.len() - i,
                {
                    let sec = &ss[i];
                    let ghost before = crate::text::strings_view(raid_bosses@);
                    proof {
                        assert(ss@.take(i + 1).drop_last() =~= ss@.take(i as int));
                        assert(ss@.take(i + 1).last() == *sec);
                    }
                    match &sec.header {
                        Some(h) => {
                            if str_eq(h.content_type_name.as_str(), "zones") {
                                Self::push_boss_slugs(&sec.children, &mut raid_bosses);
                            } else {
                                assert(before + Seq::<Seq<char>>::empty() =~= before);
                            }
                        },
                        None => {
                            assert(before + Seq::<Seq<char>>::empty() =~= before);
                        },
                    }
                    i += 1;
                }
                assert(ss@.take(i as int) =~= ss@);
            },
            None => {},
        }
        let mut dungeons: Vec<String> = Vec::new();
        assert(crate::text::strings_view(dungeons@) =~= Seq::<Seq<char>>::empty());
        match Self::find_panel(data, "dungeons-content") {
            Some(panel) => {
                if panel.sections.len() > 0 {
                    Self::push_boss_slugs(&panel.sections[0].children, &mut dungeons);
                    assert(Seq::<Seq<char>>::empty() + boss_slugs(panel.sections@[0].children@) =~= boss_slugs(panel.sections@[0].children@));
                }
            },
            None => {},
        }
        DiscoveredContent { raid_bosses, dungeons }
    }
}

} // verus!
