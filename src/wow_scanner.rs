//! Where a game installation is looked for by default.

use vstd::prelude::*;
use crate::text::{owned, push_str, str_eq, strings_view};

verus! {

/// The operating system the application runs on.
#[derive(Debug, Clone, Copy, PartialEq, Eq, Structural)]
pub enum Platform {
    MacOs,
    Windows,
    Linux,
    Other,
}

/// A place where an installation may be.
#[derive(Debug, Clone, PartialEq, Eq)]
pub enum PathCandidate {
    /// A path as it stands.
    Absolute(String),
    /// A path below the user's home directory.
    UnderHome(String),
}

/// A candidate, as values: `(true, p)` for a path below home, `(false, p)` otherwise.
pub open spec fn candidate_view(c: PathCandidate) -> (bool, Seq<char>) {
    match c {
        PathCandidate::Absolute(p) => (false, p@),
        PathCandidate::UnderHome(p) => (true, p@),
    }
}

/// The places an installation is looked for on `platform`, in order of preference.
pub open spec fn default_candidates(platform: Platform) -> Seq<(bool, Seq<char>)> {
    match platform {
        Platform::MacOs => seq![(false, "/Applications/World of Warcraft/_retail_"@)],
        Platform::Windows => seq![
            (false, "C:\\Program Files (x86)\\World of Warcraft\\_retail_"@),
            (false, "C:\\Program Files\\World of Warcraft\\_retail_"@),
        ],
        Platform::Linux => seq![(true, ".wine/drive_c/Program Files (x86)/World of Warcraft/_retail_"@)],
        Platform::Other => Seq::empty(),
    }
}

/// The places an installation is looked for on `platform`, in order of
/// preference; the first that exists is taken.
pub fn default_wow_path_candidates(platform: Platform) -> (r: Vec<PathCandidate>)
    ensures
        r@.map_values(|c: PathCandidate| candidate_view(c)) == default_candidates(platform),
{
    let mut r: Vec<PathCandidate> = Vec::new();
    match platform {
        Platform::MacOs => {
            r.push(PathCandidate::Absolute(owned("/Applications/World of Warcraft/_retail_")));
        },
        Platform::Windows => {
            r.push(PathCandidate::Absolute(owned("C:\\Program Files (x86)\\World of Warcraft\\_retail_")));
            r.push(PathCandidate::Absolute(owned("C:\\Program Files\\World of Warcraft\\_retail_")));
        },
        Platform::Linux => {
            r.push(
                PathCandidate::UnderHome(owned(".wine/drive_c/Program Files (x86)/World of Warcraft/_retail_")),
            );
        },
        Platform::Other => {},
    }
    assert(r@.map_values(|c: PathCandidate| candidate_view(c)) =~= default_candidates(platform));
    r
}

/// An installation of the game, by its root path.
#[derive(Debug, Clone)]
pub struct WowScanner {
    wow_path: String,
}

impl WowScanner {
    /// The installation's root path.
    pub closed spec fn root(&self) -> Seq<char> {
        self.wow_path@
    }

    /// The installation rooted at `wow_path`.
    pub fn new(wow_path: String) -> (r: Self)
        ensures
            r.root() == wow_path@,
    {
        WowScanner { wow_path }
    }

    /// The saved-table file of account `account_id`:
    /// `<root>/WTF/Account/<account_id>/SavedVariables/TalentLoadoutsEx.lua`.
    pub fn get_talent_loadouts_path(&self, account_id: &str) -> (r: String)
        ensures
            r@ == self.root() + "/WTF/Account/"@ + account_id@ + "/SavedVariables/TalentLoadoutsEx.lua"@,
    {
        let mut r = self.wow_path.clone();
        push_str(&mut r, "/WTF/Account/");
        push_str(&mut r, account_id);
        push_str(&mut r, "/SavedVariables/TalentLoadoutsEx.lua");
        r
    }
}

/// A character found in an installation.
#[derive(Debug, Clone, PartialEq, Eq)]
pub struct DiscoveredCharacter {
    pub name: String,
    pub realm: String,
    pub class: String,
    pub account_id: String,
}

/// A discovered character as values: name, realm, class, account.
pub open spec fn discovered_view(c: DiscoveredCharacter) -> (Seq<char>, Seq<char>, Seq<char>, Seq<char>) {
    (c.name@, c.realm@, c.class@, c.account_id@)
}

/// Discovered characters as values.
pub open spec fn discovered_views(v: Seq<DiscoveredCharacter>) -> Seq<(Seq<char>, Seq<char>, Seq<char>, Seq<char>)> {
    v.map_values(|c: DiscoveredCharacter| discovered_view(c))
}

/// A realm folder of an account: its name and the names of its sub-folders.
#[derive(Debug, Clone)]
pub struct RealmFolder {
    pub name: String,
    pub characters: Vec<String>,
}

/// An account folder: its name and its sub-folders.
#[derive(Debug, Clone)]
pub struct AccountFolder {
    pub name: String,
    pub realms: Vec<RealmFolder>,
}

/// The folder of saved variables, which sits beside realms and accounts and is neither.
pub open spec fn saved_variables() -> Seq<char> {
    "SavedVariables"@
}

/// The characters of one realm folder: one per sub-folder, of class `Unknown`
/// since the saved files do not tell it.
pub open spec fn realm_characters(account: Seq<char>, r: RealmFolder) -> Seq<(Seq<char>, Seq<char>, Seq<char>, Seq<char>)> {
    strings_view(r.characters@).map_values(|c: Seq<char>| (c, r.name@, "Unknown"@, account))
}

/// The characters of an account's realm folders in order, the saved-variables folder skipped.
pub open spec fn realms_characters(account: Seq<char>, rs: Seq<RealmFolder>) -> Seq<(Seq<char>, Seq<char>, Seq<char>, Seq<char>)>
    decreases rs.len(),
{
    if rs.len() == 0 {
        Seq::empty()
    } else {
        realms_characters(account, rs.drop_last()) + if rs.last().name@ == saved_variables() {
            Seq::empty()
        } else {
            realm_characters(account, rs.last())
        }
    }
}

/// The characters of the account folders in order, the saved-variables folder skipped.
pub open spec fn accounts_characters(accs: Seq<AccountFolder>) -> Seq<(Seq<char>, Seq<char>, Seq<char>, Seq<char>)>
    decreases accs.len(),
{
    if accs.len() == 0 {
        Seq::empty()
    } else {
        accounts_characters(accs.drop_last()) + if accs.last().name@ == saved_variables() {
            Seq::empty()
        } else {
            realms_characters(accs.last().name@, accs.last().realms@)
        }
    }
}

/// Appends the characters of one realm folder.
fn push_realm(account: &String, r: &RealmFolder, out: &mut Vec<DiscoveredCharacter>)
    ensures
        discovered_views(final(out)@) == discovered_views(old(out)@) + realm_characters(account@, *r),
{
    let ghost start = discovered_views(out@);
    let ghost cv = strings_view(r.characters@);
    let ghost f = |c: Seq<char>| (c, r.name@, "Unknown"@, account@);
    let mut i: usize = 0;
    assert(cv.take(0).map_values(f) =~= Seq::<(Seq<char>, Seq<char>, Seq<char>, Seq<char>)>::empty());
    assert(start + Seq::<(Seq<char>, Seq<char>, Seq<char>, Seq<char>)>::empty() =~= start);
    while i < r.characters.len()
        invariant
            cv == strings_view(r.characters@),
            f == (|c: Seq<char>| (c, r.name@, "Unknown"@, account@)),
            i <= r.characters@.len(),
            discovered_views(out@) == start + cv.take(i as int).map_values(f),
        decreases r.characters.len() - i,
    {
        let ghost before = discovered_views(out@);
        let ch = DiscoveredCharacter {
            name: r.characters[i].clone(),
            realm: r.name.clone(),
            class: owned("Unknown"),
            account_id: account.clone(),
        };
        out.push(ch);
        proof {
            assert(discovered_views(out@) =~= before.push(discovered_view(ch)));
            assert(cv.take(i + 1) =~= cv.take(i as int).push(cv[i as int]));
            assert(cv.take(i + 1).map_values(f) =~= cv.take(i as int).map_values(f).push(f(cv[i as int])));
        }
        i += 1;
    }
    assert(cv.take(i as int) =~= cv);
}

/// Appends the characters of one account folder's realms.
fn push_account(a: &AccountFolder, out: &mut Vec<DiscoveredCharacter>)
    ensures
        discovered_views(final(out)@) == discovered_views(old(out)@) + realms_characters(a.name@, a.realms@),
{
    let ghost start = discovered_views(out@);
    let mut i: usize = 0;
    assert(a.realms@.take(0) =~= Seq::<RealmFolder>::empty());
    assert(start + Seq::<(Seq<char>, Seq<char>, Seq<char>, Seq<char>)>::empty() =~= start);
    while i < a.realms.len()
        invariant
            i <= a.realms@.len(),
            discovered_views(out@) == start + realms_characters(a.name@, a.realms@.take(i as int)),
        decreases a.realms.len() - i,
    {
        let r = &a.realms[i];
        proof {
            assert(a.realms@.take(i + 1).drop_last() =~= a.realms@.take(i as int));
            assert(a.realms@.take(i + 1).last() == *r);
        }
        let ghost before = discovered_views(out@);
        if !str_eq(r.name.as_str(), "SavedVariables") {
            push_realm(&a.name, r, out);
        } else {
            assert(before + Seq::<(Seq<char>, Seq<char>, Seq<char>, Seq<char>)>::empty() =~= before);
        }
        i += 1;
    }
    assert(a.realms@.take(i as int) =~= a.realms@);
}

/// The characters of an installation's account folders: every sub-folder of
/// every realm folder of every account folder, the saved-variables folders
/// skipped, each of class `Unknown` since the saved files do not tell it.
pub fn discover_characters(accounts: &Vec<AccountFolder>) -> (r: Vec<DiscoveredCharacter>)
    ensures
        discovered_views(r@) == accounts_characters(accounts@),
{
    let mut out: Vec<DiscoveredCharacter> = Vec::new();
    let mut i: usize = 0;
    assert(accounts@.take(0) =~= Seq::<AccountFolder>::empty());
    assert(discovered_views(out@) =~= Seq::<(Seq<char>, Seq<char>, Seq<char>, Seq<char>)>::empty());
    while i < accounts.len()
        invariant
            i <= accounts@.len(),
            discovered_views(out@) == accounts_characters(accounts@.take(i as int)),
        decreases accounts.len() - i,
    {
        let a = &accounts[i];
        proof {
            assert(accounts@.take(i + 1).drop_last() =~= accounts@.take(i as int));
            assert(accounts@.take(i + 1).last() == *a);
        }
        let ghost before = discovered_views(out@);
        if !str_eq(a.name.as_str(), "SavedVariables") {
            push_account(a, &mut out);
        } else {
            assert(before + Seq::<(Seq<char>, Seq<char>, Seq<char>, Seq<char>)>::empty() =~= before);
        }
        i += 1;
    }
    assert(accounts@.take(i as int) =~= accounts@);
    out
}

} // verus!
