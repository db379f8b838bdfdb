//! The talent store: saved loadouts by class key and specialization index,
//! with the operations the reconciliation policy applies to it.

use vstd::prelude::*;
use crate::archon::is_machine_name;
use crate::keyed::{
    index_keys_sorted, index_slot_for, lemma_drain_step, lemma_index_absent, lemma_lex_asymmetric, lemma_sorted_lookup_eq, sorted_by, lemma_index_insert, lemma_index_sorted_unique,
    lemma_lookup_at, lemma_lookup_unique, lemma_text_absent, lemma_text_insert, lemma_text_sorted_unique,
    lemma_update_value, lex_lt, lookup, text_keys_sorted, text_slot_for,
};
use crate::lua_decode::{
    class_table, decodes_class, read_index_number, read_list, talent_fields,
};
use crate::lua_tree::{
    field_view, fields_view, lemma_fields_view, parse_document, read_document, statements_view,
    FieldView, LuaField, LuaValue, ValueView,
};
use crate::lua_text::{decimal, decimal_string, quoted, quoted_string};
use crate::text::{compare_text, ends_with, push_str, str_eq};

verus! {

/// What a loadout holds: its icon, its display name and its build payload.
pub struct LoadoutView {
    pub icon: i64,
    pub name: Seq<char>,
    pub text: Seq<char>,
}

/// A saved talent loadout.
#[derive(Debug, Clone, PartialEq)]
pub struct TalentLoadout {
    pub icon: i64,
    pub name: String,
    pub text: String,
}

impl View for TalentLoadout {
    type V = LoadoutView;

    open spec fn view(&self) -> LoadoutView {
        LoadoutView { icon: self.icon, name: self.name@, text: self.text@ }
    }
}

/// The loadouts of a slot, as values.
pub open spec fn loadouts_view(v: Seq<TalentLoadout>) -> Seq<LoadoutView> {
    v.map_values(|t: TalentLoadout| t@)
}

/// Whether a loadout was generated by this library (its name carries the suffix).
pub open spec fn is_machine_owned(e: LoadoutView) -> bool {
    is_machine_name(e.name)
}

/// The loadouts of a slot that the user owns, in order.
pub open spec fn user_owned(s: Seq<LoadoutView>) -> Seq<LoadoutView> {
    s.filter(|e: LoadoutView| !is_machine_owned(e))
}

impl TalentLoadout {
    /// A loadout with the default icon.
    pub fn new(name: String, text: String) -> (r: Self)
        ensures
            r@ == (LoadoutView { icon: 0, name: name@, text: text@ }),
    {
        TalentLoadout { icon: 0, name, text }
    }

    /// Whether this loadout was generated by this library.
    pub fn is_auto_generated(&self) -> (r: bool)
        ensures
            r == is_machine_owned(self@),
    {
        ends_with(self.name.as_str(), "_ARCT")
    }
}

/// The slots of one class: specialization index to loadouts.
pub type ClassModel = Seq<(u8, Seq<LoadoutView>)>;

/// The whole store: class key to the class's slots.
pub type StoreModel = Seq<(Seq<char>, ClassModel)>;

/// A class's slots as values.
pub open spec fn slots_view(v: Seq<(u8, Vec<TalentLoadout>)>) -> ClassModel {
    v.map_values(|p: (u8, Vec<TalentLoadout>)| (p.0, loadouts_view(p.1@)))
}

/// The loadouts of slot `i` of class `c`, if that slot exists.
pub open spec fn slot_of(m: StoreModel, c: Seq<char>, i: u8) -> Option<Seq<LoadoutView>> {
    match lookup(m, c) {
        Some(slots) => lookup(slots, i),
        None => None,
    }
}

/// Whether class `c` is present.
pub open spec fn has_class(m: StoreModel, c: Seq<char>) -> bool {
    lookup(m, c) is Some
}

/// Canonical form: class keys strictly increasing, and in each class the
/// specialization indices strictly increasing.
pub open spec fn store_wf(m: StoreModel) -> bool {
    &&& text_keys_sorted(m)
    &&& forall|k: int| 0 <= k < m.len() ==> index_keys_sorted(#[trigger] m[k].1)
}

/// A slot with only its user-owned loadouts left.
pub open spec fn clean_slot(s: (u8, Seq<LoadoutView>)) -> (u8, Seq<LoadoutView>) {
    (s.0, user_owned(s.1))
}

/// A class with only user-owned loadouts left in every slot.
pub open spec fn clean_class(c: (Seq<char>, ClassModel)) -> (Seq<char>, ClassModel) {
    (c.0, c.1.map_values(|s: (u8, Seq<LoadoutView>)| clean_slot(s)))
}

/// The store with only user-owned loadouts left in every slot.
pub open spec fn without_machine_owned(m: StoreModel) -> StoreModel {
    m.map_values(|c: (Seq<char>, ClassModel)| clean_class(c))
}

/// The slots of one class, by increasing specialization index.
#[derive(Debug)]
pub struct ClassTalents {
    specs: Vec<(u8, Vec<TalentLoadout>)>,
}

impl View for ClassTalents {
    type V = ClassModel;

    closed spec fn view(&self) -> ClassModel {
        slots_view(self.specs@)
    }
}

impl ClassTalents {
    /// The number of slots.
    pub fn len(&self) -> (r: usize)
        ensures
            r == self@.len(),
    {
        self.specs.len()
    }

    /// The loadouts of slot `spec_index`, if present.
    pub fn get(&self, spec_index: &u8) -> (r: Option<&Vec<TalentLoadout>>)
        requires
            index_keys_sorted(self@),
        ensures
            match r {
                Some(v) => lookup(self@, *spec_index) == Some(loadouts_view(v@)),
                None => lookup(self@, *spec_index) is None,
            },
    {
        let mut p: usize = 0;
        while p < self.specs.len()
            invariant
                index_keys_sorted(self@),
                p <= self.specs@.len(),
                forall|j: int| 0 <= j < p ==> (#[trigger] self.specs@[j]).0 != *spec_index,
            decreases self.specs.len() - p,
        {
            if self.specs[p].0 == *spec_index {
                proof {
                    lemma_index_sorted_unique(self@);
                    lemma_lookup_at(self@, p as int);
                }
                return Some(&self.specs[p].1);
            }
            p += 1;
        }
        proof {
            lemma_index_sorted_unique(self@);
            lemma_lookup_unique(self@, *spec_index);
        }
        None
    }
}

/// Saved talent loadouts by class key, kept in canonical order.
pub struct LuaTalentManager {
    talents: Vec<(String, ClassTalents)>,
}

impl View for LuaTalentManager {
    type V = StoreModel;

    closed spec fn view(&self) -> StoreModel {
        self.talents@.map_values(|c: (String, ClassTalents)| (c.0@, c.1@))
    }
}

/// The store after slot `q` of the class at `p` is given loadouts `e`.
pub open spec fn with_slot(m: StoreModel, p: int, q: int, e: Seq<LoadoutView>) -> StoreModel {
    m.update(p, (m[p].0, m[p].1.update(q, (m[p].1[q].0, e))))
}

/// Giving one existing slot new loadouts changes that slot and nothing else.
pub proof fn lemma_with_slot(m: StoreModel, p: int, q: int, e: Seq<LoadoutView>)
    requires
        store_wf(m),
        0 <= p < m.len(),
        0 <= q < m[p].1.len(),
    ensures
        store_wf(with_slot(m, p, q, e)),
        slot_of(m, m[p].0, m[p].1[q].0) == Some(m[p].1[q].1),
        forall|c: Seq<char>| #[trigger] has_class(with_slot(m, p, q, e), c) == has_class(m, c),
        forall|c: Seq<char>, i: u8| #[trigger] slot_of(with_slot(m, p, q, e), c, i) == if c == m[p].0
            && i == m[p].1[q].0 {
            Some(e)
        } else {
            slot_of(m, c, i)
        },
{
    let cls = m[p].1;
    let cls2 = cls.update(q, (cls[q].0, e));
    let m2 = with_slot(m, p, q, e);
    assert(index_keys_sorted(cls));
    lemma_index_sorted_unique(cls);
    lemma_update_value(cls, q, e);
    lemma_text_sorted_unique(m);
    lemma_update_value(m, p, cls2);
    lemma_lookup_at(m, p);
    lemma_lookup_at(cls, q);
    assert(index_keys_sorted(cls2)) by {
        assert forall|i: int, j: int| 0 <= i < j < cls2.len() implies (#[trigger] cls2[i].0) < (#[trigger] cls2[j].0) by {
            assert(cls2[i].0 == cls[i].0 && cls2[j].0 == cls[j].0);
        }
    }
    assert forall|k: int| 0 <= k < m2.len() implies index_keys_sorted(#[trigger] m2[k].1) by {
        if k != p {
            assert(m2[k] == m[k]);
        }
    }
    assert forall|i: int, j: int| 0 <= i < j < m2.len() implies lex_lt(#[trigger] m2[i].0, #[trigger] m2[j].0) by {
        assert(m2[i].0 == m[i].0 && m2[j].0 == m[j].0);
    }
}

impl ClassTalents {
    /// Where `spec_index` stands or belongs, and whether it is present.
    fn position(&self, spec_index: u8) -> (r: (usize, bool))
        requires
            index_keys_sorted(self@),
        ensures
            index_slot_for(self@, spec_index, r.0 as int),
            r.1 == (r.0 < self@.len() && self@[r.0 as int].0 == spec_index),
    {
        let mut p: usize = 0;
        while p < self.specs.len()
            invariant
                index_keys_sorted(self@),
                p <= self.specs@.len(),
                forall|i: int| 0 <= i < p ==> (#[trigger] self@[i]).0 < spec_index,
            decreases self.specs.len() - p,
        {
            if self.specs[p].0 >= spec_index {
                return (p, self.specs[p].0 == spec_index);
            }
            p += 1;
        }
        (p, false)
    }
}


/// Filtering after appending one loadout.
pub proof fn lemma_user_owned_push(s: Seq<LoadoutView>, x: LoadoutView)
    ensures
        user_owned(s.push(x)) == if is_machine_owned(x) {
            user_owned(s)
        } else {
            user_owned(s).push(x)
        },
{
    reveal(Seq::filter);
    assert(s.push(x).drop_last() =~= s);
    assert(s.push(x).last() == x);
}

/// Keeps only the user-owned loadouts of `v`, in order.
fn keep_user_owned(v: Vec<TalentLoadout>) -> (r: Vec<TalentLoadout>)
    ensures
        loadouts_view(r@) == user_owned(loadouts_view(v@)),
{
    let ghost orig = loadouts_view(v@);
    let mut src = v;
    let mut out: Vec<TalentLoadout> = Vec::new();
    let ghost mut k: int = 0;
    assert(orig.skip(0) =~= loadouts_view(src@));
    while src.len() > 0
        invariant
            0 <= k <= orig.len(),
            loadouts_view(src@) == orig.skip(k),
            src@.len() == orig.len() - k,
            loadouts_view(out@) == user_owned(orig.take(k)),
        decreases src.len(),
    {
        let ghost before = src@;
        let t = src.remove(0);
        proof {
            lemma_drain_step(before, |t: TalentLoadout| t@, orig, k);
            lemma_user_owned_push(orig.take(k), orig[k]);
        }
        let user = !t.is_auto_generated();
        if user {
            out.push(t);
            assert(loadouts_view(out@) =~= user_owned(orig.take(k)).push(t@));
        }
        proof {
            k = k + 1;
        }
    }
    assert(orig.take(k) =~= orig);
    out
}

impl ClassTalents {
    /// This class with only user-owned loadouts left in every slot.
    fn without_machine_owned(self) -> (r: ClassTalents)
        ensures
            r@ == self@.map_values(|s: (u8, Seq<LoadoutView>)| clean_slot(s)),
    {
        let ghost orig = self@;
        let mut src = self.specs;
        let mut out: Vec<(u8, Vec<TalentLoadout>)> = Vec::new();
        let ghost mut k: int = 0;
        assert(orig.skip(0) =~= slots_view(src@));
        while src.len() > 0
            invariant
                0 <= k <= orig.len(),
                slots_view(src@) == orig.skip(k),
                src@.len() == orig.len() - k,
                slots_view(out@) == orig.take(k).map_values(|s: (u8, Seq<LoadoutView>)| clean_slot(s)),
            decreases src.len(),
        {
            let ghost before = src@;
            let ghost before_out = out@;
            let (idx, v) = src.remove(0);
            proof {
                lemma_drain_step(before, |p: (u8, Vec<TalentLoadout>)| (p.0, loadouts_view(p.1@)), orig, k);
            }
            let kept = keep_user_owned(v);
            out.push((idx, kept));
            proof {
                assert(out@ == before_out.push((idx, kept)));
                assert(orig.take(k + 1).map_values(|s: (u8, Seq<LoadoutView>)| clean_slot(s)) =~= orig.take(k).map_values(|s: (u8, Seq<LoadoutView>)| clean_slot(s)).push(clean_slot(orig[k])));
                assert(slots_view(out@) =~= slots_view(before_out).push((idx, loadouts_view(kept@))));
                k = k + 1;
            }
        }
        assert(orig.take(k) =~= orig);
        ClassTalents { specs: out }
    }
}

impl Default for LuaTalentManager {
    /// An empty store.
    fn default() -> (r: Self)
        ensures
            r@ == Seq::<(Seq<char>, ClassModel)>::empty(),
            r.wf(),
    {
        LuaTalentManager::new()
    }
}

impl LuaTalentManager {
    /// The store is in canonical form.
    pub open spec fn wf(&self) -> bool {
        store_wf(self@)
    }

    /// An empty store.
    pub fn new() -> (r: Self)
        ensures
            r@ == Seq::<(Seq<char>, ClassModel)>::empty(),
            r.wf(),
    {
        let r = LuaTalentManager { talents: Vec::new() };
        assert(r@ =~= Seq::<(Seq<char>, ClassModel)>::empty());
        r
    }

    /// Where class `class_name` stands or belongs, and whether it is present.
    fn class_position(&self, class_name: &str) -> (r: (usize, bool))
        requires
            self.wf(),
        ensures
            text_slot_for(self@, class_name@, r.0 as int),
            r.1 == (r.0 < self@.len() && self@[r.0 as int].0 == class_name@),
    {
        let mut p: usize = 0;
        while p < self.talents.len()
            invariant
                self.wf(),
                p <= self.talents@.len(),
                forall|i: int| 0 <= i < p ==> lex_lt(#[trigger] self@[i].0, class_name@),
            decreases self.talents.len() - p,
        {
            let c = compare_text(self.talents[p].0.as_str(), class_name);
            if c >= 0 {
                return (p, c == 0);
            }
            p += 1;
        }
        (p, false)
    }

    /// Gives slot `q` of the class at `p` the loadouts `v`, handing back the
    /// loadouts it had.
    fn swap_slot(&mut self, p: usize, q: usize, v: Vec<TalentLoadout>) -> (r: Vec<TalentLoadout>)
        requires
            old(self).wf(),
            p < old(self)@.len(),
            q < old(self)@[p as int].1.len(),
        ensures
            final(self)@ == with_slot(old(self)@, p as int, q as int, loadouts_view(v@)),
            loadouts_view(r@) == old(self)@[p as int].1[q as int].1,
            final(self).wf(),
    {
        let ghost m = self@;
        let ghost raw = self.talents@;
        let (key, mut ct) = self.talents.remove(p);
        let ghost specs0 = ct.specs@;
        let (idx, old_v) = ct.specs.remove(q);
        ct.specs.insert(q, (idx, v));
        assert(ct.specs@ =~= specs0.update(q as int, (idx, v)));
        assert(ct@ =~= m[p as int].1.update(q as int, (m[p as int].1[q as int].0, loadouts_view(v@))));
        self.talents.insert(p, (key, ct));
        assert(self.talents@ =~= raw.update(p as int, self.talents@[p as int]));
        assert(self@ =~= with_slot(m, p as int, q as int, loadouts_view(v@)));
        proof {
            lemma_with_slot(m, p as int, q as int, loadouts_view(v@));
        }
        old_v
    }

    /// Makes sure slot `spec_index` of class `class_name` exists, adding an
    /// empty one if not, and says where it stands.
    fn ensure_slot(&mut self, class_name: String, spec_index: u8) -> (r: (usize, usize))
        requires
            old(self).wf(),
        ensures
            final(self).wf(),
            r.0 < final(self)@.len(),
            final(self)@[r.0 as int].0 == class_name@,
            r.1 < final(self)@[r.0 as int].1.len(),
            final(self)@[r.0 as int].1[r.1 as int].0 == spec_index,
            forall|c: Seq<char>| #[trigger] has_class(final(self)@, c) == (c == class_name@
                || has_class(old(self)@, c)),
            forall|c: Seq<char>, i: u8| #[trigger] slot_of(final(self)@, c, i) == if c
                == class_name@ && i == spec_index {
                Some(
                    match slot_of(old(self)@, c, i) {
                        Some(e) => e,
                        None => Seq::empty(),
                    },
                )
            } else {
                slot_of(old(self)@, c, i)
            },
    {
        let ghost m0 = self@;
        let ghost c0 = class_name@;
        let (p, found) = self.class_position(class_name.as_str());
        if !found {
            let ghost raw = self.talents@;
            let fresh = ClassTalents { specs: Vec::new() };
            assert(fresh@ =~= Seq::<(u8, Seq<LoadoutView>)>::empty());
            self.talents.insert(p, (class_name, fresh));
            assert(self.talents@ =~= raw.insert(p as int, self.talents@[p as int]));
            proof {
                lemma_text_absent(m0, c0, p as int);
                assert(self@ =~= m0.insert(p as int, (c0, Seq::empty())));
                lemma_text_insert(m0, c0, Seq::<(u8, Seq<LoadoutView>)>::empty(), p as int);
                assert forall|k: int| 0 <= k < self@.len() implies index_keys_sorted(#[trigger] self@[k].1) by {
                    if k < p {
                        assert(self@[k] == m0[k]);
                    } else if k > p {
                        assert(self@[k] == m0[k - 1]);
                    }
                }
            }
        }
        let ghost m1 = self@;
        proof {
            lemma_text_sorted_unique(m1);
            lemma_lookup_at(m1, p as int);
            lemma_text_sorted_unique(m0);
            lemma_lookup_unique(m0, c0);
        }
        let ghost raw1 = self.talents@;
        let (key, mut ct) = self.talents.remove(p);
        let ghost cls0 = ct@;
        assert(index_keys_sorted(cls0));
        let (q, found_slot) = ct.position(spec_index);
        if !found_slot {
            let ghost specs0 = ct.specs@;
            ct.specs.insert(q, (spec_index, Vec::new()));
            assert(ct.specs@ =~= specs0.insert(q as int, ct.specs@[q as int]));
            assert(loadouts_view(ct.specs@[q as int].1@) =~= Seq::<LoadoutView>::empty());
            proof {
                lemma_index_absent(cls0, spec_index, q as int);
                assert(ct@ =~= cls0.insert(q as int, (spec_index, Seq::empty())));
                lemma_index_insert(cls0, spec_index, Seq::<LoadoutView>::empty(), q as int);
            }
        }
        let ghost cls1 = ct@;
        self.talents.insert(p, (key, ct));
        proof {
            assert(self.talents@ =~= raw1.update(p as int, self.talents@[p as int]));
            assert(self@ =~= m1.update(p as int, (c0, cls1)));
            lemma_update_value(m1, p as int, cls1);
            lemma_index_sorted_unique(cls0);
            lemma_index_sorted_unique(cls1);
            lemma_lookup_unique(cls0, spec_index);
            lemma_lookup_at(cls1, q as int);
            assert forall|k: int| 0 <= k < self@.len() implies index_keys_sorted(#[trigger] self@[k].1) by {
                if k != p {
                    assert(self@[k] == m1[k]);
                }
            }
            assert forall|i: int, j: int| 0 <= i < j < self@.len() implies lex_lt(#[trigger] self@[i].0, #[trigger] self@[j].0) by {
                assert(self@[i].0 == m1[i].0 && self@[j].0 == m1[j].0);
            }
        }
        (p, q)
    }

    /// Appends `talent` to slot `spec_index` of class `class_name`, creating the
    /// class and the slot if absent.
    pub fn add_talent(&mut self, class_name: String, spec_index: u8, talent: TalentLoadout)
        requires
            old(self).wf(),
        ensures
            final(self).wf(),
            forall|c: Seq<char>| #[trigger] has_class(final(self)@, c) == (c == class_name@
                || has_class(old(self)@, c)),
            forall|c: Seq<char>, i: u8| #[trigger] slot_of(final(self)@, c, i) == if c
                == class_name@ && i == spec_index {
                Some(
                    match slot_of(old(self)@, c, i) {
                        Some(e) => e,
                        None => Seq::empty(),
                    }.push(talent@),
                )
            } else {
                slot_of(old(self)@, c, i)
            },
    {
        let ghost c0 = class_name@;
        let ghost t0 = talent@;
        let (p, q) = self.ensure_slot(class_name, spec_index);
        let ghost m1 = self@;
        let mut v = self.swap_slot(p, q, Vec::new());
        v.push(talent);
        let ghost m2 = self@;
        self.swap_slot(p, q, v);
        proof {
            let x = m1[p as int].1[q as int].1.push(t0);
            assert(m2[p as int].1.update(q as int, (m2[p as int].1[q as int].0, x)) =~= m1[p as int].1.update(q as int, (m1[p as int].1[q as int].0, x)));
            assert(with_slot(m2, p as int, q as int, x) =~= with_slot(m1, p as int, q as int, x));
            assert(loadouts_view(v@) =~= m1[p as int].1[q as int].1.push(t0));
            lemma_with_slot(m1, p as int, q as int, m1[p as int].1[q as int].1.push(t0));
            assert(self@ =~= with_slot(m1, p as int, q as int, m1[p as int].1[q as int].1.push(t0)));
        }
    }
}

impl LuaTalentManager {
    /// Gives slot `spec_index` of class `class_name` exactly the loadouts
    /// `talents`, creating the class and the slot if absent.
    pub fn set_spec_talents(&mut self, class_name: String, spec_index: u8, talents: Vec<TalentLoadout>)
        requires
            old(self).wf(),
        ensures
            final(self).wf(),
            forall|c: Seq<char>| #[trigger] has_class(final(self)@, c) == (c == class_name@
                || has_class(old(self)@, c)),
            forall|c: Seq<char>, i: u8| #[trigger] slot_of(final(self)@, c, i) == if c
                == class_name@ && i == spec_index {
                Some(loadouts_view(talents@))
            } else {
                slot_of(old(self)@, c, i)
            },
    {
        let (p, q) = self.ensure_slot(class_name, spec_index);
        let ghost m1 = self@;
        self.swap_slot(p, q, talents);
        proof {
            lemma_with_slot(m1, p as int, q as int, loadouts_view(talents@));
        }
    }

    /// Drops the generated loadouts of slot `spec_index` of class `class_name`;
    /// nothing happens if the slot does not exist.
    pub fn remove_auto_generated(&mut self, class_name: &str, spec_index: u8)
        requires
            old(self).wf(),
        ensures
            final(self).wf(),
            forall|c: Seq<char>| #[trigger] has_class(final(self)@, c) == has_class(old(self)@, c),
            forall|c: Seq<char>, i: u8| #[trigger] slot_of(final(self)@, c, i) == if c
                == class_name@ && i == spec_index {
                match slot_of(old(self)@, c, i) {
                    Some(e) => Some(user_owned(e)),
                    None => None,
                }
            } else {
                slot_of(old(self)@, c, i)
            },
    {
        let ghost m0 = self@;
        proof {
            lemma_text_sorted_unique(m0);
        }
        let (p, found) = self.class_position(class_name);
        if !found {
            proof {
                lemma_text_absent(m0, class_name@, p as int);
            }
            return;
        }
        assert(index_keys_sorted(self.talents@[p as int].1@)) by {
            assert(self@[p as int].1 == self.talents@[p as int].1@);
        }
        let (q, found_slot) = self.talents[p].1.position(spec_index);
        proof {
            lemma_lookup_at(m0, p as int);
            assert(index_keys_sorted(m0[p as int].1));
            lemma_index_sorted_unique(m0[p as int].1);
        }
        if !found_slot {
            proof {
                lemma_index_absent(m0[p as int].1, spec_index, q as int);
            }
            return;
        }
        let v = self.swap_slot(p, q, Vec::new());
        let kept = keep_user_owned(v);
        let ghost m1 = self@;
        self.swap_slot(p, q, kept);
        proof {
            let x = user_owned(m0[p as int].1[q as int].1);
            assert(m1[p as int].1.update(q as int, (m1[p as int].1[q as int].0, x)) =~= m0[p as int].1.update(q as int, (m0[p as int].1[q as int].0, x)));
            assert(with_slot(m1, p as int, q as int, x) =~= with_slot(m0, p as int, q as int, x));
            lemma_with_slot(m0, p as int, q as int, x);
        }
    }

    /// Drops the generated loadouts of every slot of every class.
    pub fn remove_all_auto_generated(&mut self)
        requires
            old(self).wf(),
        ensures
            final(self).wf(),
            final(self)@ == without_machine_owned(old(self)@),
    {
        let ghost orig = self@;
        let mut src: Vec<(String, ClassTalents)> = Vec::new();
        std::mem::swap(&mut src, &mut self.talents);
        let mut out: Vec<(String, ClassTalents)> = Vec::new();
        let ghost mut k: int = 0;
        assert(orig.skip(0) =~= src@.map_values(|c: (String, ClassTalents)| (c.0@, c.1@)));
        while src.len() > 0
            invariant
                0 <= k <= orig.len(),
                src@.map_values(|c: (String, ClassTalents)| (c.0@, c.1@)) == orig.skip(k),
                src@.len() == orig.len() - k,
                out@.map_values(|c: (String, ClassTalents)| (c.0@, c.1@)) == orig.take(k).map_values(|c: (Seq<char>, ClassModel)| clean_class(c)),
            decreases src.len(),
        {
            let ghost before = src@;
            let ghost before_out = out@;
            let (key, ct) = src.remove(0);
            proof {
                lemma_drain_step(before, |c: (String, ClassTalents)| (c.0@, c.1@), orig, k);
            }
            let cleaned = ct.without_machine_owned();
            out.push((key, cleaned));
            proof {
                assert(out@ == before_out.push((key, cleaned)));
                assert(orig.take(k + 1).map_values(|c: (Seq<char>, ClassModel)| clean_class(c)) =~= orig.take(k).map_values(|c: (Seq<char>, ClassModel)| clean_class(c)).push(clean_class(orig[k])));
                assert(out@.map_values(|c: (String, ClassTalents)| (c.0@, c.1@)) =~= before_out.map_values(|c: (String, ClassTalents)| (c.0@, c.1@)).push((key@, cleaned@)));
                k = k + 1;
            }
        }
        assert(orig.take(k) =~= orig);
        self.talents = out;
        proof {
            let m = self@;
            assert(m =~= without_machine_owned(orig));
            assert forall|i: int, j: int| 0 <= i < j < m.len() implies lex_lt(#[trigger] m[i].0, #[trigger] m[j].0) by {
                assert(m[i].0 == orig[i].0 && m[j].0 == orig[j].0);
            }
            assert forall|k2: int| 0 <= k2 < m.len() implies index_keys_sorted(#[trigger] m[k2].1) by {
                let a = orig[k2].1;
                assert(index_keys_sorted(a));
                assert forall|i: int, j: int| 0 <= i < j < m[k2].1.len() implies (#[trigger] m[k2].1[i].0) < (#[trigger] m[k2].1[j].0) by {
                    assert(m[k2].1[i].0 == a[i].0 && m[k2].1[j].0 == a[j].0);
                }
            }
        }
    }

    /// The slots of class `class_name`, if present.
    pub fn get_class_talents(&self, class_name: &str) -> (r: Option<&ClassTalents>)
        requires
            self.wf(),
        ensures
            match r {
                Some(ct) => lookup(self@, class_name@) == Some(ct@) && index_keys_sorted(ct@),
                None => lookup(self@, class_name@) is None,
            },
    {
        proof {
            lemma_text_sorted_unique(self@);
        }
        let (p, found) = self.class_position(class_name);
        if found {
            proof {
                lemma_lookup_at(self@, p as int);
            }
            Some(&self.talents[p].1)
        } else {
            proof {
                lemma_text_absent(self@, class_name@, p as int);
            }
            None
        }
    }

    /// The loadouts of slot `spec_index` of class `class_name`, if present.
    pub fn get_spec_talents(&self, class_name: &str, spec_index: u8) -> (r: Option<&Vec<TalentLoadout>>)
        requires
            self.wf(),
        ensures
            match r {
                Some(v) => slot_of(self@, class_name@, spec_index) == Some(loadouts_view(v@)),
                None => slot_of(self@, class_name@, spec_index) is None,
            },
    {
        match self.get_class_talents(class_name) {
            Some(ct) => ct.get(&spec_index),
            None => None,
        }
    }
}

/// One loadout as a line of the saved table.
pub open spec fn entry_text(e: LoadoutView) -> Seq<char> {
    "      { [\"icon\"] = "@ + decimal(e.icon as int) + ", [\"name\"] = "@ + quoted(e.name)
        + ", [\"text\"] = "@ + quoted(e.text) + " },\n"@
}

/// The lines of a slot's loadouts, in order.
pub open spec fn entries_text(s: Seq<LoadoutView>) -> Seq<char>
    decreases s.len(),
{
    if s.len() == 0 {
        Seq::empty()
    } else {
        entries_text(s.drop_last()) + entry_text(s.last())
    }
}

/// One slot as a block of the saved table.
pub open spec fn slot_text(sl: (u8, Seq<LoadoutView>)) -> Seq<char> {
    "    ["@ + decimal(sl.0 as int) + "] = {\n"@ + entries_text(sl.1) + "    },\n"@
}

/// The blocks of a class's slots, in order.
pub open spec fn slots_text(c: ClassModel) -> Seq<char>
    decreases c.len(),
{
    if c.len() == 0 {
        Seq::empty()
    } else {
        slots_text(c.drop_last()) + slot_text(c.last())
    }
}

/// One class as a block of the saved table.
pub open spec fn class_text(c: (Seq<char>, ClassModel)) -> Seq<char> {
    "  ["@ + quoted(c.0) + "] = {\n"@ + slots_text(c.1) + "  },\n"@
}

/// The blocks of the store's classes, in order.
pub open spec fn classes_text(m: StoreModel) -> Seq<char>
    decreases m.len(),
{
    if m.len() == 0 {
        Seq::empty()
    } else {
        classes_text(m.drop_last()) + class_text(m.last())
    }
}

/// The fixed options block that closes the saved table.
pub open spec fn option_text() -> Seq<char> {
    "  [\"OPTION\"] = { [\"IsEnabledPvp\"] = false },\n"@
}

/// The saved table's text for store `m`.
pub open spec fn encode_store(m: StoreModel) -> Seq<char> {
    "TalentLoadoutEx = {\n"@ + classes_text(m) + option_text() + "}\n"@
}

/// Appends the lines of a slot's loadouts.
fn push_entries(out: &mut String, v: &Vec<TalentLoadout>)
    ensures
        final(out)@ == old(out)@ + entries_text(loadouts_view(v@)),
{
    let ghost s = loadouts_view(v@);
    let mut i: usize = 0;
    while i < v.len()
        invariant
            s == loadouts_view(v@),
            i <= v.len(),
            out@ == old(out)@ + entries_text(s.take(i as int)),
        decreases v.len() - i,
    {
        let t = &v[i];
        push_str(out, "      { [\"icon\"] = ");
        push_str(out, decimal_string(t.icon).as_str());
        push_str(out, ", [\"name\"] = ");
        push_str(out, quoted_string(t.name.as_str()).as_str());
        push_str(out, ", [\"text\"] = ");
        push_str(out, quoted_string(t.text.as_str()).as_str());
        push_str(out, " },\n");
        proof {
            assert(s.take(i + 1).drop_last() =~= s.take(i as int));
            assert(s.take(i + 1).last() == t@);
            assert(out@ =~= old(out)@ + entries_text(s.take(i + 1)));
        }
        i += 1;
    }
    assert(s.take(i as int) =~= s);
}

/// Appends the blocks of a class's slots.
fn push_slots(out: &mut String, ct: &ClassTalents)
    ensures
        final(out)@ == old(out)@ + slots_text(ct@),
{
    let ghost s = ct@;
    let mut i: usize = 0;
    while i < ct.specs.len()
        invariant
            s == ct@,
            i <= ct.specs.len(),
            out@ == old(out)@ + slots_text(s.take(i as int)),
        decreases ct.specs.len() - i,
    {
        let sl = &ct.specs[i];
        push_str(out, "    [");
        push_str(out, decimal_string(sl.0 as i64).as_str());
        push_str(out, "] = {\n");
        push_entries(out, &sl.1);
        push_str(out, "    },\n");
        proof {
            assert(s.take(i + 1).drop_last() =~= s.take(i as int));
            assert(s.take(i + 1).last() == s[i as int]);
            assert(out@ =~= old(out)@ + slots_text(s.take(i + 1)));
        }
        i += 1;
    }
    assert(s.take(i as int) =~= s);
}

impl LuaTalentManager {
    /// The saved table's text: classes by key, slots by index, loadouts in
    /// order, then the fixed options block.
    pub fn to_lua_string(&self) -> (r: String)
        ensures
            r@ == encode_store(self@),
    {
        let ghost m = self@;
        let mut out = String::new();
        push_str(&mut out, "TalentLoadoutEx = {\n");
        let ghost head = out@;
        let mut i: usize = 0;
        while i < self.talents.len()
            invariant
                m == self@,
                i <= self.talents.len(),
                out@ == head + classes_text(m.take(i as int)),
            decreases self.talents.len() - i,
        {
            let c = &self.talents[i];
            push_str(&mut out, "  [");
            push_str(&mut out, quoted_string(c.0.as_str()).as_str());
            push_str(&mut out, "] = {\n");
            push_slots(&mut out, &c.1);
            push_str(&mut out, "  },\n");
            proof {
                assert(m.take(i + 1).drop_last() =~= m.take(i as int));
                assert(m.take(i + 1).last() == m[i as int]);
                assert(out@ =~= head + classes_text(m.take(i + 1)));
            }
            i += 1;
        }
        assert(m.take(i as int) =~= m);
        push_str(&mut out, "  [\"OPTION\"] = { [\"IsEnabledPvp\"] = false },\n");
        push_str(&mut out, "}\n");
        assert(out@ =~= encode_store(m));
        out
    }
}

/// Encoding depends only on content: two canonical stores that hold the same
/// classes, the same slots and the same loadouts in each slot, whatever order
/// they were filled in, encode to the same text.
pub proof fn lemma_encode_depends_only_on_content(a: StoreModel, b: StoreModel)
    requires
        store_wf(a),
        store_wf(b),
        forall|c: Seq<char>| #[trigger] has_class(a, c) == has_class(b, c),
        forall|c: Seq<char>, i: u8| #[trigger] slot_of(a, c, i) == slot_of(b, c, i),
    ensures
        encode_store(a) == encode_store(b),
{
    lemma_text_sorted_unique(a);
    lemma_text_sorted_unique(b);
    assert forall|c: Seq<char>| #[trigger] lookup(a, c) == lookup(b, c) by {
        assert(has_class(a, c) == has_class(b, c));
        if lookup(a, c) is Some {
            lemma_lookup_unique(a, c);
            lemma_lookup_unique(b, c);
            let ja = choose|j: int| 0 <= j < a.len() && a[j].0 == c;
            let jb = choose|j: int| 0 <= j < b.len() && b[j].0 == c;
            let ca = a[ja].1;
            let cb = b[jb].1;
            assert(index_keys_sorted(ca));
            assert(index_keys_sorted(cb));
            assert forall|i: u8| #[trigger] lookup(ca, i) == lookup(cb, i) by {
                assert(slot_of(a, c, i) == slot_of(b, c, i));
            }
            let lt = |x: u8, y: u8| x < y;
            assert(sorted_by(ca, lt));
            assert(sorted_by(cb, lt));
            lemma_sorted_lookup_eq(ca, cb, lt);
        }
    }
    let lt = |x: Seq<char>, y: Seq<char>| lex_lt(x, y);
    lemma_lex_asymmetric();
    assert(sorted_by(a, lt));
    assert(sorted_by(b, lt));
    lemma_sorted_lookup_eq(a, b, lt);
}

/// Looking a key up after changing every value by `g` finds the changed value.
pub proof fn lemma_lookup_map_values<K, V, W>(s: Seq<(K, V)>, g: spec_fn(V) -> W, k: K)
    ensures
        lookup(s.map_values(|p: (K, V)| (p.0, g(p.1))), k) == match lookup(s, k) {
            Some(v) => Some(g(v)),
            None => None,
        },
    decreases s.len(),
{
    let t = s.map_values(|p: (K, V)| (p.0, g(p.1)));
    if s.len() > 0 {
        assert(t.drop_first() =~= s.drop_first().map_values(|p: (K, V)| (p.0, g(p.1))));
        lemma_lookup_map_values(s.drop_first(), g, k);
    }
}

/// Keeping the user-owned loadouts twice keeps the same ones as once.
pub proof fn lemma_user_owned_idempotent(s: Seq<LoadoutView>)
    ensures
        user_owned(user_owned(s)) == user_owned(s),
    decreases s.len(),
{
    reveal(Seq::filter);
    if s.len() > 0 {
        lemma_user_owned_idempotent(s.drop_last());
        assert(s =~= s.drop_last().push(s.last()));
        lemma_user_owned_push(s.drop_last(), s.last());
        lemma_user_owned_push(user_owned(s.drop_last()), s.last());
    }
}

/// What clearing every slot does, slot by slot: each slot keeps exactly its
/// user-owned loadouts, in order.
pub proof fn lemma_without_machine_owned_slots(m: StoreModel, c: Seq<char>, i: u8)
    ensures
        has_class(without_machine_owned(m), c) == has_class(m, c),
        slot_of(without_machine_owned(m), c, i) == match slot_of(m, c, i) {
            Some(e) => Some(user_owned(e)),
            None => None,
        },
{
    let g = |cl: ClassModel| cl.map_values(|s: (u8, Seq<LoadoutView>)| clean_slot(s));
    assert(without_machine_owned(m) =~= m.map_values(|p: (Seq<char>, ClassModel)| (p.0, g(p.1))));
    lemma_lookup_map_values(m, g, c);
    if lookup(m, c) is Some {
        let cl = lookup(m, c)->0;
        let h = |e: Seq<LoadoutView>| user_owned(e);
        assert(g(cl) =~= cl.map_values(|p: (u8, Seq<LoadoutView>)| (p.0, h(p.1))));
        lemma_lookup_map_values(cl, h, i);
    }
}

/// Clearing every slot leaves no generated loadout anywhere, and each slot's
/// user-owned loadouts are exactly those it had, in the same order.
pub proof fn lemma_global_clear(m: StoreModel, c: Seq<char>, i: u8)
    ensures
        slot_of(without_machine_owned(m), c, i) matches Some(e) ==> forall|k: int|
            0 <= k < e.len() ==> !is_machine_owned(#[trigger] e[k]),
        slot_of(without_machine_owned(m), c, i) matches Some(e) ==> slot_of(m, c, i) matches Some(
            old_e,
        ) && user_owned(e) == user_owned(old_e),
        slot_of(without_machine_owned(m), c, i) is None <==> slot_of(m, c, i) is None,
{
    lemma_without_machine_owned_slots(m, c, i);
    if slot_of(m, c, i) is Some {
        let old_e = slot_of(m, c, i)->0;
        let e = user_owned(old_e);
        lemma_user_owned_idempotent(old_e);
        assert forall|k: int| 0 <= k < e.len() implies !is_machine_owned(#[trigger] e[k]) by {
            old_e.lemma_filter_pred(|x: LoadoutView| !is_machine_owned(x), k);
        }
    }
}

/// Clearing one slot that holds one generated and one user-owned loadout, in
/// either order, leaves exactly the user-owned one.
pub proof fn lemma_scoped_clear(generated: LoadoutView, user: LoadoutView)
    requires
        is_machine_owned(generated),
        !is_machine_owned(user),
    ensures
        user_owned(seq![generated, user]) == seq![user],
        user_owned(seq![user, generated]) == seq![user],
{
    lemma_user_owned_push(Seq::empty(), generated);
    lemma_user_owned_push(Seq::empty(), user);
    lemma_user_owned_push(seq![generated], user);
    lemma_user_owned_push(seq![user], generated);
    reveal(Seq::filter);
    assert(Seq::<LoadoutView>::empty().push(generated) =~= seq![generated]);
    assert(Seq::<LoadoutView>::empty().push(user) =~= seq![user]);
    assert(seq![generated].push(user) =~= seq![generated, user]);
    assert(seq![user].push(generated) =~= seq![user, generated]);
    assert(user_owned(Seq::<LoadoutView>::empty()) =~= Seq::<LoadoutView>::empty());
    assert(Seq::<LoadoutView>::empty().push(user) =~= seq![user]);
}

/// The store that the fields of a talent table decode to, by its lookups:
/// each class that has a table there, with the slots that table decodes to.
pub open spec fn decodes_store(m: StoreModel, fs: Seq<FieldView>) -> bool {
    forall|c: Seq<char>| match #[trigger] class_table(fs, c) {
        Some(t) => lookup(m, c) matches Some(cm) && decodes_class(cm, t),
        None => lookup(m, c) is None,
    }
}

/// The text of a saved table is not a document of `name = value` assignments.
#[derive(Debug, Clone, Copy, PartialEq, Eq, Structural)]
pub enum LuaParseError {
    InvalidSyntax,
}

impl ClassTalents {
    /// A class with no slots.
    pub fn new() -> (r: Self)
        ensures
            r@ == Seq::<(u8, Seq<LoadoutView>)>::empty(),
    {
        let r = ClassTalents { specs: Vec::new() };
        assert(r@ =~= Seq::<(u8, Seq<LoadoutView>)>::empty());
        r
    }

    /// Gives slot `spec_index` exactly the loadouts `talents`, adding the slot if absent.
    pub fn put_slot(&mut self, spec_index: u8, talents: Vec<TalentLoadout>)
        requires
            index_keys_sorted(old(self)@),
        ensures
            index_keys_sorted(final(self)@),
            forall|i: u8| #[trigger] lookup(final(self)@, i) == if i == spec_index {
                Some(loadouts_view(talents@))
            } else {
                lookup(old(self)@, i)
            },
    {
        let ghost m = self@;
        let ghost raw = self.specs@;
        let ghost e = loadouts_view(talents@);
        let (q, found) = self.position(spec_index);
        if found {
            self.specs.remove(q);
            self.specs.insert(q, (spec_index, talents));
            assert(self.specs@ =~= raw.update(q as int, (spec_index, talents)));
            assert(self@ =~= m.update(q as int, (spec_index, e)));
            proof {
                lemma_index_sorted_unique(m);
                lemma_update_value(m, q as int, e);
                assert forall|i: int, j: int| 0 <= i < j < self@.len() implies (#[trigger] self@[i].0) < (#[trigger] self@[j].0) by {
                    assert(self@[i].0 == m[i].0 && self@[j].0 == m[j].0);
                }
            }
        } else {
            self.specs.insert(q, (spec_index, talents));
            assert(self.specs@ =~= raw.insert(q as int, (spec_index, talents)));
            assert(self@ =~= m.insert(q as int, (spec_index, e)));
            proof {
                lemma_index_insert(m, spec_index, e, q as int);
            }
        }
    }
}

/// Reads a class's slots from the fields of its table.
fn read_class(t: &Vec<LuaField>) -> (r: ClassTalents)
    ensures
        index_keys_sorted(r@),
        decodes_class(r@, fields_view(t@)),
{
    let ghost fv = fields_view(t@);
    proof {
        lemma_fields_view(t@);
    }
    let mut ct = ClassTalents::new();
    let mut k: usize = 0;
    assert(fv.take(0) =~= Seq::<FieldView>::empty());
    while k < t.len()
        invariant
            fv == fields_view(t@),
            fv.len() == t@.len(),
            forall|x: int| 0 <= x < t@.len() ==> fv[x] == field_view(#[trigger] t@[x]),
            k <= t.len(),
            index_keys_sorted(ct@),
            decodes_class(ct@, fv.take(k as int)),
        decreases t.len() - k,
    {
        proof {
            assert(fv.take(k + 1).drop_last() =~= fv.take(k as int));
            assert(fv.take(k + 1).last() == field_view(t@[k as int]));
        }
        match &t[k] {
            LuaField::Keyed(LuaValue::Num(n), LuaValue::Table(l)) => {
                match read_index_number(n.as_str()) {
                    Some(i) => {
                        let entries = read_list(l);
                        ct.put_slot(i, entries);
                    },
                    None => {},
                }
            },
            _ => {},
        }
        k += 1;
    }
    assert(fv.take(k as int) =~= fv);
    ct
}

/// Reads the store from the fields of the talent table.
fn read_talent_table(fs: &Vec<LuaField>) -> (r: LuaTalentManager)
    ensures
        r.wf(),
        decodes_store(r@, fields_view(fs@)),
{
    let ghost fv = fields_view(fs@);
    proof {
        lemma_fields_view(fs@);
    }
    let mut m = LuaTalentManager::new();
    let mut k: usize = 0;
    assert(fv.take(0) =~= Seq::<FieldView>::empty());
    while k < fs.len()
        invariant
            fv == fields_view(fs@),
            fv.len() == fs@.len(),
            forall|x: int| 0 <= x < fs@.len() ==> fv[x] == field_view(#[trigger] fs@[x]),
            k <= fs.len(),
            m.wf(),
            decodes_store(m@, fv.take(k as int)),
        decreases fs.len() - k,
    {
        proof {
            assert(fv.take(k + 1).drop_last() =~= fv.take(k as int));
            assert(fv.take(k + 1).last() == field_view(fs@[k as int]));
        }
        let ghost m0 = m@;
        let ghost pre = fv.take(k as int);
        let ghost cur = fv.take(k + 1);
        match &fs[k] {
            LuaField::Keyed(LuaValue::Str(name), LuaValue::Table(t)) => {
                if !str_eq(name.as_str(), "OPTION") {
                    let ct = read_class(t);
                    let ghost cv = ct@;
                    m.put_class(name.clone(), ct);
                    proof {
                        assert forall|c: Seq<char>| match #[trigger] class_table(cur, c) {
                            Some(tt) => lookup(m@, c) matches Some(cm) && decodes_class(cm, tt),
                            None => lookup(m@, c) is None,
                        } by {
                            if c == name@ {
                                assert(class_table(cur, c) == Some(fields_view(t@)));
                            } else {
                                assert(class_table(cur, c) == class_table(pre, c));
                            }
                        }
                    }
                } else {
                    proof {
                        assert forall|c: Seq<char>| #[trigger] class_table(cur, c) == class_table(pre, c) by {}
                    }
                }
            },
            _ => {
                proof {
                    assert forall|c: Seq<char>| #[trigger] class_table(cur, c) == class_table(pre, c) by {}
                }
            },
        }
        k += 1;
    }
    assert(fv.take(k as int) =~= fv);
    m
}

impl LuaTalentManager {
    /// Gives class `class_name` exactly the slots `ct`, adding the class if absent.
    pub fn put_class(&mut self, class_name: String, ct: ClassTalents)
        requires
            old(self).wf(),
            index_keys_sorted(ct@),
        ensures
            final(self).wf(),
            forall|c: Seq<char>| #[trigger] lookup(final(self)@, c) == if c == class_name@ {
                Some(ct@)
            } else {
                lookup(old(self)@, c)
            },
    {
        let ghost m = self@;
        let ghost raw = self.talents@;
        let ghost c0 = class_name@;
        let ghost v = ct@;
        let (p, found) = self.class_position(class_name.as_str());
        if found {
            self.talents.remove(p);
            self.talents.insert(p, (class_name, ct));
            assert(self.talents@ =~= raw.update(p as int, self.talents@[p as int]));
            assert(self@ =~= m.update(p as int, (c0, v)));
            proof {
                lemma_text_sorted_unique(m);
                lemma_update_value(m, p as int, v);
                assert forall|i: int, j: int| 0 <= i < j < self@.len() implies lex_lt(#[trigger] self@[i].0, #[trigger] self@[j].0) by {
                    assert(self@[i].0 == m[i].0 && self@[j].0 == m[j].0);
                }
                assert forall|k: int| 0 <= k < self@.len() implies index_keys_sorted(#[trigger] self@[k].1) by {
                    if k != p {
                        assert(self@[k] == m[k]);
                    }
                }
            }
        } else {
            self.talents.insert(p, (class_name, ct));
            assert(self.talents@ =~= raw.insert(p as int, self.talents@[p as int]));
            assert(self@ =~= m.insert(p as int, (c0, v)));
            proof {
                lemma_text_insert(m, c0, v, p as int);
                assert forall|k: int| 0 <= k < self@.len() implies index_keys_sorted(#[trigger] self@[k].1) by {
                    if k < p {
                        assert(self@[k] == m[k]);
                    } else if k > p {
                        assert(self@[k] == m[k - 1]);
                    }
                }
            }
        }
    }

    /// Reads the store from the saved table's text. The text is read as Lua
    /// 5.1 data: assignments `name = value` of tables, strings (quoted, with
    /// every 5.1 escape, or long-bracketed), numerals (decimal, float or hex)
    /// and `true`, `false`, `nil`, with line and block comments. Text that is
    /// not such a document is refused; within the talent table, classes,
    /// slots and loadouts of the wrong shape are skipped, and a numeral that
    /// is not a decimal integer reads as icon 0 or as no slot index. A block
    /// comment left open runs to the end of the text.
    pub fn parse_lua(content: &str) -> (r: Result<Self, LuaParseError>)
        ensures
            match parse_document(content@) {
                None => r == Err::<Self, LuaParseError>(LuaParseError::InvalidSyntax),
                Some(stmts) => r matches Ok(m) && m.wf() && decodes_store(m@, talent_fields(stmts)),
            },
    {
        let stmts = match read_document(content) {
            Some(v) => v,
            None => {
                return Err(LuaParseError::InvalidSyntax);
            },
        };
        let ghost sv = statements_view(stmts@);
        let mut chosen: Option<usize> = None;
        let mut k: usize = 0;
        assert(sv.take(0) =~= Seq::<(Seq<char>, ValueView)>::empty());
        while k < stmts.len()
            invariant
                sv == statements_view(stmts@),
                k <= stmts.len(),
                match chosen {
                    Some(j) => j < stmts@.len() && (stmts@[j as int].1 matches LuaValue::Table(fs)
                        && talent_fields(sv.take(k as int)) == fields_view(fs@)),
                    None => talent_fields(sv.take(k as int)) == Seq::<FieldView>::empty(),
                },
            decreases stmts.len() - k,
        {
            proof {
                assert(sv.take(k + 1).drop_last() =~= sv.take(k as int));
                assert(sv.take(k + 1).last() == sv[k as int]);
            }
            match &stmts[k].1 {
                LuaValue::Table(_) => {
                    if str_eq(stmts[k].0.as_str(), "TalentLoadoutEx") {
                        chosen = Some(k);
                    }
                },
                _ => {},
            }
            k += 1;
        }
        assert(sv.take(k as int) =~= sv);
        match chosen {
            Some(j) => match &stmts[j].1 {
                LuaValue::Table(fs) => Ok(read_talent_table(fs)),
                _ => Ok(LuaTalentManager::new()),
            },
            None => {
                let m = LuaTalentManager::new();
                assert forall|c: Seq<char>| #[trigger] class_table(Seq::<FieldView>::empty(), c) is None by {}
                Ok(m)
            },
        }
    }
}

} // verus!
