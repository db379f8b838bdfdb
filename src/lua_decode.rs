//! Reading the talent store out of a parsed saved-table document: classes,
//! slots and loadouts are taken where they have the expected shape and
//! skipped where they do not.

use vstd::prelude::*;
use crate::lua_talent::{loadouts_view, ClassModel, LoadoutView, TalentLoadout};
use crate::lua_text::digit_value;
use crate::lua_tree::{field_view, fields_view, lemma_fields_view, FieldView, LuaField, LuaValue, ValueView};
use crate::text::{chars_of, str_eq};

verus! {

/// The value of a sequence of decimal digits.
pub open spec fn digits_value(n: Seq<char>) -> int
    decreases n.len(),
{
    if n.len() == 0 {
        0
    } else {
        digits_value(n.drop_last()) * 10 + match digit_value(n.last()) {
            Some(d) => d,
            None => 0,
        }
    }
}

/// Every character is a decimal digit.
pub open spec fn all_digits(n: Seq<char>) -> bool {
    forall|k: int| 0 <= k < n.len() ==> (#[trigger] digit_value(n[k])) is Some
}

/// A number literal read as a specialization index: digits only, at most 255.
pub open spec fn index_number(n: Seq<char>) -> Option<u8> {
    if n.len() > 0 && all_digits(n) && digits_value(n) <= 255 {
        Some(digits_value(n) as u8)
    } else {
        None
    }
}

/// A number literal read as a 64-bit integer: an optional `-` and digits, in range.
pub open spec fn i64_number(n: Seq<char>) -> Option<i64> {
    if n.len() > 0 && n[0] == '-' {
        let m = n.drop_first();
        if m.len() > 0 && all_digits(m) && digits_value(m) <= 0x8000_0000_0000_0000 {
            Some((-digits_value(m)) as i64)
        } else {
            None
        }
    } else if n.len() > 0 && all_digits(n) && digits_value(n) <= 0x7fff_ffff_ffff_ffff {
        Some(digits_value(n) as i64)
    } else {
        None
    }
}

/// A field's key and value, when the key is a string or a bare name.
pub open spec fn named_field(f: FieldView) -> Option<(Seq<char>, ValueView)> {
    match f {
        FieldView::Keyed(ValueView::Str(k), v) => Some((k, v)),
        FieldView::Named(k, v) => Some((k, v)),
        _ => None,
    }
}

/// A loadout's icon: the last `icon` field holding a number, read as an
/// integer (0 when out of range); 0 without one.
pub open spec fn entry_icon(e: Seq<FieldView>) -> i64
    decreases e.len(),
{
    if e.len() == 0 {
        0
    } else {
        match named_field(e.last()) {
            Some((k, ValueView::Num(n))) => if k == "icon"@ {
                match i64_number(n) {
                    Some(x) => x,
                    None => 0,
                }
            } else {
                entry_icon(e.drop_last())
            },
            _ => entry_icon(e.drop_last()),
        }
    }
}

/// A loadout's text field `key`: the last such field holding a string; empty without one.
pub open spec fn entry_string(e: Seq<FieldView>, key: Seq<char>) -> Seq<char>
    decreases e.len(),
{
    if e.len() == 0 {
        Seq::empty()
    } else {
        match named_field(e.last()) {
            Some((k, ValueView::Str(v))) => if k == key {
                v
            } else {
                entry_string(e.drop_last(), key)
            },
            _ => entry_string(e.drop_last(), key),
        }
    }
}

/// The loadout that the fields of an entry table describe.
pub open spec fn decode_entry(e: Seq<FieldView>) -> LoadoutView {
    LoadoutView { icon: entry_icon(e), name: entry_string(e, "name"@), text: entry_string(e, "text"@) }
}

/// The loadouts of a slot's list: one for each bare table field, in order.
pub open spec fn decode_list(l: Seq<FieldView>) -> Seq<LoadoutView>
    decreases l.len(),
{
    if l.len() == 0 {
        Seq::empty()
    } else {
        decode_list(l.drop_last()) + match l.last() {
            FieldView::Positional(ValueView::Table(e)) => seq![decode_entry(e)],
            _ => Seq::empty(),
        }
    }
}

/// The list of slot `i` in a class table: the last `[number] = {...}` field
/// whose number reads as `i`.
pub open spec fn slot_list(t: Seq<FieldView>, i: u8) -> Option<Seq<FieldView>>
    decreases t.len(),
{
    if t.len() == 0 {
        None
    } else {
        match t.last() {
            FieldView::Keyed(ValueView::Num(n), ValueView::Table(l)) => if index_number(n) == Some(i) {
                Some(l)
            } else {
                slot_list(t.drop_last(), i)
            },
            _ => slot_list(t.drop_last(), i),
        }
    }
}

/// The loadouts of slot `i` in a class table, if it has that slot.
pub open spec fn decode_slot(t: Seq<FieldView>, i: u8) -> Option<Seq<LoadoutView>> {
    match slot_list(t, i) {
        Some(l) => Some(decode_list(l)),
        None => None,
    }
}

/// The table of class `c` in the top table: the last `["c"] = {...}` field,
/// the options key never counting as a class.
pub open spec fn class_table(fs: Seq<FieldView>, c: Seq<char>) -> Option<Seq<FieldView>>
    decreases fs.len(),
{
    if fs.len() == 0 {
        None
    } else {
        match fs.last() {
            FieldView::Keyed(ValueView::Str(k), ValueView::Table(t)) => if k == c && c
                != "OPTION"@ {
                Some(t)
            } else {
                class_table(fs.drop_last(), c)
            },
            _ => class_table(fs.drop_last(), c),
        }
    }
}

/// The fields of the talent table: those of the last assignment of a table to
/// the table's variable; none without one.
pub open spec fn talent_fields(stmts: Seq<(Seq<char>, ValueView)>) -> Seq<FieldView>
    decreases stmts.len(),
{
    if stmts.len() == 0 {
        Seq::empty()
    } else {
        match stmts.last().1 {
            ValueView::Table(fs) => if stmts.last().0 == "TalentLoadoutEx"@ {
                fs
            } else {
                talent_fields(stmts.drop_last())
            },
            _ => talent_fields(stmts.drop_last()),
        }
    }
}

/// The slots that class table `t` decodes to, by their lookups.
pub open spec fn decodes_class(m: ClassModel, t: Seq<FieldView>) -> bool {
    forall|i: u8| #[trigger] crate::keyed::lookup(m, i) == decode_slot(t, i)
}

/// A prefix of digits is worth no more than the whole.
pub proof fn lemma_prefix_value_le(n: Seq<char>, j: int)
    requires
        all_digits(n),
        0 <= j <= n.len(),
    ensures
        0 <= digits_value(n.take(j)) <= digits_value(n),
    decreases n.len() - j,
{
    assert(n.take(n.len() as int) =~= n);
    lemma_value_nonneg(n.take(j));
    if j < n.len() {
        lemma_prefix_value_le(n, j + 1);
        assert(n.take(j + 1).drop_last() =~= n.take(j));
        assert(digit_value(n[j]) is Some);
    }
}

/// The value of digits is never negative.
pub proof fn lemma_value_nonneg(n: Seq<char>)
    ensures
        digits_value(n) >= 0,
    decreases n.len(),
{
    if n.len() > 0 {
        lemma_value_nonneg(n.drop_last());
    }
}

/// The value of a digit character.
fn digit_of_char(c: char) -> (r: Option<u64>)
    ensures
        match r {
            Some(d) => digit_value(c) == Some(d as int) && d < 10,
            None => digit_value(c) is None,
        },
{
    if c == '0' {
        Some(0)
    } else if c == '1' {
        Some(1)
    } else if c == '2' {
        Some(2)
    } else if c == '3' {
        Some(3)
    } else if c == '4' {
        Some(4)
    } else if c == '5' {
        Some(5)
    } else if c == '6' {
        Some(6)
    } else if c == '7' {
        Some(7)
    } else if c == '8' {
        Some(8)
    } else if c == '9' {
        Some(9)
    } else {
        None
    }
}

/// The value of the digits of `cs` from `from`, if all are digits and it is at most `max`.
fn digits_up_to(cs: &Vec<char>, from: usize, max: u64) -> (r: Option<u64>)
    requires
        from <= cs@.len(),
        max <= 0x8000_0000_0000_0000u64,
    ensures
        match r {
            Some(v) => all_digits(cs@.skip(from as int)) && v as int == digits_value(cs@.skip(from as int))
                && v <= max,
            None => !(all_digits(cs@.skip(from as int)) && digits_value(cs@.skip(from as int)) <= max),
        },
{
    let ghost n = cs@.skip(from as int);
    let mut v: u64 = 0;
    let mut i: usize = from;
    assert(n.take(0) =~= Seq::<char>::empty());
    while i < cs.len()
        invariant
            n == cs@.skip(from as int),
            from <= i <= cs@.len(),
            all_digits(n.take(i - from)),
            v as int == digits_value(n.take(i - from)),
            v <= max,
            max <= 0x8000_0000_0000_0000u64,
        decreases cs.len() - i,
    {
        let ghost k = i - from;
        assert(n.take(k + 1).drop_last() =~= n.take(k));
        assert(n[k] == cs@[i as int]);
        match digit_of_char(cs[i]) {
            None => {
                assert(!all_digits(n));
                return None;
            },
            Some(d) => {
                let nv: u128 = (v as u128) * 10 + (d as u128);
                assert(all_digits(n.take(k + 1))) by {
                    assert forall|x: int| 0 <= x < k + 1 implies (#[trigger] digit_value(n.take(k + 1)[x])) is Some by {
                        if x < k {
                            assert(n.take(k + 1)[x] == n.take(k)[x]);
                        }
                    }
                }
                if nv > max as u128 {
                    proof {
                        if all_digits(n) {
                            lemma_prefix_value_le(n, k + 1);
                        }
                    }
                    return None;
                }
                v = nv as u64;
            },
        }
        i += 1;
    }
    assert(n.take(i - from) =~= n);
    Some(v)
}

/// Reads a number literal as a specialization index.
pub fn read_index_number(n: &str) -> (r: Option<u8>)
    ensures
        r == index_number(n@),
{
    let cs = chars_of(n);
    if cs.len() == 0 {
        return None;
    }
    assert(cs@.skip(0) =~= n@);
    match digits_up_to(&cs, 0, 255) {
        Some(v) => Some(v as u8),
        None => None,
    }
}

/// Reads a number literal as a 64-bit integer.
pub fn read_i64_number(n: &str) -> (r: Option<i64>)
    ensures
        r == i64_number(n@),
{
    let cs = chars_of(n);
    if cs.len() == 0 {
        return None;
    }
    if cs[0] == '-' {
        if cs.len() == 1 {
            assert(n@.drop_first().len() == 0);
            return None;
        }
        assert(cs@.skip(1) =~= n@.drop_first());
        match digits_up_to(&cs, 1, 0x8000_0000_0000_0000) {
            Some(v) => {
                if v == 0x8000_0000_0000_0000 {
                    Some(-0x8000_0000_0000_0000i64)
                } else {
                    Some(-(v as i64))
                }
            },
            None => None,
        }
    } else {
        assert(cs@.skip(0) =~= n@);
        match digits_up_to(&cs, 0, 0x7fff_ffff_ffff_ffff) {
            Some(v) => Some(v as i64),
            None => None,
        }
    }
}

/// Reads one loadout from the fields of an entry table.
pub fn read_entry(e: &Vec<LuaField>) -> (r: TalentLoadout)
    ensures
        r@ == decode_entry(fields_view(e@)),
{
    let ghost fv = fields_view(e@);
    proof {
        lemma_fields_view(e@);
    }
    let mut icon: i64 = 0;
    let mut name = String::new();
    let mut text = String::new();
    let mut i: usize = 0;
    assert(fv.take(0) =~= Seq::<FieldView>::empty());
    while i < e.len()
        invariant
            fv == fields_view(e@),
            fv.len() == e@.len(),
            forall|k: int| 0 <= k < e@.len() ==> fv[k] == field_view(#[trigger] e@[k]),
            i <= e.len(),
            icon == entry_icon(fv.take(i as int)),
            name@ == entry_string(fv.take(i as int), "name"@),
            text@ == entry_string(fv.take(i as int), "text"@),
        decreases e.len() - i,
    {
        let pair: Option<(&String, &LuaValue)> = match &e[i] {
            LuaField::Keyed(LuaValue::Str(k), v) => Some((k, v)),
            LuaField::Named(k, v) => Some((k, v)),
            _ => None,
        };
        proof {
            assert(fv.take(i + 1).drop_last() =~= fv.take(i as int));
            assert(fv.take(i + 1).last() == field_view(e@[i as int]));
        }
        match pair {
            Some((k, v)) => {
                if str_eq(k.as_str(), "icon") {
                    match v {
                        LuaValue::Num(n) => {
                            icon = match read_i64_number(n.as_str()) {
                                Some(x) => x,
                                None => 0,
                            };
                        },
                        _ => {},
                    }
                } else if str_eq(k.as_str(), "name") {
                    match v {
                        LuaValue::Str(t) => {
                            name = t.clone();
                        },
                        _ => {},
                    }
                } else if str_eq(k.as_str(), "text") {
                    match v {
                        LuaValue::Str(t) => {
                            text = t.clone();
                        },
                        _ => {},
                    }
                }
                proof {
                    reveal_strlit("icon");
                    reveal_strlit("name");
                    reveal_strlit("text");
                    assert("icon"@[0] != "name"@[0]);
                    assert("icon"@[0] != "text"@[0]);
                    assert("name"@[0] != "text"@[0]);
                }
            },
            None => {},
        }
        i += 1;
    }
    assert(fv.take(i as int) =~= fv);
    TalentLoadout { icon, name, text }
}

/// Reads the loadouts of a slot's list.
pub fn read_list(l: &Vec<LuaField>) -> (r: Vec<TalentLoadout>)
    ensures
        loadouts_view(r@) == decode_list(fields_view(l@)),
{
    let ghost fv = fields_view(l@);
    proof {
        lemma_fields_view(l@);
    }
    let mut out: Vec<TalentLoadout> = Vec::new();
    let mut i: usize = 0;
    assert(fv.take(0) =~= Seq::<FieldView>::empty());
    assert(loadouts_view(out@) =~= Seq::<LoadoutView>::empty());
    while i < l.len()
        invariant
            fv == fields_view(l@),
            fv.len() == l@.len(),
            forall|k: int| 0 <= k < l@.len() ==> fv[k] == field_view(#[trigger] l@[k]),
            i <= l.len(),
            loadouts_view(out@) == decode_list(fv.take(i as int)),
        decreases l.len() - i,
    {
        proof {
            assert(fv.take(i + 1).drop_last() =~= fv.take(i as int));
            assert(fv.take(i + 1).last() == field_view(l@[i as int]));
        }
        let ghost before = out@;
        match &l[i] {
            LuaField::Positional(LuaValue::Table(e)) => {
                let t = read_entry(e);
                out.push(t);
                assert(loadouts_view(out@) =~= loadouts_view(before) + seq![t@]);
            },
            _ => {
                assert(decode_list(fv.take(i + 1)) =~= decode_list(fv.take(i as int)));
            },
        }
        i += 1;
    }
    assert(fv.take(i as int) =~= fv);
    out
}

} // verus!
