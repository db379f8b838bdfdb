//! Writing the store and reading it back gives the same store.

use vstd::prelude::*;
use crate::keyed::{
    index_keys_sorted, lemma_index_sorted_unique, lemma_lex_asymmetric, lemma_lookup_at,
    lemma_lookup_unique, lemma_sorted_lookup_eq, lemma_text_sorted_unique, lex_lt, lookup,
    sorted_by,
};
use crate::lua_decode::{
    talent_fields,
    all_digits, class_table, decode_entry, decode_list, decode_slot, decodes_class, digits_value,
    entry_icon, entry_string, i64_number, index_number, slot_list,
};
use crate::lua_talent::{
    has_class, class_text, classes_text, decodes_store, encode_store, entries_text, entry_text, option_text,
    slot_text, slots_text, store_wf, ClassModel, LoadoutView, StoreModel,
};
use crate::lua_text::{decimal, digit_char, digit_value, digits};
use crate::lua_tree::{
    digit_dot_end, eq_run_end, long_open, numeral_end, numeral_starts, is_digit, is_name_char, is_name_start, is_space, name_end, parse_field, parse_fields, parse_value,
    parse_chunk, parse_document, parse_word, skip_ws, string_body, FieldView, ValueView,
};
use crate::lua_text::{escape_char, escaped, quoted};

verus! {

/// The fields of the table a loadout is written as.
pub open spec fn entry_fields(e: LoadoutView) -> Seq<FieldView> {
    seq![
        FieldView::Keyed(ValueView::Str("icon"@), ValueView::Num(decimal(e.icon as int))),
        FieldView::Keyed(ValueView::Str("name"@), ValueView::Str(e.name)),
        FieldView::Keyed(ValueView::Str("text"@), ValueView::Str(e.text)),
    ]
}

/// The field a loadout is written as inside its slot's list.
pub open spec fn entry_field(e: LoadoutView) -> FieldView {
    FieldView::Positional(ValueView::Table(entry_fields(e)))
}

/// The fields of the list a slot's loadouts are written as.
pub open spec fn list_fields(s: Seq<LoadoutView>) -> Seq<FieldView> {
    s.map_values(|e: LoadoutView| entry_field(e))
}

/// The field a slot is written as inside its class's table.
pub open spec fn slot_field(sl: (u8, Seq<LoadoutView>)) -> FieldView {
    FieldView::Keyed(ValueView::Num(decimal(sl.0 as int)), ValueView::Table(list_fields(sl.1)))
}

/// The fields of the table a class's slots are written as.
pub open spec fn class_fields(c: ClassModel) -> Seq<FieldView> {
    c.map_values(|sl: (u8, Seq<LoadoutView>)| slot_field(sl))
}

/// The field a class is written as inside the talent table.
pub open spec fn class_field(c: (Seq<char>, ClassModel)) -> FieldView {
    FieldView::Keyed(ValueView::Str(c.0), ValueView::Table(class_fields(c.1)))
}

/// The fixed options field.
pub open spec fn option_field() -> FieldView {
    FieldView::Keyed(
        ValueView::Str("OPTION"@),
        ValueView::Table(seq![FieldView::Keyed(ValueView::Str("IsEnabledPvp"@), ValueView::Bool(false))]),
    )
}

/// The fields of the talent table a store is written as.
pub open spec fn store_fields(m: StoreModel) -> Seq<FieldView> {
    m.map_values(|c: (Seq<char>, ClassModel)| class_field(c)).push(option_field())
}

/// Written digits read back as the number written.
proof fn lemma_digits_read_back(n: nat)
    ensures
        digits(n).len() > 0,
        all_digits(digits(n)),
        digits_value(digits(n)) == n,
        digits(n)[0] != '-',
    decreases n,
{
    let d = digits(n);
    if n < 10 {
        assert(digit_value(digit_char(n as int)) == Some(n as int));
        assert(d.drop_last() =~= Seq::<char>::empty());
        assert(d.last() == digit_char(n as int));
        assert(digits_value(d.drop_last()) == 0);
        assert(digits_value(d) == n);
    } else {
        lemma_digits_read_back(n / 10);
        let q = digits(n / 10);
        assert(d.drop_last() =~= q);
        assert(d.last() == digit_char((n % 10) as int));
        assert(digit_value(digit_char((n % 10) as int)) == Some((n % 10) as int));
        assert(digits_value(d) == digits_value(q) * 10 + (n % 10) as int);
        assert((n / 10) * 10 + n % 10 == n) by (nonlinear_arith);
        assert forall|k: int| 0 <= k < d.len() implies (#[trigger] digit_value(d[k])) is Some by {
            if k < q.len() {
                assert(d[k] == q[k]);
            }
        }
        assert(d[0] == q[0]);
    }
}

/// A written specialization index reads back as itself.
proof fn lemma_index_read_back(i: u8)
    ensures
        index_number(decimal(i as int)) == Some(i),
{
    lemma_digits_read_back(i as nat);
}

/// A written icon reads back as itself.
proof fn lemma_icon_read_back(x: i64)
    ensures
        i64_number(decimal(x as int)) == Some(x),
{
    if x < 0 {
        let m = (-(x as int)) as nat;
        lemma_digits_read_back(m);
        let n = decimal(x as int);
        assert(n.drop_first() =~= digits(m));
    } else {
        lemma_digits_read_back(x as nat);
    }
}

/// A written loadout's fields decode to the loadout.
proof fn lemma_entry_read_back(e: LoadoutView)
    ensures
        decode_entry(entry_fields(e)) == e,
{
    let f = entry_fields(e);
    reveal_strlit("icon");
    reveal_strlit("name");
    reveal_strlit("text");
    assert("icon"@[0] != "name"@[0] && "icon"@[0] != "text"@[0] && "name"@[0] != "text"@[0]);
    let f2 = f.drop_last();
    let f1 = f2.drop_last();
    assert(f2.last() == f[1]);
    assert(f1.last() == f[0]);
    assert(f1.drop_last().len() == 0);
    lemma_icon_read_back(e.icon);
    assert(entry_icon(f1) == e.icon);
    assert(entry_icon(f2) == e.icon);
    assert(entry_icon(f) == e.icon);
    assert(entry_string(f2, "name"@) == e.name);
    assert(entry_string(f, "name"@) == e.name);
    assert(entry_string(f, "text"@) == e.text);
}

/// A written slot list decodes to the slot's loadouts.
proof fn lemma_list_read_back(s: Seq<LoadoutView>)
    ensures
        decode_list(list_fields(s)) == s,
    decreases s.len(),
{
    if s.len() > 0 {
        let l = list_fields(s);
        assert(l.drop_last() =~= list_fields(s.drop_last()));
        lemma_list_read_back(s.drop_last());
        lemma_entry_read_back(s.last());
        assert(s =~= s.drop_last() + seq![s.last()]);
    } else {
        assert(list_fields(s) =~= Seq::<FieldView>::empty());
    }
}

/// The list the written slots give for index `i` is the written list of the
/// slot with that index.
proof fn lemma_slot_list_read_back(c: ClassModel, i: u8)
    requires
        index_keys_sorted(c),
    ensures
        slot_list(class_fields(c), i) == match lookup(c, i) {
            Some(s) => Some(list_fields(s)),
            None => None::<Seq<FieldView>>,
        },
    decreases c.len(),
{
    lemma_index_sorted_unique(c);
    lemma_lookup_unique(c, i);
    if c.len() > 0 {
        let f = class_fields(c);
        let rest = c.drop_last();
        assert(f.drop_last() =~= class_fields(rest));
        assert(index_keys_sorted(rest));
        lemma_slot_list_read_back(rest, i);
        lemma_index_read_back(c.last().0);
        lemma_index_sorted_unique(rest);
        lemma_lookup_unique(rest, i);
        if c.last().0 == i {
            lemma_lookup_at(c, c.len() - 1);
        } else {
            if exists|j: int| 0 <= j < c.len() && c[j].0 == i {
                let j = choose|j: int| 0 <= j < c.len() && c[j].0 == i;
                assert(j < c.len() - 1);
                assert(rest[j] == c[j]);
                lemma_lookup_at(c, j);
                lemma_lookup_at(rest, j);
            } else {
                assert forall|j: int| 0 <= j < rest.len() implies (#[trigger] rest[j]).0 != i by {
                    assert(rest[j] == c[j]);
                }
            }
        }
    }
}

/// The table the written classes give for key `k` is the written table of the
/// class with that key.
proof fn lemma_class_table_read_back(m: StoreModel, k: Seq<char>)
    requires
        store_wf(m),
        lookup(m, "OPTION"@) is None,
    ensures
        class_table(m.map_values(|c: (Seq<char>, ClassModel)| class_field(c)), k) == match lookup(m, k) {
            Some(c) => Some(class_fields(c)),
            None => None::<Seq<FieldView>>,
        },
    decreases m.len(),
{
    lemma_text_sorted_unique(m);
    lemma_lookup_unique(m, k);
    lemma_lookup_unique(m, "OPTION"@);
    if m.len() > 0 {
        let f = m.map_values(|c: (Seq<char>, ClassModel)| class_field(c));
        let rest = m.drop_last();
        assert(f.drop_last() =~= rest.map_values(|c: (Seq<char>, ClassModel)| class_field(c)));
        assert(store_wf(rest)) by {
            assert forall|a: int, b: int| 0 <= a < b < rest.len() implies lex_lt(#[trigger] rest[a].0, #[trigger] rest[b].0) by {
                assert(rest[a] == m[a] && rest[b] == m[b]);
            }
            assert forall|x: int| 0 <= x < rest.len() implies index_keys_sorted(#[trigger] rest[x].1) by {
                assert(rest[x] == m[x]);
            }
        }
        lemma_text_sorted_unique(rest);
        lemma_lookup_unique(rest, k);
        lemma_lookup_unique(rest, "OPTION"@);
        assert(lookup(rest, "OPTION"@) is None) by {
            assert forall|j: int| 0 <= j < rest.len() implies (#[trigger] rest[j]).0 != "OPTION"@ by {
                assert(rest[j] == m[j]);
            }
        }
        lemma_class_table_read_back(rest, k);
        assert(m.last().0 != "OPTION"@);
        if m.last().0 == k {
            lemma_lookup_at(m, m.len() - 1);
        } else {
            if exists|j: int| 0 <= j < m.len() && m[j].0 == k {
                let j = choose|j: int| 0 <= j < m.len() && m[j].0 == k;
                assert(j < m.len() - 1);
                assert(rest[j] == m[j]);
                lemma_lookup_at(m, j);
                lemma_lookup_at(rest, j);
            } else {
                assert forall|j: int| 0 <= j < rest.len() implies (#[trigger] rest[j]).0 != k by {
                    assert(rest[j] == m[j]);
                }
            }
        }
    } else {
        assert(m.map_values(|c: (Seq<char>, ClassModel)| class_field(c)).len() == 0);
    }
}

/// Reading back the talent table a store is written as gives that store, when
/// no class is keyed by the options key: any canonical store the fields decode
/// to is the store itself.
pub proof fn lemma_decode_written_fields(m: StoreModel, r: StoreModel)
    requires
        store_wf(m),
        lookup(m, "OPTION"@) is None,
        store_wf(r),
        decodes_store(r, store_fields(m)),
    ensures
        r == m,
{
    let fs = store_fields(m);
    let cf = m.map_values(|c: (Seq<char>, ClassModel)| class_field(c));
    assert(fs.drop_last() =~= cf);
    lemma_text_sorted_unique(m);
    lemma_text_sorted_unique(r);
    assert forall|k: Seq<char>| #[trigger] lookup(r, k) == lookup(m, k) by {
        lemma_class_table_read_back(m, k);
        assert(class_table(fs, k) == class_table(cf, k));
        match lookup(m, k) {
            Some(c) => {
                lemma_lookup_unique(m, k);
                let j = choose|j: int| 0 <= j < m.len() && m[j].0 == k;
                lemma_lookup_at(m, j);
                assert(index_keys_sorted(c));
                assert(class_table(fs, k) == Some(class_fields(c)));
                let cm = lookup(r, k)->0;
                lemma_lookup_unique(r, k);
                let jr = choose|j: int| 0 <= j < r.len() && r[j].0 == k;
                lemma_lookup_at(r, jr);
                assert(index_keys_sorted(cm));
                assert forall|i: u8| #[trigger] lookup(cm, i) == lookup(c, i) by {
                    assert(decodes_class(cm, class_fields(c)));
                    assert(lookup(cm, i) == decode_slot(class_fields(c), i));
                    lemma_slot_list_read_back(c, i);
                    if let Some(s) = lookup(c, i) {
                        lemma_list_read_back(s);
                    }
                }
                let lt = |x: u8, y: u8| x < y;
                assert(sorted_by(cm, lt));
                assert(sorted_by(c, lt));
                lemma_sorted_lookup_eq(cm, c, lt);
            },
            None => {
                assert(class_table(fs, k) is None);
            },
        }
    }
    let lt = |x: Seq<char>, y: Seq<char>| lex_lt(x, y);
    lemma_lex_asymmetric();
    assert(sorted_by(r, lt));
    assert(sorted_by(m, lt));
    lemma_sorted_lookup_eq(r, m, lt);
}

/// Text `w` stands in `s` from position `p`.
pub open spec fn at(s: Seq<char>, p: int, w: Seq<char>) -> bool {
    0 <= p && p + w.len() <= s.len() && s.subrange(p, p + w.len()) == w
}

/// Position `q` holds no blank and starts no comment.
pub open spec fn no_ws_at(s: Seq<char>, q: int) -> bool {
    q < s.len() ==> !is_space(s[q]) && !(s[q] == '-' && q + 1 < s.len() && s[q + 1] == '-')
}

/// Where a concatenation stands, each part stands in turn.
proof fn lemma_at_split(s: Seq<char>, p: int, a: Seq<char>, b: Seq<char>)
    requires
        at(s, p, a + b),
    ensures
        at(s, p, a),
        at(s, p + a.len(), b),
{
    let w = a + b;
    assert forall|k: int| 0 <= k < w.len() implies s[p + k] == #[trigger] w[k] by {
        assert(s.subrange(p, p + w.len())[k] == s[p + k]);
    }
    assert forall|k: int| 0 <= k < a.len() implies #[trigger] s.subrange(p, p + a.len())[k] == a[k] by {
        assert(w[k] == a[k]);
    }
    assert(s.subrange(p, p + a.len()) =~= a);
    assert forall|k: int| 0 <= k < b.len() implies #[trigger] s.subrange(p + a.len(), p + a.len() + b.len())[k] == b[k] by {
        assert(w[a.len() + k] == b[k]);
    }
    assert(s.subrange(p + a.len(), p + a.len() + b.len()) =~= b);
}

/// The characters of text standing at a position.
proof fn lemma_at_index(s: Seq<char>, p: int, w: Seq<char>, i: int)
    requires
        at(s, p, w),
        0 <= i < w.len(),
    ensures
        s[p + i] == w[i],
{
    assert(s.subrange(p, p + w.len())[i] == s[p + i]);
}

/// Blanks followed by neither a blank nor a comment are skipped exactly.
proof fn lemma_skip_blanks(s: Seq<char>, p: int, q: int)
    requires
        0 <= p <= q <= s.len(),
        forall|k: int| p <= k < q ==> is_space(#[trigger] s[k]),
        no_ws_at(s, q),
    ensures
        skip_ws(s, p) == q,
    decreases q - p,
{
    if p < q {
        lemma_skip_blanks(s, p + 1, q);
    }
}

/// Escaping a concatenation escapes each part.
proof fn lemma_escaped_concat(a: Seq<char>, b: Seq<char>)
    ensures
        escaped(a + b) == escaped(a) + escaped(b),
    decreases b.len(),
{
    if b.len() == 0 {
        assert(a + b =~= a);
        assert(escaped(a) + escaped(b) =~= escaped(a));
    } else {
        assert((a + b).drop_last() =~= a + b.drop_last());
        assert((a + b).last() == b.last());
        lemma_escaped_concat(a, b.drop_last());
        assert(escaped(a) + escaped(b) =~= escaped(a) + escaped(b.drop_last()) + escape_char(b.last()));
    }
}

/// The body of a quoted string is read back as the characters written.
proof fn lemma_string_body(s: Seq<char>, p: int, x: Seq<char>, acc: Seq<char>)
    requires
        at(s, p, escaped(x) + seq!['"']),
    ensures
        string_body(s, p, '"', acc) == Some((acc + x, p + escaped(x).len() + 1)),
    decreases x.len(),
{
    if x.len() == 0 {
        assert(escaped(x) =~= Seq::<char>::empty());
        lemma_at_index(s, p, escaped(x) + seq!['"'], 0);
        assert(acc + x =~= acc);
    } else {
        let c = x[0];
        let rest = x.drop_first();
        assert(x =~= seq![c] + rest);
        lemma_escaped_concat(seq![c], rest);
        assert(seq![c].drop_last() =~= Seq::<char>::empty());
        assert(seq![c].last() == c);
        assert(escaped(Seq::<char>::empty()) =~= Seq::<char>::empty());
        assert(escaped(seq![c]) == escaped(seq![c].drop_last()) + escape_char(c));
        assert(escaped(seq![c]) =~= escape_char(c));
        let e = escape_char(c);
        assert(escaped(x) + seq!['"'] =~= e + (escaped(rest) + seq!['"']));
        lemma_at_split(s, p, e, escaped(rest) + seq!['"']);
        lemma_at_index(s, p, e, 0);
        if e.len() == 2 {
            lemma_at_index(s, p, e, 1);
        }
        lemma_string_body(s, p + e.len(), rest, acc.push(c));
        assert(acc.push(c) + rest =~= acc + x);
    }
}

/// A written string literal parses back as its characters.
proof fn lemma_read_string(s: Seq<char>, p: int, x: Seq<char>)
    requires
        at(s, p, quoted(x)),
    ensures
        parse_value(s, p) == Some((ValueView::Str(x), p + quoted(x).len())),
{
    reveal_with_fuel(parse_value, 1);
    reveal_with_fuel(parse_fields, 1);
    reveal_with_fuel(parse_field, 1);
    assert(quoted(x) =~= seq!['"'] + (escaped(x) + seq!['"']));
    lemma_at_split(s, p, seq!['"'], escaped(x) + seq!['"']);
    lemma_at_index(s, p, seq!['"'], 0);
    lemma_string_body(s, p + 1, x, Seq::empty());
    assert(Seq::<char>::empty() + x =~= x);
}

/// Digits followed by neither a digit nor a dot end exactly there.
proof fn lemma_digit_dot_end(s: Seq<char>, p: int, q: int)
    requires
        0 <= p <= q <= s.len(),
        forall|k: int| p <= k < q ==> is_digit(#[trigger] s[k]),
        q < s.len() ==> !is_digit(s[q]) && s[q] != '.',
    ensures
        digit_dot_end(s, p) == q,
    decreases q - p,
{
    if p < q {
        lemma_digit_dot_end(s, p + 1, q);
    }
}

/// Digits followed by neither a name character nor a dot form a whole numeral.
proof fn lemma_numeral_end(s: Seq<char>, d: int, q: int)
    requires
        0 <= d < q <= s.len(),
        forall|k: int| d <= k < q ==> is_digit(#[trigger] s[k]),
        q < s.len() ==> !is_name_char(s[q]) && s[q] != '.',
    ensures
        numeral_end(s, d) == q,
        numeral_starts(s, d),
{
    lemma_digit_dot_end(s, d, q);
    assert(is_digit(s[d]));
}

/// A written integer followed by a non-digit parses back as that literal.
proof fn lemma_read_number(s: Seq<char>, p: int, n: int)
    requires
        at(s, p, decimal(n)),
        p + decimal(n).len() < s.len() ==> !is_name_char(s[p + decimal(n).len()]) && s[p
            + decimal(n).len()] != '.',
    ensures
        parse_value(s, p) == Some((ValueView::Num(decimal(n)), p + decimal(n).len())),
{
    reveal_with_fuel(parse_value, 1);
    reveal_with_fuel(parse_fields, 1);
    reveal_with_fuel(parse_field, 1);
    let w = decimal(n);
    let q = p + w.len();
    if n < 0 {
        let m = (-n) as nat;
        lemma_digits_read_back(m);
        lemma_at_split(s, p, seq!['-'], digits(m));
        lemma_at_index(s, p, seq!['-'], 0);
        assert forall|k: int| p + 1 <= k < q implies is_digit(#[trigger] s[k]) by {
            lemma_at_index(s, p + 1, digits(m), k - p - 1);
            assert(digit_value(digits(m)[k - p - 1]) is Some);
        }
        lemma_numeral_end(s, p + 1, q);
        assert(s.subrange(p, q) == w);
    } else {
        lemma_digits_read_back(n as nat);
        lemma_at_index(s, p, w, 0);
        assert(digit_value(w[0]) is Some);
        assert forall|k: int| p <= k < q implies is_digit(#[trigger] s[k]) by {
            lemma_at_index(s, p, w, k - p);
            assert(digit_value(w[k - p]) is Some);
        }
        lemma_numeral_end(s, p, q);
    }
}

/// `[key] = value`, as written.
pub open spec fn kv_text(kt: Seq<char>, vt: Seq<char>) -> Seq<char> {
    seq!['['] + kt + seq![']', ' ', '=', ' '] + vt
}

/// A keyed field, from where its parts stand.
#[verifier::rlimit(100)]
proof fn lemma_keyed_field_at(s: Seq<char>, p: int, e1: int, d: int, k: ValueView, v: ValueView, e2: int)
    requires
        0 <= p,
        p + 1 <= e1,
        e1 + 3 < d <= s.len(),
        s[p] == '[',
        long_open(s, p) is None,
        skip_ws(s, p + 1) == p + 1,
        parse_value(s, p + 1) == Some((k, e1)),
        skip_ws(s, e1) == e1,
        s[e1] == ']',
        skip_ws(s, e1 + 1) == e1 + 2,
        s[e1 + 2] == '=',
        skip_ws(s, e1 + 3) == d,
        parse_value(s, d) == Some((v, e2)),
    ensures
        parse_field(s, p) == Some((FieldView::Keyed(k, v), e2)),
{
    reveal_with_fuel(parse_value, 1);
    reveal_with_fuel(parse_fields, 1);
    reveal_with_fuel(parse_field, 1);
}

/// A table value, from its fields.
proof fn lemma_table_value_at(s: Seq<char>, p: int, fs: Seq<FieldView>, e: int)
    requires
        0 <= p < s.len(),
        s[p] == '{',
        parse_fields(s, p + 1, Seq::empty()) == Some((fs, e)),
    ensures
        parse_value(s, p) == Some((ValueView::Table(fs), e)),
{
    reveal_with_fuel(parse_value, 1);
    reveal_with_fuel(parse_fields, 1);
    reveal_with_fuel(parse_field, 1);
}

/// A bare table field, from its value.
proof fn lemma_positional_at(s: Seq<char>, p: int, v: ValueView, e: int)
    requires
        0 <= p < s.len(),
        s[p] == '{',
        parse_value(s, p) == Some((v, e)),
    ensures
        parse_field(s, p) == Some((FieldView::Positional(v), e)),
{
    reveal_with_fuel(parse_value, 1);
    reveal_with_fuel(parse_fields, 1);
    reveal_with_fuel(parse_field, 1);
}

/// A word value, from the word.
proof fn lemma_word_value_at(s: Seq<char>, p: int)
    requires
        0 <= p < s.len(),
        s[p] == 'f',
    ensures
        parse_value(s, p) == parse_word(s, p),
{
    reveal_with_fuel(parse_value, 1);
    reveal_with_fuel(parse_fields, 1);
    reveal_with_fuel(parse_field, 1);
}

/// A written `[key] = value` field parses back from its parts.
proof fn lemma_keyed_field(s: Seq<char>, p: int, kt: Seq<char>, k: ValueView, vt: Seq<char>, v: ValueView)
    requires
        at(s, p, kv_text(kt, vt)),
        no_ws_at(s, p + 1),
        p + 1 < s.len() ==> s[p + 1] != '[' && s[p + 1] != '=',
        parse_value(s, p + 1) == Some((k, p + 1 + kt.len())),
        no_ws_at(s, p + 1 + kt.len() + 4),
        parse_value(s, p + 1 + kt.len() + 4) == Some((v, p + 1 + kt.len() + 4 + vt.len())),
    ensures
        parse_field(s, p) == Some((FieldView::Keyed(k, v), p + kv_text(kt, vt).len())),
{
    let w = kv_text(kt, vt);
    let e1 = p + 1 + kt.len();
    lemma_at_index(s, p, w, 0);
    let kl = kt.len() as int;
    lemma_at_index(s, p, w, 1 + kl);
    lemma_at_index(s, p, w, 2 + kl);
    lemma_at_index(s, p, w, 3 + kl);
    lemma_at_index(s, p, w, 4 + kl);
    assert(eq_run_end(s, p + 1) == p + 1);
    assert(long_open(s, p) is None);
    lemma_skip_blanks(s, p + 1, p + 1);
    lemma_skip_blanks(s, e1, e1);
    lemma_skip_blanks(s, e1 + 1, e1 + 2);
    lemma_skip_blanks(s, e1 + 3, e1 + 4);
    lemma_keyed_field_at(s, p, e1, e1 + 4, k, v, p + w.len());
}

/// The fields of a table continue after a field and its comma.
proof fn lemma_fields_next(s: Seq<char>, p: int, q: int, acc: Seq<FieldView>, f: FieldView, e: int, r: int)
    requires
        0 <= p <= q < s.len(),
        skip_ws(s, p) == q,
        s[q] != '}',
        parse_field(s, q) == Some((f, e)),
        q < e <= r < s.len(),
        skip_ws(s, e) == r,
        s[r] == ',',
    ensures
        parse_fields(s, p, acc) == parse_fields(s, r + 1, acc.push(f)),
{
    reveal_with_fuel(parse_value, 1);
    reveal_with_fuel(parse_fields, 1);
    reveal_with_fuel(parse_field, 1);
}

/// The fields of a table end after a last field without a comma.
proof fn lemma_fields_last(s: Seq<char>, p: int, q: int, acc: Seq<FieldView>, f: FieldView, e: int, r: int)
    requires
        0 <= p <= q < s.len(),
        skip_ws(s, p) == q,
        s[q] != '}',
        parse_field(s, q) == Some((f, e)),
        0 <= r < s.len(),
        skip_ws(s, e) == r,
        s[r] == '}',
    ensures
        parse_fields(s, p, acc) == Some((acc.push(f), r + 1)),
{
    reveal_with_fuel(parse_value, 1);
    reveal_with_fuel(parse_fields, 1);
    reveal_with_fuel(parse_field, 1);
}

/// The fields of a table end at the closing brace.
proof fn lemma_fields_close(s: Seq<char>, p: int, q: int, acc: Seq<FieldView>)
    requires
        0 <= p <= q < s.len(),
        skip_ws(s, p) == q,
        s[q] == '}',
    ensures
        parse_fields(s, p, acc) == Some((acc, q + 1)),
{
    reveal_with_fuel(parse_value, 1);
    reveal_with_fuel(parse_fields, 1);
    reveal_with_fuel(parse_field, 1);
}

/// Text without backslashes, quotes or line breaks is written unescaped.
proof fn lemma_escaped_plain(x: Seq<char>)
    requires
        forall|k: int| 0 <= k < x.len() ==> #[trigger] x[k] != '\\' && x[k] != '"' && x[k] != '\n' && x[k] != '\r',
    ensures
        escaped(x) == x,
    decreases x.len(),
{
    if x.len() > 0 {
        lemma_escaped_plain(x.drop_last());
        assert(x =~= x.drop_last().push(x.last()));
        assert(x.drop_last() + escape_char(x.last()) =~= x);
    }
}

/// A loadout's table, as written.
pub open spec fn entry_table_text(e: LoadoutView) -> Seq<char> {
    seq!['{', ' '] + kv_text(quoted("icon"@), decimal(e.icon as int)) + seq![',', ' '] + kv_text(
        quoted("name"@),
        quoted(e.name),
    ) + seq![',', ' '] + kv_text(quoted("text"@), quoted(e.text)) + seq![' ', '}']
}

/// The field keys as written.
proof fn lemma_key_names()
    ensures
        quoted("icon"@) == seq!['"', 'i', 'c', 'o', 'n', '"'],
        quoted("name"@) == seq!['"', 'n', 'a', 'm', 'e', '"'],
        quoted("text"@) == seq!['"', 't', 'e', 'x', 't', '"'],
        quoted("OPTION"@) == seq!['"', 'O', 'P', 'T', 'I', 'O', 'N', '"'],
        quoted("IsEnabledPvp"@) == seq!['"', 'I', 's', 'E', 'n', 'a', 'b', 'l', 'e', 'd', 'P', 'v', 'p', '"'],
{
    reveal_strlit("icon");
    reveal_strlit("name");
    reveal_strlit("text");
    reveal_strlit("OPTION");
    reveal_strlit("IsEnabledPvp");
    lemma_escaped_plain("icon"@);
    lemma_escaped_plain("name"@);
    lemma_escaped_plain("text"@);
    lemma_escaped_plain("OPTION"@);
    lemma_escaped_plain("IsEnabledPvp"@);
    assert(quoted("icon"@) =~= seq!['"', 'i', 'c', 'o', 'n', '"']);
    assert(quoted("name"@) =~= seq!['"', 'n', 'a', 'm', 'e', '"']);
    assert(quoted("text"@) =~= seq!['"', 't', 'e', 'x', 't', '"']);
    assert(quoted("OPTION"@) =~= seq!['"', 'O', 'P', 'T', 'I', 'O', 'N', '"']);
    assert(quoted("IsEnabledPvp"@) =~= seq!['"', 'I', 's', 'E', 'n', 'a', 'b', 'l', 'e', 'd', 'P', 'v', 'p', '"']);
}

/// Where the key and the value of a written field stand.
proof fn lemma_kv_parts(s: Seq<char>, p: int, kt: Seq<char>, vt: Seq<char>)
    requires
        at(s, p, kv_text(kt, vt)),
    ensures
        s[p] == '[',
        at(s, p + 1, kt),
        at(s, p + 1 + kt.len() + 4, vt),
{
    let a = seq!['['];
    let b = seq![']', ' ', '=', ' '];
    lemma_at_split(s, p, a + kt + b, vt);
    lemma_at_split(s, p, a + kt, b);
    lemma_at_split(s, p, a, kt);
    lemma_at_index(s, p, a, 0);
}

/// A written field with a string key and a string value parses back.
#[verifier::rlimit(100)]
proof fn lemma_string_field(s: Seq<char>, p: int, key: Seq<char>, val: Seq<char>)
    requires
        at(s, p, kv_text(quoted(key), quoted(val))),
    ensures
        parse_field(s, p) == Some((
            FieldView::Keyed(ValueView::Str(key), ValueView::Str(val)),
            p + kv_text(quoted(key), quoted(val)).len(),
        )),
{
    let kt = quoted(key);
    let vt = quoted(val);
    lemma_kv_parts(s, p, kt, vt);
    lemma_read_string(s, p + 1, key);
    lemma_read_string(s, p + 1 + kt.len() + 4, val);
    lemma_at_index(s, p + 1, kt, 0);
    lemma_at_index(s, p + 1 + kt.len() + 4, vt, 0);
    lemma_keyed_field(s, p, kt, ValueView::Str(key), vt, ValueView::Str(val));
}

/// A written field with a string key and an integer value parses back.
#[verifier::rlimit(100)]
proof fn lemma_number_field(s: Seq<char>, p: int, key: Seq<char>, n: int)
    requires
        at(s, p, kv_text(quoted(key), decimal(n))),
        p + kv_text(quoted(key), decimal(n)).len() < s.len() ==> !is_name_char(
            s[p + kv_text(quoted(key), decimal(n)).len()],
        ) && s[p + kv_text(quoted(key), decimal(n)).len()] != '.',
    ensures
        parse_field(s, p) == Some((
            FieldView::Keyed(ValueView::Str(key), ValueView::Num(decimal(n))),
            p + kv_text(quoted(key), decimal(n)).len(),
        )),
{
    let kt = quoted(key);
    let vt = decimal(n);
    let v0 = p + 1 + kt.len() + 4;
    lemma_kv_parts(s, p, kt, vt);
    lemma_read_string(s, p + 1, key);
    lemma_read_number(s, v0, n);
    lemma_at_index(s, p + 1, kt, 0);
    lemma_at_index(s, v0, vt, 0);
    if n < 0 {
        lemma_digits_read_back((-n) as nat);
        assert(vt == seq!['-'] + digits((-n) as nat));
        lemma_at_index(s, v0, vt, 1);
        assert(vt[1] == digits((-n) as nat)[0]);
        assert(digit_value(vt[1]) is Some);
    } else {
        lemma_digits_read_back(n as nat);
        assert(digit_value(vt[0]) is Some);
    }
    lemma_keyed_field(s, p, kt, ValueView::Str(key), vt, ValueView::Num(vt));
}

/// A written loadout table parses back as the loadout's fields.
#[verifier::rlimit(100)]
proof fn lemma_read_entry_table(s: Seq<char>, p: int, e: LoadoutView)
    requires
        at(s, p, entry_table_text(e)),
    ensures
        parse_value(s, p) == Some((ValueView::Table(entry_fields(e)), p + entry_table_text(e).len())),
{
    let a = seq!['{', ' '];
    let sep = seq![',', ' '];
    let c = seq![' ', '}'];
    let k1 = kv_text(quoted("icon"@), decimal(e.icon as int));
    let k2 = kv_text(quoted("name"@), quoted(e.name));
    let k3 = kv_text(quoted("text"@), quoted(e.text));
    lemma_at_split(s, p, a + k1 + sep + k2 + sep + k3, c);
    lemma_at_split(s, p, a + k1 + sep + k2 + sep, k3);
    lemma_at_split(s, p, a + k1 + sep + k2, sep);
    lemma_at_split(s, p, a + k1 + sep, k2);
    lemma_at_split(s, p, a + k1, sep);
    lemma_at_split(s, p, a, k1);
    let f1 = p + 2;
    let e1 = f1 + k1.len();
    let f2 = e1 + 2;
    let e2 = f2 + k2.len();
    let f3 = e2 + 2;
    let e3 = f3 + k3.len();
    lemma_at_index(s, p, a, 0);
    lemma_at_index(s, p, a, 1);
    lemma_at_index(s, e1, sep, 0);
    lemma_at_index(s, e1, sep, 1);
    lemma_at_index(s, e2, sep, 0);
    lemma_at_index(s, e2, sep, 1);
    lemma_at_index(s, e3, c, 0);
    lemma_at_index(s, e3, c, 1);
    lemma_kv_parts(s, f1, quoted("icon"@), decimal(e.icon as int));
    lemma_kv_parts(s, f2, quoted("name"@), quoted(e.name));
    lemma_kv_parts(s, f3, quoted("text"@), quoted(e.text));
    lemma_number_field(s, f1, "icon"@, e.icon as int);
    lemma_string_field(s, f2, "name"@, e.name);
    lemma_string_field(s, f3, "text"@, e.text);
    lemma_skip_blanks(s, p + 1, f1);
    lemma_skip_blanks(s, e1, e1);
    lemma_skip_blanks(s, e1 + 1, f2);
    lemma_skip_blanks(s, e2, e2);
    lemma_skip_blanks(s, e2 + 1, f3);
    lemma_skip_blanks(s, e3, e3 + 1);
    let fv1 = FieldView::Keyed(ValueView::Str("icon"@), ValueView::Num(decimal(e.icon as int)));
    let fv2 = FieldView::Keyed(ValueView::Str("name"@), ValueView::Str(e.name));
    let fv3 = FieldView::Keyed(ValueView::Str("text"@), ValueView::Str(e.text));
    let empty = Seq::<FieldView>::empty();
    lemma_fields_next(s, p + 1, f1, empty, fv1, e1, e1);
    lemma_fields_next(s, e1 + 1, f2, empty.push(fv1), fv2, e2, e2);
    lemma_fields_last(s, e2 + 1, f3, empty.push(fv1).push(fv2), fv3, e3, e3 + 1);
    assert(empty.push(fv1).push(fv2).push(fv3) =~= entry_fields(e));
    lemma_table_value_at(s, p, entry_fields(e), e3 + 2);
}

/// Every character is blank.
pub open spec fn all_blank(w: Seq<char>) -> bool {
    forall|k: int| 0 <= k < w.len() ==> is_space(#[trigger] w[k])
}

/// `n` spaces.
pub open spec fn spaces(n: nat) -> Seq<char> {
    Seq::new(n, |i: int| ' ')
}

/// A list's lines start with its first loadout's line.
proof fn lemma_entries_front(l: Seq<LoadoutView>)
    requires
        l.len() > 0,
    ensures
        entries_text(l) == entry_text(l[0]) + entries_text(l.drop_first()),
    decreases l.len(),
{
    if l.len() == 1 {
        assert(l.drop_last() =~= Seq::<LoadoutView>::empty());
        assert(l.drop_first() =~= Seq::<LoadoutView>::empty());
        assert(entries_text(l) =~= entry_text(l[0]) + entries_text(l.drop_first()));
    } else {
        lemma_entries_front(l.drop_last());
        assert(l.drop_last().drop_first() =~= l.drop_first().drop_last());
        assert(l.drop_first().last() == l.last());
        assert(entries_text(l) =~= entry_text(l[0]) + entries_text(l.drop_first()));
    }
}

/// A class's blocks start with its first slot's block.
proof fn lemma_slots_front(c: ClassModel)
    requires
        c.len() > 0,
    ensures
        slots_text(c) == slot_text(c[0]) + slots_text(c.drop_first()),
    decreases c.len(),
{
    if c.len() == 1 {
        assert(c.drop_last() =~= Seq::<(u8, Seq<LoadoutView>)>::empty());
        assert(c.drop_first() =~= Seq::<(u8, Seq<LoadoutView>)>::empty());
        assert(slots_text(c) =~= slot_text(c[0]) + slots_text(c.drop_first()));
    } else {
        lemma_slots_front(c.drop_last());
        assert(c.drop_last().drop_first() =~= c.drop_first().drop_last());
        assert(c.drop_first().last() == c.last());
        assert(slots_text(c) =~= slot_text(c[0]) + slots_text(c.drop_first()));
    }
}

/// A store's blocks start with its first class's block.
proof fn lemma_classes_front(m: StoreModel)
    requires
        m.len() > 0,
    ensures
        classes_text(m) == class_text(m[0]) + classes_text(m.drop_first()),
    decreases m.len(),
{
    if m.len() == 1 {
        assert(m.drop_last() =~= Seq::<(Seq<char>, ClassModel)>::empty());
        assert(m.drop_first() =~= Seq::<(Seq<char>, ClassModel)>::empty());
        assert(classes_text(m) =~= class_text(m[0]) + classes_text(m.drop_first()));
    } else {
        lemma_classes_front(m.drop_last());
        assert(m.drop_last().drop_first() =~= m.drop_first().drop_last());
        assert(m.drop_first().last() == m.last());
        assert(classes_text(m) =~= class_text(m[0]) + classes_text(m.drop_first()));
    }
}

/// A loadout's line is its table between indentation and a comma.
proof fn lemma_entry_text_shape(e: LoadoutView)
    ensures
        entry_text(e) == spaces(6) + entry_table_text(e) + seq![',', '\n'],
{
    lemma_key_names();
    reveal_strlit("      { [\"icon\"] = ");
    reveal_strlit(", [\"name\"] = ");
    reveal_strlit(", [\"text\"] = ");
    reveal_strlit(" },\n");
    assert(entry_text(e) =~= spaces(6) + entry_table_text(e) + seq![',', '\n']);
}

/// Blanks, then an indented closing brace, end a table's fields.
proof fn lemma_blank_close(s: Seq<char>, p: int, pre: Seq<char>, acc: Seq<FieldView>)
    requires
        all_blank(pre),
        at(s, p, pre + seq!['}']),
    ensures
        parse_fields(s, p, acc) == Some((acc, p + pre.len() + 1)),
{
    let w = pre + seq!['}'];
    let q = p + pre.len();
    assert forall|k: int| p <= k < q implies is_space(#[trigger] s[k]) by {
        lemma_at_index(s, p, w, k - p);
    }
    lemma_at_index(s, p, w, pre.len() as int);
    lemma_skip_blanks(s, p, q);
    lemma_fields_close(s, p, q, acc);
}

/// Blanks, then a field, then a comma, continue a table's fields.
proof fn lemma_blank_field_comma(
    s: Seq<char>,
    p: int,
    pre: Seq<char>,
    ft: Seq<char>,
    f: FieldView,
    after: Seq<char>,
    acc: Seq<FieldView>,
)
    requires
        all_blank(pre),
        ft.len() > 0,
        at(s, p, pre + ft + (seq![','] + after)),
        no_ws_at(s, p + pre.len()),
        s[p + pre.len()] != '}',
        parse_field(s, p + pre.len()) == Some((f, p + pre.len() + ft.len())),
    ensures
        parse_fields(s, p, acc) == parse_fields(s, p + pre.len() + ft.len() + 1, acc.push(f)),
        at(s, p + pre.len() + ft.len() + 1, after),
{
    let q = p + pre.len();
    let en = q + ft.len();
    lemma_at_split(s, p, pre + ft, seq![','] + after);
    lemma_at_split(s, p, pre, ft);
    lemma_at_split(s, en, seq![','], after);
    assert forall|k: int| p <= k < q implies is_space(#[trigger] s[k]) by {
        lemma_at_index(s, p, pre, k - p);
    }
    lemma_skip_blanks(s, p, q);
    lemma_at_index(s, en, seq![','], 0);
    lemma_skip_blanks(s, en, en);
    lemma_fields_next(s, p, q, acc, f, en, en);
}

/// The loadout lines of a list, then the list's closing brace, read back as
/// the list's fields.
#[verifier::rlimit(50)]
proof fn lemma_read_list(s: Seq<char>, p: int, pre: Seq<char>, l: Seq<LoadoutView>, acc: Seq<FieldView>)
    requires
        all_blank(pre),
        at(s, p, pre + entries_text(l) + spaces(4) + seq!['}']),
    ensures
        parse_fields(s, p, acc) == Some((acc + list_fields(l), p + (pre + entries_text(l) + spaces(4) + seq!['}']).len())),
    decreases l.len(),
{
    if l.len() == 0 {
        assert(entries_text(l) =~= Seq::<char>::empty());
        assert(pre + entries_text(l) + spaces(4) + seq!['}'] =~= (pre + spaces(4)) + seq!['}']);
        assert(all_blank(pre + spaces(4)));
        lemma_blank_close(s, p, pre + spaces(4), acc);
        assert(list_fields(l) =~= Seq::<FieldView>::empty());
        assert(acc + list_fields(l) =~= acc);
    } else {
        let e = l[0];
        let rest = l.drop_first();
        lemma_entries_front(l);
        lemma_entry_text_shape(e);
        let t = entry_table_text(e);
        let pre2 = pre + spaces(6);
        let after = seq!['\n'] + entries_text(rest) + spaces(4) + seq!['}'];
        assert(pre + entries_text(l) + spaces(4) + seq!['}'] =~= pre2 + t + (seq![','] + after));
        assert(all_blank(pre2));
        let q = p + pre2.len();
        lemma_at_split(s, p, pre2 + t, seq![','] + after);
        lemma_at_split(s, p, pre2, t);
        lemma_at_index(s, q, t, 0);
        lemma_read_entry_table(s, q, e);
        lemma_positional_at(s, q, ValueView::Table(entry_fields(e)), q + t.len());
        let f = entry_field(e);
        lemma_blank_field_comma(s, p, pre2, t, f, after, acc);
        assert(all_blank(seq!['\n']));
        lemma_read_list(s, q + t.len() + 1, seq!['\n'], rest, acc.push(f));
        assert(list_fields(l) =~= seq![f] + list_fields(rest));
        assert(acc.push(f) + list_fields(rest) =~= acc + list_fields(l));
    }
}

/// A slot's block is its key and table between indentation and a comma.
proof fn lemma_slot_text_shape(sl: (u8, Seq<LoadoutView>))
    ensures
        slot_text(sl) == spaces(4) + kv_text(
            decimal(sl.0 as int),
            seq!['{', '\n'] + entries_text(sl.1) + spaces(4) + seq!['}'],
        ) + seq![',', '\n'],
{
    reveal_strlit("    [");
    reveal_strlit("] = {\n");
    reveal_strlit("    },\n");
    assert(slot_text(sl) =~= spaces(4) + kv_text(
        decimal(sl.0 as int),
        seq!['{', '\n'] + entries_text(sl.1) + spaces(4) + seq!['}'],
    ) + seq![',', '\n']);
}

/// A class's block is its key and table between indentation and a comma.
proof fn lemma_class_text_shape(c: (Seq<char>, ClassModel))
    ensures
        class_text(c) == spaces(2) + kv_text(
            quoted(c.0),
            seq!['{', '\n'] + slots_text(c.1) + spaces(2) + seq!['}'],
        ) + seq![',', '\n'],
{
    reveal_strlit("  [");
    reveal_strlit("] = {\n");
    reveal_strlit("  },\n");
    assert(class_text(c) =~= spaces(2) + kv_text(
        quoted(c.0),
        seq!['{', '\n'] + slots_text(c.1) + spaces(2) + seq!['}'],
    ) + seq![',', '\n']);
}

/// A slot's field parses back.
#[verifier::rlimit(100)]
proof fn lemma_read_slot_field(s: Seq<char>, p: int, sl: (u8, Seq<LoadoutView>))
    requires
        at(s, p, kv_text(decimal(sl.0 as int), seq!['{', '\n'] + entries_text(sl.1) + spaces(4) + seq!['}'])),
    ensures
        parse_field(s, p) == Some((
            slot_field(sl),
            p + kv_text(decimal(sl.0 as int), seq!['{', '\n'] + entries_text(sl.1) + spaces(4) + seq!['}']).len(),
        )),
{
    let kt = decimal(sl.0 as int);
    let vt = seq!['{', '\n'] + entries_text(sl.1) + spaces(4) + seq!['}'];
    let v0 = p + 1 + kt.len() + 4;
    lemma_kv_parts(s, p, kt, vt);
    lemma_at_index(s, p, kv_text(kt, vt), 1 + kt.len() as int);
    assert(s[p + 1 + kt.len()] == ']');
    lemma_read_number(s, p + 1, sl.0 as int);
    lemma_digits_read_back(sl.0 as nat);
    lemma_at_index(s, p + 1, kt, 0);
    assert(digit_value(kt[0]) is Some);
    assert(vt =~= seq!['{'] + (seq!['\n'] + entries_text(sl.1) + spaces(4) + seq!['}']));
    lemma_at_split(s, v0, seq!['{'], seq!['\n'] + entries_text(sl.1) + spaces(4) + seq!['}']);
    lemma_at_index(s, v0, seq!['{'], 0);
    assert(all_blank(seq!['\n']));
    lemma_read_list(s, v0 + 1, seq!['\n'], sl.1, Seq::empty());
    assert(Seq::<FieldView>::empty() + list_fields(sl.1) =~= list_fields(sl.1));
    lemma_table_value_at(s, v0, list_fields(sl.1), v0 + vt.len());
    lemma_keyed_field(s, p, kt, ValueView::Num(kt), vt, ValueView::Table(list_fields(sl.1)));
}

/// The slot blocks of a class, then the class's closing brace, read back as
/// the class's fields.
#[verifier::rlimit(50)]
proof fn lemma_read_slots(s: Seq<char>, p: int, pre: Seq<char>, c: ClassModel, acc: Seq<FieldView>)
    requires
        all_blank(pre),
        at(s, p, pre + slots_text(c) + spaces(2) + seq!['}']),
    ensures
        parse_fields(s, p, acc) == Some((acc + class_fields(c), p + (pre + slots_text(c) + spaces(2) + seq!['}']).len())),
    decreases c.len(),
{
    if c.len() == 0 {
        assert(slots_text(c) =~= Seq::<char>::empty());
        assert(pre + slots_text(c) + spaces(2) + seq!['}'] =~= (pre + spaces(2)) + seq!['}']);
        assert(all_blank(pre + spaces(2)));
        lemma_blank_close(s, p, pre + spaces(2), acc);
        assert(class_fields(c) =~= Seq::<FieldView>::empty());
        assert(acc + class_fields(c) =~= acc);
    } else {
        let sl = c[0];
        let rest = c.drop_first();
        lemma_slots_front(c);
        lemma_slot_text_shape(sl);
        let t = kv_text(decimal(sl.0 as int), seq!['{', '\n'] + entries_text(sl.1) + spaces(4) + seq!['}']);
        let pre2 = pre + spaces(4);
        let after = seq!['\n'] + slots_text(rest) + spaces(2) + seq!['}'];
        assert(pre + slots_text(c) + spaces(2) + seq!['}'] =~= pre2 + t + (seq![','] + after));
        assert(all_blank(pre2));
        let q = p + pre2.len();
        lemma_at_split(s, p, pre2 + t, seq![','] + after);
        lemma_at_split(s, p, pre2, t);
        lemma_at_index(s, q, t, 0);
        lemma_read_slot_field(s, q, sl);
        let f = slot_field(sl);
        lemma_blank_field_comma(s, p, pre2, t, f, after, acc);
        assert(all_blank(seq!['\n']));
        lemma_read_slots(s, q + t.len() + 1, seq!['\n'], rest, acc.push(f));
        assert(class_fields(c) =~= seq![f] + class_fields(rest));
        assert(acc.push(f) + class_fields(rest) =~= acc + class_fields(c));
    }
}

/// A class's field parses back.
#[verifier::rlimit(100)]
proof fn lemma_read_class_field(s: Seq<char>, p: int, c: (Seq<char>, ClassModel))
    requires
        at(s, p, kv_text(quoted(c.0), seq!['{', '\n'] + slots_text(c.1) + spaces(2) + seq!['}'])),
    ensures
        parse_field(s, p) == Some((
            class_field(c),
            p + kv_text(quoted(c.0), seq!['{', '\n'] + slots_text(c.1) + spaces(2) + seq!['}']).len(),
        )),
{
    let kt = quoted(c.0);
    let vt = seq!['{', '\n'] + slots_text(c.1) + spaces(2) + seq!['}'];
    let v0 = p + 1 + kt.len() + 4;
    lemma_kv_parts(s, p, kt, vt);
    lemma_read_string(s, p + 1, c.0);
    lemma_at_index(s, p + 1, kt, 0);
    assert(vt =~= seq!['{'] + (seq!['\n'] + slots_text(c.1) + spaces(2) + seq!['}']));
    lemma_at_split(s, v0, seq!['{'], seq!['\n'] + slots_text(c.1) + spaces(2) + seq!['}']);
    lemma_at_index(s, v0, seq!['{'], 0);
    assert(all_blank(seq!['\n']));
    lemma_read_slots(s, v0 + 1, seq!['\n'], c.1, Seq::empty());
    assert(Seq::<FieldView>::empty() + class_fields(c.1) =~= class_fields(c.1));
    lemma_table_value_at(s, v0, class_fields(c.1), v0 + vt.len());
    lemma_keyed_field(s, p, kt, ValueView::Str(c.0), vt, ValueView::Table(class_fields(c.1)));
}

/// Name characters followed by another character end exactly there.
proof fn lemma_name_end(s: Seq<char>, p: int, q: int)
    requires
        0 <= p <= q <= s.len(),
        forall|k: int| p <= k < q ==> is_name_char(#[trigger] s[k]),
        q < s.len() ==> !is_name_char(s[q]),
    ensures
        name_end(s, p) == q,
    decreases q - p,
{
    if p < q {
        lemma_name_end(s, p + 1, q);
    }
}

/// The options table, as written.
pub open spec fn option_table_text() -> Seq<char> {
    seq!['{', ' '] + kv_text(quoted("IsEnabledPvp"@), seq!['f', 'a', 'l', 's', 'e']) + seq![' ', '}']
}

/// The options block is its key and table between indentation and a comma.
proof fn lemma_option_text_shape()
    ensures
        option_text() == spaces(2) + kv_text(quoted("OPTION"@), option_table_text()) + seq![',', '\n'],
{
    lemma_key_names();
    reveal_strlit("  [\"OPTION\"] = { [\"IsEnabledPvp\"] = false },\n");
    assert(option_text() =~= spaces(2) + kv_text(quoted("OPTION"@), option_table_text()) + seq![',', '\n']);
}

/// The options field parses back.
#[verifier::rlimit(100)]
proof fn lemma_read_option_field(s: Seq<char>, p: int)
    requires
        at(s, p, kv_text(quoted("OPTION"@), option_table_text())),
    ensures
        parse_field(s, p) == Some((option_field(), p + kv_text(quoted("OPTION"@), option_table_text()).len())),
{
    lemma_key_names();
    let kt = quoted("OPTION"@);
    let vt = option_table_text();
    let v0 = p + 1 + kt.len() + 4;
    lemma_kv_parts(s, p, kt, vt);
    lemma_read_string(s, p + 1, "OPTION"@);
    lemma_at_index(s, p + 1, kt, 0);
    let fw = seq!['f', 'a', 'l', 's', 'e'];
    let inner = kv_text(quoted("IsEnabledPvp"@), fw);
    lemma_at_split(s, v0, seq!['{', ' '] + inner, seq![' ', '}']);
    lemma_at_split(s, v0, seq!['{', ' '], inner);
    lemma_at_index(s, v0, seq!['{', ' '], 0);
    lemma_at_index(s, v0, seq!['{', ' '], 1);
    let f0 = v0 + 2;
    let ik = quoted("IsEnabledPvp"@);
    lemma_kv_parts(s, f0, ik, fw);
    lemma_read_string(s, f0 + 1, "IsEnabledPvp"@);
    lemma_at_index(s, f0 + 1, ik, 0);
    let w0 = f0 + 1 + ik.len() + 4;
    let e0 = w0 + 5;
    assert forall|k: int| w0 <= k < e0 implies is_name_char(#[trigger] s[k]) by {
        lemma_at_index(s, w0, fw, k - w0);
    }
    lemma_at_index(s, v0 + 2 + inner.len(), seq![' ', '}'], 0);
    lemma_at_index(s, v0 + 2 + inner.len(), seq![' ', '}'], 1);
    lemma_name_end(s, w0, e0);
    reveal_strlit("true");
    reveal_strlit("false");
    assert(s.subrange(w0, e0) =~= fw);
    assert(fw =~= "false"@);
    assert(parse_word(s, w0) == Some((ValueView::Bool(false), e0)));
    lemma_at_index(s, w0, fw, 0);
    lemma_word_value_at(s, w0);
    lemma_at_index(s, w0, fw, 0);
    lemma_keyed_field(s, f0, ik, ValueView::Str("IsEnabledPvp"@), fw, ValueView::Bool(false));
    let ff = FieldView::Keyed(ValueView::Str("IsEnabledPvp"@), ValueView::Bool(false));
    lemma_skip_blanks(s, v0 + 1, f0);
    lemma_skip_blanks(s, e0, e0 + 1);
    lemma_fields_last(s, v0 + 1, f0, Seq::empty(), ff, e0, e0 + 1);
    assert(Seq::<FieldView>::empty().push(ff) =~= seq![ff]);
    lemma_table_value_at(s, v0, seq![ff], v0 + vt.len());
    lemma_keyed_field(s, p, kt, ValueView::Str("OPTION"@), vt, ValueView::Table(seq![ff]));
}

/// The class blocks of a store, the options block and the closing brace read
/// back as the talent table's fields.
#[verifier::rlimit(50)]
proof fn lemma_read_classes(s: Seq<char>, p: int, pre: Seq<char>, m: StoreModel, acc: Seq<FieldView>)
    requires
        all_blank(pre),
        at(s, p, pre + classes_text(m) + option_text() + seq!['}']),
    ensures
        parse_fields(s, p, acc) == Some((
            acc + m.map_values(|c: (Seq<char>, ClassModel)| class_field(c)).push(option_field()),
            p + (pre + classes_text(m) + option_text() + seq!['}']).len(),
        )),
    decreases m.len(),
{
    let cf = m.map_values(|c: (Seq<char>, ClassModel)| class_field(c));
    if m.len() == 0 {
        assert(classes_text(m) =~= Seq::<char>::empty());
        lemma_option_text_shape();
        let t = kv_text(quoted("OPTION"@), option_table_text());
        let pre2 = pre + spaces(2);
        let after = seq!['\n', '}'];
        assert(pre + classes_text(m) + option_text() + seq!['}'] =~= pre2 + t + (seq![','] + after));
        assert(all_blank(pre2));
        let q = p + pre2.len();
        lemma_at_split(s, p, pre2 + t, seq![','] + after);
        lemma_at_split(s, p, pre2, t);
        lemma_at_index(s, q, t, 0);
        lemma_read_option_field(s, q);
        lemma_blank_field_comma(s, p, pre2, t, option_field(), after, acc);
        assert(after =~= seq!['\n'] + seq!['}']);
        assert(all_blank(seq!['\n']));
        lemma_blank_close(s, q + t.len() + 1, seq!['\n'], acc.push(option_field()));
        assert(cf =~= Seq::<FieldView>::empty());
        assert(acc + cf.push(option_field()) =~= acc.push(option_field()));
    } else {
        let c = m[0];
        let rest = m.drop_first();
        lemma_classes_front(m);
        lemma_class_text_shape(c);
        let t = kv_text(quoted(c.0), seq!['{', '\n'] + slots_text(c.1) + spaces(2) + seq!['}']);
        let pre2 = pre + spaces(2);
        let after = seq!['\n'] + classes_text(rest) + option_text() + seq!['}'];
        assert(pre + classes_text(m) + option_text() + seq!['}'] =~= pre2 + t + (seq![','] + after));
        assert(all_blank(pre2));
        let q = p + pre2.len();
        lemma_at_split(s, p, pre2 + t, seq![','] + after);
        lemma_at_split(s, p, pre2, t);
        lemma_at_index(s, q, t, 0);
        lemma_read_class_field(s, q, c);
        let f = class_field(c);
        lemma_blank_field_comma(s, p, pre2, t, f, after, acc);
        assert(all_blank(seq!['\n']));
        lemma_read_classes(s, q + t.len() + 1, seq!['\n'], rest, acc.push(f));
        let cr = rest.map_values(|c: (Seq<char>, ClassModel)| class_field(c));
        assert(cf =~= seq![f] + cr);
        assert(acc.push(f) + cr.push(option_field()) =~= acc + cf.push(option_field()));
    }
}

/// The name of the talent table's variable, as characters.
pub open spec fn table_name() -> Seq<char> {
    seq!['T', 'a', 'l', 'e', 'n', 't', 'L', 'o', 'a', 'd', 'o', 'u', 't', 'E', 'x']
}

/// The talent table's body after its opening brace.
#[verifier::opaque]
pub open spec fn table_body(m: StoreModel) -> Seq<char> {
    seq!['\n'] + classes_text(m) + option_text() + seq!['}']
}

/// The saved table's text is the assignment of the talent table's body.
proof fn lemma_document_shape(m: StoreModel)
    ensures
        "TalentLoadoutEx"@ == table_name(),
        encode_store(m) == table_name() + seq![' ', '=', ' ', '{'] + table_body(m) + seq!['\n'],
{
    reveal_strlit("TalentLoadoutEx = {\n");
    reveal_strlit("TalentLoadoutEx");
    reveal_strlit("}\n");
    reveal(table_body);
    assert("TalentLoadoutEx"@ =~= table_name());
    assert(encode_store(m) =~= table_name() + seq![' ', '=', ' ', '{'] + table_body(m) + seq!['\n']);
}

/// The written talent table parses back as the store's fields.
proof fn lemma_read_table_value(s: Seq<char>, p: int, m: StoreModel)
    requires
        at(s, p, seq!['{'] + table_body(m)),
    ensures
        parse_value(s, p) == Some((ValueView::Table(store_fields(m)), p + 1 + table_body(m).len())),
{
    reveal(table_body);
    lemma_at_split(s, p, seq!['{'], table_body(m));
    lemma_at_index(s, p, seq!['{'], 0);
    assert(all_blank(seq!['\n']));
    lemma_read_classes(s, p + 1, seq!['\n'], m, Seq::empty());
    assert(Seq::<FieldView>::empty() + m.map_values(|c: (Seq<char>, ClassModel)| class_field(c)).push(option_field()) =~= store_fields(m));
    lemma_table_value_at(s, p, store_fields(m), p + 1 + table_body(m).len());
}

/// Where the parts of a document that assigns the written talent table stand.
#[verifier::rlimit(100)]
proof fn lemma_document_positions(s: Seq<char>, m: StoreModel)
    requires
        s == table_name() + seq![' ', '=', ' ', '{'] + table_body(m) + seq!['\n'],
    ensures
        skip_ws(s, 0) == 0,
        is_name_start(s[0]),
        name_end(s, 0) == 15,
        skip_ws(s, 15) == 16,
        s[16] == '=',
        skip_ws(s, 17) == 18,
        parse_value(s, 18) == Some((ValueView::Table(store_fields(m)), s.len() - 1)),
        skip_ws(s, s.len() - 1) == s.len(),
        s.subrange(0, 15) == table_name(),
        s.len() > 19,
{
    let name = table_name();
    let eq = seq![' ', '=', ' ', '{'];
    let body = table_body(m);
    assert(s.subrange(0, s.len() as int) =~= s);
    assert(at(s, 0, name + eq + body + seq!['\n']));
    lemma_at_split(s, 0, name + eq + body, seq!['\n']);
    lemma_at_split(s, 0, name + eq, body);
    lemma_at_split(s, 0, name, eq);
    assert forall|k: int| 0 <= k < 15 implies is_name_char(#[trigger] s[k]) by {
        lemma_at_index(s, 0, name, k);
    }
    lemma_at_index(s, 15, eq, 0);
    lemma_at_index(s, 15, eq, 1);
    lemma_at_index(s, 15, eq, 2);
    lemma_at_index(s, 15, eq, 3);
    lemma_at_index(s, 0, name, 0);
    lemma_name_end(s, 0, 15);
    lemma_skip_blanks(s, 0, 0);
    lemma_skip_blanks(s, 15, 16);
    lemma_skip_blanks(s, 17, 18);
    assert(name + eq + body =~= (name + seq![' ', '=', ' ']) + (seq!['{'] + body));
    lemma_at_split(s, 0, name + seq![' ', '=', ' '], seq!['{'] + body);
    lemma_read_table_value(s, 18, m);
    let e2: int = 19 + body.len() as int;
    lemma_at_index(s, e2, seq!['\n'], 0);
    lemma_skip_blanks(s, e2, s.len() as int);
}

/// A document that assigns the written talent table parses back as that one assignment.
proof fn lemma_parse_table_document(s: Seq<char>, m: StoreModel)
    requires
        s == table_name() + seq![' ', '=', ' ', '{'] + table_body(m) + seq!['\n'],
    ensures
        parse_document(s) == Some(seq![(table_name(), ValueView::Table(store_fields(m)))]),
{
    reveal_with_fuel(parse_chunk, 1);
    lemma_document_positions(s, m);
    let fs = store_fields(m);
    let e2 = s.len() - 1;
    let acc = Seq::<(Seq<char>, ValueView)>::empty().push((table_name(), ValueView::Table(fs)));
    assert(parse_chunk(s, e2, acc) == Some(acc));
    assert(parse_chunk(s, 0, Seq::empty()) == parse_chunk(s, e2, acc));
    assert(acc =~= seq![(table_name(), ValueView::Table(fs))]);
}

/// The saved table's text parses back as one assignment of the written talent table.
pub proof fn lemma_parse_written_document(m: StoreModel)
    ensures
        parse_document(encode_store(m)) == Some(
            seq![("TalentLoadoutEx"@, ValueView::Table(store_fields(m)))],
        ),
{
    lemma_document_shape(m);
    lemma_parse_table_document(encode_store(m), m);
}

/// Round trip: the saved table written for a canonical store reads back as
/// that same store (every class, slot and loadout, in order), provided no
/// class is keyed by the options key, which reading always skips.
pub proof fn lemma_round_trip(m: StoreModel)
    requires
        store_wf(m),
        !has_class(m, "OPTION"@),
    ensures
        parse_document(encode_store(m)) matches Some(stmts) && forall|r: StoreModel|
            store_wf(r) && #[trigger] decodes_store(r, talent_fields(stmts)) ==> r == m,
{
    lemma_parse_written_document(m);
    let stmts = seq![("TalentLoadoutEx"@, ValueView::Table(store_fields(m)))];
    assert(stmts.drop_last().len() == 0);
    assert(talent_fields(stmts) == store_fields(m));
    assert forall|r: StoreModel| store_wf(r) && #[trigger] decodes_store(r, talent_fields(stmts)) implies r == m by {
        lemma_decode_written_fields(m, r);
    }
}

} // verus!