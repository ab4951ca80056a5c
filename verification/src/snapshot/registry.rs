//! Two-way lookup between card names and `CardId`s.
//!
//! A registry is built from `(name, set code, collector number)` entries. The
//! distinct set codes are sorted in byte order (the order of `String`); the
//! position of a code in that list is the `set_index` of its cards. When a
//! name or an id occurs in several entries, the last entry wins.
use vstd::prelude::*;
use vstd::string::StringSliceAdditionalSpecFns;
use vstd::utf8::{decode_utf8, encode_utf8};

use super::CardId;

verus! {

/// Byte-wise lexicographic `<`: the order of byte strings, and of `String`.
pub open spec fn lex_lt(a: Seq<u8>, b: Seq<u8>) -> bool
    decreases a.len(),
{
    if a.len() == 0 {
        b.len() > 0
    } else if b.len() == 0 {
        false
    } else if a[0] < b[0] {
        true
    } else if a[0] > b[0] {
        false
    } else {
        lex_lt(a.drop_first(), b.drop_first())
    }
}

/// `<` on text: the byte order of the UTF-8 encodings.
pub open spec fn text_lt(a: Seq<char>, b: Seq<char>) -> bool {
    lex_lt(encode_utf8(a), encode_utf8(b))
}

/// Strictly increasing in text order (so also free of repeats).
pub open spec fn strictly_sorted(s: Seq<Seq<char>>) -> bool {
    forall|i: int, j: int| 0 <= i < j < s.len() ==> text_lt(#[trigger] s[i], #[trigger] s[j])
}

/// The id of the last entry named `name`.
pub open spec fn last_with_name(es: Seq<(Seq<char>, CardId)>, name: Seq<char>) -> Option<CardId>
    decreases es.len(),
{
    if es.len() == 0 {
        None
    } else if es.last().0 == name {
        Some(es.last().1)
    } else {
        last_with_name(es.drop_last(), name)
    }
}

/// The name of the last entry with id `id`.
pub open spec fn last_with_id(es: Seq<(Seq<char>, CardId)>, id: CardId) -> Option<Seq<char>>
    decreases es.len(),
{
    if es.len() == 0 {
        None
    } else if es.last().1 == id {
        Some(es.last().0)
    } else {
        last_with_id(es.drop_last(), id)
    }
}

/// The set codes of the input, as text.
pub open spec fn input_sets(entries: Seq<(&str, &str, u16)>) -> Set<Seq<char>> {
    Set::new(|c: Seq<char>| exists|i: int| 0 <= i < entries.len() && (#[trigger] entries[i]).1@ == c)
}

/// The texts of a list of strings.
pub open spec fn codes(v: Seq<String>) -> Seq<Seq<char>> {
    v.map_values(|s: String| s@)
}

pub struct RegistryView {
    /// Set codes by `set_index`.
    pub sets: Seq<Seq<char>>,
    /// `(name, id)` per input entry, in input order.
    pub entries: Seq<(Seq<char>, CardId)>,
}

pub struct CardRegistry {
    sets: Vec<String>,
    entries: Vec<(String, CardId)>,
}

impl View for CardRegistry {
    type V = RegistryView;

    closed spec fn view(&self) -> RegistryView {
        RegistryView {
            sets: codes(self.sets@),
            entries: self.entries@.map_values(|p: (String, CardId)| (p.0@, p.1)),
        }
    }
}

// ── Byte-order facts ─────────────────────────────────────────────────────────

proof fn lemma_lex_irreflexive(a: Seq<u8>)
    ensures
        !lex_lt(a, a),
    decreases a.len(),
{
    if a.len() > 0 {
        lemma_lex_irreflexive(a.drop_first());
    }
}

proof fn lemma_lex_total(a: Seq<u8>, b: Seq<u8>)
    ensures
        a =~= b || lex_lt(a, b) || lex_lt(b, a),
        !(lex_lt(a, b) && lex_lt(b, a)),
    decreases a.len(),
{
    if a.len() > 0 && b.len() > 0 && a[0] == b[0] {
        lemma_lex_total(a.drop_first(), b.drop_first());
        if a.drop_first() =~= b.drop_first() {
            assert(a =~= seq![a[0]] + a.drop_first());
            assert(b =~= seq![b[0]] + b.drop_first());
        }
    }
}

proof fn lemma_lex_trans(a: Seq<u8>, b: Seq<u8>, c: Seq<u8>)
    requires
        lex_lt(a, b),
        lex_lt(b, c),
    ensures
        lex_lt(a, c),
    decreases a.len(),
{
    if a.len() > 0 && b.len() > 0 && c.len() > 0 && a[0] == b[0] && b[0] == c[0] {
        lemma_lex_trans(a.drop_first(), b.drop_first(), c.drop_first());
    }
}

proof fn lemma_text_total(a: Seq<char>, b: Seq<char>)
    ensures
        a == b || text_lt(a, b) || text_lt(b, a),
        !(text_lt(a, b) && text_lt(b, a)),
        !text_lt(a, a),
{
    lemma_lex_total(encode_utf8(a), encode_utf8(b));
    lemma_lex_irreflexive(encode_utf8(a));
    if encode_utf8(a) =~= encode_utf8(b) {
        vstd::utf8::encode_utf8_decode_utf8(a);
        vstd::utf8::encode_utf8_decode_utf8(b);
    }
}

// ── Text comparison ──────────────────────────────────────────────────────────

/// Equality of two texts, by their bytes.
pub(crate) fn text_eq(a: &str, b: &str) -> (r: bool)
    ensures
        r == (a@ == b@),
{
    let x = a.as_bytes();
    let y = b.as_bytes();
    proof {
        vstd::utf8::encode_utf8_decode_utf8(a@);
        vstd::utf8::encode_utf8_decode_utf8(b@);
    }
    if x.len() != y.len() {
        return false;
    }
    let mut i: usize = 0;
    while i < x.len()
        invariant
            x@ == encode_utf8(a@),
            y@ == encode_utf8(b@),
            decode_utf8(x@) == a@,
            decode_utf8(y@) == b@,
            x.len() == y.len(),
            i <= x.len(),
            forall|k: int| 0 <= k < i ==> x@[k] == y@[k],
        decreases x.len() - i,
    {
        if x[i] != y[i] {
            return false;
        }
        i = i + 1;
    }
    proof {
        assert(x@ =~= y@);
    }
    true
}

/// `a < b` in text order.
fn text_less(a: &str, b: &str) -> (r: bool)
    ensures
        r == text_lt(a@, b@),
{
    let x = a.as_bytes();
    let y = b.as_bytes();
    let mut i: usize = 0;
    proof {
        assert(x@.subrange(0, x@.len() as int) =~= x@);
        assert(y@.subrange(0, y@.len() as int) =~= y@);
    }
    while i < x.len() && i < y.len()
        invariant
            x@ == encode_utf8(a@),
            y@ == encode_utf8(b@),
            i <= x.len(),
            i <= y.len(),
            lex_lt(x@.subrange(i as int, x@.len() as int), y@.subrange(i as int, y@.len() as int))
                == lex_lt(x@, y@),
        decreases x.len() - i,
    {
        let ghost xs = x@.subrange(i as int, x@.len() as int);
        let ghost ys = y@.subrange(i as int, y@.len() as int);
        proof {
            assert(xs[0] == x@[i as int]);
            assert(ys[0] == y@[i as int]);
            assert(xs.drop_first() =~= x@.subrange(i + 1, x@.len() as int));
            assert(ys.drop_first() =~= y@.subrange(i + 1, y@.len() as int));
        }
        if x[i] < y[i] {
            return true;
        }
        if x[i] > y[i] {
            return false;
        }
        i = i + 1;
    }
    proof {
        let xs = x@.subrange(i as int, x@.len() as int);
        let ys = y@.subrange(i as int, y@.len() as int);
        assert(xs.len() == 0 || ys.len() == 0);
    }
    i == x.len() && i < y.len()
}

/// Insert `code` into a strictly sorted list of set codes, unless present.
fn insert_set_code(sets: &mut Vec<String>, code: &str)
    requires
        strictly_sorted(codes(old(sets)@)),
    ensures
        strictly_sorted(codes(final(sets)@)),
        forall|c: Seq<char>|
            #![trigger codes(final(sets)@).contains(c)]
            codes(final(sets)@).contains(c) <==> (codes(old(sets)@).contains(c) || c == code@),
{
    let ghost v0 = codes(sets@);
    let mut p: usize = 0;
    while p < sets.len() && text_less(sets[p].as_str(), code)
        invariant
            p <= sets@.len(),
            codes(sets@) == v0,
            strictly_sorted(v0),
            forall|k: int| 0 <= k < p ==> text_lt(#[trigger] v0[k], code@),
        decreases sets@.len() - p,
    {
        p = p + 1;
    }
    if p < sets.len() && text_eq(sets[p].as_str(), code) {
        proof {
            assert forall|c: Seq<char>| #![auto] v0.contains(c) <==> (v0.contains(c) || c == code@) by {
                if c == code@ {
                    assert(v0[p as int] == c);
                }
            }
        }
        return;
    }
    proof {
        if p < sets@.len() {
            lemma_text_total(v0[p as int], code@);
        }
    }
    sets.insert(p, code.to_owned());
    let ghost v1 = codes(sets@);
    proof {
        assert(v1 =~= v0.insert(p as int, code@));
        assert forall|i: int, j: int| 0 <= i < j < v1.len() implies text_lt(
            #[trigger] v1[i],
            #[trigger] v1[j],
        ) by {
            if j < p {
            } else if i < p && j == p {
            } else if i < p {
                assert(text_lt(v0[i], code@));
                assert(text_lt(code@, v0[p as int]));
                lemma_lex_trans(
                    encode_utf8(v0[i]),
                    encode_utf8(code@),
                    encode_utf8(v0[p as int]),
                );
                if j - 1 > p {
                    lemma_lex_trans(
                        encode_utf8(v0[i]),
                        encode_utf8(v0[p as int]),
                        encode_utf8(v0[j - 1]),
                    );
                }
            } else if i == p {
                assert(text_lt(code@, v0[p as int]));
                if j - 1 > p {
                    lemma_lex_trans(
                        encode_utf8(code@),
                        encode_utf8(v0[p as int]),
                        encode_utf8(v0[j - 1]),
                    );
                }
            } else {
                assert(v1[i] == v0[i - 1] && v1[j] == v0[j - 1]);
            }
        }
        assert forall|c: Seq<char>| #![auto] v1.contains(c) <==> (v0.contains(c) || c == code@) by {
            if v1.contains(c) {
                let k = choose|k: int| 0 <= k < v1.len() && v1[k] == c;
                if k < p {
                    assert(v0[k] == c);
                } else if k > p {
                    assert(v0[k - 1] == c);
                }
            }
            if v0.contains(c) {
                let k = choose|k: int| 0 <= k < v0.len() && v0[k] == c;
                if k < p {
                    assert(v1[k] == c);
                } else {
                    assert(v1[k + 1] == c);
                }
            }
            if c == code@ {
                assert(v1[p as int] == c);
            }
        }
    }
}

/// The position of `code` in the set list.
fn find_set(sets: &Vec<String>, code: &str) -> (r: Option<usize>)
    ensures
        match r {
            Some(j) => j < sets@.len() && sets@[j as int]@ == code@,
            None => forall|j: int| 0 <= j < sets@.len() ==> sets@[j]@ != code@,
        },
{
    let mut j: usize = 0;
    while j < sets.len()
        invariant
            j <= sets@.len(),
            forall|k: int| 0 <= k < j ==> sets@[k]@ != code@,
        decreases sets@.len() - j,
    {
        if text_eq(sets[j].as_str(), code) {
            return Some(j);
        }
        j = j + 1;
    }
    None
}

/// A name looked up to its id, and that id looked up to its name, gives the
/// name back, when no id belongs to two different names.
pub proof fn lemma_name_id_roundtrip(es: Seq<(Seq<char>, CardId)>, name: Seq<char>)
    requires
        forall|i: int, j: int|
            0 <= i < es.len() && 0 <= j < es.len() && (#[trigger] es[i]).1 == (#[trigger] es[j]).1
                ==> es[i].0 == es[j].0,
        last_with_name(es, name) is Some,
    ensures
        last_with_id(es, last_with_name(es, name).unwrap()) == Some(name),
    decreases es.len(),
{
    let id = last_with_name(es, name).unwrap();
    if es.last().0 != name {
        let init = es.drop_last();
        assert forall|i: int, j: int|
            0 <= i < init.len() && 0 <= j < init.len() && (#[trigger] init[i]).1 == (
            #[trigger] init[j]).1 implies init[i].0 == init[j].0 by {
            assert(init[i] == es[i] && init[j] == es[j]);
        }
        lemma_name_id_roundtrip(init, name);
        if es.last().1 == id {
            lemma_last_with_name_found(init, name);
            let m = choose|m: int| 0 <= m < init.len() && init[m].0 == name && init[m].1 == id;
            assert(es[m] == init[m]);
            assert(es[es.len() - 1].1 == es[m].1);
        }
    }
}

proof fn lemma_last_with_name_found(es: Seq<(Seq<char>, CardId)>, name: Seq<char>)
    requires
        last_with_name(es, name) is Some,
    ensures
        exists|m: int|
            0 <= m < es.len() && es[m].0 == name && es[m].1 == last_with_name(es, name).unwrap(),
    decreases es.len(),
{
    if es.last().0 != name {
        lemma_last_with_name_found(es.drop_last(), name);
        let m = choose|m: int|
            0 <= m < es.drop_last().len() && es.drop_last()[m].0 == name && es.drop_last()[m].1
                == last_with_name(es.drop_last(), name).unwrap();
        assert(es[m] == es.drop_last()[m]);
    } else {
        assert(es[es.len() - 1] == es.last());
    }
}

/// `r` is the registry built from `entries`: sorted distinct set codes,
/// exactly those of the input, and one `(name, id)` per input entry, in
/// input order, whose id holds the entry's collector number and the index
/// of its set code.
pub open spec fn built_from(r: RegistryView, entries: Seq<(&str, &str, u16)>) -> bool {
    &&& strictly_sorted(r.sets)
    &&& r.sets.to_set() == input_sets(entries)
    &&& r.entries.len() == entries.len()
    &&& forall|i: int|
        0 <= i < entries.len() ==> {
            let (name, id) = #[trigger] r.entries[i];
            &&& name == entries[i].0@
            &&& id.collector_number == entries[i].2
            &&& exists|j: int|
                0 <= j < r.sets.len() && r.sets[j] == entries[i].1@ && id.set_index == j as u16
        }
}

proof fn lemma_last_with_name_at(es: Seq<(Seq<char>, CardId)>, i: int)
    requires
        0 <= i < es.len(),
        forall|j: int| 0 <= j < es.len() && j != i ==> (#[trigger] es[j]).0 != es[i].0,
    ensures
        last_with_name(es, es[i].0) == Some(es[i].1),
    decreases es.len(),
{
    if i < es.len() - 1 {
        let e0 = es.drop_last();
        assert(es[es.len() - 1] == es.last());
        assert forall|j: int| 0 <= j < e0.len() && j != i implies (#[trigger] e0[j]).0 != e0[i].0 by {
            assert(e0[j] == es[j]);
        }
        lemma_last_with_name_at(e0, i);
    }
}

proof fn lemma_last_with_id_at(es: Seq<(Seq<char>, CardId)>, i: int)
    requires
        0 <= i < es.len(),
        forall|j: int| 0 <= j < es.len() && j != i ==> (#[trigger] es[j]).1 != es[i].1,
    ensures
        last_with_id(es, es[i].1) == Some(es[i].0),
    decreases es.len(),
{
    if i < es.len() - 1 {
        let e0 = es.drop_last();
        assert(es[es.len() - 1] == es.last());
        assert forall|j: int| 0 <= j < e0.len() && j != i implies (#[trigger] e0[j]).1 != e0[i].1 by {
            assert(e0[j] == es[j]);
        }
        lemma_last_with_id_at(e0, i);
    }
}

proof fn lemma_last_with_name_absent(es: Seq<(Seq<char>, CardId)>, name: Seq<char>)
    requires
        forall|j: int| 0 <= j < es.len() ==> (#[trigger] es[j]).0 != name,
    ensures
        last_with_name(es, name) is None,
    decreases es.len(),
{
    if es.len() > 0 {
        let e0 = es.drop_last();
        assert(es[es.len() - 1] == es.last());
        assert forall|j: int| 0 <= j < e0.len() implies (#[trigger] e0[j]).0 != name by {
            assert(e0[j] == es[j]);
        }
        lemma_last_with_name_absent(e0, name);
    }
}

/// A registry built from entries with distinct names and distinct
/// `(set code, collector number)` pairs answers each entry's name with that
/// entry's id — its collector number and the index of its set code — and
/// that id with the name; a name of no entry is not found. (Set indexes
/// are 16-bit, so there are at most 65536 set codes.)
pub proof fn lemma_registry_finds_each_entry(
    r: RegistryView,
    entries: Seq<(&str, &str, u16)>,
    i: int,
    other: Seq<char>,
)
    requires
        built_from(r, entries),
        r.sets.len() <= 0x10000,
        0 <= i < entries.len(),
        forall|a: int, b: int| 0 <= a < b < entries.len() ==> (#[trigger] entries[a]).0@ != (#[trigger] entries[b]).0@,
        forall|a: int, b: int|
            0 <= a < b < entries.len() ==> (#[trigger] entries[a]).1@ != (#[trigger] entries[b]).1@
                || entries[a].2 != entries[b].2,
        forall|a: int| 0 <= a < entries.len() ==> (#[trigger] entries[a]).0@ != other,
    ensures
        ({
            let id = r.entries[i].1;
            &&& last_with_name(r.entries, entries[i].0@) == Some(id)
            &&& id.collector_number == entries[i].2
            &&& id.set_index < r.sets.len()
            &&& r.sets[id.set_index as int] == entries[i].1@
            &&& last_with_id(r.entries, id) == Some(entries[i].0@)
            &&& last_with_name(r.entries, other) is None
        }),
{
    let es = r.entries;
    assert(es[i].0 == entries[i].0@);
    assert forall|j: int| 0 <= j < es.len() && j != i implies (#[trigger] es[j]).0 != es[i].0 by {
        assert(es[j].0 == entries[j].0@);
        if j < i {
            assert(entries[j].0@ != entries[i].0@);
        } else {
            assert(entries[i].0@ != entries[j].0@);
        }
    }
    assert forall|j: int| 0 <= j < es.len() && j != i implies (#[trigger] es[j]).1 != es[i].1 by {
        let (_, idj) = es[j];
        let (_, idi) = es[i];
        assert(idj.collector_number == entries[j].2);
        assert(idi.collector_number == entries[i].2);
        if idj == idi {
            let kj = choose|k: int| 0 <= k < r.sets.len() && r.sets[k] == entries[j].1@ && idj.set_index == k as u16;
            let ki = choose|k: int| 0 <= k < r.sets.len() && r.sets[k] == entries[i].1@ && idi.set_index == k as u16;
            assert(kj == ki);
            if j < i {
                assert(entries[j].1@ != entries[i].1@ || entries[j].2 != entries[i].2);
            } else {
                assert(entries[i].1@ != entries[j].1@ || entries[i].2 != entries[j].2);
            }
        }
    }
    lemma_last_with_name_at(es, i);
    lemma_last_with_id_at(es, i);
    assert forall|j: int| 0 <= j < es.len() implies (#[trigger] es[j]).0 != other by {
        assert(es[j].0 == entries[j].0@);
    }
    lemma_last_with_name_absent(es, other);
    let id = es[i].1;
    let k = choose|k: int| 0 <= k < r.sets.len() && r.sets[k] == entries[i].1@ && id.set_index == k as u16;
    assert(id.set_index as int == k);
}

impl CardRegistry {
    /// Build from `(card name, set code, collector number)` entries.
    pub fn from_entries(entries: &[(&str, &str, u16)]) -> (r: Self)
        ensures
            built_from(r@, entries@),
    {
        let n = entries.len();
        let mut sets: Vec<String> = Vec::new();
        let mut i: usize = 0;
        while i < n
            invariant
                i <= n,
                n == entries@.len(),
                strictly_sorted(codes(sets@)),
                forall|c: Seq<char>|
                    #![trigger codes(sets@).contains(c)]
                    codes(sets@).contains(c) <==> exists|k: int|
                        0 <= k < i && (#[trigger] entries@[k]).1@ == c,
            decreases n - i,
        {
            let ghost before = codes(sets@);
            insert_set_code(&mut sets, entries[i].1);
            proof {
                let after = codes(sets@);
                assert forall|c: Seq<char>| #![auto] after.contains(c) <==> exists|k: int|
                    0 <= k < i + 1 && (#[trigger] entries@[k]).1@ == c by {
                    if after.contains(c) && c != entries@[i as int].1@ {
                        assert(before.contains(c));
                    }
                    if exists|k: int| 0 <= k < i + 1 && (#[trigger] entries@[k]).1@ == c {
                        let k = choose|k: int| 0 <= k < i + 1 && (#[trigger] entries@[k]).1@ == c;
                        if k < i {
                            assert(before.contains(c));
                        }
                    }
                }
            }
            i = i + 1;
        }
        let ghost sv = codes(sets@);
        let mut out: Vec<(String, CardId)> = Vec::new();
        let mut i: usize = 0;
        while i < n
            invariant
                i <= n,
                n == entries@.len(),
                codes(sets@) == sv,
                forall|c: Seq<char>|
                    #![trigger sv.contains(c)]
                    sv.contains(c) <==> exists|k: int|
                        0 <= k < n && (#[trigger] entries@[k]).1@ == c,
                out@.len() == i,
                forall|k: int|
                    0 <= k < i ==> {
                        let (name, id) = #[trigger] out@[k];
                        &&& name@ == entries@[k].0@
                        &&& id.collector_number == entries@[k].2
                        &&& exists|j: int|
                            0 <= j < sv.len() && sv[j] == entries@[k].1@ && id.set_index == j as u16
                    },
            decreases n - i,
        {
            let (name, code, coll) = entries[i];
            proof {
                assert(sv.contains(code@));
            }
            let j = match find_set(&sets, code) {
                Some(j) => j,
                None => {
                    proof {
                        let k = choose|k: int| 0 <= k < sv.len() && sv[k] == code@;
                        assert(sets@[k]@ == code@);
                    }
                    0
                },
            };
            proof {
                assert(sv[j as int] == code@);
            }
            out.push((name.to_owned(), CardId::new(j as u16, coll)));
            i = i + 1;
        }
        let r = CardRegistry { sets, entries: out };
        proof {
            assert(r@.sets == sv);
            assert forall|c: Seq<char>| #![auto] r@.sets.to_set().contains(c) <==> input_sets(
                entries@,
            ).contains(c) by {
                if sv.to_set().contains(c) {
                    assert(sv.contains(c));
                }
            }
            assert(r@.sets.to_set() =~= input_sets(entries@));
            assert forall|k: int| 0 <= k < entries@.len() implies #[trigger] r@.entries[k] == (
            out@[k].0@, out@[k].1) by {}
        }
        r
    }

    /// The id of the last entry with this name.
    pub fn name_to_id(&self, name: &str) -> (r: Option<CardId>)
        ensures
            r == last_with_name(self@.entries, name@),
    {
        let ghost es = self@.entries;
        let mut k: usize = self.entries.len();
        proof {
            assert(es.subrange(0, k as int) =~= es);
        }
        while k > 0
            invariant
                k <= self.entries@.len(),
                es == self@.entries,
                last_with_name(es, name@) == last_with_name(es.subrange(0, k as int), name@),
            decreases k,
        {
            let ghost sub = es.subrange(0, k as int);
            proof {
                assert(sub.drop_last() =~= es.subrange(0, k - 1));
                assert(sub.last() == es[k - 1]);
                assert(es[k - 1] == (self.entries@[k - 1].0@, self.entries@[k - 1].1));
            }
            if text_eq(self.entries[k - 1].0.as_str(), name) {
                return Some(self.entries[k - 1].1);
            }
            k = k - 1;
        }
        None
    }

    /// The name of the last entry with this id.
    pub fn id_to_name(&self, id: CardId) -> (r: Option<&str>)
        ensures
            match r {
                Some(s) => last_with_id(self@.entries, id) == Some(s@),
                None => last_with_id(self@.entries, id) is None,
            },
    {
        let ghost es = self@.entries;
        let mut k: usize = self.entries.len();
        proof {
            assert(es.subrange(0, k as int) =~= es);
        }
        while k > 0
            invariant
                k <= self.entries@.len(),
                es == self@.entries,
                last_with_id(es, id) == last_with_id(es.subrange(0, k as int), id),
            decreases k,
        {
            let ghost sub = es.subrange(0, k as int);
            proof {
                assert(sub.drop_last() =~= es.subrange(0, k - 1));
                assert(sub.last() == es[k - 1]);
                assert(es[k - 1] == (self.entries@[k - 1].0@, self.entries@[k - 1].1));
            }
            if self.entries[k - 1].1 == id {
                return Some(self.entries[k - 1].0.as_str());
            }
            k = k - 1;
        }
        None
    }

    /// The set code with this index.
    pub fn set_code(&self, set_index: u16) -> (r: Option<&str>)
        ensures
            match r {
                Some(s) => set_index < self@.sets.len() && s@ == self@.sets[set_index as int],
                None => set_index >= self@.sets.len(),
            },
    {
        let i = set_index as usize;
        if i < self.sets.len() {
            Some(self.sets[i].as_str())
        } else {
            None
        }
    }
}

} // verus!
