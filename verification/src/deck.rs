//! Which deck cards the engine cannot simulate.
//!
//! The catalog is given as what it says of each card name: whether the card
//! has an implementation. A deck card whose name the catalog lacks is
//! `Missing`; one the catalog has without an implementation is `Inert`.
use vstd::prelude::*;

use crate::game::{UnimplementedCard, UnimplementedKind};
use crate::snapshot::registry::text_eq;

verus! {

/// What the catalog says of a name: absent, or whether it is implemented
/// (the first entry of that name counts).
pub open spec fn catalog_status(catalog: Seq<(String, bool)>, name: Seq<char>) -> Option<bool>
    decreases catalog.len(),
{
    if catalog.len() == 0 {
        None
    } else if catalog[0].0@ == name {
        Some(catalog[0].1)
    } else {
        catalog_status(catalog.drop_first(), name)
    }
}

/// The classification of one deck card, if it is unimplemented.
pub open spec fn kind_of(catalog: Seq<(String, bool)>, name: Seq<char>) -> Option<UnimplementedKind> {
    match catalog_status(catalog, name) {
        None => Some(UnimplementedKind::Missing),
        Some(false) => Some(UnimplementedKind::Inert),
        Some(true) => None,
    }
}

/// The unimplemented cards of a deck list, in input order, as
/// `(name, quantity, board, kind)`.
pub open spec fn unimplemented(cards: Seq<(String, i32, String)>, catalog: Seq<(String, bool)>) -> Seq<
    (Seq<char>, i32, Seq<char>, UnimplementedKind),
>
    decreases cards.len(),
{
    if cards.len() == 0 {
        Seq::empty()
    } else {
        let c = cards.last();
        unimplemented(cards.drop_last(), catalog) + match kind_of(catalog, c.0@) {
            Some(k) => seq![(c.0@, c.1, c.2@, k)],
            None => Seq::empty(),
        }
    }
}

proof fn lemma_catalog_status(catalog: Seq<(String, bool)>, name: Seq<char>)
    ensures
        (forall|j: int| 0 <= j < catalog.len() ==> (#[trigger] catalog[j]).0@ != name) ==> catalog_status(
            catalog,
            name,
        ) is None,
        forall|i: int|
            0 <= i < catalog.len() && (#[trigger] catalog[i]).0@ == name && (forall|j: int|
                0 <= j < i ==> (#[trigger] catalog[j]).0@ != name) ==> catalog_status(catalog, name)
                == Some(catalog[i].1),
    decreases catalog.len(),
{
    if catalog.len() > 0 {
        let rest = catalog.drop_first();
        lemma_catalog_status(rest, name);
        if forall|j: int| 0 <= j < catalog.len() ==> (#[trigger] catalog[j]).0@ != name {
            assert(catalog[0].0@ != name);
            assert forall|j: int| 0 <= j < rest.len() implies (#[trigger] rest[j]).0@ != name by {
                assert(rest[j] == catalog[j + 1]);
            }
        }
        assert forall|i: int|
            0 <= i < catalog.len() && (#[trigger] catalog[i]).0@ == name && (forall|j: int|
                0 <= j < i ==> (#[trigger] catalog[j]).0@ != name) implies catalog_status(catalog, name)
            == Some(catalog[i].1) by {
            if i > 0 {
                assert(catalog[0].0@ != name);
                assert(rest[i - 1] == catalog[i]);
                assert forall|j: int| 0 <= j < i - 1 implies (#[trigger] rest[j]).0@ != name by {
                    assert(rest[j] == catalog[j + 1]);
                }
            }
        }
    }
}

/// How a deck card is classified: a name the catalog lacks is missing, a
/// name whose first catalog entry is implemented is not reported, and one
/// whose first entry is not implemented is inert.
pub proof fn lemma_card_kinds(catalog: Seq<(String, bool)>, name: Seq<char>)
    ensures
        (forall|j: int| 0 <= j < catalog.len() ==> (#[trigger] catalog[j]).0@ != name) ==> kind_of(catalog, name)
            == Some(UnimplementedKind::Missing),
        forall|i: int|
            0 <= i < catalog.len() && (#[trigger] catalog[i]).0@ == name && (forall|j: int|
                0 <= j < i ==> (#[trigger] catalog[j]).0@ != name) ==> kind_of(catalog, name) == (if catalog[i].1 {
                None
            } else {
                Some(UnimplementedKind::Inert)
            }),
{
    lemma_catalog_status(catalog, name);
}

pub open spec fn card_view(c: UnimplementedCard) -> (Seq<char>, i32, Seq<char>, UnimplementedKind) {
    (c.name@, c.qty, c.board@, c.kind)
}

fn lookup_status(catalog: &[(String, bool)], name: &String) -> (r: Option<bool>)
    ensures
        r == catalog_status(catalog@, name@),
{
    let ghost cs = catalog@;
    let mut i: usize = 0;
    proof {
        assert(cs.subrange(0, cs.len() as int) =~= cs);
    }
    while i < catalog.len()
        invariant
            i <= cs.len(),
            cs == catalog@,
            catalog_status(cs, name@) == catalog_status(cs.subrange(i as int, cs.len() as int), name@),
        decreases cs.len() - i,
    {
        let ghost rest = cs.subrange(i as int, cs.len() as int);
        proof {
            assert(rest[0] == cs[i as int]);
            assert(rest.drop_first() =~= cs.subrange(i + 1, cs.len() as int));
        }
        if text_eq(catalog[i].0.as_str(), name.as_str()) {
            return Some(catalog[i].1);
        }
        i = i + 1;
    }
    None
}

/// Every deck card the engine cannot simulate, in input order.
pub fn classify_unimplemented_cards(cards: &[(String, i32, String)], catalog: &[(String, bool)]) -> (r: Vec<
    UnimplementedCard,
>)
    ensures
        r@.map_values(|c: UnimplementedCard| card_view(c)) == unimplemented(cards@, catalog@),
{
    let mut out: Vec<UnimplementedCard> = Vec::new();
    for i in 0..cards.len()
        invariant
            out@.map_values(|c: UnimplementedCard| card_view(c)) == unimplemented(cards@.take(i as int), catalog@),
    {
        let (name, qty, board) = (&cards[i].0, cards[i].1, &cards[i].2);
        let kind = match lookup_status(catalog, name) {
            None => Some(UnimplementedKind::Missing),
            Some(false) => Some(UnimplementedKind::Inert),
            Some(true) => None,
        };
        let ghost before = out@;
        match kind {
            Some(k) => {
                out.push(UnimplementedCard { name: name.clone(), qty, board: board.clone(), kind: k });
            },
            None => {},
        }
        proof {
            assert(cards@.take(i + 1).drop_last() =~= cards@.take(i as int));
            assert(cards@.take(i + 1).last() == cards@[i as int]);
            assert(out@.map_values(|c: UnimplementedCard| card_view(c)) =~= unimplemented(
                cards@.take(i + 1),
                catalog@,
            ));
        }
    }
    proof {
        assert(cards@.take(cards@.len() as int) =~= cards@);
    }
    out
}

/// The positions `i < k` of the report whose entry is on the main deck
/// (or not, per `main`) and of kind `kind`, in order.
pub open spec fn positions(r: Seq<UnimplementedCard>, k: int, main: bool, kind: UnimplementedKind) -> Seq<usize>
    decreases k,
{
    if k <= 0 {
        Seq::empty()
    } else {
        let rest = positions(r, k - 1, main, kind);
        if (r[k - 1].board@ == "main"@) == main && r[k - 1].kind == kind {
            rest.push((k - 1) as usize)
        } else {
            rest
        }
    }
}

fn collect_positions(report: &[UnimplementedCard], main: bool, kind: UnimplementedKind, out: &mut Vec<usize>)
    ensures
        final(out)@ == old(out)@ + positions(report@, report@.len() as int, main, kind),
{
    let ghost start = out@;
    for i in 0..report.len()
        invariant
            out@ == start + positions(report@, i as int, main, kind),
    {
        let c = &report[i];
        if text_eq(c.board.as_str(), "main") == main && c.kind == kind {
            out.push(i);
            proof {
                assert(start + positions(report@, i + 1, main, kind) =~= (start + positions(
                    report@,
                    i as int,
                    main,
                    kind,
                )).push(i));
            }
        }
    }
}

/// The order in which a deck report is shown: the main-deck entries, missing
/// ones first, then inert ones; then the sideboard entries the same way.
/// Each list holds positions in the report.
pub fn report_sections(report: &[UnimplementedCard]) -> (r: (Vec<usize>, Vec<usize>))
    ensures
        r.0@ == positions(report@, report@.len() as int, true, UnimplementedKind::Missing)
            + positions(report@, report@.len() as int, true, UnimplementedKind::Inert),
        r.1@ == positions(report@, report@.len() as int, false, UnimplementedKind::Missing)
            + positions(report@, report@.len() as int, false, UnimplementedKind::Inert),
{
    let mut main: Vec<usize> = Vec::new();
    collect_positions(report, true, UnimplementedKind::Missing, &mut main);
    collect_positions(report, true, UnimplementedKind::Inert, &mut main);
    let mut side: Vec<usize> = Vec::new();
    collect_positions(report, false, UnimplementedKind::Missing, &mut side);
    collect_positions(report, false, UnimplementedKind::Inert, &mut side);
    proof {
        assert(Seq::<usize>::empty() + positions(report@, report@.len() as int, true, UnimplementedKind::Missing)
            =~= positions(report@, report@.len() as int, true, UnimplementedKind::Missing));
        assert(Seq::<usize>::empty() + positions(report@, report@.len() as int, false, UnimplementedKind::Missing)
            =~= positions(report@, report@.len() as int, false, UnimplementedKind::Missing));
    }
    (main, side)
}

/// The kind of a card, as the implementation check reads it.
#[derive(Clone, Copy, PartialEq, Eq, Debug, Structural)]
pub enum CardKindTag {
    Creature,
    Artifact,
    Planeswalker,
    Enchantment,
    Instant,
    Sorcery,
    Land,
}

/// What the implementation check reads of a card definition.
pub struct CardFacts {
    pub is_land: bool,
    /// It has abilities.
    pub has_abilities: bool,
    /// It targets.
    pub has_target: bool,
    pub kind: CardKindTag,
    /// For an instant or sorcery: it has modes.
    pub spell_has_modes: bool,
    /// Its number of modes is known.
    pub has_mode_count: bool,
}

pub open spec fn implemented(f: CardFacts) -> bool {
    ||| f.is_land
    ||| f.has_abilities
    ||| f.has_target
    ||| match f.kind {
        CardKindTag::Instant | CardKindTag::Sorcery => f.spell_has_modes || f.has_mode_count,
        _ => true,
    }
}

/// Whether a card does anything in the simulation: a land, a card with
/// abilities or a target, a permanent, or an instant or sorcery with modes.
pub fn card_has_implementation(f: &CardFacts) -> (r: bool)
    ensures
        r == implemented(*f),
{
    if f.is_land {
        return true;
    }
    if f.has_abilities {
        return true;
    }
    if f.has_target {
        return true;
    }
    match f.kind {
        CardKindTag::Creature | CardKindTag::Artifact | CardKindTag::Planeswalker
        | CardKindTag::Enchantment => true,
        CardKindTag::Instant | CardKindTag::Sorcery => f.spell_has_modes || f.has_mode_count,
        CardKindTag::Land => true,
    }
}

} // verus!
