//! Conversion between the name-based `ScenarioResult` and the id-based
//! `BoardSnapshot`, through a `CardRegistry`.
use vstd::prelude::*;

use super::registry::{last_with_id, last_with_name, text_eq, CardRegistry};
use super::{
    BoardSnapshot, CardEntry, CardId, PermanentEntry, PlayerSnapshot, PlayerView, SnapshotError,
    SnapshotView, Stage,
};
use crate::result::{CardResult, PermanentResult, PlayerResult, ScenarioResult};

verus! {

pub type Entries = Seq<(Seq<char>, CardId)>;

// ── Name order and unknown names ─────────────────────────────────────────────

pub open spec fn texts(v: Seq<String>) -> Seq<Seq<char>> {
    v.map_values(|s: String| s@)
}

pub open spec fn perm_names(v: Seq<PermanentResult>) -> Seq<Seq<char>> {
    v.map_values(|p: PermanentResult| p.name@)
}

pub open spec fn card_names(v: Seq<CardResult>) -> Seq<Seq<char>> {
    v.map_values(|c: CardResult| c.name@)
}

/// The names of a player's cards in the order they are looked up: lands,
/// permanents, hand, library, graveyard, exile.
pub open spec fn player_names(p: PlayerResult) -> Seq<Seq<char>> {
    perm_names(p.lands@) + perm_names(p.permanents@) + card_names(p.hand@) + texts(p.library@)
        + texts(p.graveyard@) + texts(p.exile@)
}

/// Every name of a result in lookup order: the stack, then us, then opp.
pub open spec fn scenario_names(r: ScenarioResult) -> Seq<Seq<char>> {
    texts(r.stack@) + player_names(r.us) + player_names(r.opp)
}

/// The first name, in order, that the registry does not know.
pub open spec fn first_unknown(es: Entries, names: Seq<Seq<char>>) -> Option<Seq<char>>
    decreases names.len(),
{
    if names.len() == 0 {
        None
    } else if last_with_name(es, names[0]) is None {
        Some(names[0])
    } else {
        first_unknown(es, names.drop_first())
    }
}

/// The error for an unknown name.
pub open spec fn is_unknown_card(e: SnapshotError, name: Seq<char>) -> bool {
    e matches SnapshotError::UnknownCard(s) && s@ == name
}

// ── The converted values ─────────────────────────────────────────────────────

pub open spec fn id_of(es: Entries, name: Seq<char>) -> CardId {
    last_with_name(es, name).unwrap()
}

pub open spec fn stage_of_text(t: Seq<char>) -> Stage {
    if t == "Early"@ {
        Stage::Early
    } else if t == "Mid"@ {
        Stage::Mid
    } else {
        Stage::Late
    }
}

pub open spec fn entry_of(es: Entries, name: Seq<char>, known: bool) -> CardEntry {
    CardEntry { id: id_of(es, name), pile_slot: 0, known }
}

pub open spec fn entries_of(es: Entries, names: Seq<Seq<char>>, known: bool) -> Seq<CardEntry> {
    names.map_values(|n: Seq<char>| entry_of(es, n, known))
}

pub open spec fn perm_entry_of(es: Entries, p: PermanentResult) -> PermanentEntry {
    PermanentEntry {
        id: id_of(es, p.name@),
        tapped: p.tapped,
        flipped: p.flipped,
        pile_slot: 0,
        counters: p.counters as u8,
        loyalty: p.loyalty as u8,
    }
}

pub open spec fn perm_entries_of(es: Entries, v: Seq<PermanentResult>) -> Seq<PermanentEntry> {
    v.map_values(|p: PermanentResult| perm_entry_of(es, p))
}

/// The snapshot of a player: names become ids; hand and library cards are
/// known, graveyard and exile cards are not; numbers are truncated to the
/// snapshot's widths.
pub open spec fn player_of(es: Entries, p: PlayerResult) -> PlayerView {
    PlayerView {
        deck_name: p.deck_name@,
        life: p.life as i16,
        land_drop_available: p.land_drop_available,
        lands: perm_entries_of(es, p.lands@),
        permanents: perm_entries_of(es, p.permanents@),
        hand: entries_of(es, card_names(p.hand@), true),
        library: entries_of(es, texts(p.library@), true),
        graveyard: entries_of(es, texts(p.graveyard@), false),
        exile: entries_of(es, texts(p.exile@), false),
        hand_hidden: p.hand_hidden as u8,
    }
}

pub open spec fn snapshot_of(es: Entries, r: ScenarioResult) -> SnapshotView {
    SnapshotView {
        turn: r.turn,
        stage: stage_of_text(r.stage@),
        on_play: r.on_play,
        life_before_dd: match r.life_before_dd {
            Some(l) => Some(l as i16),
            None => None,
        },
        stack: entries_of(es, texts(r.stack@), true),
        us: player_of(es, r.us),
        opp: player_of(es, r.opp),
    }
}

proof fn lemma_first_unknown_append(es: Entries, a: Seq<Seq<char>>, b: Seq<Seq<char>>)
    ensures
        first_unknown(es, a + b) == (if first_unknown(es, a) is Some {
            first_unknown(es, a)
        } else {
            first_unknown(es, b)
        }),
    decreases a.len(),
{
    if a.len() > 0 {
        assert((a + b)[0] == a[0]);
        assert((a + b).drop_first() =~= a.drop_first() + b);
        lemma_first_unknown_append(es, a.drop_first(), b);
    } else {
        assert(a + b =~= b);
    }
}

proof fn lemma_first_unknown_none(es: Entries, names: Seq<Seq<char>>, i: int)
    requires
        first_unknown(es, names) is None,
        0 <= i < names.len(),
    ensures
        last_with_name(es, names[i]) is Some,
    decreases names.len(),
{
    if i > 0 {
        lemma_first_unknown_none(es, names.drop_first(), i - 1);
    }
}

proof fn lemma_first_unknown_prefix(es: Entries, names: Seq<Seq<char>>, i: int)
    requires
        0 <= i < names.len(),
        forall|k: int| 0 <= k < i ==> last_with_name(es, #[trigger] names[k]) is Some,
    ensures
        last_with_name(es, names[i]) is None ==> first_unknown(es, names) == Some(names[i]),
        last_with_name(es, names[i]) is Some ==> first_unknown(es, names.take(i + 1)) is None,
    decreases i,
{
    if i > 0 {
        let t = names.drop_first();
        assert forall|k: int| 0 <= k < i - 1 implies last_with_name(es, #[trigger] t[k]) is Some by {
            assert(t[k] == names[k + 1]);
        }
        lemma_first_unknown_prefix(es, t, i - 1);
        assert(names.take(i + 1).drop_first() =~= t.take(i));
        assert(names.take(i + 1)[0] == names[0]);
        assert(last_with_name(es, names[0]) is Some);
        assert(t[i - 1] == names[i]);
        if last_with_name(es, names[i]) is Some {
            assert(first_unknown(es, t.take(i)) is None);
            assert(first_unknown(es, names.take(i + 1)) == first_unknown(es, t.take(i)));
        }
    } else {
        let e = Seq::<Seq<char>>::empty();
        assert(names.take(1).drop_first() =~= e);
        assert(names.take(1)[0] == names[0]);
        assert(first_unknown(es, e) is None);
    }
}

// ── Lookups ──────────────────────────────────────────────────────────────────

fn lookup(reg: &CardRegistry, name: &str) -> (r: Result<CardId, SnapshotError>)
    ensures
        match r {
            Ok(id) => last_with_name(reg@.entries, name@) == Some(id),
            Err(e) => last_with_name(reg@.entries, name@) is None && is_unknown_card(e, name@),
        },
{
    match reg.name_to_id(name) {
        Some(id) => Ok(id),
        None => Err(SnapshotError::UnknownCard(name.to_owned())),
    }
}

fn perm_entry(reg: &CardRegistry, pr: &PermanentResult) -> (r: Result<
    PermanentEntry,
    SnapshotError,
>)
    ensures
        match r {
            Ok(e) => last_with_name(reg@.entries, pr.name@) is Some && e == perm_entry_of(
                reg@.entries,
                *pr,
            ),
            Err(e) => last_with_name(reg@.entries, pr.name@) is None && is_unknown_card(
                e,
                pr.name@,
            ),
        },
{
    Ok(
        PermanentEntry {
            id: lookup(reg, pr.name.as_str())?,
            tapped: pr.tapped,
            flipped: pr.flipped,
            pile_slot: 0,
            counters: pr.counters as u8,
            loyalty: pr.loyalty as u8,
        },
    )
}

fn perm_entries(reg: &CardRegistry, v: &Vec<PermanentResult>) -> (r: Result<
    Vec<PermanentEntry>,
    SnapshotError,
>)
    ensures
        match r {
            Ok(out) => first_unknown(reg@.entries, perm_names(v@)) is None && out@
                == perm_entries_of(reg@.entries, v@),
            Err(e) => first_unknown(reg@.entries, perm_names(v@)) matches Some(n)
                && is_unknown_card(e, n),
        },
{
    let ghost es = reg@.entries;
    let ghost names = perm_names(v@);
    let mut out: Vec<PermanentEntry> = Vec::new();
    for i in 0..v.len()
        invariant
            es == reg@.entries,
            names == perm_names(v@),
            out@ == perm_entries_of(es, v@).take(i as int),
            forall|k: int| 0 <= k < i ==> last_with_name(es, #[trigger] names[k]) is Some,
    {
        proof {
            lemma_first_unknown_prefix(es, names, i as int);
        }
        match perm_entry(reg, &v[i]) {
            Ok(e) => {
                out.push(e);
                proof {
                    assert(perm_entries_of(es, v@).take(i + 1) =~= perm_entries_of(es, v@).take(
                        i as int,
                    ).push(e));
                }
            },
            Err(e) => {
                return Err(e);
            },
        }
    }
    proof {
        assert(perm_entries_of(es, v@).take(v@.len() as int) =~= perm_entries_of(es, v@));
        if v@.len() > 0 {
            lemma_first_unknown_prefix(es, names, v@.len() - 1);
            assert(names.take(v@.len() as int) =~= names);
        } else {
            assert(names =~= Seq::<Seq<char>>::empty());
        }
    }
    Ok(out)
}

/// Look up each name; the entries are not in a pile and have `known` set as
/// given.
fn name_entries(reg: &CardRegistry, v: &Vec<String>, known: bool) -> (r: Result<
    Vec<CardEntry>,
    SnapshotError,
>)
    ensures
        match r {
            Ok(out) => first_unknown(reg@.entries, texts(v@)) is None && out@ == entries_of(
                reg@.entries,
                texts(v@),
                known,
            ),
            Err(e) => first_unknown(reg@.entries, texts(v@)) matches Some(n) && is_unknown_card(
                e,
                n,
            ),
        },
{
    let ghost es = reg@.entries;
    let ghost names = texts(v@);
    let mut out: Vec<CardEntry> = Vec::new();
    for i in 0..v.len()
        invariant
            es == reg@.entries,
            names == texts(v@),
            out@ == entries_of(es, names, known).take(i as int),
            forall|k: int| 0 <= k < i ==> last_with_name(es, #[trigger] names[k]) is Some,
    {
        proof {
            lemma_first_unknown_prefix(es, names, i as int);
        }
        match lookup(reg, v[i].as_str()) {
            Ok(id) => {
                out.push(CardEntry { id, pile_slot: 0, known });
                proof {
                    assert(entries_of(es, names, known).take(i + 1) =~= entries_of(
                        es,
                        names,
                        known,
                    ).take(i as int).push(CardEntry { id, pile_slot: 0, known }));
                }
            },
            Err(e) => {
                return Err(e);
            },
        }
    }
    proof {
        assert(entries_of(es, names, known).take(v@.len() as int) =~= entries_of(es, names, known));
        if v@.len() > 0 {
            lemma_first_unknown_prefix(es, names, v@.len() - 1);
            assert(names.take(v@.len() as int) =~= names);
        } else {
            assert(names =~= Seq::<Seq<char>>::empty());
        }
    }
    Ok(out)
}

/// Hand cards: looked up by name, known.
fn hand_entries(reg: &CardRegistry, v: &Vec<CardResult>) -> (r: Result<
    Vec<CardEntry>,
    SnapshotError,
>)
    ensures
        match r {
            Ok(out) => first_unknown(reg@.entries, card_names(v@)) is None && out@ == entries_of(
                reg@.entries,
                card_names(v@),
                true,
            ),
            Err(e) => first_unknown(reg@.entries, card_names(v@)) matches Some(n)
                && is_unknown_card(e, n),
        },
{
    let ghost es = reg@.entries;
    let ghost names = card_names(v@);
    let mut out: Vec<CardEntry> = Vec::new();
    for i in 0..v.len()
        invariant
            es == reg@.entries,
            names == card_names(v@),
            out@ == entries_of(es, names, true).take(i as int),
            forall|k: int| 0 <= k < i ==> last_with_name(es, #[trigger] names[k]) is Some,
    {
        proof {
            lemma_first_unknown_prefix(es, names, i as int);
        }
        match lookup(reg, v[i].name.as_str()) {
            Ok(id) => {
                out.push(CardEntry { id, pile_slot: 0, known: true });
                proof {
                    assert(entries_of(es, names, true).take(i + 1) =~= entries_of(
                        es,
                        names,
                        true,
                    ).take(i as int).push(CardEntry { id, pile_slot: 0, known: true }));
                }
            },
            Err(e) => {
                return Err(e);
            },
        }
    }
    proof {
        assert(entries_of(es, names, true).take(v@.len() as int) =~= entries_of(es, names, true));
        if v@.len() > 0 {
            lemma_first_unknown_prefix(es, names, v@.len() - 1);
            assert(names.take(v@.len() as int) =~= names);
        } else {
            assert(names =~= Seq::<Seq<char>>::empty());
        }
    }
    Ok(out)
}

impl PlayerSnapshot {
    fn from_player_result(p: &PlayerResult, reg: &CardRegistry) -> (r: Result<
        PlayerSnapshot,
        SnapshotError,
    >)
        ensures
            match r {
                Ok(s) => first_unknown(reg@.entries, player_names(*p)) is None && s@ == player_of(
                    reg@.entries,
                    *p,
                ),
                Err(e) => first_unknown(reg@.entries, player_names(*p)) matches Some(n)
                    && is_unknown_card(e, n),
            },
    {
        let ghost es = reg@.entries;
        let ghost a = perm_names(p.lands@);
        let ghost b = perm_names(p.permanents@);
        let ghost c = card_names(p.hand@);
        let ghost d = texts(p.library@);
        let ghost g = texts(p.graveyard@);
        let ghost x = texts(p.exile@);
        proof {
            lemma_first_unknown_append(es, a + b + c + d + g, x);
            lemma_first_unknown_append(es, a + b + c + d, g);
            lemma_first_unknown_append(es, a + b + c, d);
            lemma_first_unknown_append(es, a + b, c);
            lemma_first_unknown_append(es, a, b);
        }
        let lands = perm_entries(reg, &p.lands)?;
        let permanents = perm_entries(reg, &p.permanents)?;
        let hand = hand_entries(reg, &p.hand)?;
        let library = name_entries(reg, &p.library, true)?;
        let graveyard = name_entries(reg, &p.graveyard, false)?;
        let exile = name_entries(reg, &p.exile, false)?;
        Ok(
            PlayerSnapshot {
                deck_name: p.deck_name.clone(),
                life: p.life as i16,
                land_drop_available: p.land_drop_available,
                lands,
                permanents,
                hand,
                library,
                graveyard,
                exile,
                hand_hidden: p.hand_hidden as u8,
            },
        )
    }
}

fn stage_from_text(t: &str) -> (s: Stage)
    ensures
        s == stage_of_text(t@),
{
    if text_eq(t, "Early") {
        Stage::Early
    } else if text_eq(t, "Mid") {
        Stage::Mid
    } else {
        Stage::Late
    }
}

impl BoardSnapshot {
    /// Convert a name-based result to a snapshot, resolving every name
    /// through the registry; the first name it does not know, in the order
    /// stack, us, opp, gives `UnknownCard`.
    pub fn from_result(r: &ScenarioResult, registry: &CardRegistry) -> (out: Result<
        BoardSnapshot,
        SnapshotError,
    >)
        ensures
            match out {
                Ok(s) => first_unknown(registry@.entries, scenario_names(*r)) is None && s@
                    == snapshot_of(registry@.entries, *r),
                Err(e) => first_unknown(registry@.entries, scenario_names(*r)) matches Some(n)
                    && is_unknown_card(e, n),
            },
    {
        let ghost es = registry@.entries;
        proof {
            lemma_first_unknown_append(
                es,
                texts(r.stack@) + player_names(r.us),
                player_names(r.opp),
            );
            lemma_first_unknown_append(es, texts(r.stack@), player_names(r.us));
        }
        let stage = stage_from_text(r.stage.as_str());
        let stack = name_entries(registry, &r.stack, true)?;
        let life_before_dd = match r.life_before_dd {
            Some(l) => Some(l as i16),
            None => None,
        };
        let us = PlayerSnapshot::from_player_result(&r.us, registry)?;
        let opp = PlayerSnapshot::from_player_result(&r.opp, registry)?;
        Ok(BoardSnapshot { turn: r.turn, stage, on_play: r.on_play, life_before_dd, stack, us, opp })
    }
}

// ── Back to names ────────────────────────────────────────────────────────────

/// The name of an id, or `"???"` when the registry has none.
pub open spec fn name_or_unknown(es: Entries, id: CardId) -> Seq<char> {
    match last_with_id(es, id) {
        Some(n) => n,
        None => "???"@,
    }
}

pub open spec fn stage_text(s: Stage) -> Seq<char> {
    match s {
        Stage::Early => "Early"@,
        Stage::Mid => "Mid"@,
        Stage::Late => "Late"@,
    }
}

/// The names of the entries whose id the registry knows, in order; the
/// others are left out.
pub open spec fn known_names(es: Entries, s: Seq<CardEntry>) -> Seq<Seq<char>>
    decreases s.len(),
{
    if s.len() == 0 {
        Seq::empty()
    } else {
        known_names(es, s.drop_last()) + match last_with_id(es, s.last().id) {
            Some(n) => seq![n],
            None => Seq::empty(),
        }
    }
}

pub open spec fn perm_result_of(es: Entries, pr: PermanentResult, e: PermanentEntry) -> bool {
    &&& pr.name@ == name_or_unknown(es, e.id)
    &&& pr.tapped == e.tapped
    &&& pr.counters == e.counters as i32
    &&& pr.loyalty == e.loyalty as i32
    &&& pr.flipped == e.flipped
}

pub open spec fn perm_results_of(es: Entries, v: Seq<PermanentResult>, s: Seq<PermanentEntry>) -> bool {
    v.len() == s.len() && forall|i: int| 0 <= i < v.len() ==> perm_result_of(es, #[trigger] v[i], s[i])
}

/// `v` names the entries of `s`, one by one.
pub open spec fn names_of(es: Entries, v: Seq<Seq<char>>, s: Seq<CardEntry>) -> bool {
    v.len() == s.len() && forall|i: int| 0 <= i < v.len() ==> #[trigger] v[i] == name_or_unknown(es, s[i].id)
}

/// The result of a player: ids become names (or `"???"`), numbers widen.
pub open spec fn player_result_of(es: Entries, r: PlayerResult, p: PlayerView) -> bool {
    &&& r.deck_name@ == p.deck_name
    &&& r.life == p.life as i32
    &&& perm_results_of(es, r.lands@, p.lands)
    &&& perm_results_of(es, r.permanents@, p.permanents)
    &&& names_of(es, card_names(r.hand@), p.hand)
    &&& r.hand_hidden == p.hand_hidden as usize
    &&& r.land_drop_available == p.land_drop_available
    &&& names_of(es, texts(r.library@), p.library)
    &&& names_of(es, texts(r.graveyard@), p.graveyard)
    &&& names_of(es, texts(r.exile@), p.exile)
}

fn resolve(reg: &CardRegistry, id: CardId) -> (r: String)
    ensures
        r@ == name_or_unknown(reg@.entries, id),
{
    match reg.id_to_name(id) {
        Some(s) => s.to_owned(),
        None => "???".to_owned(),
    }
}

fn perm_results(reg: &CardRegistry, v: &Vec<PermanentEntry>) -> (r: Vec<PermanentResult>)
    ensures
        perm_results_of(reg@.entries, r@, v@),
{
    let mut out: Vec<PermanentResult> = Vec::new();
    for i in 0..v.len()
        invariant
            out@.len() == i,
            forall|k: int| 0 <= k < i ==> perm_result_of(reg@.entries, #[trigger] out@[k], v@[k]),
    {
        let e = &v[i];
        out.push(
            PermanentResult {
                name: resolve(reg, e.id),
                tapped: e.tapped,
                counters: e.counters as i32,
                loyalty: e.loyalty as i32,
                flipped: e.flipped,
            },
        );
    }
    out
}

fn name_results(reg: &CardRegistry, v: &Vec<CardEntry>) -> (r: Vec<String>)
    ensures
        names_of(reg@.entries, texts(r@), v@),
{
    let mut out: Vec<String> = Vec::new();
    for i in 0..v.len()
        invariant
            out@.len() == i,
            forall|k: int| 0 <= k < i ==> #[trigger] out@[k]@ == name_or_unknown(reg@.entries, v@[k].id),
    {
        out.push(resolve(reg, v[i].id));
    }
    out
}

fn card_results(reg: &CardRegistry, v: &Vec<CardEntry>) -> (r: Vec<CardResult>)
    ensures
        names_of(reg@.entries, card_names(r@), v@),
{
    let mut out: Vec<CardResult> = Vec::new();
    for i in 0..v.len()
        invariant
            out@.len() == i,
            forall|k: int|
                0 <= k < i ==> #[trigger] out@[k].name@ == name_or_unknown(reg@.entries, v@[k].id),
    {
        out.push(CardResult { name: resolve(reg, v[i].id) });
    }
    out
}

impl PlayerSnapshot {
    fn to_player_result(&self, reg: &CardRegistry) -> (r: PlayerResult)
        ensures
            player_result_of(reg@.entries, r, self@),
    {
        PlayerResult {
            deck_name: self.deck_name.clone(),
            life: self.life as i32,
            lands: perm_results(reg, &self.lands),
            permanents: perm_results(reg, &self.permanents),
            hand: card_results(reg, &self.hand),
            hand_hidden: self.hand_hidden as usize,
            land_drop_available: self.land_drop_available,
            library: name_results(reg, &self.library),
            graveyard: name_results(reg, &self.graveyard),
            exile: name_results(reg, &self.exile),
        }
    }
}

impl BoardSnapshot {
    /// Convert back to a name-based result. Ids the registry does not know
    /// read `"???"` in the player zones and are left out of the stack; the
    /// logs and the text summary are empty.
    pub fn to_result(&self, registry: &CardRegistry) -> (r: ScenarioResult)
        ensures
            r.turn == self.turn,
            r.stage@ == stage_text(self.stage),
            r.on_play == self.on_play,
            player_result_of(registry@.entries, r.us, self.us@),
            player_result_of(registry@.entries, r.opp, self.opp@),
            r.log@.len() == 0,
            texts(r.stack@) == known_names(registry@.entries, self.stack@),
            r.life_before_dd == (match self.life_before_dd {
                Some(l) => Some(l as i32),
                None => None::<i32>,
            }),
            r.decision_log@.len() == 0,
            r.text_summary@ == Seq::<char>::empty(),
    {
        let stage = match self.stage {
            Stage::Early => "Early",
            Stage::Mid => "Mid",
            Stage::Late => "Late",
        };
        let ghost es = registry@.entries;
        let mut stack: Vec<String> = Vec::new();
        for i in 0..self.stack.len()
            invariant
                es == registry@.entries,
                texts(stack@) == known_names(es, self.stack@.take(i as int)),
        {
            let ghost before = stack@;
            match registry.id_to_name(self.stack[i].id) {
                Some(s) => stack.push(s.to_owned()),
                None => {},
            }
            proof {
                assert(self.stack@.take(i + 1).drop_last() =~= self.stack@.take(i as int));
                assert(texts(stack@) =~= known_names(es, self.stack@.take(i + 1)));
            }
        }
        proof {
            assert(self.stack@.take(self.stack@.len() as int) =~= self.stack@);
        }
        ScenarioResult {
            turn: self.turn,
            stage: stage.to_owned(),
            on_play: self.on_play,
            us: self.us.to_player_result(registry),
            opp: self.opp.to_player_result(registry),
            log: Vec::new(),
            stack,
            life_before_dd: match self.life_before_dd {
                Some(l) => Some(l as i32),
                None => None,
            },
            decision_log: Vec::new(),
            text_summary: String::new(),
        }
    }
}

// ── Round trip ───────────────────────────────────────────────────────────────

/// Every name of `v` is in the registry.
pub open spec fn registered(es: Entries, v: Seq<Seq<char>>) -> bool {
    forall|i: int| 0 <= i < v.len() ==> (#[trigger] last_with_name(es, v[i])) is Some
}

/// No id belongs to two different names.
pub open spec fn ids_name_one_card(es: Entries) -> bool {
    forall|i: int, j: int|
        0 <= i < es.len() && 0 <= j < es.len() && (#[trigger] es[i]).1 == (#[trigger] es[j]).1
            ==> es[i].0 == es[j].0
}

proof fn lemma_registered_split(es: Entries, a: Seq<Seq<char>>, b: Seq<Seq<char>>)
    requires
        registered(es, a + b),
    ensures
        registered(es, a),
        registered(es, b),
{
    assert forall|i: int| 0 <= i < a.len() implies (#[trigger] last_with_name(es, a[i])) is Some by {
        assert((a + b)[i] == a[i]);
    }
    assert forall|i: int| 0 <= i < b.len() implies (#[trigger] last_with_name(es, b[i])) is Some by {
        assert((a + b)[a.len() + i] == b[i]);
    }
}

proof fn lemma_names_back(es: Entries, v: Seq<Seq<char>>, known: bool)
    requires
        registered(es, v),
        ids_name_one_card(es),
    ensures
        names_of(es, v, entries_of(es, v, known)),
        known_names(es, entries_of(es, v, known)) == v,
    decreases v.len(),
{
    assert forall|i: int| 0 <= i < v.len() implies #[trigger] v[i] == name_or_unknown(
        es,
        entries_of(es, v, known)[i].id,
    ) by {
        assert(last_with_name(es, v[i]) is Some);
        crate::snapshot::registry::lemma_name_id_roundtrip(es, v[i]);
    }
    if v.len() > 0 {
        let v0 = v.drop_last();
        assert forall|i: int| 0 <= i < v0.len() implies (#[trigger] last_with_name(es, v0[i])) is Some by {
            assert(v0[i] == v[i]);
        }
        lemma_names_back(es, v0, known);
        assert(entries_of(es, v, known).drop_last() =~= entries_of(es, v0, known));
        assert(last_with_name(es, v.last()) is Some);
        crate::snapshot::registry::lemma_name_id_roundtrip(es, v.last());
        assert(v =~= v0.push(v.last()));
    } else {
        assert(known_names(es, entries_of(es, v, known)) =~= v);
    }
}

/// The numbers of a permanent fit the snapshot's bytes.
pub open spec fn perm_fits(p: PermanentResult) -> bool {
    0 <= p.counters <= 255 && 0 <= p.loyalty <= 255
}

proof fn lemma_perms_back(es: Entries, v: Seq<PermanentResult>)
    requires
        registered(es, perm_names(v)),
        ids_name_one_card(es),
        forall|i: int| 0 <= i < v.len() ==> perm_fits(#[trigger] v[i]),
    ensures
        perm_results_of(es, v, perm_entries_of(es, v)),
{
    assert forall|i: int| 0 <= i < v.len() implies perm_result_of(
        es,
        #[trigger] v[i],
        perm_entries_of(es, v)[i],
    ) by {
        assert(perm_names(v)[i] == v[i].name@);
        assert(last_with_name(es, perm_names(v)[i]) is Some);
        crate::snapshot::registry::lemma_name_id_roundtrip(es, v[i].name@);
        assert(perm_fits(v[i]));
    }
}

/// The numbers of a player fit the snapshot's widths.
pub open spec fn player_fits(p: PlayerResult) -> bool {
    &&& i16::MIN <= p.life <= i16::MAX
    &&& p.hand_hidden <= 255
    &&& forall|i: int| 0 <= i < p.lands@.len() ==> perm_fits(#[trigger] p.lands@[i])
    &&& forall|i: int| 0 <= i < p.permanents@.len() ==> perm_fits(#[trigger] p.permanents@[i])
}

proof fn lemma_player_back(es: Entries, p: PlayerResult)
    requires
        registered(es, player_names(p)),
        ids_name_one_card(es),
        player_fits(p),
    ensures
        player_result_of(es, p, player_of(es, p)),
{
    let a = perm_names(p.lands@);
    let b = perm_names(p.permanents@);
    let c = card_names(p.hand@);
    let d = texts(p.library@);
    let e = texts(p.graveyard@);
    let f = texts(p.exile@);
    lemma_registered_split(es, a + b + c + d + e, f);
    lemma_registered_split(es, a + b + c + d, e);
    lemma_registered_split(es, a + b + c, d);
    lemma_registered_split(es, a + b, c);
    lemma_registered_split(es, a, b);
    lemma_perms_back(es, p.lands@);
    lemma_perms_back(es, p.permanents@);
    lemma_names_back(es, c, true);
    lemma_names_back(es, d, true);
    lemma_names_back(es, e, false);
    lemma_names_back(es, f, false);
}

/// Converting a result to a snapshot and back gives the result: when the
/// registry knows every name and no id has two names, the stage is one of
/// the three, and the numbers fit the snapshot's widths, the result is the
/// one `to_result` describes for the snapshot `from_result` makes —
/// field by field, zone order included (the logs and summary come back
/// empty).
pub proof fn lemma_result_round_trip(es: Entries, r: ScenarioResult)
    requires
        first_unknown(es, scenario_names(r)) is None,
        ids_name_one_card(es),
        r.stage@ == "Early"@ || r.stage@ == "Mid"@ || r.stage@ == "Late"@,
        player_fits(r.us),
        player_fits(r.opp),
        r.life_before_dd matches Some(l) ==> i16::MIN <= l <= i16::MAX,
    ensures
        ({
            let s = snapshot_of(es, r);
            &&& stage_text(s.stage) == r.stage@
            &&& known_names(es, s.stack) == texts(r.stack@)
            &&& player_result_of(es, r.us, s.us)
            &&& player_result_of(es, r.opp, s.opp)
            &&& (match s.life_before_dd {
                Some(l) => Some(l as i32),
                None => None::<i32>,
            }) == r.life_before_dd
        }),
{
    let names = scenario_names(r);
    assert forall|i: int| 0 <= i < names.len() implies (#[trigger] last_with_name(es, names[i])) is Some by {
        lemma_first_unknown_none(es, names, i);
    }
    lemma_registered_split(es, texts(r.stack@) + player_names(r.us), player_names(r.opp));
    lemma_registered_split(es, texts(r.stack@), player_names(r.us));
    lemma_names_back(es, texts(r.stack@), true);
    lemma_player_back(es, r.us);
    lemma_player_back(es, r.opp);
}

} // verus!
