//! One combat-damage pass (rule 510): every eligible attacker assigns its
//! damage, then every eligible blocker strikes back; trample spills over,
//! deathtouch makes any damage lethal, lifelink gains its controller life.
//!
//! The board holds, as plain values, what the pass reads of each creature
//! or planeswalker; how an attacker splits its damage among its blockers is
//! the attacking player's answer, handed in as one proposal per attacker.
use vstd::prelude::*;
use crate::combat::{
    default_assignment, lemma_default_assignment_rules, source_eligible_for_damage_step,
    sum_fits, sum_int, valid_assignment, validate_assignment, DamageStepKind,
};
use crate::types::PlayerId;

verus! {

/// What a damage pass reads and writes of one object in play.
#[derive(Clone, Copy, PartialEq, Eq, Debug)]
pub struct Fighter {
    pub id: u64,
    pub controller: PlayerId,
    pub on_battlefield: bool,
    /// Power and toughness as the pass reads them (1/1 for an object
    /// that is not a creature).
    pub power: i32,
    pub toughness: i32,
    /// Damage marked on it this turn.
    pub damage: i64,
    pub loyalty: i64,
    pub first_strike: bool,
    pub double_strike: bool,
    pub deathtouch: bool,
    pub trample: bool,
    pub lifelink: bool,
    /// The planeswalker it attacks; `None` for the defending player.
    pub attack_target: Option<u64>,
}

/// The combat: objects, attackers in declaration order, blocks as
/// (attacker, blocker) in damage-assignment order, and protection as
/// (protected object, source it is protected from).
pub struct CombatBoard {
    pub fighters: Vec<Fighter>,
    pub attackers: Vec<u64>,
    pub blocks: Vec<(u64, u64)>,
    pub protections: Vec<(u64, u64)>,
    pub life_us: i64,
    pub life_opp: i64,
    pub life_lost_us: i64,
    pub life_lost_opp: i64,
}

/// `i` is the first position of `fs` holding `id`.
pub open spec fn first_at(fs: Seq<Fighter>, id: u64, i: int) -> bool {
    &&& 0 <= i < fs.len()
    &&& fs[i].id == id
    &&& forall|j: int| 0 <= j < i ==> fs[j].id != id
}

/// The first position holding `id`, or -1.
pub open spec fn find_id(fs: Seq<Fighter>, id: u64) -> int {
    if exists|i: int| first_at(fs, id, i) {
        choose|i: int| first_at(fs, id, i)
    } else {
        -1
    }
}

pub open spec fn alive(fs: Seq<Fighter>, id: u64) -> bool {
    find_id(fs, id) >= 0 && fs[find_id(fs, id)].on_battlefield
}

pub open spec fn protected(prot: Seq<(u64, u64)>, who: u64, from: u64) -> bool {
    exists|i: int| 0 <= i < prot.len() && prot[i] == (who, from)
}

pub open spec fn eligible(f: Fighter, step: DamageStepKind) -> bool {
    match step {
        DamageStepKind::FirstStrike => f.first_strike || f.double_strike,
        DamageStepKind::Regular => f.double_strike || !f.first_strike,
    }
}

pub open spec fn was_blocked(blocks: Seq<(u64, u64)>, atk: u64) -> bool {
    exists|i: int| 0 <= i < blocks.len() && blocks[i].0 == atk
}

/// The attacker's blockers still on the battlefield, in block order, among
/// the first `n` blocks.
pub open spec fn blockers_of(fs0: Seq<Fighter>, blocks: Seq<(u64, u64)>, atk: u64, n: int) -> Seq<u64>
    decreases n,
{
    if n <= 0 {
        Seq::empty()
    } else {
        let prev = blockers_of(fs0, blocks, atk, n - 1);
        if blocks[n - 1].0 == atk && alive(fs0, blocks[n - 1].1) {
            prev.push(blocks[n - 1].1)
        } else {
            prev
        }
    }
}

/// Damage each blocker needs to be destroyed: 1 against deathtouch,
/// otherwise its toughness less the damage already marked, at least 1.
pub open spec fn lethal_of(fs0: Seq<Fighter>, fs: Seq<Fighter>, bl: Seq<u64>, deathtouch: bool) -> Seq<i32> {
    Seq::new(
        bl.len(),
        |j: int|
            {
                let v = fs[find_id(fs0, bl[j])];
                if deathtouch {
                    1i32
                } else if v.toughness - v.damage > 1 {
                    (v.toughness - v.damage) as i32
                } else {
                    1i32
                }
            },
    )
}

/// The assignment used: the proposal where the rules allow it, else the
/// default one.
pub open spec fn assignment_used(proposal: Seq<i32>, lethal: Seq<i32>, power: int, trample: bool) -> Seq<int> {
    if valid_assignment(proposal, lethal, power, trample) {
        proposal.map_values(|x: i32| x as int)
    } else {
        default_assignment(lethal, power, trample)
    }
}

/// `amount` damage to `victim`: with deathtouch its damage becomes at
/// least its toughness, otherwise the amount is added.
pub open spec fn strike(fs0: Seq<Fighter>, fs: Seq<Fighter>, victim: u64, deathtouch: bool, amount: int) -> Seq<Fighter> {
    let i = find_id(fs0, victim);
    if i >= 0 {
        let v = fs[i];
        let d: i64 = if deathtouch {
            if v.damage >= v.toughness {
                v.damage
            } else {
                v.toughness as i64
            }
        } else {
            (v.damage + amount) as i64
        };
        fs.update(i, Fighter { damage: d, ..v })
    } else {
        fs
    }
}

/// Lifelink (rule 702.15b): `amount` damage dealt by `src` gains its
/// controller that much life. A pass's running result is the objects, the
/// damage to the defending player, and the life gained by us and by the
/// opponent.
pub open spec fn gained(acc: (Seq<Fighter>, int, int, int), src: Fighter, amount: int) -> (Seq<Fighter>, int, int, int) {
    if src.lifelink {
        match src.controller {
            PlayerId::Us => (acc.0, acc.1, acc.2 + amount, acc.3),
            PlayerId::Opp => (acc.0, acc.1, acc.2, acc.3 + amount),
        }
    } else {
        acc
    }
}

/// `amount` damage from attacker `src` to what it attacks.
pub open spec fn to_target(fs0: Seq<Fighter>, acc: (Seq<Fighter>, int, int, int), src: Fighter, amount: int) -> (Seq<Fighter>, int, int, int) {
    let hit = match src.attack_target {
        None => (acc.0, acc.1 + amount, acc.2, acc.3),
        Some(pw) => {
            let i = find_id(fs0, pw);
            if i >= 0 && fs0[i].on_battlefield {
                let v = acc.0[i];
                (acc.0.update(i, Fighter { loyalty: (v.loyalty - amount) as i64, ..v }), acc.1, acc.2, acc.3)
            } else {
                acc
            }
        },
    };
    gained(hit, src, amount)
}

/// The first `j` blockers take their assigned damage from attacker `a`.
pub open spec fn assign_fold(
    fs0: Seq<Fighter>,
    prot: Seq<(u64, u64)>,
    acc: (Seq<Fighter>, int, int, int),
    a: Fighter,
    bl: Seq<u64>,
    s: Seq<int>,
    j: int,
) -> (Seq<Fighter>, int, int, int)
    decreases j,
{
    if j <= 0 {
        acc
    } else {
        let prev = assign_fold(fs0, prot, acc, a, bl, s, j - 1);
        if s[j - 1] > 0 && !protected(prot, bl[j - 1], a.id) {
            gained((strike(fs0, prev.0, bl[j - 1], a.deathtouch, s[j - 1]), prev.1, prev.2, prev.3), a, s[j - 1])
        } else {
            prev
        }
    }
}

/// Attacker `atk` deals its damage.
pub open spec fn attacker_step(
    fs0: Seq<Fighter>,
    blocks: Seq<(u64, u64)>,
    prot: Seq<(u64, u64)>,
    step: DamageStepKind,
    acc: (Seq<Fighter>, int, int, int),
    atk: u64,
    proposal: Seq<i32>,
) -> (Seq<Fighter>, int, int, int) {
    let i = find_id(fs0, atk);
    if !alive(fs0, atk) {
        acc
    } else if !eligible(fs0[i], step) || fs0[i].power <= 0 {
        acc
    } else {
        let a = fs0[i];
        if was_blocked(blocks, atk) {
            let bl = blockers_of(fs0, blocks, atk, blocks.len() as int);
            if bl.len() == 0 {
                if a.trample {
                    to_target(fs0, acc, a, a.power as int)
                } else {
                    acc
                }
            } else {
                let s = assignment_used(proposal, lethal_of(fs0, acc.0, bl, a.deathtouch), a.power as int, a.trample);
                let acc2 = assign_fold(fs0, prot, acc, a, bl, s, bl.len() as int);
                let rem = a.power - sum_int(s);
                if a.trample && rem > 0 {
                    to_target(fs0, acc2, a, rem)
                } else {
                    acc2
                }
            }
        } else {
            to_target(fs0, acc, a, a.power as int)
        }
    }
}

/// The first `k` attackers deal their damage.
pub open spec fn attackers_fold(
    fs0: Seq<Fighter>,
    atks: Seq<u64>,
    blocks: Seq<(u64, u64)>,
    prot: Seq<(u64, u64)>,
    step: DamageStepKind,
    props: Seq<Seq<i32>>,
    k: int,
) -> (Seq<Fighter>, int, int, int)
    decreases k,
{
    if k <= 0 {
        (fs0, 0, 0, 0)
    } else {
        attacker_step(
            fs0,
            blocks,
            prot,
            step,
            attackers_fold(fs0, atks, blocks, prot, step, props, k - 1),
            atks[k - 1],
            props[k - 1],
        )
    }
}

/// Block `pair`: the blocker deals its damage to its attacker.
pub open spec fn blocker_step(
    fs0: Seq<Fighter>,
    prot: Seq<(u64, u64)>,
    step: DamageStepKind,
    acc: (Seq<Fighter>, int, int, int),
    pair: (u64, u64),
) -> (Seq<Fighter>, int, int, int) {
    let (atk, blk) = pair;
    let b = fs0[find_id(fs0, blk)];
    if alive(fs0, blk) && alive(fs0, atk) && eligible(b, step) && b.power > 0 && !protected(prot, atk, blk) {
        gained((strike(fs0, acc.0, atk, b.deathtouch, b.power as int), acc.1, acc.2, acc.3), b, b.power as int)
    } else {
        acc
    }
}

/// The first `j` blocks strike back.
pub open spec fn blockers_fold(
    fs0: Seq<Fighter>,
    blocks: Seq<(u64, u64)>,
    prot: Seq<(u64, u64)>,
    step: DamageStepKind,
    acc: (Seq<Fighter>, int, int, int),
    j: int,
) -> (Seq<Fighter>, int, int, int)
    decreases j,
{
    if j <= 0 {
        acc
    } else {
        blocker_step(fs0, prot, step, blockers_fold(fs0, blocks, prot, step, acc, j - 1), blocks[j - 1])
    }
}

/// The whole pass: the objects afterwards, the damage to the defending
/// player, and the life gained by us and by the opponent. With no
/// attackers nothing happens.
pub open spec fn damage_pass_spec(
    fs0: Seq<Fighter>,
    atks: Seq<u64>,
    blocks: Seq<(u64, u64)>,
    prot: Seq<(u64, u64)>,
    step: DamageStepKind,
    props: Seq<Seq<i32>>,
) -> (Seq<Fighter>, int, int, int) {
    if atks.len() == 0 {
        (fs0, 0, 0, 0)
    } else {
        blockers_fold(
            fs0,
            blocks,
            prot,
            step,
            attackers_fold(fs0, atks, blocks, prot, step, props, atks.len() as int),
            blocks.len() as int,
        )
    }
}


/// The largest amount a single step of a pass adds to anything.
pub open spec fn step_cap() -> int {
    0x8000_0000
}

/// Every running total after at most `m` steps of a pass: damage
/// nonnegative, and everything within `m` steps' worth.
pub open spec fn bounded(fs: Seq<Fighter>, player: int, gus: int, gopp: int, m: int) -> bool {
    &&& forall|i: int| 0 <= i < fs.len() ==> 0 <= #[trigger] fs[i].damage <= step_cap() * m
    &&& forall|i: int| 0 <= i < fs.len() ==> -step_cap() * m <= #[trigger] fs[i].loyalty <= step_cap() * m
    &&& 0 <= player <= step_cap() * m
    &&& 0 <= gus <= step_cap() * m
    &&& 0 <= gopp <= step_cap() * m
}

/// What a pass needs of its input to keep every total in range: at most
/// 256 objects, attackers and blocks, one proposal per attacker whose sum
/// fits in `i32`, and marked damage, loyalty and life totals in `i32`.
pub open spec fn pass_input_ok(b: CombatBoard, props: Seq<Seq<i32>>) -> bool {
    &&& b.fighters@.len() <= 256
    &&& b.attackers@.len() <= 256
    &&& b.blocks@.len() <= 256
    &&& props.len() == b.attackers@.len()
    &&& forall|k: int| 0 <= k < props.len() ==> sum_fits(#[trigger] props[k])
    &&& forall|i: int| 0 <= i < b.fighters@.len() ==> 0 <= #[trigger] b.fighters@[i].damage <= i32::MAX
    &&& forall|i: int| 0 <= i < b.fighters@.len() ==> i32::MIN <= #[trigger] b.fighters@[i].loyalty <= i32::MAX
    &&& i32::MIN <= b.life_us <= i32::MAX
    &&& i32::MIN <= b.life_opp <= i32::MAX
    &&& 0 <= b.life_lost_us <= i32::MAX
    &&& 0 <= b.life_lost_opp <= i32::MAX
}

pub open spec fn proposals_view(p: Seq<Vec<i32>>) -> Seq<Seq<i32>> {
    p.map_values(|v: Vec<i32>| v@)
}

fn find_fighter(fs: &Vec<Fighter>, id: u64) -> (r: Option<usize>)
    ensures
        match r {
            Some(i) => i < fs@.len() && i as int == find_id(fs@, id),
            None => find_id(fs@, id) == -1,
        },
{
    let mut i: usize = 0;
    while i < fs.len()
        invariant
            i <= fs@.len(),
            forall|j: int| 0 <= j < i ==> (#[trigger] fs@[j]).id != id,
        decreases fs@.len() - i,
    {
        if fs[i].id == id {
            proof {
                assert(first_at(fs@, id, i as int));
                let c = choose|c: int| first_at(fs@, id, c);
                if c < i {
                    assert(fs@[c].id != id);
                }
                if c > i {
                    assert(fs@[i as int].id != id);
                }
            }
            return Some(i);
        }
        i = i + 1;
    }
    proof {
        assert forall|c: int| !first_at(fs@, id, c) by {
            if 0 <= c < fs@.len() {
                assert(fs@[c].id != id);
            }
        }
    }
    None
}

fn is_protected(prot: &Vec<(u64, u64)>, who: u64, from: u64) -> (r: bool)
    ensures
        r == protected(prot@, who, from),
{
    let mut i: usize = 0;
    while i < prot.len()
        invariant
            i <= prot@.len(),
            forall|j: int| 0 <= j < i ==> #[trigger] prot@[j] != (who, from),
        decreases prot@.len() - i,
    {
        if prot[i].0 == who && prot[i].1 == from {
            assert(prot@[i as int] == (who, from));
            return true;
        }
        i = i + 1;
    }
    false
}

fn has_block(blocks: &Vec<(u64, u64)>, atk: u64) -> (r: bool)
    ensures
        r == was_blocked(blocks@, atk),
{
    let mut i: usize = 0;
    while i < blocks.len()
        invariant
            i <= blocks@.len(),
            forall|j: int| 0 <= j < i ==> (#[trigger] blocks@[j]).0 != atk,
        decreases blocks@.len() - i,
    {
        if blocks[i].0 == atk {
            assert(blocks@[i as int].0 == atk);
            return true;
        }
        i = i + 1;
    }
    false
}

proof fn lemma_blockers_found(fs0: Seq<Fighter>, blocks: Seq<(u64, u64)>, atk: u64, n: int)
    requires
        0 <= n <= blocks.len(),
    ensures
        blockers_of(fs0, blocks, atk, n).len() <= n,
        forall|j: int|
            0 <= j < blockers_of(fs0, blocks, atk, n).len() ==> 0 <= #[trigger] find_id(
                fs0,
                blockers_of(fs0, blocks, atk, n)[j],
            ) < fs0.len(),
    decreases n,
{
    if n > 0 {
        lemma_blockers_found(fs0, blocks, atk, n - 1);
        let id = blocks[n - 1].1;
        if exists|i: int| first_at(fs0, id, i) {
            let c = choose|i: int| first_at(fs0, id, i);
        }
    }
}

fn blockers_list(fs0: &Vec<Fighter>, blocks: &Vec<(u64, u64)>, atk: u64) -> (bl: Vec<u64>)
    ensures
        bl@ == blockers_of(fs0@, blocks@, atk, blocks@.len() as int),
{
    let mut bl: Vec<u64> = Vec::new();
    let mut i: usize = 0;
    while i < blocks.len()
        invariant
            i <= blocks@.len(),
            bl@ == blockers_of(fs0@, blocks@, atk, i as int),
        decreases blocks@.len() - i,
    {
        let (a, b) = blocks[i];
        if a == atk {
            match find_fighter(fs0, b) {
                Some(x) => {
                    if fs0[x].on_battlefield {
                        bl.push(b);
                    }
                },
                None => {},
            }
        }
        i = i + 1;
    }
    bl
}

fn lethal_list(fs0: &Vec<Fighter>, fs: &Vec<Fighter>, bl: &Vec<u64>, deathtouch: bool) -> (r: Vec<i32>)
    requires
        fs@.len() == fs0@.len(),
        forall|j: int| 0 <= j < bl@.len() ==> 0 <= #[trigger] find_id(fs0@, bl@[j]) < fs0@.len(),
        forall|i: int| 0 <= i < fs@.len() ==> 0 <= #[trigger] fs@[i].damage <= 0x10_0000_0000_0000,
    ensures
        r@ == lethal_of(fs0@, fs@, bl@, deathtouch),
{
    let mut r: Vec<i32> = Vec::new();
    let mut j: usize = 0;
    while j < bl.len()
        invariant
            j <= bl@.len(),
            fs@.len() == fs0@.len(),
            forall|q: int| 0 <= q < bl@.len() ==> 0 <= #[trigger] find_id(fs0@, bl@[q]) < fs0@.len(),
            forall|i: int| 0 <= i < fs@.len() ==> 0 <= #[trigger] fs@[i].damage <= 0x10_0000_0000_0000,
            r@ =~= lethal_of(fs0@, fs@, bl@, deathtouch).take(j as int),
        decreases bl@.len() - j,
    {
        let x = find_fighter(fs0, bl[j]);
        let i = match x {
            Some(i) => i,
            None => {
                assert(find_id(fs0@, bl@[j as int]) >= 0);
                0
            },
        };
        let v = fs[i];
        let l: i32 = if deathtouch {
            1
        } else {
            let d: i64 = v.toughness as i64 - v.damage;
            if d > 1 {
                d as i32
            } else {
                1
            }
        };
        r.push(l);
        j = j + 1;
    }
    r
}

fn strike_exec(fs0: &Vec<Fighter>, fs: &mut Vec<Fighter>, victim: u64, deathtouch: bool, amount: i64, m: u64)
    requires
        old(fs)@.len() == fs0@.len(),
        0 < amount <= step_cap(),
        1 <= m <= 100_000,
        forall|i: int| 0 <= i < old(fs)@.len() ==> 0 <= #[trigger] old(fs)@[i].damage <= step_cap() * m,
    ensures
        final(fs)@ == strike(fs0@, old(fs)@, victim, deathtouch, amount as int),
        final(fs)@.len() == fs0@.len(),
        forall|i: int| 0 <= i < final(fs)@.len() ==> 0 <= #[trigger] final(fs)@[i].damage <= step_cap() * (m + 1),
        forall|i: int| 0 <= i < final(fs)@.len() ==> #[trigger] final(fs)@[i].loyalty == old(fs)@[i].loyalty,
{
    match find_fighter(fs0, victim) {
        Some(i) => {
            let v = fs[i];
            let d: i64 = if deathtouch {
                if v.damage >= v.toughness as i64 {
                    v.damage
                } else {
                    v.toughness as i64
                }
            } else {
                v.damage + amount
            };
            fs.set(i, Fighter { damage: d, ..v });
        },
        None => {},
    }
}

fn gain_exec(src: &Fighter, amount: i64, gus: &mut i64, gopp: &mut i64, m: u64)
    requires
        0 < amount <= step_cap(),
        1 <= m <= 100_000,
        0 <= *old(gus) <= step_cap() * m,
        0 <= *old(gopp) <= step_cap() * m,
    ensures
        ({
            let g = gained((Seq::empty(), 0, *old(gus) as int, *old(gopp) as int), *src, amount as int);
            *final(gus) == g.2 && *final(gopp) == g.3
        }),
        0 <= *final(gus) <= step_cap() * (m + 1),
        0 <= *final(gopp) <= step_cap() * (m + 1),
{
    if src.lifelink {
        match src.controller {
            PlayerId::Us => {
                *gus = *gus + amount;
            },
            PlayerId::Opp => {
                *gopp = *gopp + amount;
            },
        }
    }
}


fn to_target_exec(
    fs0: &Vec<Fighter>,
    fs: &mut Vec<Fighter>,
    a: &Fighter,
    amount: i64,
    player: &mut i64,
    gus: &mut i64,
    gopp: &mut i64,
    m: u64,
)
    requires
        old(fs)@.len() == fs0@.len(),
        0 < amount <= step_cap(),
        1 <= m <= 100_000,
        bounded(old(fs)@, *old(player) as int, *old(gus) as int, *old(gopp) as int, m as int),
    ensures
        (final(fs)@, *final(player) as int, *final(gus) as int, *final(gopp) as int) == to_target(
            fs0@,
            (old(fs)@, *old(player) as int, *old(gus) as int, *old(gopp) as int),
            *a,
            amount as int,
        ),
        final(fs)@.len() == fs0@.len(),
        bounded(final(fs)@, *final(player) as int, *final(gus) as int, *final(gopp) as int, m + 1),
{
    match a.attack_target {
        None => {
            *player = *player + amount;
        },
        Some(pw) => {
            match find_fighter(fs0, pw) {
                Some(i) => {
                    if fs0[i].on_battlefield {
                        let v = fs[i];
                        fs.set(i, Fighter { loyalty: v.loyalty - amount, ..v });
                    }
                },
                None => {},
            }
        },
    }
    gain_exec(a, amount, gus, gopp, m);
}

proof fn lemma_assignment_used(proposal: Seq<i32>, lethal: Seq<i32>, power: int, trample: bool, r: Seq<i32>)
    requires
        valid_assignment(proposal, lethal, power, trample) ==> r == proposal,
        !valid_assignment(proposal, lethal, power, trample) ==> r.len() == lethal.len() && forall|i: int|
            0 <= i < lethal.len() ==> r[i] == default_assignment(lethal, power, trample)[i],
    ensures
        r.len() == lethal.len(),
        r.len() == assignment_used(proposal, lethal, power, trample).len(),
        forall|i: int|
            0 <= i < r.len() ==> r[i] as int == #[trigger] assignment_used(proposal, lethal, power, trample)[i]
                && r[i] >= 0,
{
    lemma_default_assignment_rules(lethal, power, trample);
}

proof fn lemma_bounded_mono(fs: Seq<Fighter>, player: int, gus: int, gopp: int, m1: int, m2: int)
    requires
        bounded(fs, player, gus, gopp, m1),
        0 <= m1 <= m2,
    ensures
        bounded(fs, player, gus, gopp, m2),
{
    assert forall|i: int| 0 <= i < fs.len() implies #[trigger] fs[i].damage <= step_cap() * m2 by {
        assert(step_cap() * m1 <= step_cap() * m2) by (nonlinear_arith)
            requires
                0 <= m1 <= m2,
        ;
    }
    assert(step_cap() * m1 <= step_cap() * m2) by (nonlinear_arith)
        requires
            0 <= m1 <= m2,
    ;
}

fn attacker_step_exec(
    fs0: &Vec<Fighter>,
    fs: &mut Vec<Fighter>,
    blocks: &Vec<(u64, u64)>,
    prot: &Vec<(u64, u64)>,
    step: DamageStepKind,
    atk: u64,
    proposal: &Vec<i32>,
    player: &mut i64,
    gus: &mut i64,
    gopp: &mut i64,
    k: u64,
)
    requires
        old(fs)@.len() == fs0@.len(),
        blocks@.len() <= 256,
        k < 256,
        sum_fits(proposal@),
        bounded(old(fs)@, *old(player) as int, *old(gus) as int, *old(gopp) as int, 1 + 300 * k),
    ensures
        (final(fs)@, *final(player) as int, *final(gus) as int, *final(gopp) as int) == attacker_step(
            fs0@,
            blocks@,
            prot@,
            step,
            (old(fs)@, *old(player) as int, *old(gus) as int, *old(gopp) as int),
            atk,
            proposal@,
        ),
        final(fs)@.len() == fs0@.len(),
        bounded(final(fs)@, *final(player) as int, *final(gus) as int, *final(gopp) as int, 1 + 300 * (k + 1)),
{
    let ghost acc0 = (fs@, *player as int, *gus as int, *gopp as int);
    let m0: u64 = 1 + 300 * k;
    proof {
        lemma_bounded_mono(fs@, *player as int, *gus as int, *gopp as int, m0 as int, 1 + 300 * (k + 1));
    }
    let i = match find_fighter(fs0, atk) {
        Some(i) => i,
        None => {
            return;
        },
    };
    let a = fs0[i];
    if !a.on_battlefield {
        return;
    }
    let el = source_eligible_for_damage_step(a.first_strike, a.double_strike, step);
    if !el || a.power <= 0 {
        return;
    }
    if !has_block(blocks, atk) {
        to_target_exec(fs0, fs, &a, a.power as i64, player, gus, gopp, m0);
        proof {
            lemma_bounded_mono(fs@, *player as int, *gus as int, *gopp as int, m0 + 1, 1 + 300 * (k + 1));
        }
        return;
    }
    let bl = blockers_list(fs0, blocks, atk);
    proof {
        lemma_blockers_found(fs0@, blocks@, atk, blocks@.len() as int);
    }
    if bl.len() == 0 {
        if a.trample {
            to_target_exec(fs0, fs, &a, a.power as i64, player, gus, gopp, m0);
            proof {
                lemma_bounded_mono(fs@, *player as int, *gus as int, *gopp as int, m0 + 1, 1 + 300 * (k + 1));
            }
        }
        return;
    }
    let lethal = lethal_list(fs0, fs, &bl, a.deathtouch);
    let asg = validate_assignment(proposal, &lethal, a.power, a.trample);
    let ghost s = assignment_used(proposal@, lethal@, a.power as int, a.trample);
    proof {
        lemma_assignment_used(proposal@, lethal@, a.power as int, a.trample, asg@);
    }
    let mut remaining: i64 = a.power as i64;
    let mut j: usize = 0;
    while j < bl.len()
        invariant
            j <= bl@.len(),
            bl@.len() <= 256,
            k < 256,
            m0 == 1 + 300 * k,
            fs@.len() == fs0@.len(),
            asg@.len() == bl@.len(),
            s.len() == bl@.len(),
            forall|q: int| 0 <= q < asg@.len() ==> asg@[q] as int == #[trigger] s[q] && asg@[q] >= 0,
            (fs@, *player as int, *gus as int, *gopp as int) == assign_fold(fs0@, prot@, acc0, a, bl@, s, j as int),
            remaining == a.power - sum_int(s.take(j as int)),
            remaining <= a.power,
            remaining >= a.power - step_cap() * j,
            bounded(fs@, *player as int, *gus as int, *gopp as int, m0 + j),
        decreases bl@.len() - j,
    {
        let x = asg[j];
        proof {
            assert(s.take(j + 1).drop_last() =~= s.take(j as int));
        }
        if x > 0 && !is_protected(prot, bl[j], a.id) {
            strike_exec(fs0, fs, bl[j], a.deathtouch, x as i64, m0 + j as u64);
            gain_exec(&a, x as i64, gus, gopp, m0 + j as u64);
        } else {
            proof {
                lemma_bounded_mono(fs@, *player as int, *gus as int, *gopp as int, m0 + j, m0 + j + 1);
            }
        }
        remaining = remaining - x as i64;
        j = j + 1;
    }
    proof {
        assert(s.take(bl@.len() as int) =~= s);
    }
    if a.trample && remaining > 0 {
        to_target_exec(fs0, fs, &a, remaining, player, gus, gopp, m0 + j as u64);
        proof {
            lemma_bounded_mono(fs@, *player as int, *gus as int, *gopp as int, m0 + j + 1, 1 + 300 * (k + 1));
        }
    } else {
        proof {
            lemma_bounded_mono(fs@, *player as int, *gus as int, *gopp as int, m0 + j, 1 + 300 * (k + 1));
        }
    }
}


fn blocker_step_exec(
    fs0: &Vec<Fighter>,
    fs: &mut Vec<Fighter>,
    prot: &Vec<(u64, u64)>,
    step: DamageStepKind,
    pair: (u64, u64),
    gus: &mut i64,
    gopp: &mut i64,
    player: i64,
    m: u64,
)
    requires
        old(fs)@.len() == fs0@.len(),
        1 <= m <= 100_000,
        bounded(old(fs)@, player as int, *old(gus) as int, *old(gopp) as int, m as int),
    ensures
        (final(fs)@, player as int, *final(gus) as int, *final(gopp) as int) == blocker_step(
            fs0@,
            prot@,
            step,
            (old(fs)@, player as int, *old(gus) as int, *old(gopp) as int),
            pair,
        ),
        final(fs)@.len() == fs0@.len(),
        bounded(final(fs)@, player as int, *final(gus) as int, *final(gopp) as int, m + 1),
{
    proof {
        lemma_bounded_mono(fs@, player as int, *gus as int, *gopp as int, m as int, m + 1);
    }
    let (atk, blk) = pair;
    let bi = match find_fighter(fs0, blk) {
        Some(bi) => bi,
        None => {
            return;
        },
    };
    let b = fs0[bi];
    if !b.on_battlefield {
        return;
    }
    match find_fighter(fs0, atk) {
        Some(ai) => {
            if !fs0[ai].on_battlefield {
                return;
            }
        },
        None => {
            return;
        },
    }
    let el = source_eligible_for_damage_step(b.first_strike, b.double_strike, step);
    if !el || b.power <= 0 {
        return;
    }
    if is_protected(prot, atk, blk) {
        return;
    }
    strike_exec(fs0, fs, atk, b.deathtouch, b.power as i64, m);
    gain_exec(&b, b.power as i64, gus, gopp, m);
}

/// Rule 510: one combat-damage pass in `step`, with `ap` attacking.
/// Each attacker still on the battlefield and dealing damage in this step
/// deals its power: unblocked, to what it attacks; blocked, split among its
/// blockers still on the battlefield by `proposals` (one per attacker, in
/// attacker order: the attacking player's answer to `damage_question` for
/// that attacker, empty when there is none), checked by
/// `validate_assignment`, with trample letting
/// the rest through, and nothing when every blocker left without trample.
/// Then each blocker on the battlefield strikes its attacker if both are
/// still there. Protection prevents the damage; deathtouch makes it
/// lethal; lifelink gains the source's controller as much life; the
/// defending player loses the damage dealt to them.
pub fn do_combat_damage_pass(board: &mut CombatBoard, ap: PlayerId, step: DamageStepKind, proposals: &Vec<Vec<i32>>)
    requires
        pass_input_ok(*old(board), proposals_view(proposals@)),
    ensures
        ({
            let r = damage_pass_spec(
                old(board).fighters@,
                old(board).attackers@,
                old(board).blocks@,
                old(board).protections@,
                step,
                proposals_view(proposals@),
            );
            let nap = ap.spec_opp();
            &&& final(board).fighters@ == r.0
            &&& final(board).attackers@ == old(board).attackers@
            &&& final(board).blocks@ == old(board).blocks@
            &&& final(board).protections@ == old(board).protections@
            &&& final(board).life_us == old(board).life_us + r.2 - (if nap == PlayerId::Us { r.1 } else { 0 })
            &&& final(board).life_opp == old(board).life_opp + r.3 - (if nap == PlayerId::Opp { r.1 } else { 0 })
            &&& final(board).life_lost_us == old(board).life_lost_us + (if nap == PlayerId::Us { r.1 } else { 0 })
            &&& final(board).life_lost_opp == old(board).life_lost_opp + (if nap == PlayerId::Opp { r.1 } else { 0 })
        }),
{
    let ghost props = proposals_view(proposals@);
    if board.attackers.len() == 0 {
        return;
    }
    let nap = ap.opp();
    let n = board.fighters.len();
    let mut fs0: Vec<Fighter> = Vec::new();
    let mut fs: Vec<Fighter> = Vec::new();
    let mut i: usize = 0;
    while i < n
        invariant
            n == board.fighters@.len(),
            i <= n,
            fs0@ == board.fighters@.take(i as int),
            fs@ == board.fighters@.take(i as int),
        decreases n - i,
    {
        fs0.push(board.fighters[i]);
        fs.push(board.fighters[i]);
        proof {
            assert(board.fighters@.take(i + 1) =~= board.fighters@.take(i as int).push(board.fighters@[i as int]));
        }
        i = i + 1;
    }
    proof {
        assert(board.fighters@.take(n as int) =~= board.fighters@);
    }
    let mut player: i64 = 0;
    let mut gus: i64 = 0;
    let mut gopp: i64 = 0;
    let na = board.attackers.len();
    let mut k: usize = 0;
    while k < na
        invariant
            na == board.attackers@.len(),
            na <= 256,
            board.blocks@.len() <= 256,
            props == proposals_view(proposals@),
            props.len() == na,
            forall|q: int| 0 <= q < props.len() ==> sum_fits(#[trigger] props[q]),
            k <= na,
            fs@.len() == fs0@.len(),
            (fs@, player as int, gus as int, gopp as int) == attackers_fold(
                fs0@,
                board.attackers@,
                board.blocks@,
                board.protections@,
                step,
                props,
                k as int,
            ),
            bounded(fs@, player as int, gus as int, gopp as int, 1 + 300 * k),
        decreases na - k,
    {
        assert(proposals@[k as int]@ == props[k as int]);
        attacker_step_exec(
            &fs0,
            &mut fs,
            &board.blocks,
            &board.protections,
            step,
            board.attackers[k],
            &proposals[k],
            &mut player,
            &mut gus,
            &mut gopp,
            k as u64,
        );
        k = k + 1;
    }
    let nb = board.blocks.len();
    let mut j: usize = 0;
    while j < nb
        invariant
            nb == board.blocks@.len(),
            nb <= 256,
            na <= 256,
            j <= nb,
            fs@.len() == fs0@.len(),
            (fs@, player as int, gus as int, gopp as int) == blockers_fold(
                fs0@,
                board.blocks@,
                board.protections@,
                step,
                attackers_fold(fs0@, board.attackers@, board.blocks@, board.protections@, step, props, na as int),
                j as int,
            ),
            bounded(fs@, player as int, gus as int, gopp as int, 1 + 300 * na + j),
        decreases nb - j,
    {
        blocker_step_exec(&fs0, &mut fs, &board.protections, step, board.blocks[j], &mut gus, &mut gopp, player, (1 + 300 * na + j) as u64);
        j = j + 1;
    }
    board.fighters = fs;
    match nap {
        PlayerId::Us => {
            board.life_us = board.life_us + gus - player;
            board.life_opp = board.life_opp + gopp;
            board.life_lost_us = board.life_lost_us + player;
        },
        PlayerId::Opp => {
            board.life_us = board.life_us + gus;
            board.life_opp = board.life_opp + gopp - player;
            board.life_lost_opp = board.life_lost_opp + player;
        },
    }
}


/// Two records of one object agree on everything a pass does not change:
/// all but marked damage and loyalty.
pub open spec fn same_frame(a: Fighter, b: Fighter) -> bool {
    &&& a.id == b.id
    &&& a.controller == b.controller
    &&& a.on_battlefield == b.on_battlefield
    &&& a.power == b.power
    &&& a.toughness == b.toughness
    &&& a.first_strike == b.first_strike
    &&& a.double_strike == b.double_strike
    &&& a.deathtouch == b.deathtouch
    &&& a.trample == b.trample
    &&& a.lifelink == b.lifelink
    &&& a.attack_target == b.attack_target
}

pub open spec fn acc_ok(fs0: Seq<Fighter>, acc: (Seq<Fighter>, int, int, int)) -> bool {
    &&& acc.0.len() == fs0.len()
    &&& forall|i: int| 0 <= i < fs0.len() ==> same_frame(#[trigger] acc.0[i], fs0[i])
    &&& acc.1 >= 0
    &&& acc.2 >= 0
    &&& acc.3 >= 0
}

proof fn lemma_find_in_range(fs0: Seq<Fighter>, id: u64)
    ensures
        -1 <= find_id(fs0, id) < fs0.len(),
{
    if exists|i: int| first_at(fs0, id, i) {
        let c = choose|i: int| first_at(fs0, id, i);
    }
}

proof fn lemma_hit_ok(fs0: Seq<Fighter>, acc: (Seq<Fighter>, int, int, int), victim: u64, src: Fighter, amount: int)
    requires
        acc_ok(fs0, acc),
        amount > 0,
    ensures
        acc_ok(fs0, gained((strike(fs0, acc.0, victim, src.deathtouch, amount), acc.1, acc.2, acc.3), src, amount)),
        acc_ok(fs0, to_target(fs0, acc, src, amount)),
{
    lemma_find_in_range(fs0, victim);
    let i = find_id(fs0, victim);
    if i >= 0 {
        assert(same_frame(acc.0[i], fs0[i]));
    }
    if let Some(pw) = src.attack_target {
        lemma_find_in_range(fs0, pw);
        let j = find_id(fs0, pw);
        if j >= 0 {
            assert(same_frame(acc.0[j], fs0[j]));
        }
    }
}

proof fn lemma_assign_fold_ok(
    fs0: Seq<Fighter>,
    prot: Seq<(u64, u64)>,
    acc: (Seq<Fighter>, int, int, int),
    a: Fighter,
    bl: Seq<u64>,
    s: Seq<int>,
    j: int,
)
    requires
        acc_ok(fs0, acc),
        j <= s.len(),
        j <= bl.len(),
    ensures
        acc_ok(fs0, assign_fold(fs0, prot, acc, a, bl, s, j)),
    decreases j,
{
    if j > 0 {
        lemma_assign_fold_ok(fs0, prot, acc, a, bl, s, j - 1);
        let prev = assign_fold(fs0, prot, acc, a, bl, s, j - 1);
        if s[j - 1] > 0 {
            lemma_hit_ok(fs0, prev, bl[j - 1], a, s[j - 1]);
        }
    }
}

proof fn lemma_attackers_fold_ok(
    fs0: Seq<Fighter>,
    atks: Seq<u64>,
    blocks: Seq<(u64, u64)>,
    prot: Seq<(u64, u64)>,
    step: DamageStepKind,
    props: Seq<Seq<i32>>,
    k: int,
)
    requires
        k <= atks.len(),
        k <= props.len(),
    ensures
        acc_ok(fs0, attackers_fold(fs0, atks, blocks, prot, step, props, k)),
    decreases k,
{
    if k > 0 {
        lemma_attackers_fold_ok(fs0, atks, blocks, prot, step, props, k - 1);
        let acc = attackers_fold(fs0, atks, blocks, prot, step, props, k - 1);
        let atk = atks[k - 1];
        let i = find_id(fs0, atk);
        if alive(fs0, atk) && eligible(fs0[i], step) && fs0[i].power > 0 {
            let a = fs0[i];
            lemma_hit_ok(fs0, acc, atk, a, a.power as int);
            if was_blocked(blocks, atk) {
                let bl = blockers_of(fs0, blocks, atk, blocks.len() as int);
                if bl.len() > 0 {
                    let s = assignment_used(props[k - 1], lethal_of(fs0, acc.0, bl, a.deathtouch), a.power as int, a.trample);
                    let lethal = lethal_of(fs0, acc.0, bl, a.deathtouch);
                    if !valid_assignment(props[k - 1], lethal, a.power as int, a.trample) {
                        assert(s.len() == bl.len());
                    }
                    lemma_assign_fold_ok(fs0, prot, acc, a, bl, s, bl.len() as int);
                    let acc2 = assign_fold(fs0, prot, acc, a, bl, s, bl.len() as int);
                    let rem = a.power - sum_int(s);
                    if rem > 0 {
                        lemma_hit_ok(fs0, acc2, atk, a, rem);
                    }
                }
            }
        }
    } else {
        assert forall|i: int| 0 <= i < fs0.len() implies same_frame(#[trigger] fs0[i], fs0[i]) by {}
    }
}

proof fn lemma_blockers_fold_ok(
    fs0: Seq<Fighter>,
    blocks: Seq<(u64, u64)>,
    prot: Seq<(u64, u64)>,
    step: DamageStepKind,
    acc: (Seq<Fighter>, int, int, int),
    j: int,
)
    requires
        acc_ok(fs0, acc),
        j <= blocks.len(),
    ensures
        acc_ok(fs0, blockers_fold(fs0, blocks, prot, step, acc, j)),
    decreases j,
{
    if j > 0 {
        lemma_blockers_fold_ok(fs0, blocks, prot, step, acc, j - 1);
        let prev = blockers_fold(fs0, blocks, prot, step, acc, j - 1);
        let (atk, blk) = blocks[j - 1];
        let b = fs0[find_id(fs0, blk)];
        if b.power > 0 {
            lemma_hit_ok(fs0, prev, atk, b, b.power as int);
        }
    }
}

/// A damage pass changes nothing about the objects but their marked
/// damage and loyalty, and the damage to the defending player and the
/// life gained are never negative.
pub proof fn lemma_damage_pass_frame(
    fs0: Seq<Fighter>,
    atks: Seq<u64>,
    blocks: Seq<(u64, u64)>,
    prot: Seq<(u64, u64)>,
    step: DamageStepKind,
    props: Seq<Seq<i32>>,
)
    requires
        props.len() == atks.len(),
    ensures
        acc_ok(fs0, damage_pass_spec(fs0, atks, blocks, prot, step, props)),
{
    lemma_attackers_fold_ok(fs0, atks, blocks, prot, step, props, 0);
    if atks.len() > 0 {
        lemma_attackers_fold_ok(fs0, atks, blocks, prot, step, props, atks.len() as int);
        lemma_blockers_fold_ok(
            fs0,
            blocks,
            prot,
            step,
            attackers_fold(fs0, atks, blocks, prot, step, props, atks.len() as int),
            blocks.len() as int,
        );
    }
}

/// An attacker on the battlefield that deals damage in this step, with
/// positive power and unblocked, deals all of it to the player it attacks.
pub proof fn lemma_unblocked_attacker_hits_player(
    fs0: Seq<Fighter>,
    blocks: Seq<(u64, u64)>,
    prot: Seq<(u64, u64)>,
    step: DamageStepKind,
    acc: (Seq<Fighter>, int, int, int),
    atk: u64,
    proposal: Seq<i32>,
)
    requires
        alive(fs0, atk),
        eligible(fs0[find_id(fs0, atk)], step),
        fs0[find_id(fs0, atk)].power > 0,
        fs0[find_id(fs0, atk)].attack_target is None,
        !was_blocked(blocks, atk),
    ensures
        attacker_step(fs0, blocks, prot, step, acc, atk, proposal).1 == acc.1 + fs0[find_id(fs0, atk)].power,
        attacker_step(fs0, blocks, prot, step, acc, atk, proposal).0 == acc.0,
{
}


/// What the attacking player is asked about attacker `atk` once the
/// attackers before it have dealt their damage: its blockers still on the
/// battlefield and the damage each needs to be destroyed; `None` when the
/// attacker deals no damage to blockers this step, or has none left.
pub open spec fn damage_question_spec(
    fs0: Seq<Fighter>,
    blocks: Seq<(u64, u64)>,
    step: DamageStepKind,
    fs: Seq<Fighter>,
    atk: u64,
) -> Option<(Seq<u64>, Seq<i32>)> {
    let i = find_id(fs0, atk);
    if alive(fs0, atk) && eligible(fs0[i], step) && fs0[i].power > 0 && was_blocked(blocks, atk) {
        let bl = blockers_of(fs0, blocks, atk, blocks.len() as int);
        if bl.len() > 0 {
            Some((bl, lethal_of(fs0, fs, bl, fs0[i].deathtouch)))
        } else {
            None
        }
    } else {
        None
    }
}

/// The proposal for an attacker matters only when it is asked about: an
/// attacker with no question deals the same damage whatever is proposed.
pub proof fn lemma_proposal_used_only_when_asked(
    fs0: Seq<Fighter>,
    blocks: Seq<(u64, u64)>,
    prot: Seq<(u64, u64)>,
    step: DamageStepKind,
    acc: (Seq<Fighter>, int, int, int),
    atk: u64,
    p1: Seq<i32>,
    p2: Seq<i32>,
)
    requires
        damage_question_spec(fs0, blocks, step, acc.0, atk) is None,
    ensures
        attacker_step(fs0, blocks, prot, step, acc, atk, p1) == attacker_step(fs0, blocks, prot, step, acc, atk, p2),
{
}

/// What the attacking player is asked about the `k`-th attacker, once the
/// attackers before it dealt their damage with `proposals` (the answers
/// given so far, one per earlier attacker).
pub fn damage_question(board: &CombatBoard, step: DamageStepKind, proposals: &Vec<Vec<i32>>, k: usize) -> (r: Option<
    (Vec<u64>, Vec<i32>),
>)
    requires
        board.fighters@.len() <= 256,
        board.attackers@.len() <= 256,
        board.blocks@.len() <= 256,
        k < board.attackers@.len(),
        k <= proposals@.len(),
        forall|q: int| 0 <= q < k ==> sum_fits(#[trigger] proposals_view(proposals@)[q]),
        forall|i: int| 0 <= i < board.fighters@.len() ==> 0 <= #[trigger] board.fighters@[i].damage <= i32::MAX,
        forall|i: int| 0 <= i < board.fighters@.len() ==> i32::MIN <= #[trigger] board.fighters@[i].loyalty
            <= i32::MAX,
    ensures
        ({
            let acc = attackers_fold(
                board.fighters@,
                board.attackers@,
                board.blocks@,
                board.protections@,
                step,
                proposals_view(proposals@),
                k as int,
            );
            let q = damage_question_spec(board.fighters@, board.blocks@, step, acc.0, board.attackers@[k as int]);
            match r {
                Some((b, l)) => q == Some((b@, l@)),
                None => q is None,
            }
        }),
{
    let ghost props = proposals_view(proposals@);
    let n = board.fighters.len();
    let mut fs0: Vec<Fighter> = Vec::new();
    let mut fs: Vec<Fighter> = Vec::new();
    let mut i: usize = 0;
    while i < n
        invariant
            n == board.fighters@.len(),
            i <= n,
            fs0@ == board.fighters@.take(i as int),
            fs@ == board.fighters@.take(i as int),
        decreases n - i,
    {
        fs0.push(board.fighters[i]);
        fs.push(board.fighters[i]);
        proof {
            assert(board.fighters@.take(i + 1) =~= board.fighters@.take(i as int).push(board.fighters@[i as int]));
        }
        i = i + 1;
    }
    proof {
        assert(board.fighters@.take(n as int) =~= board.fighters@);
    }
    let mut player: i64 = 0;
    let mut gus: i64 = 0;
    let mut gopp: i64 = 0;
    let mut j: usize = 0;
    while j < k
        invariant
            k < board.attackers@.len(),
            board.attackers@.len() <= 256,
            board.blocks@.len() <= 256,
            k <= proposals@.len(),
            props == proposals_view(proposals@),
            forall|q: int| 0 <= q < k ==> sum_fits(#[trigger] props[q]),
            j <= k,
            fs0@ == board.fighters@,
            fs@.len() == fs0@.len(),
            (fs@, player as int, gus as int, gopp as int) == attackers_fold(
                fs0@,
                board.attackers@,
                board.blocks@,
                board.protections@,
                step,
                props,
                j as int,
            ),
            bounded(fs@, player as int, gus as int, gopp as int, 1 + 300 * j),
        decreases k - j,
    {
        assert(proposals@[j as int]@ == props[j as int]);
        attacker_step_exec(
            &fs0,
            &mut fs,
            &board.blocks,
            &board.protections,
            step,
            board.attackers[j],
            &proposals[j],
            &mut player,
            &mut gus,
            &mut gopp,
            j as u64,
        );
        j = j + 1;
    }
    let atk = board.attackers[k];
    let i = match find_fighter(&fs0, atk) {
        Some(i) => i,
        None => {
            return None;
        },
    };
    let a = fs0[i];
    if !a.on_battlefield {
        return None;
    }
    let el = source_eligible_for_damage_step(a.first_strike, a.double_strike, step);
    if !el || a.power <= 0 || !has_block(&board.blocks, atk) {
        return None;
    }
    let bl = blockers_list(&fs0, &board.blocks, atk);
    if bl.len() == 0 {
        return None;
    }
    proof {
        lemma_blockers_found(fs0@, board.blocks@, atk, board.blocks@.len() as int);
        assert forall|q: int| 0 <= q < fs@.len() implies 0 <= #[trigger] fs@[q].damage <= 0x10_0000_0000_0000 by {
            assert(step_cap() * (1 + 300 * j) <= 0x10_0000_0000_0000) by (nonlinear_arith)
                requires
                    j <= 256,
            ;
        }
    }
    let lethal = lethal_list(&fs0, &fs, &bl, a.deathtouch);
    Some((bl, lethal))
}


/// Rule 702.15b for blockers: a blocker that strikes back (both it and its
/// attacker on the battlefield, dealing damage this step, positive power,
/// the attacker not protected from it) deals its power to the attacker,
/// and its controller gains that much life when it has lifelink; the other
/// player gains nothing and the defending player takes no damage from it.
/// A blocker that does not strike back changes nothing.
pub proof fn lemma_blocker_lifelink(
    fs0: Seq<Fighter>,
    prot: Seq<(u64, u64)>,
    step: DamageStepKind,
    acc: (Seq<Fighter>, int, int, int),
    atk: u64,
    blk: u64,
)
    ensures
        ({
            let b = fs0[find_id(fs0, blk)];
            let r = blocker_step(fs0, prot, step, acc, (atk, blk));
            let strikes = alive(fs0, blk) && alive(fs0, atk) && eligible(b, step) && b.power > 0 && !protected(
                prot,
                atk,
                blk,
            );
            &&& r.1 == acc.1
            &&& r.2 == acc.2 + (if strikes && b.lifelink && b.controller == PlayerId::Us {
                b.power as int
            } else {
                0
            })
            &&& r.3 == acc.3 + (if strikes && b.lifelink && b.controller == PlayerId::Opp {
                b.power as int
            } else {
                0
            })
            &&& !strikes ==> r == acc
        }),
{
}

/// Rule 702.15b for attackers: an unblocked attacker that deals damage this
/// step deals its power to what it attacks, and its controller gains that
/// much life when it has lifelink, the other player nothing.
pub proof fn lemma_attacker_lifelink(
    fs0: Seq<Fighter>,
    blocks: Seq<(u64, u64)>,
    prot: Seq<(u64, u64)>,
    step: DamageStepKind,
    acc: (Seq<Fighter>, int, int, int),
    atk: u64,
    proposal: Seq<i32>,
)
    requires
        alive(fs0, atk),
        eligible(fs0[find_id(fs0, atk)], step),
        fs0[find_id(fs0, atk)].power > 0,
        !was_blocked(blocks, atk),
    ensures
        ({
            let a = fs0[find_id(fs0, atk)];
            let r = attacker_step(fs0, blocks, prot, step, acc, atk, proposal);
            &&& r.2 == acc.2 + (if a.lifelink && a.controller == PlayerId::Us {
                a.power as int
            } else {
                0
            })
            &&& r.3 == acc.3 + (if a.lifelink && a.controller == PlayerId::Opp {
                a.power as int
            } else {
                0
            })
        }),
{
}


/// A blocker that strikes back marks its power as damage on its attacker,
/// or, with deathtouch, at least the attacker's toughness (rule 702.2c);
/// no other object changes.
pub proof fn lemma_blocker_damages_attacker(
    fs0: Seq<Fighter>,
    prot: Seq<(u64, u64)>,
    step: DamageStepKind,
    acc: (Seq<Fighter>, int, int, int),
    atk: u64,
    blk: u64,
)
    requires
        acc.0.len() == fs0.len(),
        alive(fs0, blk),
        alive(fs0, atk),
        eligible(fs0[find_id(fs0, blk)], step),
        fs0[find_id(fs0, blk)].power > 0,
        !protected(prot, atk, blk),
        acc.0[find_id(fs0, atk)].damage + fs0[find_id(fs0, blk)].power <= i64::MAX,
    ensures
        ({
            let b = fs0[find_id(fs0, blk)];
            let ai = find_id(fs0, atk);
            let v = acc.0[ai];
            let r = blocker_step(fs0, prot, step, acc, (atk, blk));
            &&& r.0.len() == acc.0.len()
            &&& r.0[ai].damage == (if b.deathtouch {
                if v.damage >= v.toughness {
                    v.damage as int
                } else {
                    v.toughness as int
                }
            } else {
                v.damage + b.power
            })
            &&& forall|j: int| 0 <= j < acc.0.len() && j != ai ==> r.0[j] == acc.0[j]
        }),
{
}


proof fn lemma_assign_fold_player(
    fs0: Seq<Fighter>,
    prot: Seq<(u64, u64)>,
    acc: (Seq<Fighter>, int, int, int),
    a: Fighter,
    bl: Seq<u64>,
    s: Seq<int>,
    j: int,
)
    ensures
        assign_fold(fs0, prot, acc, a, bl, s, j).1 == acc.1,
    decreases j,
{
    if j > 0 {
        lemma_assign_fold_player(fs0, prot, acc, a, bl, s, j - 1);
    }
}

/// Rule 702.19: a blocked attacker deals damage to the player it attacks
/// only with trample. Without trample it never does, even when its blockers
/// have all left combat; with trample and no blocker left, all its damage
/// goes to the player.
pub proof fn lemma_blocked_attacker_and_player(
    fs0: Seq<Fighter>,
    blocks: Seq<(u64, u64)>,
    prot: Seq<(u64, u64)>,
    step: DamageStepKind,
    acc: (Seq<Fighter>, int, int, int),
    atk: u64,
    proposal: Seq<i32>,
)
    requires
        alive(fs0, atk),
        eligible(fs0[find_id(fs0, atk)], step),
        fs0[find_id(fs0, atk)].power > 0,
        fs0[find_id(fs0, atk)].attack_target is None,
        was_blocked(blocks, atk),
    ensures
        ({
            let a = fs0[find_id(fs0, atk)];
            let r = attacker_step(fs0, blocks, prot, step, acc, atk, proposal);
            &&& !a.trample ==> r.1 == acc.1
            &&& (a.trample && blockers_of(fs0, blocks, atk, blocks.len() as int).len() == 0) ==> r.1 == acc.1
                + a.power
        }),
{
    let a = fs0[find_id(fs0, atk)];
    let bl = blockers_of(fs0, blocks, atk, blocks.len() as int);
    if bl.len() > 0 {
        let s = assignment_used(proposal, lethal_of(fs0, acc.0, bl, a.deathtouch), a.power as int, a.trample);
        lemma_assign_fold_player(fs0, prot, acc, a, bl, s, bl.len() as int);
    }
}

} // verus!
