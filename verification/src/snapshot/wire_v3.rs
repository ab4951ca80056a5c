//! Version-3 binary encoding: one-byte card ids and grouped card zones.
//!
//! The header is the version-2 header with version byte 3. A card is written
//! as its collector number truncated to a byte (the set index is not
//! written and reads back as 0) and its flag byte. A permanent is its id byte
//! and a flag byte (bit 0 tapped, bit 1 flipped, bits 2-4 pile slot, bit 5
//! counters follow, bit 6 loyalty follows), then the nonzero counters and
//! loyalty bytes. The stack is written card by card. The four card zones of
//! a player are written as:
//!
//! ```text
//!   pile count, then the cards with a pile slot, ordered by slot
//!   group count, then per (id, known) key in increasing order: id, flags, count
//! ```
//!
//! so the order of the cards outside the pile is not kept.
use vstd::prelude::*;
use vstd::utf8::encode_utf8;

use super::wire::{
    assemble, card_flag_byte, card_flags, card_of, enc_header, enc_name, header_of,
    lemma_assemble_written, lemma_card_flags_roundtrip, lemma_matches_split,
    lemma_perm_flags_roundtrip, lemma_read_header, lemma_read_name, matches_at, p_header_rest,
    p_name, p_u8, perm_flag_byte, perm_flags, perm_of, pos_of, value_of, view_result, write_header,
    write_name, read_name, Cursor, Header,
};
use super::{
    BoardSnapshot, CardEntry, CardId, PermanentEntry, PlayerSnapshot, PlayerView, SnapshotError,
    SnapshotView, Stage,
};

verus! {

// ── Encoding ─────────────────────────────────────────────────────────────────

pub open spec fn enc_card_v3(e: CardEntry) -> Seq<u8> {
    seq![e.id.collector_number as u8, card_flags(e)]
}

pub open spec fn enc_cards_v3(s: Seq<CardEntry>) -> Seq<u8>
    decreases s.len(),
{
    if s.len() == 0 {
        Seq::empty()
    } else {
        enc_cards_v3(s.drop_last()) + enc_card_v3(s.last())
    }
}

/// A list of cards in order: its length byte, then each card.
pub open spec fn enc_card_list_v3(s: Seq<CardEntry>) -> Seq<u8> {
    seq![s.len() as u8] + enc_cards_v3(s)
}

/// Flag byte of a permanent: the version-2 flags, plus bit 5 when counters
/// follow and bit 6 when loyalty follows.
pub open spec fn perm_flags_v3(e: PermanentEntry) -> u8 {
    (perm_flags(e) | (if e.counters != 0 { 0x20u8 } else { 0u8 })) | (if e.loyalty != 0 {
        0x40u8
    } else {
        0u8
    })
}

pub open spec fn enc_perm_v3(e: PermanentEntry) -> Seq<u8> {
    seq![e.id.collector_number as u8, perm_flags_v3(e)] + (if e.counters != 0 {
        seq![e.counters]
    } else {
        Seq::empty()
    }) + (if e.loyalty != 0 {
        seq![e.loyalty]
    } else {
        Seq::empty()
    })
}

pub open spec fn enc_perms_v3(s: Seq<PermanentEntry>) -> Seq<u8>
    decreases s.len(),
{
    if s.len() == 0 {
        Seq::empty()
    } else {
        enc_perms_v3(s.drop_last()) + enc_perm_v3(s.last())
    }
}

pub open spec fn enc_perm_zone_v3(s: Seq<PermanentEntry>) -> Seq<u8> {
    seq![s.len() as u8] + enc_perms_v3(s)
}

/// The entries of `z` in pile slot `k`, in zone order.
pub open spec fn with_slot(z: Seq<CardEntry>, k: int) -> Seq<CardEntry>
    decreases z.len(),
{
    if z.len() == 0 {
        Seq::empty()
    } else {
        with_slot(z.drop_last(), k) + (if z.last().pile_slot == k {
            seq![z.last()]
        } else {
            Seq::empty()
        })
    }
}

/// The entries of `z` in pile slots `1..k`, ordered by slot; entries with the
/// same slot keep their zone order.
pub open spec fn pile_below(z: Seq<CardEntry>, k: int) -> Seq<CardEntry>
    decreases k,
{
    if k <= 1 {
        Seq::empty()
    } else {
        pile_below(z, k - 1) + with_slot(z, k - 1)
    }
}

/// The pile part of a card zone: every entry with a nonzero slot, ordered by
/// slot, ties in zone order.
pub open spec fn pile_order(z: Seq<CardEntry>) -> Seq<CardEntry> {
    pile_below(z, 256)
}

/// The group key of an entry: its id byte, then `known`, as `2 * id + known`.
pub open spec fn group_key(e: CardEntry) -> int {
    (e.id.collector_number as u8) as int * 2 + (if e.known {
        1int
    } else {
        0int
    })
}

/// How many entries outside the pile have group key `k`.
pub open spec fn count_key(z: Seq<CardEntry>, k: int) -> nat
    decreases z.len(),
{
    if z.len() == 0 {
        0
    } else {
        count_key(z.drop_last(), k) + (if z.last().pile_slot == 0 && group_key(z.last()) == k {
            1nat
        } else {
            0nat
        })
    }
}

/// How many of the keys `0..k` have entries.
pub open spec fn n_groups_below(z: Seq<CardEntry>, k: int) -> nat
    decreases k,
{
    if k <= 0 {
        0
    } else {
        n_groups_below(z, k - 1) + (if count_key(z, k - 1) > 0 {
            1nat
        } else {
            0nat
        })
    }
}

/// One group: id byte, flag byte (bit 3 = known), count byte.
pub open spec fn group_bytes(z: Seq<CardEntry>, k: int) -> Seq<u8> {
    seq![(k / 2) as u8, if k % 2 == 1 { 8u8 } else { 0u8 }, count_key(z, k) as u8]
}

/// The groups of the keys `0..k` that have entries, in key order.
pub open spec fn enc_groups_below(z: Seq<CardEntry>, k: int) -> Seq<u8>
    decreases k,
{
    if k <= 0 {
        Seq::empty()
    } else {
        enc_groups_below(z, k - 1) + (if count_key(z, k - 1) > 0 {
            group_bytes(z, k - 1)
        } else {
            Seq::empty()
        })
    }
}

/// A hand, library, graveyard or exile zone.
pub open spec fn enc_card_zone_v3(z: Seq<CardEntry>) -> Seq<u8> {
    enc_card_list_v3(pile_order(z)) + seq![n_groups_below(z, 512) as u8] + enc_groups_below(z, 512)
}

pub open spec fn enc_card_zones_v3(p: PlayerView) -> Seq<u8> {
    enc_card_zone_v3(p.hand) + enc_card_zone_v3(p.library) + enc_card_zone_v3(p.graveyard)
        + enc_card_zone_v3(p.exile)
}

pub open spec fn enc_player_v3(p: PlayerView) -> Seq<u8> {
    enc_name(p.deck_name) + enc_perm_zone_v3(p.lands) + enc_perm_zone_v3(p.permanents)
        + enc_card_zones_v3(p) + seq![p.hand_hidden]
}

/// The whole version-3 encoding of a snapshot.
pub open spec fn spec_encode_v3(s: SnapshotView) -> Seq<u8> {
    enc_header(3, s) + enc_card_list_v3(s.stack) + enc_player_v3(s.us) + enc_player_v3(s.opp)
}

fn copy_entry(e: &CardEntry) -> (r: CardEntry)
    ensures
        r == *e,
{
    CardEntry { id: e.id, pile_slot: e.pile_slot, known: e.known }
}

fn write_cards_v3(b: &mut Vec<u8>, zone: &[CardEntry])
    ensures
        final(b)@ == old(b)@ + enc_card_list_v3(zone@),
{
    b.push(zone.len() as u8);
    let ghost start = b@;
    for i in 0..zone.len()
        invariant
            b@ == start + enc_cards_v3(zone@.take(i as int)),
    {
        let e = &zone[i];
        b.push(e.id.collector_number as u8);
        b.push(card_flag_byte(e));
        proof {
            assert(zone@.take(i + 1).drop_last() == zone@.take(i as int));
        }
    }
    proof {
        assert(zone@.take(zone@.len() as int) == zone@);
    }
}

fn write_perms_v3(b: &mut Vec<u8>, zone: &[PermanentEntry])
    ensures
        final(b)@ == old(b)@ + enc_perm_zone_v3(zone@),
{
    b.push(zone.len() as u8);
    let ghost start = b@;
    for i in 0..zone.len()
        invariant
            b@ == start + enc_perms_v3(zone@.take(i as int)),
    {
        let e = &zone[i];
        let ghost before = b@;
        b.push(e.id.collector_number as u8);
        let mut f = perm_flag_byte(e);
        let has_counters = e.counters != 0;
        let has_loyalty = e.loyalty != 0;
        if has_counters {
            f = f | 0x20;
        }
        if has_loyalty {
            f = f | 0x40;
        }
        b.push(f);
        if has_counters {
            b.push(e.counters);
        }
        if has_loyalty {
            b.push(e.loyalty);
        }
        proof {
            let pf = perm_flags(*e);
            assert(f == perm_flags_v3(*e)) by {
                if has_counters {
                    if has_loyalty {
                        assert(f == (pf | 0x20u8) | 0x40u8);
                    } else {
                        assert(((pf | 0x20u8) | 0u8) == (pf | 0x20u8)) by (bit_vector);
                    }
                } else {
                    if has_loyalty {
                        assert((pf | 0u8) == pf) by (bit_vector);
                    } else {
                        assert(((pf | 0u8) | 0u8) == pf) by (bit_vector);
                    }
                }
            }
            assert(b@ == before + enc_perm_v3(*e));
            assert(zone@.take(i + 1).drop_last() == zone@.take(i as int));
        }
    }
    proof {
        assert(zone@.take(zone@.len() as int) == zone@);
    }
}

/// The pile entries of a zone, ordered by slot.
fn pile_entries(zone: &[CardEntry]) -> (pile: Vec<CardEntry>)
    ensures
        pile@ == pile_order(zone@),
{
    let n = zone.len();
    let mut pile: Vec<CardEntry> = Vec::new();
    let mut k: usize = 1;
    while k < 256
        invariant
            1 <= k <= 256,
            n == zone@.len(),
            pile@ == pile_below(zone@, k as int),
        decreases 256 - k,
    {
        let mut j: usize = 0;
        while j < n
            invariant
                1 <= k < 256,
                j <= n,
                n == zone@.len(),
                pile@ == pile_below(zone@, k as int) + with_slot(zone@.subrange(0, j as int), k as int),
            decreases n - j,
        {
            let ghost before = pile@;
            if zone[j].pile_slot as usize == k {
                pile.push(copy_entry(&zone[j]));
            }
            proof {
                assert(zone@.subrange(0, j + 1).drop_last() == zone@.subrange(0, j as int));
                assert(zone@.subrange(0, j + 1).last() == zone@[j as int]);
            }
            j = j + 1;
        }
        proof {
            assert(zone@.subrange(0, n as int) == zone@);
        }
        k = k + 1;
    }
    pile
}

/// Per group key `0..512`, how many entries outside the pile have it.
fn group_counts(zone: &[CardEntry]) -> (counts: Vec<usize>)
    ensures
        counts@.len() == 512,
        forall|k: int| 0 <= k < 512 ==> #[trigger] counts@[k] == count_key(zone@, k),
{
    let n = zone.len();
    let mut counts: Vec<usize> = Vec::new();
    let mut k: usize = 0;
    while k < 512
        invariant
            k <= 512,
            counts@.len() == k,
            forall|i: int| 0 <= i < k ==> #[trigger] counts@[i] == 0,
        decreases 512 - k,
    {
        counts.push(0);
        k = k + 1;
    }
    let mut j: usize = 0;
    while j < n
        invariant
            j <= n,
            n == zone@.len(),
            counts@.len() == 512,
            forall|i: int|
                0 <= i < 512 ==> #[trigger] counts@[i] == count_key(zone@.subrange(0, j as int), i),
            forall|i: int| 0 <= i < 512 ==> #[trigger] counts@[i] <= j,
        decreases n - j,
    {
        let e = &zone[j];
        let ghost old_counts = counts@;
        proof {
            assert(zone@.subrange(0, j + 1).drop_last() == zone@.subrange(0, j as int));
            assert(zone@.subrange(0, j + 1).last() == zone@[j as int]);
        }
        if e.pile_slot == 0 {
            let id = e.id.collector_number as u8;
            let key: usize = if e.known {
                id as usize * 2 + 1
            } else {
                id as usize * 2
            };
            let c = counts[key];
            counts.set(key, c + 1);
            proof {
                assert forall|i: int| 0 <= i < 512 implies #[trigger] counts@[i] == count_key(
                    zone@.subrange(0, j + 1),
                    i,
                ) by {
                    if i != key {
                        assert(counts@[i] == old_counts[i]);
                    }
                }
                assert forall|i: int| 0 <= i < 512 implies #[trigger] counts@[i] <= j + 1 by {
                    if i != key {
                        assert(counts@[i] == old_counts[i]);
                    }
                }
            }
        }
        j = j + 1;
    }
    proof {
        assert(zone@.subrange(0, n as int) == zone@);
    }
    counts
}

fn write_card_zone_v3(b: &mut Vec<u8>, zone: &[CardEntry])
    ensures
        final(b)@ == old(b)@ + enc_card_zone_v3(zone@),
{
    let ghost start = b@;
    let pile = pile_entries(zone);
    write_cards_v3(b, pile.as_slice());
    let counts = group_counts(zone);
    let mut ng: usize = 0;
    let mut k: usize = 0;
    while k < 512
        invariant
            k <= 512,
            counts@.len() == 512,
            forall|i: int| 0 <= i < 512 ==> #[trigger] counts@[i] == count_key(zone@, i),
            ng == n_groups_below(zone@, k as int),
            ng <= k,
        decreases 512 - k,
    {
        if counts[k] > 0 {
            ng = ng + 1;
        }
        k = k + 1;
    }
    b.push(ng as u8);
    let ghost mid = b@;
    let mut k: usize = 0;
    while k < 512
        invariant
            k <= 512,
            counts@.len() == 512,
            forall|i: int| 0 <= i < 512 ==> #[trigger] counts@[i] == count_key(zone@, i),
            b@ == mid + enc_groups_below(zone@, k as int),
        decreases 512 - k,
    {
        let c = counts[k];
        if c > 0 {
            b.push((k / 2) as u8);
            b.push(
                if k % 2 == 1 {
                    8
                } else {
                    0
                },
            );
            b.push(c as u8);
        }
        k = k + 1;
    }
    proof {
        assert(b@ == start + enc_card_zone_v3(zone@));
    }
}

fn write_player_v3(b: &mut Vec<u8>, p: &PlayerSnapshot)
    ensures
        final(b)@ == old(b)@ + enc_player_v3(p@),
{
    write_name(b, &p.deck_name);
    write_perms_v3(b, p.lands.as_slice());
    write_perms_v3(b, p.permanents.as_slice());
    write_card_zone_v3(b, p.hand.as_slice());
    write_card_zone_v3(b, p.library.as_slice());
    write_card_zone_v3(b, p.graveyard.as_slice());
    write_card_zone_v3(b, p.exile.as_slice());
    b.push(p.hand_hidden);
}

/// Encode a snapshot in the version-3 wire format.
pub fn encode_v3(snap: &BoardSnapshot) -> (r: Vec<u8>)
    ensures
        r@ == spec_encode_v3(snap@),
{
    let mut b: Vec<u8> = Vec::new();
    write_header(&mut b, 3, snap);
    write_cards_v3(&mut b, snap.stack.as_slice());
    write_player_v3(&mut b, &snap.us);
    write_player_v3(&mut b, &snap.opp);
    b
}

// ── Decoding ─────────────────────────────────────────────────────────────────

pub open spec fn p_card_v3(d: Seq<u8>, pos: int) -> Result<(CardEntry, int), SnapshotError> {
    match p_u8(d, pos) {
        Err(e) => Err(e),
        Ok((c, p1)) => match p_u8(d, p1) {
            Err(e) => Err(e),
            Ok((f, p2)) => Ok((card_of(0, c as u16, f), p2)),
        },
    }
}

pub open spec fn p_cards_v3(d: Seq<u8>, pos: int, n: nat) -> Result<
    (Seq<CardEntry>, int),
    SnapshotError,
>
    decreases n,
{
    if n == 0 {
        Ok((Seq::empty(), pos))
    } else {
        match p_cards_v3(d, pos, (n - 1) as nat) {
            Err(e) => Err(e),
            Ok((v, p)) => match p_card_v3(d, p) {
                Err(e) => Err(e),
                Ok((x, q)) => Ok((v.push(x), q)),
            },
        }
    }
}

/// A count byte, then that many cards.
pub open spec fn p_card_list_v3(d: Seq<u8>, pos: int) -> Result<(Seq<CardEntry>, int), SnapshotError> {
    match p_u8(d, pos) {
        Err(e) => Err(e),
        Ok((n, p)) => p_cards_v3(d, p, n as nat),
    }
}

/// A byte that is read only when `present`; 0 otherwise.
pub open spec fn p_opt_u8(d: Seq<u8>, pos: int, present: bool) -> Result<(u8, int), SnapshotError> {
    if present {
        p_u8(d, pos)
    } else {
        Ok((0, pos))
    }
}

pub open spec fn p_perm_v3(d: Seq<u8>, pos: int) -> Result<(PermanentEntry, int), SnapshotError> {
    match p_u8(d, pos) {
        Err(e) => Err(e),
        Ok((c, p1)) => match p_u8(d, p1) {
            Err(e) => Err(e),
            Ok((f, p2)) => match p_opt_u8(d, p2, f & 0x20 != 0) {
                Err(e) => Err(e),
                Ok((counters, p3)) => match p_opt_u8(d, p3, f & 0x40 != 0) {
                    Err(e) => Err(e),
                    Ok((loyalty, p4)) => Ok((perm_of(0, c as u16, f, counters, loyalty), p4)),
                },
            },
        },
    }
}

pub open spec fn p_perms_v3(d: Seq<u8>, pos: int, n: nat) -> Result<
    (Seq<PermanentEntry>, int),
    SnapshotError,
>
    decreases n,
{
    if n == 0 {
        Ok((Seq::empty(), pos))
    } else {
        match p_perms_v3(d, pos, (n - 1) as nat) {
            Err(e) => Err(e),
            Ok((v, p)) => match p_perm_v3(d, p) {
                Err(e) => Err(e),
                Ok((x, q)) => Ok((v.push(x), q)),
            },
        }
    }
}

pub open spec fn p_perm_zone_v3(d: Seq<u8>, pos: int) -> Result<
    (Seq<PermanentEntry>, int),
    SnapshotError,
> {
    match p_u8(d, pos) {
        Err(e) => Err(e),
        Ok((n, p)) => p_perms_v3(d, p, n as nat),
    }
}

/// The entry a group stands for, repeated `count` times.
pub open spec fn group_entries(c: u8, f: u8, count: u8) -> Seq<CardEntry> {
    Seq::new(
        count as nat,
        |_i: int| CardEntry {
            id: CardId { set_index: 0, collector_number: c as u16 },
            pile_slot: 0,
            known: f & 8 != 0,
        },
    )
}

pub open spec fn p_group(d: Seq<u8>, pos: int) -> Result<(Seq<CardEntry>, int), SnapshotError> {
    match p_u8(d, pos) {
        Err(e) => Err(e),
        Ok((c, p1)) => match p_u8(d, p1) {
            Err(e) => Err(e),
            Ok((f, p2)) => match p_u8(d, p2) {
                Err(e) => Err(e),
                Ok((count, p3)) => Ok((group_entries(c, f, count), p3)),
            },
        },
    }
}

pub open spec fn p_groups(d: Seq<u8>, pos: int, n: nat) -> Result<(Seq<CardEntry>, int), SnapshotError>
    decreases n,
{
    if n == 0 {
        Ok((Seq::empty(), pos))
    } else {
        match p_groups(d, pos, (n - 1) as nat) {
            Err(e) => Err(e),
            Ok((v, p)) => match p_group(d, p) {
                Err(e) => Err(e),
                Ok((g, q)) => Ok((v + g, q)),
            },
        }
    }
}

/// A grouped card zone: the pile cards, then every group expanded.
pub open spec fn p_card_zone_v3(d: Seq<u8>, pos: int) -> Result<(Seq<CardEntry>, int), SnapshotError> {
    match p_card_list_v3(d, pos) {
        Err(e) => Err(e),
        Ok((pile, p1)) => match p_u8(d, p1) {
            Err(e) => Err(e),
            Ok((n, p2)) => match p_groups(d, p2, n as nat) {
                Err(e) => Err(e),
                Ok((rest, p3)) => Ok((pile + rest, p3)),
            },
        },
    }
}

pub open spec fn p_card_zones_v3(d: Seq<u8>, pos: int) -> Result<
    (Seq<Seq<CardEntry>>, int),
    SnapshotError,
> {
    match p_card_zone_v3(d, pos) {
        Err(e) => Err(e),
        Ok((hand, p1)) => match p_card_zone_v3(d, p1) {
            Err(e) => Err(e),
            Ok((library, p2)) => match p_card_zone_v3(d, p2) {
                Err(e) => Err(e),
                Ok((graveyard, p3)) => match p_card_zone_v3(d, p3) {
                    Err(e) => Err(e),
                    Ok((exile, p4)) => Ok((seq![hand, library, graveyard, exile], p4)),
                },
            },
        },
    }
}

/// A version-3 player section; life and land drop come from the header.
pub open spec fn p_player_v3(d: Seq<u8>, pos: int) -> Result<(PlayerView, int), SnapshotError> {
    match p_name(d, pos) {
        Err(e) => Err(e),
        Ok((name, p1)) => match p_perm_zone_v3(d, p1) {
            Err(e) => Err(e),
            Ok((lands, p2)) => match p_perm_zone_v3(d, p2) {
                Err(e) => Err(e),
                Ok((permanents, p3)) => match p_card_zones_v3(d, p3) {
                    Err(e) => Err(e),
                    Ok((zones, p4)) => match p_u8(d, p4) {
                        Err(e) => Err(e),
                        Ok((hidden, p5)) => Ok((
                            PlayerView {
                                deck_name: name,
                                life: 0,
                                land_drop_available: false,
                                lands,
                                permanents,
                                hand: zones[0],
                                library: zones[1],
                                graveyard: zones[2],
                                exile: zones[3],
                                hand_hidden: hidden,
                            },
                            p5,
                        )),
                    },
                },
            },
        },
    }
}

pub open spec fn spec_decode_body_v3(d: Seq<u8>) -> Result<SnapshotView, SnapshotError> {
    match p_header_rest(d) {
        Err(e) => Err(e),
        Ok((h, p1)) => match p_card_list_v3(d, p1) {
            Err(e) => Err(e),
            Ok((stack, p2)) => match p_player_v3(d, p2) {
                Err(e) => Err(e),
                Ok((us, p3)) => match p_player_v3(d, p3) {
                    Err(e) => Err(e),
                    Ok((opp, _)) => Ok(assemble(h, stack, us, opp)),
                },
            },
        },
    }
}

/// How `decode_v3` reads a byte string.
pub open spec fn spec_decode_v3(d: Seq<u8>) -> Result<SnapshotView, SnapshotError> {
    match p_u8(d, 0) {
        Err(e) => Err(e),
        Ok((ver, _)) => if ver != 3 {
            Err(SnapshotError::BadVersion(ver))
        } else {
            spec_decode_body_v3(d)
        },
    }
}

proof fn lemma_cards_v3_err_stays(d: Seq<u8>, p: int, k: nat, n: nat)
    requires
        p_cards_v3(d, p, k) is Err,
        k <= n,
    ensures
        p_cards_v3(d, p, n) == p_cards_v3(d, p, k),
    decreases n - k,
{
    if k < n {
        lemma_cards_v3_err_stays(d, p, k, (n - 1) as nat);
    }
}

proof fn lemma_perms_v3_err_stays(d: Seq<u8>, p: int, k: nat, n: nat)
    requires
        p_perms_v3(d, p, k) is Err,
        k <= n,
    ensures
        p_perms_v3(d, p, n) == p_perms_v3(d, p, k),
    decreases n - k,
{
    if k < n {
        lemma_perms_v3_err_stays(d, p, k, (n - 1) as nat);
    }
}

proof fn lemma_groups_err_stays(d: Seq<u8>, p: int, k: nat, n: nat)
    requires
        p_groups(d, p, k) is Err,
        k <= n,
    ensures
        p_groups(d, p, n) == p_groups(d, p, k),
    decreases n - k,
{
    if k < n {
        lemma_groups_err_stays(d, p, k, (n - 1) as nat);
    }
}

fn read_card_v3(c: &mut Cursor<'_>) -> (r: Result<CardEntry, SnapshotError>)
    requires
        old(c).wf(),
    ensures
        final(c).wf(),
        final(c).data@ == old(c).data@,
        r == value_of(p_card_v3(old(c).data@, old(c).pos as int)),
        r is Ok ==> final(c).pos == pos_of(p_card_v3(old(c).data@, old(c).pos as int)),
{
    let coll = c.u8()?;
    let f = c.u8()?;
    Ok(CardEntry { id: CardId::new(0, coll as u16), pile_slot: f & 0x07, known: f & 0x08 != 0 })
}

fn read_cards_v3(c: &mut Cursor<'_>) -> (r: Result<Vec<CardEntry>, SnapshotError>)
    requires
        old(c).wf(),
    ensures
        final(c).wf(),
        final(c).data@ == old(c).data@,
        view_result(r) == value_of(p_card_list_v3(old(c).data@, old(c).pos as int)),
        r is Ok ==> final(c).pos == pos_of(p_card_list_v3(old(c).data@, old(c).pos as int)),
{
    let ghost d = c.data@;
    let ghost start = c.pos as int;
    let n8 = c.u8()?;
    let n = n8 as usize;
    let ghost p0 = c.pos as int;
    let mut v: Vec<CardEntry> = Vec::new();
    for i in 0..n
        invariant
            c.wf(),
            c.data@ == d,
            d == old(c).data@,
            start == old(c).pos,
            n == n8 as usize,
            p_u8(d, start) == Ok::<(u8, int), SnapshotError>((n8, p0)),
            p_cards_v3(d, p0, i as nat) == Ok::<(Seq<CardEntry>, int), SnapshotError>(
                (v@, c.pos as int),
            ),
    {
        match read_card_v3(c) {
            Ok(e) => v.push(e),
            Err(e) => {
                proof {
                    lemma_cards_v3_err_stays(d, p0, (i + 1) as nat, n as nat);
                }
                return Err(e);
            },
        }
    }
    Ok(v)
}

fn read_one_permanent_v3(c: &mut Cursor<'_>) -> (r: Result<PermanentEntry, SnapshotError>)
    requires
        old(c).wf(),
    ensures
        final(c).wf(),
        final(c).data@ == old(c).data@,
        r == value_of(p_perm_v3(old(c).data@, old(c).pos as int)),
        r is Ok ==> final(c).pos == pos_of(p_perm_v3(old(c).data@, old(c).pos as int)),
{
    let coll = c.u8()?;
    let f = c.u8()?;
    let counters = if f & 0x20 != 0 {
        c.u8()?
    } else {
        0
    };
    let loyalty = if f & 0x40 != 0 {
        c.u8()?
    } else {
        0
    };
    Ok(PermanentEntry {
        id: CardId::new(0, coll as u16),
        tapped: f & 0x01 != 0,
        flipped: f & 0x02 != 0,
        pile_slot: (f >> 2) & 0x07,
        counters,
        loyalty,
    })
}

fn read_permanents_v3(c: &mut Cursor<'_>) -> (r: Result<Vec<PermanentEntry>, SnapshotError>)
    requires
        old(c).wf(),
    ensures
        final(c).wf(),
        final(c).data@ == old(c).data@,
        view_result(r) == value_of(p_perm_zone_v3(old(c).data@, old(c).pos as int)),
        r is Ok ==> final(c).pos == pos_of(p_perm_zone_v3(old(c).data@, old(c).pos as int)),
{
    let ghost d = c.data@;
    let ghost start = c.pos as int;
    let n8 = c.u8()?;
    let n = n8 as usize;
    let ghost p0 = c.pos as int;
    let mut v: Vec<PermanentEntry> = Vec::new();
    for i in 0..n
        invariant
            c.wf(),
            c.data@ == d,
            d == old(c).data@,
            start == old(c).pos,
            n == n8 as usize,
            p_u8(d, start) == Ok::<(u8, int), SnapshotError>((n8, p0)),
            p_perms_v3(d, p0, i as nat) == Ok::<(Seq<PermanentEntry>, int), SnapshotError>(
                (v@, c.pos as int),
            ),
    {
        match read_one_permanent_v3(c) {
            Ok(e) => v.push(e),
            Err(e) => {
                proof {
                    lemma_perms_v3_err_stays(d, p0, (i + 1) as nat, n as nat);
                }
                return Err(e);
            },
        }
    }
    Ok(v)
}

/// Read one group and append its entries to `v`.
fn read_group(c: &mut Cursor<'_>, v: &mut Vec<CardEntry>) -> (r: Result<(), SnapshotError>)
    requires
        old(c).wf(),
    ensures
        final(c).wf(),
        final(c).data@ == old(c).data@,
        match p_group(old(c).data@, old(c).pos as int) {
            Ok((g, p)) => r is Ok && final(v)@ == old(v)@ + g && final(c).pos == p,
            Err(e) => r == Err::<(), SnapshotError>(e),
        },
{
    let coll = c.u8()?;
    let f = c.u8()?;
    let count = c.u8()?;
    let known = f & 0x08 != 0;
    let ghost start = v@;
    let ghost g = group_entries(coll, f, count);
    let mut k: u8 = 0;
    while k < count
        invariant
            k <= count,
            v@ == start + g.take(k as int),
            g == group_entries(coll, f, count),
            known == (f & 8 != 0),
        decreases count - k,
    {
        v.push(CardEntry { id: CardId::new(0, coll as u16), pile_slot: 0, known });
        proof {
            assert(g.take(k + 1) == g.take(k as int).push(g[k as int]));
        }
        k = k + 1;
    }
    proof {
        assert(g.take(count as int) == g);
    }
    Ok(())
}

fn read_card_zone_v3(c: &mut Cursor<'_>) -> (r: Result<Vec<CardEntry>, SnapshotError>)
    requires
        old(c).wf(),
    ensures
        final(c).wf(),
        final(c).data@ == old(c).data@,
        view_result(r) == value_of(p_card_zone_v3(old(c).data@, old(c).pos as int)),
        r is Ok ==> final(c).pos == pos_of(p_card_zone_v3(old(c).data@, old(c).pos as int)),
{
    let ghost d = c.data@;
    let mut v = read_cards_v3(c)?;
    let ghost pile = v@;
    let ghost p1 = c.pos as int;
    let n8 = c.u8()?;
    let n = n8 as usize;
    let ghost p2 = c.pos as int;
    let ghost mid = v@;
    let ghost mut gs: Seq<CardEntry> = Seq::empty();
    proof {
        assert(mid + gs == mid);
    }
    for i in 0..n
        invariant
            c.wf(),
            c.data@ == d,
            d == old(c).data@,
            n == n8 as usize,
            p_card_list_v3(d, old(c).pos as int) == Ok::<(Seq<CardEntry>, int), SnapshotError>(
                (pile, p1),
            ),
            p_u8(d, p1) == Ok::<(u8, int), SnapshotError>((n8, p2)),
            mid == pile,
            p_groups(d, p2, i as nat) == Ok::<(Seq<CardEntry>, int), SnapshotError>(
                (gs, c.pos as int),
            ),
            v@ == mid + gs,
    {
        let ghost c0 = c.pos as int;
        match read_group(c, &mut v) {
            Ok(()) => {
                proof {
                    let g = value_of(p_group(d, c0)).unwrap();
                    assert(v@ == mid + (gs + g));
                    gs = gs + g;
                }
            },
            Err(e) => {
                proof {
                    lemma_groups_err_stays(d, p2, (i + 1) as nat, n as nat);
                }
                return Err(e);
            },
        }
    }
    Ok(v)
}

fn read_player_v3(c: &mut Cursor<'_>) -> (r: Result<PlayerSnapshot, SnapshotError>)
    requires
        old(c).wf(),
    ensures
        final(c).wf(),
        final(c).data@ == old(c).data@,
        view_result(r) == value_of(p_player_v3(old(c).data@, old(c).pos as int)),
        r is Ok ==> final(c).pos == pos_of(p_player_v3(old(c).data@, old(c).pos as int)),
{
    let deck_name = read_name(c)?;
    let lands = read_permanents_v3(c)?;
    let permanents = read_permanents_v3(c)?;
    let ghost p3 = c.pos as int;
    let hand = read_card_zone_v3(c)?;
    let library = read_card_zone_v3(c)?;
    let graveyard = read_card_zone_v3(c)?;
    let exile = read_card_zone_v3(c)?;
    let hand_hidden = c.u8()?;
    let p = PlayerSnapshot {
        deck_name,
        life: 0,
        land_drop_available: false,
        lands,
        permanents,
        hand,
        library,
        graveyard,
        exile,
        hand_hidden,
    };
    proof {
        let zs = value_of(p_card_zones_v3(c.data@, p3));
        assert(zs is Ok);
    }
    Ok(p)
}

/// Decode a version-3 snapshot.
pub fn decode_v3(data: &[u8]) -> (r: Result<BoardSnapshot, SnapshotError>)
    ensures
        view_result(r) == spec_decode_v3(data@),
{
    let mut c = Cursor::new(data);
    let ver = c.u8()?;
    if ver != 3 {
        return Err(SnapshotError::BadVersion(ver));
    }
    let turn = c.u8()?;
    let stage = match c.u8()? {
        0 => Stage::Early,
        1 => Stage::Mid,
        2 => Stage::Late,
        x => return Err(SnapshotError::BadStage(x)),
    };
    let flags = c.u8()?;
    let on_play = flags & 1 != 0;
    let us_land_drop = flags & 2 != 0;
    let opp_land_drop = flags & 4 != 0;
    let us_life = c.i16()?;
    let opp_life = c.i16()?;
    let lbdd = c.i16()?;
    let life_before_dd = if lbdd == i16::MIN {
        None
    } else {
        Some(lbdd)
    };
    let stack = read_cards_v3(&mut c)?;
    let mut us = read_player_v3(&mut c)?;
    us.life = us_life;
    us.land_drop_available = us_land_drop;
    let mut opp = read_player_v3(&mut c)?;
    opp.life = opp_life;
    opp.land_drop_available = opp_land_drop;
    Ok(BoardSnapshot { turn, stage, on_play, life_before_dd, stack, us, opp })
}

// ── Read-back law ────────────────────────────────────────────────────────────

/// A card the version-3 format carries: set index 0, an id below 256, and a
/// pile slot that fits in three bits.
pub open spec fn wf_card_v3(e: CardEntry) -> bool {
    e.id.set_index == 0 && e.id.collector_number < 256 && e.pile_slot <= 7
}

pub open spec fn wf_perm_v3(e: PermanentEntry) -> bool {
    e.id.set_index == 0 && e.id.collector_number < 256 && e.pile_slot <= 7
}

/// A list of cards the format carries: at most 255 of them.
pub open spec fn wf_card_list_v3(s: Seq<CardEntry>) -> bool {
    s.len() <= 255 && forall|i: int| 0 <= i < s.len() ==> wf_card_v3(#[trigger] s[i])
}

pub open spec fn wf_perm_zone_v3(s: Seq<PermanentEntry>) -> bool {
    s.len() <= 255 && forall|i: int| 0 <= i < s.len() ==> wf_perm_v3(#[trigger] s[i])
}

proof fn lemma_read_card_v3(d: Seq<u8>, pos: int, e: CardEntry)
    requires
        matches_at(d, pos, enc_card_v3(e)),
        wf_card_v3(e),
    ensures
        p_card_v3(d, pos) == Ok::<(CardEntry, int), SnapshotError>((e, pos + 2)),
{
    reveal(matches_at);
    let b = enc_card_v3(e);
    assert(b[0] == e.id.collector_number as u8);
    assert(b[1] == card_flags(e));
    assert((e.id.collector_number as u8) as u16 == e.id.collector_number);
    lemma_card_flags_roundtrip(e);
}

proof fn lemma_read_cards_v3(d: Seq<u8>, pos: int, s: Seq<CardEntry>)
    requires
        matches_at(d, pos, enc_cards_v3(s)),
        forall|i: int| 0 <= i < s.len() ==> wf_card_v3(#[trigger] s[i]),
    ensures
        p_cards_v3(d, pos, s.len()) == Ok::<(Seq<CardEntry>, int), SnapshotError>(
            (s, pos + enc_cards_v3(s).len()),
        ),
    decreases s.len(),
{
    if s.len() > 0 {
        let init = s.drop_last();
        assert forall|i: int| 0 <= i < init.len() implies wf_card_v3(#[trigger] init[i]) by {
            assert(init[i] == s[i]);
        }
        assert(wf_card_v3(s[s.len() - 1]));
        lemma_matches_split(d, pos, enc_cards_v3(init), enc_card_v3(s.last()));
        lemma_read_cards_v3(d, pos, init);
        lemma_read_card_v3(d, pos + enc_cards_v3(init).len(), s.last());
        assert(init.push(s.last()) == s);
    } else {
        assert(s =~= Seq::empty());
    }
}

proof fn lemma_read_card_list_v3(d: Seq<u8>, pos: int, s: Seq<CardEntry>)
    requires
        matches_at(d, pos, enc_card_list_v3(s)),
        wf_card_list_v3(s),
    ensures
        p_card_list_v3(d, pos) == Ok::<(Seq<CardEntry>, int), SnapshotError>(
            (s, pos + enc_card_list_v3(s).len()),
        ),
{
    reveal(matches_at);
    lemma_matches_split(d, pos, seq![s.len() as u8], enc_cards_v3(s));
    assert(d[pos] == seq![s.len() as u8][0]);
    lemma_read_cards_v3(d, pos + 1, s);
}

proof fn lemma_perm_flags_v3(e: PermanentEntry)
    requires
        wf_perm_v3(e),
    ensures
        (perm_flags_v3(e) & 0x20 != 0) == (e.counters != 0),
        (perm_flags_v3(e) & 0x40 != 0) == (e.loyalty != 0),
        perm_of(0, (e.id.collector_number as u8) as u16, perm_flags_v3(e), e.counters, e.loyalty) == e,
{
    lemma_perm_flags_roundtrip(e);
    let f = perm_flags(e);
    let p = e.pile_slot;
    let t: u8 = if e.tapped { 1 } else { 0 };
    let fl: u8 = if e.flipped { 2 } else { 0 };
    let c: u8 = if e.counters != 0 { 0x20 } else { 0 };
    let l: u8 = if e.loyalty != 0 { 0x40 } else { 0 };
    assert(f == ((t | fl) | ((p & 7) << 2)));
    assert({
        let g = (((t | fl) | ((p & 7) << 2)) | c) | l;
        &&& (g & 0x20 != 0) == (c != 0)
        &&& (g & 0x40 != 0) == (l != 0)
        &&& (g & 1) == t
        &&& (g & 2) == fl
        &&& ((g >> 2) & 7) == p
    }) by (bit_vector)
        requires
            p <= 7,
            t == 0 || t == 1,
            fl == 0 || fl == 2,
            c == 0 || c == 0x20,
            l == 0 || l == 0x40,
    ;
    assert((e.id.collector_number as u8) as u16 == e.id.collector_number);
}

proof fn lemma_read_perm_v3(d: Seq<u8>, pos: int, e: PermanentEntry)
    requires
        matches_at(d, pos, enc_perm_v3(e)),
        wf_perm_v3(e),
    ensures
        p_perm_v3(d, pos) == Ok::<(PermanentEntry, int), SnapshotError>(
            (e, pos + enc_perm_v3(e).len()),
        ),
{
    reveal(matches_at);
    let b = enc_perm_v3(e);
    lemma_perm_flags_v3(e);
    assert(b[0] == e.id.collector_number as u8);
    assert(b[1] == perm_flags_v3(e));
    if e.counters != 0 {
        assert(b[2] == e.counters);
        if e.loyalty != 0 {
            assert(b[3] == e.loyalty);
        }
    } else if e.loyalty != 0 {
        assert(b[2] == e.loyalty);
    }
}

proof fn lemma_read_perms_v3(d: Seq<u8>, pos: int, s: Seq<PermanentEntry>)
    requires
        matches_at(d, pos, enc_perms_v3(s)),
        forall|i: int| 0 <= i < s.len() ==> wf_perm_v3(#[trigger] s[i]),
    ensures
        p_perms_v3(d, pos, s.len()) == Ok::<(Seq<PermanentEntry>, int), SnapshotError>(
            (s, pos + enc_perms_v3(s).len()),
        ),
    decreases s.len(),
{
    if s.len() > 0 {
        let init = s.drop_last();
        assert forall|i: int| 0 <= i < init.len() implies wf_perm_v3(#[trigger] init[i]) by {
            assert(init[i] == s[i]);
        }
        assert(wf_perm_v3(s[s.len() - 1]));
        lemma_matches_split(d, pos, enc_perms_v3(init), enc_perm_v3(s.last()));
        lemma_read_perms_v3(d, pos, init);
        lemma_read_perm_v3(d, pos + enc_perms_v3(init).len(), s.last());
        assert(init.push(s.last()) == s);
    } else {
        assert(s =~= Seq::empty());
    }
}

proof fn lemma_read_perm_zone_v3(d: Seq<u8>, pos: int, s: Seq<PermanentEntry>)
    requires
        matches_at(d, pos, enc_perm_zone_v3(s)),
        wf_perm_zone_v3(s),
    ensures
        p_perm_zone_v3(d, pos) == Ok::<(Seq<PermanentEntry>, int), SnapshotError>(
            (s, pos + enc_perm_zone_v3(s).len()),
        ),
{
    reveal(matches_at);
    lemma_matches_split(d, pos, seq![s.len() as u8], enc_perms_v3(s));
    assert(d[pos] == seq![s.len() as u8][0]);
    lemma_read_perms_v3(d, pos + 1, s);
}

/// The entry a group key stands for.
pub open spec fn key_entry(k: int) -> CardEntry {
    CardEntry {
        id: CardId { set_index: 0, collector_number: (k / 2) as u16 },
        pile_slot: 0,
        known: k % 2 == 1,
    }
}

/// The entries outside the pile as the reader gives them back: for each key
/// `0..k` in order, as many copies of its entry as the zone has.
pub open spec fn grouped_below(z: Seq<CardEntry>, k: int) -> Seq<CardEntry>
    decreases k,
{
    if k <= 0 {
        Seq::empty()
    } else {
        grouped_below(z, k - 1) + Seq::new(count_key(z, k - 1), |_i: int| key_entry(k - 1))
    }
}

/// A card zone the version-3 format can carry: every card is carried, and
/// the pile, the number of groups and every group have at most 255 entries.
pub open spec fn zone_fits_v3(z: Seq<CardEntry>) -> bool {
    &&& forall|i: int| 0 <= i < z.len() ==> wf_card_v3(#[trigger] z[i])
    &&& pile_order(z).len() <= 255
    &&& n_groups_below(z, 512) <= 255
    &&& forall|k: int| 0 <= k < 512 ==> #[trigger] count_key(z, k) <= 255
}

/// A card zone as the reader gives it back: the pile first, by slot, then
/// the other cards grouped by key in key order.
pub open spec fn canon_zone_v3(z: Seq<CardEntry>) -> Seq<CardEntry> {
    pile_order(z) + grouped_below(z, 512)
}

proof fn lemma_with_slot_wf(z: Seq<CardEntry>, k: int)
    requires
        forall|i: int| 0 <= i < z.len() ==> wf_card_v3(#[trigger] z[i]),
    ensures
        forall|i: int| 0 <= i < with_slot(z, k).len() ==> wf_card_v3(#[trigger] with_slot(z, k)[i]),
    decreases z.len(),
{
    if z.len() > 0 {
        let init = z.drop_last();
        assert forall|i: int| 0 <= i < init.len() implies wf_card_v3(#[trigger] init[i]) by {
            assert(init[i] == z[i]);
        }
        lemma_with_slot_wf(init, k);
        assert(wf_card_v3(z[z.len() - 1]));
        let w = with_slot(z, k);
        let a = with_slot(init, k);
        assert forall|i: int| 0 <= i < w.len() implies wf_card_v3(#[trigger] w[i]) by {
            if i < a.len() {
                assert(w[i] == a[i]);
            } else {
                assert(w[i] == z.last());
            }
        }
    }
}

proof fn lemma_pile_wf(z: Seq<CardEntry>, k: int)
    requires
        forall|i: int| 0 <= i < z.len() ==> wf_card_v3(#[trigger] z[i]),
    ensures
        forall|i: int| 0 <= i < pile_below(z, k).len() ==> wf_card_v3(#[trigger] pile_below(z, k)[i]),
    decreases k,
{
    if k > 1 {
        lemma_pile_wf(z, k - 1);
        lemma_with_slot_wf(z, k - 1);
        let p = pile_below(z, k);
        let a = pile_below(z, k - 1);
        let b = with_slot(z, k - 1);
        assert forall|i: int| 0 <= i < p.len() implies wf_card_v3(#[trigger] p[i]) by {
            if i < a.len() {
                assert(p[i] == a[i]);
            } else {
                assert(p[i] == b[i - a.len()]);
            }
        }
    }
}

proof fn lemma_read_group(d: Seq<u8>, pos: int, z: Seq<CardEntry>, k: int)
    requires
        matches_at(d, pos, group_bytes(z, k)),
        0 <= k < 512,
        count_key(z, k) <= 255,
    ensures
        p_group(d, pos) == Ok::<(Seq<CardEntry>, int), SnapshotError>(
            (Seq::new(count_key(z, k), |_i: int| key_entry(k)), pos + 3),
        ),
{
    reveal(matches_at);
    let b = group_bytes(z, k);
    assert(b[0] == (k / 2) as u8 && d[pos] == b[0]);
    assert(b[1] == (if k % 2 == 1 { 8u8 } else { 0u8 }) && d[pos + 1] == b[1]);
    assert(b[2] == count_key(z, k) as u8 && d[pos + 2] == b[2]);
    let f: u8 = if k % 2 == 1 { 8u8 } else { 0u8 };
    assert((f & 8 != 0) == (k % 2 == 1)) by {
        if k % 2 == 1 {
            assert(8u8 & 8u8 != 0) by (bit_vector);
        } else {
            assert(0u8 & 8u8 == 0) by (bit_vector);
        }
    }
    assert((((k / 2) as u8) as u16) == (k / 2) as u16);
    assert(group_entries((k / 2) as u8, f, count_key(z, k) as u8) =~= Seq::new(
        count_key(z, k),
        |_i: int| key_entry(k),
    ));
}

proof fn lemma_read_groups(d: Seq<u8>, pos: int, z: Seq<CardEntry>, k: int)
    requires
        matches_at(d, pos, enc_groups_below(z, k)),
        0 <= k <= 512,
        forall|j: int| 0 <= j < 512 ==> #[trigger] count_key(z, j) <= 255,
    ensures
        p_groups(d, pos, n_groups_below(z, k)) == Ok::<(Seq<CardEntry>, int), SnapshotError>(
            (grouped_below(z, k), pos + enc_groups_below(z, k).len()),
        ),
    decreases k,
{
    if k > 0 {
        let prev = enc_groups_below(z, k - 1);
        let more = if count_key(z, k - 1) > 0 {
            group_bytes(z, k - 1)
        } else {
            Seq::empty()
        };
        lemma_matches_split(d, pos, prev, more);
        lemma_read_groups(d, pos, z, k - 1);
        let g = Seq::new(count_key(z, k - 1), |_i: int| key_entry(k - 1));
        if count_key(z, k - 1) > 0 {
            assert(count_key(z, k - 1) <= 255);
            lemma_read_group(d, pos + prev.len(), z, k - 1);
        } else {
            assert(g =~= Seq::<CardEntry>::empty());
            assert(grouped_below(z, k) =~= grouped_below(z, k - 1));
            assert(enc_groups_below(z, k) =~= prev);
        }
    }
}

proof fn lemma_read_card_zone_v3(d: Seq<u8>, pos: int, z: Seq<CardEntry>)
    requires
        matches_at(d, pos, enc_card_zone_v3(z)),
        zone_fits_v3(z),
    ensures
        p_card_zone_v3(d, pos) == Ok::<(Seq<CardEntry>, int), SnapshotError>(
            (canon_zone_v3(z), pos + enc_card_zone_v3(z).len()),
        ),
{
    let pile = pile_order(z);
    let a = enc_card_list_v3(pile);
    let n = n_groups_below(z, 512);
    let g = enc_groups_below(z, 512);
    lemma_matches_split(d, pos, a + seq![n as u8], g);
    lemma_matches_split(d, pos, a, seq![n as u8]);
    lemma_pile_wf(z, 256);
    lemma_read_card_list_v3(d, pos, pile);
    assert(p_u8(d, pos + a.len()) == Ok::<(u8, int), SnapshotError>((n as u8, pos + a.len() + 1))) by {
        reveal(matches_at);
        assert(seq![n as u8][0] == n as u8);
    }
    lemma_read_groups(d, pos + a.len() + 1, z, 512);
    assert((n as u8) as nat == n);
}

/// A player section the version-3 format can carry.
pub open spec fn player_fits_v3(p: PlayerView) -> bool {
    &&& encode_utf8(p.deck_name).len() <= 255
    &&& wf_perm_zone_v3(p.lands)
    &&& wf_perm_zone_v3(p.permanents)
    &&& zone_fits_v3(p.hand)
    &&& zone_fits_v3(p.library)
    &&& zone_fits_v3(p.graveyard)
    &&& zone_fits_v3(p.exile)
}

/// A player as the reader gives it back: its card zones in reader order.
pub open spec fn canon_player_v3(p: PlayerView) -> PlayerView {
    PlayerView {
        hand: canon_zone_v3(p.hand),
        library: canon_zone_v3(p.library),
        graveyard: canon_zone_v3(p.graveyard),
        exile: canon_zone_v3(p.exile),
        ..p
    }
}

/// A snapshot the version-3 format can carry: every card carried (set
/// index 0, ids below 256, pile slots below 8), every zone within the
/// format's counts, deck names of at most 255 bytes, and a
/// `life_before_dd` other than `Some(i16::MIN)`.
pub open spec fn snapshot_fits_v3(s: SnapshotView) -> bool {
    &&& wf_card_list_v3(s.stack)
    &&& player_fits_v3(s.us)
    &&& player_fits_v3(s.opp)
    &&& s.life_before_dd != Some(i16::MIN)
}

/// A snapshot as the reader gives it back: every card zone in reader order.
pub open spec fn canon_snapshot_v3(s: SnapshotView) -> SnapshotView {
    SnapshotView { us: canon_player_v3(s.us), opp: canon_player_v3(s.opp), ..s }
}

/// A snapshot that version 3 reads back unchanged: one it can carry whose
/// card zones are already in reader order.
pub open spec fn wf_snapshot_v3(s: SnapshotView) -> bool {
    snapshot_fits_v3(s) && canon_snapshot_v3(s) == s
}

proof fn lemma_read_card_zones_v3(d: Seq<u8>, pos: int, p: PlayerView)
    requires
        matches_at(d, pos, enc_card_zones_v3(p)),
        zone_fits_v3(p.hand),
        zone_fits_v3(p.library),
        zone_fits_v3(p.graveyard),
        zone_fits_v3(p.exile),
    ensures
        p_card_zones_v3(d, pos) == Ok::<(Seq<Seq<CardEntry>>, int), SnapshotError>(
            (
                seq![
                    canon_zone_v3(p.hand),
                    canon_zone_v3(p.library),
                    canon_zone_v3(p.graveyard),
                    canon_zone_v3(p.exile),
                ],
                pos + enc_card_zones_v3(p).len(),
            ),
        ),
{
    let a0 = enc_card_zone_v3(p.hand);
    let a1 = a0 + enc_card_zone_v3(p.library);
    let a2 = a1 + enc_card_zone_v3(p.graveyard);
    lemma_matches_split(d, pos, a2, enc_card_zone_v3(p.exile));
    lemma_matches_split(d, pos, a1, enc_card_zone_v3(p.graveyard));
    lemma_matches_split(d, pos, a0, enc_card_zone_v3(p.library));
    lemma_read_card_zone_v3(d, pos, p.hand);
    lemma_read_card_zone_v3(d, pos + a0.len(), p.library);
    lemma_read_card_zone_v3(d, pos + a1.len(), p.graveyard);
    lemma_read_card_zone_v3(d, pos + a2.len(), p.exile);
}

#[verifier::rlimit(40)]
proof fn lemma_read_player_v3(d: Seq<u8>, pos: int, p: PlayerView)
    requires
        matches_at(d, pos, enc_player_v3(p)),
        player_fits_v3(p),
    ensures
        p_player_v3(d, pos) == Ok::<(PlayerView, int), SnapshotError>(
            (
                PlayerView { life: 0, land_drop_available: false, ..canon_player_v3(p) },
                pos + enc_player_v3(p).len(),
            ),
        ),
{
    let z = enc_card_zones_v3(p);
    let a0 = enc_name(p.deck_name);
    let a1 = a0 + enc_perm_zone_v3(p.lands);
    let a2 = a1 + enc_perm_zone_v3(p.permanents);
    let a3 = a2 + z;
    lemma_matches_split(d, pos, a3, seq![p.hand_hidden]);
    lemma_matches_split(d, pos, a2, z);
    lemma_matches_split(d, pos, a1, enc_perm_zone_v3(p.permanents));
    lemma_matches_split(d, pos, a0, enc_perm_zone_v3(p.lands));
    lemma_read_name(d, pos, p.deck_name);
    lemma_read_perm_zone_v3(d, pos + a0.len(), p.lands);
    lemma_read_perm_zone_v3(d, pos + a1.len(), p.permanents);
    lemma_read_card_zones_v3(d, pos + a2.len(), p);
    assert(p_u8(d, pos + a3.len()) == Ok::<(u8, int), SnapshotError>(
        (p.hand_hidden, pos + a3.len() + 1),
    )) by {
        reveal(matches_at);
        assert(seq![p.hand_hidden][0] == p.hand_hidden);
    }
    let zones = seq![
        canon_zone_v3(p.hand),
        canon_zone_v3(p.library),
        canon_zone_v3(p.graveyard),
        canon_zone_v3(p.exile),
    ];
    assert(zones[0] == canon_zone_v3(p.hand) && zones[1] == canon_zone_v3(p.library) && zones[2]
        == canon_zone_v3(p.graveyard) && zones[3] == canon_zone_v3(p.exile));
}

proof fn lemma_decode_body_parts_v3(
    d: Seq<u8>,
    h: Header,
    p1: int,
    stack: Seq<CardEntry>,
    p2: int,
    us: PlayerView,
    p3: int,
    opp: PlayerView,
    p4: int,
)
    requires
        p_header_rest(d) == Ok::<(Header, int), SnapshotError>((h, p1)),
        p_card_list_v3(d, p1) == Ok::<(Seq<CardEntry>, int), SnapshotError>((stack, p2)),
        p_player_v3(d, p2) == Ok::<(PlayerView, int), SnapshotError>((us, p3)),
        p_player_v3(d, p3) == Ok::<(PlayerView, int), SnapshotError>((opp, p4)),
    ensures
        spec_decode_body_v3(d) == Ok::<SnapshotView, SnapshotError>(assemble(h, stack, us, opp)),
{
}

proof fn lemma_decode_written_v3(d: Seq<u8>, s: SnapshotView)
    requires
        snapshot_fits_v3(s),
        matches_at(d, 0, spec_encode_v3(s)),
    ensures
        spec_decode_v3(d) == Ok::<SnapshotView, SnapshotError>(canon_snapshot_v3(s)),
{
    let h = enc_header(3, s);
    let a1 = h + enc_card_list_v3(s.stack);
    let a2 = a1 + enc_player_v3(s.us);
    let a3 = a2 + enc_player_v3(s.opp);
    assert(spec_encode_v3(s) == a3);
    lemma_matches_split(d, 0, a2, enc_player_v3(s.opp));
    lemma_matches_split(d, 0, a1, enc_player_v3(s.us));
    lemma_matches_split(d, 0, h, enc_card_list_v3(s.stack));
    lemma_read_header(d, 3, s);
    assert(h.len() == 10);
    lemma_read_card_list_v3(d, 10, s.stack);
    lemma_read_player_v3(d, a1.len() as int, s.us);
    lemma_read_player_v3(d, a2.len() as int, s.opp);
    let c = canon_snapshot_v3(s);
    let us0 = PlayerView { life: 0, land_drop_available: false, ..c.us };
    let opp0 = PlayerView { life: 0, land_drop_available: false, ..c.opp };
    lemma_decode_body_parts_v3(
        d,
        header_of(s),
        10,
        s.stack,
        a1.len() as int,
        us0,
        a2.len() as int,
        opp0,
        a3.len() as int,
    );
    assert(header_of(c) == header_of(s));
    lemma_assemble_written(c);
}

/// Reading back a version-3 encoding gives the snapshot with its card zones
/// in reader order (the pile by slot, then the other cards grouped by id and
/// `known`), for every snapshot the format can carry.
pub proof fn lemma_decode_encode_v3_canon(s: SnapshotView)
    requires
        snapshot_fits_v3(s),
    ensures
        spec_decode_v3(spec_encode_v3(s)) == Ok::<SnapshotView, SnapshotError>(canon_snapshot_v3(s)),
{
    let d = spec_encode_v3(s);
    assert(matches_at(d, 0, d)) by {
        reveal(matches_at);
    }
    lemma_decode_written_v3(d, s);
}

/// Reading back a version-3 encoding gives the snapshot, for every snapshot
/// the format carries whose card zones are already in reader order.
pub proof fn lemma_decode_encode_v3(s: SnapshotView)
    requires
        wf_snapshot_v3(s),
    ensures
        spec_decode_v3(spec_encode_v3(s)) == Ok::<SnapshotView, SnapshotError>(s),
{
    lemma_decode_encode_v3_canon(s);
}

// ── Order of the non-pile cards ─────────────────────────────────────────────

proof fn lemma_with_slot_concat(x: Seq<CardEntry>, y: Seq<CardEntry>, k: int)
    ensures
        with_slot(x + y, k) == with_slot(x, k) + with_slot(y, k),
    decreases y.len(),
{
    if y.len() == 0 {
        assert(x + y =~= x);
        assert(with_slot(x, k) + Seq::<CardEntry>::empty() =~= with_slot(x, k));
    } else {
        lemma_with_slot_concat(x, y.drop_last(), k);
        assert((x + y).drop_last() =~= x + y.drop_last());
        assert((x + y).last() == y.last());
        let t = if y.last().pile_slot == k {
            seq![y.last()]
        } else {
            Seq::<CardEntry>::empty()
        };
        assert(with_slot(x, k) + with_slot(y.drop_last(), k) + t =~= with_slot(x, k) + (with_slot(
            y.drop_last(),
            k,
        ) + t));
    }
}

proof fn lemma_count_key_concat(x: Seq<CardEntry>, y: Seq<CardEntry>, k: int)
    ensures
        count_key(x + y, k) == count_key(x, k) + count_key(y, k),
    decreases y.len(),
{
    if y.len() == 0 {
        assert(x + y =~= x);
    } else {
        lemma_count_key_concat(x, y.drop_last(), k);
        assert((x + y).drop_last() =~= x + y.drop_last());
        assert((x + y).last() == y.last());
    }
}

proof fn lemma_pair(a: CardEntry, b: CardEntry, k: int)
    ensures
        with_slot(seq![a, b], k) == (if a.pile_slot == k {
            seq![a]
        } else {
            Seq::<CardEntry>::empty()
        }) + (if b.pile_slot == k {
            seq![b]
        } else {
            Seq::<CardEntry>::empty()
        }),
        count_key(seq![a, b], k) == (if a.pile_slot == 0 && group_key(a) == k {
            1int
        } else {
            0int
        }) + (if b.pile_slot == 0 && group_key(b) == k {
            1int
        } else {
            0int
        }),
{
    let ab = seq![a, b];
    let e = Seq::<CardEntry>::empty();
    assert(with_slot(e, k) == e);
    assert(count_key(e, k) == 0);
    assert(ab.drop_last() =~= seq![a]);
    assert(seq![a].drop_last() =~= Seq::<CardEntry>::empty());
    assert(ab.last() == b);
    assert(seq![a].last() == a);
    assert(with_slot(seq![a], k) =~= (if a.pile_slot == k {
        seq![a]
    } else {
        Seq::<CardEntry>::empty()
    })) by {
        assert(with_slot(seq![a], k) == with_slot(e, k) + (if a.pile_slot == k {
            seq![a]
        } else {
            Seq::<CardEntry>::empty()
        }));
    }
    assert(count_key(seq![a], k) == count_key(e, k) + (if a.pile_slot == 0 && group_key(a) == k {
        1nat
    } else {
        0nat
    }));
}

/// `z2` is `z1` with the adjacent entries at `i` and `i + 1` swapped.
pub open spec fn swapped_at(z1: Seq<CardEntry>, z2: Seq<CardEntry>, i: int) -> bool {
    &&& 0 <= i && i + 1 < z1.len()
    &&& z2 == z1.update(i, z1[i + 1]).update(i + 1, z1[i])
}

proof fn lemma_pile_below_eq(z1: Seq<CardEntry>, z2: Seq<CardEntry>, k: int)
    requires
        forall|j: int| 1 <= j < k ==> #[trigger] with_slot(z1, j) == with_slot(z2, j),
    ensures
        pile_below(z1, k) == pile_below(z2, k),
    decreases k,
{
    if k > 1 {
        lemma_pile_below_eq(z1, z2, k - 1);
        assert(with_slot(z1, k - 1) == with_slot(z2, k - 1));
    }
}

proof fn lemma_groups_eq(z1: Seq<CardEntry>, z2: Seq<CardEntry>, k: int)
    requires
        forall|j: int| 0 <= j < k ==> #[trigger] count_key(z1, j) == count_key(z2, j),
    ensures
        n_groups_below(z1, k) == n_groups_below(z2, k),
        enc_groups_below(z1, k) == enc_groups_below(z2, k),
    decreases k,
{
    if k > 0 {
        lemma_groups_eq(z1, z2, k - 1);
        assert(count_key(z1, k - 1) == count_key(z2, k - 1));
    }
}

/// Swapping two neighbouring entries of a card zone, at least one of them
/// outside the pile, leaves the zone's version-3 encoding unchanged: the
/// pile part is written in slot order and the rest as counts per card, so
/// tokens do not depend on the order of the non-pile cards.
pub proof fn lemma_zone_encoding_ignores_non_pile_order(z1: Seq<CardEntry>, z2: Seq<CardEntry>, i: int)
    requires
        swapped_at(z1, z2, i),
        z1[i].pile_slot == 0 || z1[i + 1].pile_slot == 0,
    ensures
        enc_card_zone_v3(z2) == enc_card_zone_v3(z1),
{
    let pre = z1.subrange(0, i);
    let post = z1.subrange(i + 2, z1.len() as int);
    let ab = seq![z1[i], z1[i + 1]];
    let ba = seq![z1[i + 1], z1[i]];
    assert(z1 =~= pre + ab + post);
    assert(z2 =~= pre + ba + post);
    assert forall|j: int| 1 <= j < 256 implies #[trigger] with_slot(z1, j) == with_slot(z2, j) by {
        lemma_with_slot_concat(pre + ab, post, j);
        lemma_with_slot_concat(pre, ab, j);
        lemma_with_slot_concat(pre + ba, post, j);
        lemma_with_slot_concat(pre, ba, j);
        lemma_pair(z1[i], z1[i + 1], j);
        lemma_pair(z1[i + 1], z1[i], j);
        assert(with_slot(ab, j) =~= with_slot(ba, j));
    }
    assert forall|j: int| 0 <= j < 512 implies #[trigger] count_key(z1, j) == count_key(z2, j) by {
        lemma_count_key_concat(pre + ab, post, j);
        lemma_count_key_concat(pre, ab, j);
        lemma_count_key_concat(pre + ba, post, j);
        lemma_count_key_concat(pre, ba, j);
        lemma_pair(z1[i], z1[i + 1], j);
        lemma_pair(z1[i + 1], z1[i], j);
    }
    lemma_pile_below_eq(z1, z2, 256);
    lemma_groups_eq(z1, z2, 512);
}


/// The entries of `z` in the pile (a nonzero slot), in zone order.
pub open spec fn pile_cards(z: Seq<CardEntry>) -> Seq<CardEntry>
    decreases z.len(),
{
    if z.len() == 0 {
        Seq::empty()
    } else {
        pile_cards(z.drop_last()) + (if z.last().pile_slot != 0 {
            seq![z.last()]
        } else {
            Seq::empty()
        })
    }
}

proof fn lemma_with_slot_pile(z: Seq<CardEntry>, j: int)
    requires
        j != 0,
    ensures
        with_slot(z, j) == with_slot(pile_cards(z), j),
    decreases z.len(),
{
    if z.len() > 0 {
        lemma_with_slot_pile(z.drop_last(), j);
        let p = pile_cards(z.drop_last());
        let x = z.last();
        if x.pile_slot != 0 {
            assert(pile_cards(z) =~= p.push(x));
            assert(pile_cards(z).drop_last() =~= p);
        } else {
            assert(pile_cards(z) =~= p);
            assert(with_slot(z, j) =~= with_slot(z.drop_last(), j));
        }
    }
}

proof fn lemma_count_key_remove(z: Seq<CardEntry>, i: int, k: int)
    requires
        0 <= i < z.len(),
    ensures
        count_key(z, k) == count_key(z.remove(i), k) + (if z[i].pile_slot == 0 && group_key(z[i]) == k {
            1int
        } else {
            0int
        }),
{
    let a = z.subrange(0, i);
    let b = z.subrange(i + 1, z.len() as int);
    let one = seq![z[i]];
    assert(z =~= a + one + b);
    assert(z.remove(i) =~= a + b);
    lemma_count_key_concat(a + one, b, k);
    lemma_count_key_concat(a, one, k);
    lemma_count_key_concat(a, b, k);
    assert(one.drop_last() =~= Seq::<CardEntry>::empty());
    assert(count_key(Seq::<CardEntry>::empty(), k) == 0);
    assert(one.last() == z[i]);
    assert(count_key(one, k) == (if z[i].pile_slot == 0 && group_key(z[i]) == k {
        1int
    } else {
        0int
    }));
}

proof fn lemma_count_key_multiset(z1: Seq<CardEntry>, z2: Seq<CardEntry>, k: int)
    requires
        z1.to_multiset() == z2.to_multiset(),
    ensures
        count_key(z1, k) == count_key(z2, k),
    decreases z1.len(),
{
    vstd::seq_lib::to_multiset_len(z1);
    vstd::seq_lib::to_multiset_len(z2);
    if z1.len() > 0 {
        let x = z1.last();
        let d = z1.drop_last();
        assert(z1 =~= d.push(x));
        vstd::seq_lib::to_multiset_build(d, x);
        vstd::seq_lib::to_multiset_contains(z2, x);
        assert(z2.to_multiset().count(x) > 0);
        let i = choose|i: int| 0 <= i < z2.len() && z2[i] == x;
        vstd::seq_lib::to_multiset_remove(z2, i);
        assert(z2.remove(i).to_multiset() =~= d.to_multiset());
        lemma_count_key_multiset(d, z2.remove(i), k);
        lemma_count_key_remove(z2, i, k);
    }
}

/// A card zone's version-3 encoding depends only on its pile part and on
/// how many non-pile cards of each kind it holds: a zone rearranged so that
/// its pile cards keep their order (same cards, as a multiset, and the same
/// pile cards in the same order) encodes the same, so tokens do not depend
/// on the order of the non-pile cards.
pub proof fn lemma_zone_encoding_ignores_rearrangement(z1: Seq<CardEntry>, z2: Seq<CardEntry>)
    requires
        z1.to_multiset() == z2.to_multiset(),
        pile_cards(z1) == pile_cards(z2),
    ensures
        enc_card_zone_v3(z1) == enc_card_zone_v3(z2),
{
    assert forall|j: int| 1 <= j < 256 implies #[trigger] with_slot(z1, j) == with_slot(z2, j) by {
        lemma_with_slot_pile(z1, j);
        lemma_with_slot_pile(z2, j);
    }
    assert forall|j: int| 0 <= j < 512 implies #[trigger] count_key(z1, j) == count_key(z2, j) by {
        lemma_count_key_multiset(z1, z2, j);
    }
    lemma_pile_below_eq(z1, z2, 256);
    lemma_groups_eq(z1, z2, 512);
}

} // verus!
