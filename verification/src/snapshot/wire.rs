//! Version-2 binary encoding of a [`BoardSnapshot`].
//!
//! `spec_encode` states the byte layout; `spec_decode` states how a byte
//! string is read back, error by error. `encode` and `decode` are proved to
//! compute exactly these, and `lemma_decode_encode` proves that reading back
//! what was written gives the snapshot back.
use vstd::prelude::*;
use vstd::utf8::{decode_utf8, encode_utf8, valid_utf8};

use super::{
    spec_stage_byte, BoardSnapshot, CardEntry, CardId, PermanentEntry, PlayerSnapshot, PlayerView,
    SnapshotError, SnapshotView, Stage,
};

verus! {

// ── Byte-level helpers ───────────────────────────────────────────────────────

/// Little-endian bytes of a `u16`.
pub open spec fn le_u16(x: u16) -> Seq<u8> {
    seq![(x % 256) as u8, (x / 256) as u8]
}

/// Little-endian bytes of an `i16` (two's complement).
pub open spec fn le_i16(x: i16) -> Seq<u8> {
    le_u16(x as u16)
}

/// The `u16` whose little-endian bytes are `lo`, `hi`.
pub open spec fn u16_of(lo: u8, hi: u8) -> u16 {
    (lo as int + hi as int * 256) as u16
}

/// The `i16` whose little-endian bytes are `lo`, `hi`.
pub open spec fn i16_of(lo: u8, hi: u8) -> i16 {
    u16_of(lo, hi) as i16
}

/// Flag byte of a card entry: bits 0-2 = pile slot, bit 3 = known.
pub open spec fn card_flags(e: CardEntry) -> u8 {
    if e.known {
        (e.pile_slot & 7) | 8
    } else {
        e.pile_slot & 7
    }
}

/// Flag byte of a permanent entry: bit 0 = tapped, bit 1 = flipped,
/// bits 2-4 = pile slot.
pub open spec fn perm_flags(e: PermanentEntry) -> u8 {
    ((if e.tapped { 1u8 } else { 0u8 }) | (if e.flipped { 2u8 } else { 0u8 })) | ((e.pile_slot
        & 7) << 2)
}

/// Header flag byte: bit 0 = on the play, bit 1 = our land drop available,
/// bit 2 = opponent's land drop available.
pub open spec fn header_flags(s: SnapshotView) -> u8 {
    ((if s.on_play { 1u8 } else { 0u8 }) | (if s.us.land_drop_available { 2u8 } else { 0u8 })) | (
    if s.opp.land_drop_available {
        4u8
    } else {
        0u8
    })
}

/// `life_before_dd` on the wire: `i16::MIN` stands for `None`.
pub open spec fn life_word(o: Option<i16>) -> i16 {
    match o {
        Some(l) => l,
        None => i16::MIN,
    }
}

// ── Encoding ─────────────────────────────────────────────────────────────────

pub open spec fn enc_card(e: CardEntry) -> Seq<u8> {
    le_u16(e.id.set_index) + le_u16(e.id.collector_number) + seq![card_flags(e)]
}

pub open spec fn enc_cards(s: Seq<CardEntry>) -> Seq<u8>
    decreases s.len(),
{
    if s.len() == 0 {
        Seq::empty()
    } else {
        enc_cards(s.drop_last()) + enc_card(s.last())
    }
}

/// A card zone: its length byte, then each card.
pub open spec fn enc_card_zone(s: Seq<CardEntry>) -> Seq<u8> {
    seq![s.len() as u8] + enc_cards(s)
}

pub open spec fn enc_perm(e: PermanentEntry) -> Seq<u8> {
    le_u16(e.id.set_index) + le_u16(e.id.collector_number) + seq![
        perm_flags(e),
        e.counters,
        e.loyalty,
    ]
}

pub open spec fn enc_perms(s: Seq<PermanentEntry>) -> Seq<u8>
    decreases s.len(),
{
    if s.len() == 0 {
        Seq::empty()
    } else {
        enc_perms(s.drop_last()) + enc_perm(s.last())
    }
}

/// A permanent zone: its length byte, then each permanent.
pub open spec fn enc_perm_zone(s: Seq<PermanentEntry>) -> Seq<u8> {
    seq![s.len() as u8] + enc_perms(s)
}

/// Deck name: its UTF-8 byte length, then the bytes.
pub open spec fn enc_name(name: Seq<char>) -> Seq<u8> {
    seq![encode_utf8(name).len() as u8] + encode_utf8(name)
}

/// The four card zones of a player, in wire order.
pub open spec fn enc_card_zones(p: PlayerView) -> Seq<u8> {
    enc_card_zone(p.hand) + enc_card_zone(p.library) + enc_card_zone(p.graveyard) + enc_card_zone(
        p.exile,
    )
}

/// One player's section (life and land drop live in the header).
pub open spec fn enc_player(p: PlayerView) -> Seq<u8> {
    enc_name(p.deck_name) + enc_perm_zone(p.lands) + enc_perm_zone(p.permanents) + enc_card_zones(p)
        + seq![p.hand_hidden]
}

pub open spec fn enc_header(version: u8, s: SnapshotView) -> Seq<u8> {
    seq![version, s.turn, spec_stage_byte(s.stage), header_flags(s)] + le_i16(s.us.life) + le_i16(
        s.opp.life,
    ) + le_i16(life_word(s.life_before_dd))
}

/// The whole version-2 encoding of a snapshot.
pub open spec fn spec_encode(s: SnapshotView) -> Seq<u8> {
    enc_header(2, s) + enc_card_zone(s.stack) + enc_player(s.us) + enc_player(s.opp)
}

fn push_u16(b: &mut Vec<u8>, x: u16)
    ensures
        final(b)@ == old(b)@ + le_u16(x),
{
    b.push((x % 256) as u8);
    b.push((x / 256) as u8);
}

fn push_i16(b: &mut Vec<u8>, x: i16)
    ensures
        final(b)@ == old(b)@ + le_i16(x),
{
    push_u16(b, x as u16);
}

pub(crate) fn push_bytes(b: &mut Vec<u8>, s: &[u8])
    ensures
        final(b)@ == old(b)@ + s@,
{
    let ghost start = b@;
    for i in 0..s.len()
        invariant
            b@ == start + s@.take(i as int),
    {
        b.push(s[i]);
        proof {
            assert(s@.take(i + 1) == s@.take(i as int).push(s@[i as int]));
        }
    }
    proof {
        assert(s@.take(s@.len() as int) == s@);
    }
}

pub(crate) fn card_flag_byte(e: &CardEntry) -> (f: u8)
    ensures
        f == card_flags(*e),
{
    let mut f: u8 = e.pile_slot & 0x07;
    if e.known {
        f = f | 0x08;
    }
    f
}

pub(crate) fn perm_flag_byte(e: &PermanentEntry) -> (f: u8)
    ensures
        f == perm_flags(*e),
{
    let t: u8 = if e.tapped {
        1
    } else {
        0
    };
    let fl: u8 = if e.flipped {
        2
    } else {
        0
    };
    (t | fl) | ((e.pile_slot & 0x07) << 2)
}

fn write_cards(b: &mut Vec<u8>, zone: &[CardEntry])
    ensures
        final(b)@ == old(b)@ + enc_card_zone(zone@),
{
    b.push(zone.len() as u8);
    let ghost start = b@;
    for i in 0..zone.len()
        invariant
            b@ == start + enc_cards(zone@.take(i as int)),
    {
        let e = &zone[i];
        push_u16(b, e.id.set_index);
        push_u16(b, e.id.collector_number);
        b.push(card_flag_byte(e));
        proof {
            assert(zone@.take(i + 1).drop_last() == zone@.take(i as int));
        }
    }
    proof {
        assert(zone@.take(zone@.len() as int) == zone@);
    }
}

fn write_perms(b: &mut Vec<u8>, zone: &[PermanentEntry])
    ensures
        final(b)@ == old(b)@ + enc_perm_zone(zone@),
{
    b.push(zone.len() as u8);
    let ghost start = b@;
    for i in 0..zone.len()
        invariant
            b@ == start + enc_perms(zone@.take(i as int)),
    {
        let e = &zone[i];
        push_u16(b, e.id.set_index);
        push_u16(b, e.id.collector_number);
        b.push(perm_flag_byte(e));
        b.push(e.counters);
        b.push(e.loyalty);
        proof {
            assert(zone@.take(i + 1).drop_last() == zone@.take(i as int));
        }
    }
    proof {
        assert(zone@.take(zone@.len() as int) == zone@);
    }
}

pub(crate) fn write_name(b: &mut Vec<u8>, name: &String)
    ensures
        final(b)@ == old(b)@ + enc_name(name@),
{
    let bytes = name.as_str().as_bytes();
    b.push(bytes.len() as u8);
    push_bytes(b, bytes);
}

fn write_player(b: &mut Vec<u8>, p: &PlayerSnapshot)
    ensures
        final(b)@ == old(b)@ + enc_player(p@),
{
    write_name(b, &p.deck_name);
    write_perms(b, p.lands.as_slice());
    write_perms(b, p.permanents.as_slice());
    write_cards(b, p.hand.as_slice());
    write_cards(b, p.library.as_slice());
    write_cards(b, p.graveyard.as_slice());
    write_cards(b, p.exile.as_slice());
    b.push(p.hand_hidden);
}

pub(crate) fn write_header(b: &mut Vec<u8>, version: u8, snap: &BoardSnapshot)
    ensures
        final(b)@ == old(b)@ + enc_header(version, snap@),
{
    b.push(version);
    b.push(snap.turn);
    b.push(snap.stage.to_byte());
    let a: u8 = if snap.on_play {
        1
    } else {
        0
    };
    let u: u8 = if snap.us.land_drop_available {
        2
    } else {
        0
    };
    let o: u8 = if snap.opp.land_drop_available {
        4
    } else {
        0
    };
    b.push((a | u) | o);
    push_i16(b, snap.us.life);
    push_i16(b, snap.opp.life);
    let lbdd = match snap.life_before_dd {
        Some(l) => l,
        None => i16::MIN,
    };
    push_i16(b, lbdd);
}

/// Encode a snapshot in the version-2 wire format.
pub fn encode(snap: &BoardSnapshot) -> (r: Vec<u8>)
    ensures
        r@ == spec_encode(snap@),
{
    let mut b: Vec<u8> = Vec::new();
    write_header(&mut b, 2, snap);
    write_cards(&mut b, snap.stack.as_slice());
    write_player(&mut b, &snap.us);
    write_player(&mut b, &snap.opp);
    b
}


// ── Decoding ─────────────────────────────────────────────────────────────────
//
// A reader state is a position into the byte string; each `p_*` function
// reads one item starting at `pos` and yields it with the position after it,
// or the error the reader stops with.

/// The value of a read, without its end position.
pub open spec fn value_of<T>(r: Result<(T, int), SnapshotError>) -> Result<T, SnapshotError> {
    match r {
        Ok((v, _)) => Ok(v),
        Err(e) => Err(e),
    }
}

/// The end position of a successful read.
pub open spec fn pos_of<T>(r: Result<(T, int), SnapshotError>) -> int {
    match r {
        Ok((_, p)) => p,
        Err(_) => 0,
    }
}

/// A read result with the value replaced by its view.
pub open spec fn view_result<T: View>(r: Result<T, SnapshotError>) -> Result<T::V, SnapshotError> {
    match r {
        Ok(v) => Ok(v@),
        Err(e) => Err(e),
    }
}

pub open spec fn p_u8(d: Seq<u8>, pos: int) -> Result<(u8, int), SnapshotError> {
    if pos < d.len() {
        Ok((d[pos], pos + 1))
    } else {
        Err(SnapshotError::TooShort)
    }
}

pub open spec fn p_u16(d: Seq<u8>, pos: int) -> Result<(u16, int), SnapshotError> {
    if pos + 2 <= d.len() {
        Ok((u16_of(d[pos], d[pos + 1]), pos + 2))
    } else {
        Err(SnapshotError::TooShort)
    }
}

pub open spec fn p_i16(d: Seq<u8>, pos: int) -> Result<(i16, int), SnapshotError> {
    if pos + 2 <= d.len() {
        Ok((i16_of(d[pos], d[pos + 1]), pos + 2))
    } else {
        Err(SnapshotError::TooShort)
    }
}

pub open spec fn p_bytes(d: Seq<u8>, pos: int, n: int) -> Result<(Seq<u8>, int), SnapshotError> {
    if pos + n <= d.len() {
        Ok((d.subrange(pos, pos + n), pos + n))
    } else {
        Err(SnapshotError::TooShort)
    }
}

/// The card entry a flag byte and an id stand for.
pub open spec fn card_of(set_index: u16, coll: u16, f: u8) -> CardEntry {
    CardEntry {
        id: CardId { set_index, collector_number: coll },
        pile_slot: f & 7,
        known: f & 8 != 0,
    }
}

/// The permanent entry a flag byte, an id and two counters stand for.
pub open spec fn perm_of(set_index: u16, coll: u16, f: u8, counters: u8, loyalty: u8) -> PermanentEntry {
    PermanentEntry {
        id: CardId { set_index, collector_number: coll },
        tapped: f & 1 != 0,
        flipped: f & 2 != 0,
        pile_slot: (f >> 2) & 7,
        counters,
        loyalty,
    }
}

pub open spec fn p_card(d: Seq<u8>, pos: int) -> Result<(CardEntry, int), SnapshotError> {
    match p_u16(d, pos) {
        Err(e) => Err(e),
        Ok((s, p1)) => match p_u16(d, p1) {
            Err(e) => Err(e),
            Ok((c, p2)) => match p_u8(d, p2) {
                Err(e) => Err(e),
                Ok((f, p3)) => Ok((card_of(s, c, f), p3)),
            },
        },
    }
}

pub open spec fn p_cards(d: Seq<u8>, pos: int, n: nat) -> Result<(Seq<CardEntry>, int), SnapshotError>
    decreases n,
{
    if n == 0 {
        Ok((Seq::empty(), pos))
    } else {
        match p_cards(d, pos, (n - 1) as nat) {
            Err(e) => Err(e),
            Ok((v, p)) => match p_card(d, p) {
                Err(e) => Err(e),
                Ok((x, q)) => Ok((v.push(x), q)),
            },
        }
    }
}

pub open spec fn p_card_zone(d: Seq<u8>, pos: int) -> Result<(Seq<CardEntry>, int), SnapshotError> {
    match p_u8(d, pos) {
        Err(e) => Err(e),
        Ok((n, p)) => p_cards(d, p, n as nat),
    }
}

pub open spec fn p_perm(d: Seq<u8>, pos: int) -> Result<(PermanentEntry, int), SnapshotError> {
    match p_u16(d, pos) {
        Err(e) => Err(e),
        Ok((s, p1)) => match p_u16(d, p1) {
            Err(e) => Err(e),
            Ok((c, p2)) => match p_u8(d, p2) {
                Err(e) => Err(e),
                Ok((f, p3)) => match p_u8(d, p3) {
                    Err(e) => Err(e),
                    Ok((counters, p4)) => match p_u8(d, p4) {
                        Err(e) => Err(e),
                        Ok((loyalty, p5)) => Ok((perm_of(s, c, f, counters, loyalty), p5)),
                    },
                },
            },
        },
    }
}

pub open spec fn p_perms(d: Seq<u8>, pos: int, n: nat) -> Result<(Seq<PermanentEntry>, int), SnapshotError>
    decreases n,
{
    if n == 0 {
        Ok((Seq::empty(), pos))
    } else {
        match p_perms(d, pos, (n - 1) as nat) {
            Err(e) => Err(e),
            Ok((v, p)) => match p_perm(d, p) {
                Err(e) => Err(e),
                Ok((x, q)) => Ok((v.push(x), q)),
            },
        }
    }
}

pub open spec fn p_perm_zone(d: Seq<u8>, pos: int) -> Result<(Seq<PermanentEntry>, int), SnapshotError> {
    match p_u8(d, pos) {
        Err(e) => Err(e),
        Ok((n, p)) => p_perms(d, p, n as nat),
    }
}

/// A deck name: length byte, then that many bytes, which must be UTF-8.
pub open spec fn p_name(d: Seq<u8>, pos: int) -> Result<(Seq<char>, int), SnapshotError> {
    match p_u8(d, pos) {
        Err(e) => Err(e),
        Ok((n, p1)) => match p_bytes(d, p1, n as int) {
            Err(e) => Err(e),
            Ok((raw, p2)) => if valid_utf8(raw) {
                Ok((decode_utf8(raw), p2))
            } else {
                Err(SnapshotError::BadUtf8)
            },
        },
    }
}

/// The four card zones of a player, in wire order.
pub open spec fn p_card_zones(d: Seq<u8>, pos: int) -> Result<(Seq<Seq<CardEntry>>, int), SnapshotError> {
    match p_card_zone(d, pos) {
        Err(e) => Err(e),
        Ok((hand, p1)) => match p_card_zone(d, p1) {
            Err(e) => Err(e),
            Ok((library, p2)) => match p_card_zone(d, p2) {
                Err(e) => Err(e),
                Ok((graveyard, p3)) => match p_card_zone(d, p3) {
                    Err(e) => Err(e),
                    Ok((exile, p4)) => Ok((seq![hand, library, graveyard, exile], p4)),
                },
            },
        },
    }
}

/// A player section. Life and land drop are not part of it; they come back
/// as 0 and false and are filled in from the header.
pub open spec fn p_player(d: Seq<u8>, pos: int) -> Result<(PlayerView, int), SnapshotError> {
    match p_name(d, pos) {
        Err(e) => Err(e),
        Ok((name, p1)) => match p_perm_zone(d, p1) {
            Err(e) => Err(e),
            Ok((lands, p2)) => match p_perm_zone(d, p2) {
                Err(e) => Err(e),
                Ok((permanents, p3)) => match p_card_zones(d, p3) {
                    Err(e) => Err(e),
                    Ok((zones, p4)) => match p_u8(d, p4) {
                        Err(e) => Err(e),
                        Ok((hidden, p5)) => Ok((
                            PlayerView {
                                deck_name: name,
                                life: 0,
                                land_drop_available: false,
                                lands,
                                permanents,
                                hand: zones[0],
                                library: zones[1],
                                graveyard: zones[2],
                                exile: zones[3],
                                hand_hidden: hidden,
                            },
                            p5,
                        )),
                    },
                },
            },
        },
    }
}

/// The header after the version byte: turn, stage, flags, three lives.
pub struct Header {
    pub turn: u8,
    pub stage: Stage,
    pub flags: u8,
    pub us_life: i16,
    pub opp_life: i16,
    pub lbdd: i16,
}

pub open spec fn stage_of(b: u8) -> Stage {
    if b == 0 {
        Stage::Early
    } else if b == 1 {
        Stage::Mid
    } else {
        Stage::Late
    }
}

/// Header fields that follow the version byte at position 1.
pub open spec fn p_header_rest(d: Seq<u8>) -> Result<(Header, int), SnapshotError> {
    match p_u8(d, 1) {
        Err(e) => Err(e),
        Ok((turn, p1)) => match p_u8(d, p1) {
            Err(e) => Err(e),
            Ok((sb, p2)) => if sb > 2 {
                Err(SnapshotError::BadStage(sb))
            } else {
                match p_u8(d, p2) {
                    Err(e) => Err(e),
                    Ok((flags, p3)) => match p_i16(d, p3) {
                        Err(e) => Err(e),
                        Ok((us_life, p4)) => match p_i16(d, p4) {
                            Err(e) => Err(e),
                            Ok((opp_life, p5)) => match p_i16(d, p5) {
                                Err(e) => Err(e),
                                Ok((lbdd, p6)) => Ok((
                                    Header { turn, stage: stage_of(sb), flags, us_life, opp_life, lbdd },
                                    p6,
                                )),
                            },
                        },
                    },
                }
            },
        },
    }
}

/// Assemble a snapshot from its header and sections.
pub open spec fn assemble(h: Header, stack: Seq<CardEntry>, us: PlayerView, opp: PlayerView) -> SnapshotView {
    SnapshotView {
        turn: h.turn,
        stage: h.stage,
        on_play: h.flags & 1 != 0,
        life_before_dd: if h.lbdd == i16::MIN { None } else { Some(h.lbdd) },
        stack,
        us: PlayerView { life: h.us_life, land_drop_available: h.flags & 2 != 0, ..us },
        opp: PlayerView { life: h.opp_life, land_drop_available: h.flags & 4 != 0, ..opp },
    }
}

/// Everything after the version byte, read with the given zone readers.
pub open spec fn spec_decode_body(d: Seq<u8>) -> Result<SnapshotView, SnapshotError> {
    match p_header_rest(d) {
        Err(e) => Err(e),
        Ok((h, p1)) => match p_card_zone(d, p1) {
            Err(e) => Err(e),
            Ok((stack, p2)) => match p_player(d, p2) {
                Err(e) => Err(e),
                Ok((us, p3)) => match p_player(d, p3) {
                    Err(e) => Err(e),
                    Ok((opp, _)) => Ok(assemble(h, stack, us, opp)),
                },
            },
        },
    }
}

/// How `decode` reads a byte string.
pub open spec fn spec_decode(d: Seq<u8>) -> Result<SnapshotView, SnapshotError> {
    match p_u8(d, 0) {
        Err(e) => Err(e),
        Ok((ver, _)) => if ver != 2 {
            Err(SnapshotError::BadVersion(ver))
        } else {
            spec_decode_body(d)
        },
    }
}

// ── Byte cursor ──────────────────────────────────────────────────────────────

pub(crate) struct Cursor<'a> {
    pub(crate) data: &'a [u8],
    pub(crate) pos: usize,
}

impl<'a> Cursor<'a> {
    pub(crate) open spec fn wf(&self) -> bool {
        self.pos <= self.data@.len()
    }

    pub(crate) fn new(data: &'a [u8]) -> (r: Self)
        ensures
            r.data@ == data@,
            r.pos == 0,
    {
        Cursor { data, pos: 0 }
    }

    pub(crate) fn u8(&mut self) -> (r: Result<u8, SnapshotError>)
        requires
            old(self).wf(),
        ensures
            final(self).wf(),
            final(self).data@ == old(self).data@,
            r == value_of(p_u8(old(self).data@, old(self).pos as int)),
            r is Ok ==> final(self).pos == pos_of(p_u8(old(self).data@, old(self).pos as int)),
    {
        if self.pos >= self.data.len() {
            return Err(SnapshotError::TooShort);
        }
        let v = self.data[self.pos];
        self.pos = self.pos + 1;
        Ok(v)
    }

    pub(crate) fn u16(&mut self) -> (r: Result<u16, SnapshotError>)
        requires
            old(self).wf(),
        ensures
            final(self).wf(),
            final(self).data@ == old(self).data@,
            r == value_of(p_u16(old(self).data@, old(self).pos as int)),
            r is Ok ==> final(self).pos == pos_of(p_u16(old(self).data@, old(self).pos as int)),
    {
        if self.data.len() - self.pos < 2 {
            return Err(SnapshotError::TooShort);
        }
        let lo = self.data[self.pos];
        let hi = self.data[self.pos + 1];
        let v: u16 = lo as u16 + (hi as u16) * 256;
        self.pos = self.pos + 2;
        Ok(v)
    }

    pub(crate) fn i16(&mut self) -> (r: Result<i16, SnapshotError>)
        requires
            old(self).wf(),
        ensures
            final(self).wf(),
            final(self).data@ == old(self).data@,
            r == value_of(p_i16(old(self).data@, old(self).pos as int)),
            r is Ok ==> final(self).pos == pos_of(p_i16(old(self).data@, old(self).pos as int)),
    {
        if self.data.len() - self.pos < 2 {
            return Err(SnapshotError::TooShort);
        }
        let lo = self.data[self.pos];
        let hi = self.data[self.pos + 1];
        let v: u16 = lo as u16 + (hi as u16) * 256;
        self.pos = self.pos + 2;
        Ok(v as i16)
    }

    pub(crate) fn bytes(&mut self, n: usize) -> (r: Result<&'a [u8], SnapshotError>)
        requires
            old(self).wf(),
        ensures
            final(self).wf(),
            final(self).data@ == old(self).data@,
            view_result(r) == value_of(p_bytes(old(self).data@, old(self).pos as int, n as int)),
            r is Ok ==> final(self).pos == pos_of(
                p_bytes(old(self).data@, old(self).pos as int, n as int),
            ),
    {
        if self.data.len() - self.pos < n {
            return Err(SnapshotError::TooShort);
        }
        let s = vstd::slice::slice_subrange(self.data, self.pos, self.pos + n);
        self.pos = self.pos + n;
        Ok(s)
    }
}

/// `std::str::from_utf8`: `Some` exactly when the bytes are valid UTF-8, and
/// then the text they decode to.
#[verifier::external_body]
fn str_from_utf8(v: &[u8]) -> (r: Option<&str>)
    ensures
        r is Some <==> valid_utf8(v@),
        r matches Some(s) ==> s@ == decode_utf8(v@),
{
    match std::str::from_utf8(v) {
        Ok(s) => Some(s),
        Err(_) => None,
    }
}

pub(crate) fn read_name(c: &mut Cursor<'_>) -> (r: Result<String, SnapshotError>)
    requires
        old(c).wf(),
    ensures
        final(c).wf(),
        final(c).data@ == old(c).data@,
        view_result(r) == value_of(p_name(old(c).data@, old(c).pos as int)),
        r is Ok ==> final(c).pos == pos_of(p_name(old(c).data@, old(c).pos as int)),
{
    let name_len = c.u8()? as usize;
    let raw = c.bytes(name_len)?;
    match str_from_utf8(raw) {
        Some(s) => Ok(s.to_owned()),
        None => Err(SnapshotError::BadUtf8),
    }
}

fn read_cards(c: &mut Cursor<'_>) -> (r: Result<Vec<CardEntry>, SnapshotError>)
    requires
        old(c).wf(),
    ensures
        final(c).wf(),
        final(c).data@ == old(c).data@,
        view_result(r) == value_of(p_card_zone(old(c).data@, old(c).pos as int)),
        r is Ok ==> final(c).pos == pos_of(p_card_zone(old(c).data@, old(c).pos as int)),
{
    let ghost d = c.data@;
    let ghost start = c.pos as int;
    let n8 = c.u8()?;
    let n = n8 as usize;
    let ghost p0 = c.pos as int;
    let mut v: Vec<CardEntry> = Vec::new();
    for i in 0..n
        invariant
            c.wf(),
            c.data@ == d,
            d == old(c).data@,
            start == old(c).pos,
            n == n8 as usize,
            p_u8(d, start) == Ok::<(u8, int), SnapshotError>((n8, p0)),
            p_cards(d, p0, i as nat) == Ok::<(Seq<CardEntry>, int), SnapshotError>((v@, c.pos as int)),
    {
        let set_index = match c.u16() {
            Ok(x) => x,
            Err(e) => {
                proof { lemma_cards_err_stays(d, p0, (i + 1) as nat, n as nat); }
                return Err(e);
            },
        };
        let coll = match c.u16() {
            Ok(x) => x,
            Err(e) => {
                proof { lemma_cards_err_stays(d, p0, (i + 1) as nat, n as nat); }
                return Err(e);
            },
        };
        let f = match c.u8() {
            Ok(x) => x,
            Err(e) => {
                proof { lemma_cards_err_stays(d, p0, (i + 1) as nat, n as nat); }
                return Err(e);
            },
        };
        v.push(CardEntry { id: CardId::new(set_index, coll), pile_slot: f & 0x07, known: f & 0x08 != 0 });
    }
    Ok(v)
}

fn read_permanents(c: &mut Cursor<'_>) -> (r: Result<Vec<PermanentEntry>, SnapshotError>)
    requires
        old(c).wf(),
    ensures
        final(c).wf(),
        final(c).data@ == old(c).data@,
        view_result(r) == value_of(p_perm_zone(old(c).data@, old(c).pos as int)),
        r is Ok ==> final(c).pos == pos_of(p_perm_zone(old(c).data@, old(c).pos as int)),
{
    let ghost d = c.data@;
    let ghost start = c.pos as int;
    let n8 = c.u8()?;
    let n = n8 as usize;
    let ghost p0 = c.pos as int;
    let mut v: Vec<PermanentEntry> = Vec::new();
    for i in 0..n
        invariant
            c.wf(),
            c.data@ == d,
            d == old(c).data@,
            start == old(c).pos,
            n == n8 as usize,
            p_u8(d, start) == Ok::<(u8, int), SnapshotError>((n8, p0)),
            p_perms(d, p0, i as nat) == Ok::<(Seq<PermanentEntry>, int), SnapshotError>((v@, c.pos as int)),
    {
        let r = read_one_permanent(c);
        match r {
            Ok(e) => v.push(e),
            Err(e) => {
                proof { lemma_perms_err_stays(d, p0, (i + 1) as nat, n as nat); }
                return Err(e);
            },
        }
    }
    Ok(v)
}

fn read_one_permanent(c: &mut Cursor<'_>) -> (r: Result<PermanentEntry, SnapshotError>)
    requires
        old(c).wf(),
    ensures
        final(c).wf(),
        final(c).data@ == old(c).data@,
        r == value_of(p_perm(old(c).data@, old(c).pos as int)),
        r is Ok ==> final(c).pos == pos_of(p_perm(old(c).data@, old(c).pos as int)),
{
    let set_index = c.u16()?;
    let coll = c.u16()?;
    let f = c.u8()?;
    let counters = c.u8()?;
    let loyalty = c.u8()?;
    Ok(PermanentEntry {
        id: CardId::new(set_index, coll),
        tapped: f & 1 != 0,
        flipped: f & 2 != 0,
        pile_slot: (f >> 2) & 0x07,
        counters,
        loyalty,
    })
}

proof fn lemma_cards_err_stays(d: Seq<u8>, p: int, k: nat, n: nat)
    requires
        p_cards(d, p, k) is Err,
        k <= n,
    ensures
        p_cards(d, p, n) == p_cards(d, p, k),
    decreases n - k,
{
    if k < n {
        lemma_cards_err_stays(d, p, k, (n - 1) as nat);
    }
}

proof fn lemma_perms_err_stays(d: Seq<u8>, p: int, k: nat, n: nat)
    requires
        p_perms(d, p, k) is Err,
        k <= n,
    ensures
        p_perms(d, p, n) == p_perms(d, p, k),
    decreases n - k,
{
    if k < n {
        lemma_perms_err_stays(d, p, k, (n - 1) as nat);
    }
}

fn read_player(c: &mut Cursor<'_>) -> (r: Result<PlayerSnapshot, SnapshotError>)
    requires
        old(c).wf(),
    ensures
        final(c).wf(),
        final(c).data@ == old(c).data@,
        view_result(r) == value_of(p_player(old(c).data@, old(c).pos as int)),
        r is Ok ==> final(c).pos == pos_of(p_player(old(c).data@, old(c).pos as int)),
{
    let deck_name = read_name(c)?;
    let lands = read_permanents(c)?;
    let permanents = read_permanents(c)?;
    let ghost p3 = c.pos as int;
    let hand = read_cards(c)?;
    let library = read_cards(c)?;
    let graveyard = read_cards(c)?;
    let exile = read_cards(c)?;
    let hand_hidden = c.u8()?;
    let p = PlayerSnapshot {
        deck_name,
        life: 0,
        land_drop_available: false,
        lands,
        permanents,
        hand,
        library,
        graveyard,
        exile,
        hand_hidden,
    };
    proof {
        let zs = value_of(p_card_zones(c.data@, p3));
        assert(zs is Ok);
    }
    Ok(p)
}

/// Decode a version-2 snapshot.
pub fn decode(data: &[u8]) -> (r: Result<BoardSnapshot, SnapshotError>)
    ensures
        view_result(r) == spec_decode(data@),
{
    let mut c = Cursor::new(data);
    let ver = c.u8()?;
    if ver != 2 {
        return Err(SnapshotError::BadVersion(ver));
    }
    decode_body(&mut c)
}

/// Read everything after the version byte.
pub(crate) fn decode_body(c: &mut Cursor<'_>) -> (r: Result<BoardSnapshot, SnapshotError>)
    requires
        old(c).pos == 1,
        old(c).wf(),
    ensures
        view_result(r) == spec_decode_body(old(c).data@),
{
    let turn = c.u8()?;
    let stage = match c.u8()? {
        0 => Stage::Early,
        1 => Stage::Mid,
        2 => Stage::Late,
        x => return Err(SnapshotError::BadStage(x)),
    };
    let flags = c.u8()?;
    let on_play = flags & 1 != 0;
    let us_land_drop = flags & 2 != 0;
    let opp_land_drop = flags & 4 != 0;
    let us_life = c.i16()?;
    let opp_life = c.i16()?;
    let lbdd = c.i16()?;
    let life_before_dd = if lbdd == i16::MIN {
        None
    } else {
        Some(lbdd)
    };
    let stack = read_cards(c)?;
    let mut us = read_player(c)?;
    us.life = us_life;
    us.land_drop_available = us_land_drop;
    let mut opp = read_player(c)?;
    opp.life = opp_life;
    opp.land_drop_available = opp_land_drop;
    Ok(BoardSnapshot { turn, stage, on_play, life_before_dd, stack, us, opp })
}


// ── Read-back law ────────────────────────────────────────────────────────────

pub open spec fn wf_card(e: CardEntry) -> bool {
    e.pile_slot <= 7
}

pub open spec fn wf_perm(e: PermanentEntry) -> bool {
    e.pile_slot <= 7
}

/// A card zone the wire format can carry: at most 255 entries, each pile
/// slot within the three bits it is stored in.
pub open spec fn wf_card_zone(s: Seq<CardEntry>) -> bool {
    s.len() <= 255 && forall|i: int| 0 <= i < s.len() ==> wf_card(#[trigger] s[i])
}

pub open spec fn wf_perm_zone(s: Seq<PermanentEntry>) -> bool {
    s.len() <= 255 && forall|i: int| 0 <= i < s.len() ==> wf_perm(#[trigger] s[i])
}

/// A player section the wire format can carry.
pub open spec fn wf_player(p: PlayerView) -> bool {
    &&& encode_utf8(p.deck_name).len() <= 255
    &&& wf_perm_zone(p.lands)
    &&& wf_perm_zone(p.permanents)
    &&& wf_card_zone(p.hand)
    &&& wf_card_zone(p.library)
    &&& wf_card_zone(p.graveyard)
    &&& wf_card_zone(p.exile)
}

/// A snapshot the version-2 format carries without loss: zones of at most
/// 255 entries, pile slots below 8, deck names of at most 255 UTF-8 bytes,
/// and a `life_before_dd` other than `Some(i16::MIN)` (that value is the
/// wire's stand-in for `None`).
pub open spec fn wf_snapshot(s: SnapshotView) -> bool {
    &&& wf_card_zone(s.stack)
    &&& wf_player(s.us)
    &&& wf_player(s.opp)
    &&& s.life_before_dd != Some(i16::MIN)
}

/// `b` occurs in `d` starting at `pos`.
#[verifier::opaque]
pub open spec fn matches_at(d: Seq<u8>, pos: int, b: Seq<u8>) -> bool {
    &&& 0 <= pos
    &&& pos + b.len() <= d.len()
    &&& forall|k: int| 0 <= k < b.len() ==> d[pos + k] == #[trigger] b[k]
}

pub(crate) proof fn lemma_matches_split(d: Seq<u8>, pos: int, a: Seq<u8>, b: Seq<u8>)
    requires
        matches_at(d, pos, a + b),
    ensures
        matches_at(d, pos, a),
        matches_at(d, pos + a.len(), b),
{
    reveal(matches_at);
    assert forall|k: int| 0 <= k < a.len() implies d[pos + k] == #[trigger] a[k] by {
        assert((a + b)[k] == a[k]);
    }
    assert forall|k: int| 0 <= k < b.len() implies d[pos + a.len() + k] == #[trigger] b[k] by {
        assert((a + b)[a.len() + k] == b[k]);
    }
}

proof fn lemma_u16_roundtrip(x: u16)
    ensures
        u16_of(le_u16(x)[0], le_u16(x)[1]) == x,
{
    assert(((x % 256) as u8) as int + ((x / 256) as u8) as int * 256 == x as int) by (nonlinear_arith);
}

proof fn lemma_i16_roundtrip(x: i16)
    ensures
        i16_of(le_i16(x)[0], le_i16(x)[1]) == x,
{
    lemma_u16_roundtrip(x as u16);
    assert(((x as u16) as i16) == x) by (bit_vector);
}

pub(crate) proof fn lemma_card_flags_roundtrip(e: CardEntry)
    requires
        wf_card(e),
    ensures
        card_of(e.id.set_index, e.id.collector_number, card_flags(e)) == e,
{
    let p = e.pile_slot;
    if e.known {
        assert((((p & 7) | 8) & 7) == p && (((p & 7) | 8) & 8) != 0) by (bit_vector)
            requires
                p <= 7,
        ;
    } else {
        assert(((p & 7) & 7) == p && ((p & 7) & 8) == 0) by (bit_vector)
            requires
                p <= 7,
        ;
    }
}

pub(crate) proof fn lemma_perm_flags_roundtrip(e: PermanentEntry)
    requires
        wf_perm(e),
    ensures
        perm_of(e.id.set_index, e.id.collector_number, perm_flags(e), e.counters, e.loyalty) == e,
{
    let p = e.pile_slot;
    let t: u8 = if e.tapped { 1 } else { 0 };
    let f: u8 = if e.flipped { 2 } else { 0 };
    assert((((t | f) | ((p & 7) << 2)) & 1) == t && (((t | f) | ((p & 7) << 2)) & 2) == f && ((((t
        | f) | ((p & 7) << 2)) >> 2) & 7) == p) by (bit_vector)
        requires
            p <= 7,
            t == 0 || t == 1,
            f == 0 || f == 2,
    ;
}

proof fn lemma_read_card(d: Seq<u8>, pos: int, e: CardEntry)
    requires
        matches_at(d, pos, enc_card(e)),
        wf_card(e),
    ensures
        p_card(d, pos) == Ok::<(CardEntry, int), SnapshotError>((e, pos + enc_card(e).len())),
{
    reveal(matches_at);
    let b = enc_card(e);
    assert(b[0] == le_u16(e.id.set_index)[0]);
    assert(b[1] == le_u16(e.id.set_index)[1]);
    assert(b[2] == le_u16(e.id.collector_number)[0]);
    assert(b[3] == le_u16(e.id.collector_number)[1]);
    assert(b[4] == card_flags(e));
    lemma_u16_roundtrip(e.id.set_index);
    lemma_u16_roundtrip(e.id.collector_number);
    lemma_card_flags_roundtrip(e);
}

proof fn lemma_read_perm(d: Seq<u8>, pos: int, e: PermanentEntry)
    requires
        matches_at(d, pos, enc_perm(e)),
        wf_perm(e),
    ensures
        p_perm(d, pos) == Ok::<(PermanentEntry, int), SnapshotError>((e, pos + enc_perm(e).len())),
{
    reveal(matches_at);
    let b = enc_perm(e);
    assert(b[0] == le_u16(e.id.set_index)[0]);
    assert(b[1] == le_u16(e.id.set_index)[1]);
    assert(b[2] == le_u16(e.id.collector_number)[0]);
    assert(b[3] == le_u16(e.id.collector_number)[1]);
    assert(b[4] == perm_flags(e));
    assert(b[5] == e.counters);
    assert(b[6] == e.loyalty);
    lemma_u16_roundtrip(e.id.set_index);
    lemma_u16_roundtrip(e.id.collector_number);
    lemma_perm_flags_roundtrip(e);
}

proof fn lemma_read_cards(d: Seq<u8>, pos: int, s: Seq<CardEntry>)
    requires
        matches_at(d, pos, enc_cards(s)),
        forall|i: int| 0 <= i < s.len() ==> wf_card(#[trigger] s[i]),
    ensures
        p_cards(d, pos, s.len()) == Ok::<(Seq<CardEntry>, int), SnapshotError>(
            (s, pos + enc_cards(s).len()),
        ),
    decreases s.len(),
{
    if s.len() > 0 {
        let init = s.drop_last();
        assert forall|i: int| 0 <= i < init.len() implies wf_card(#[trigger] init[i]) by {
            assert(init[i] == s[i]);
        }
        assert(wf_card(s[s.len() - 1]));
        assert(enc_cards(s) == enc_cards(init) + enc_card(s.last()));
        lemma_matches_split(d, pos, enc_cards(init), enc_card(s.last()));
        lemma_read_cards(d, pos, init);
        lemma_read_card(d, pos + enc_cards(init).len(), s.last());
        assert(init.push(s.last()) == s);
    } else {
        assert(s =~= Seq::empty());
    }
}

proof fn lemma_read_perms(d: Seq<u8>, pos: int, s: Seq<PermanentEntry>)
    requires
        matches_at(d, pos, enc_perms(s)),
        forall|i: int| 0 <= i < s.len() ==> wf_perm(#[trigger] s[i]),
    ensures
        p_perms(d, pos, s.len()) == Ok::<(Seq<PermanentEntry>, int), SnapshotError>(
            (s, pos + enc_perms(s).len()),
        ),
    decreases s.len(),
{
    if s.len() > 0 {
        let init = s.drop_last();
        assert forall|i: int| 0 <= i < init.len() implies wf_perm(#[trigger] init[i]) by {
            assert(init[i] == s[i]);
        }
        assert(wf_perm(s[s.len() - 1]));
        assert(enc_perms(s) == enc_perms(init) + enc_perm(s.last()));
        lemma_matches_split(d, pos, enc_perms(init), enc_perm(s.last()));
        lemma_read_perms(d, pos, init);
        lemma_read_perm(d, pos + enc_perms(init).len(), s.last());
        assert(init.push(s.last()) == s);
    } else {
        assert(s =~= Seq::empty());
    }
}

proof fn lemma_read_card_zone(d: Seq<u8>, pos: int, s: Seq<CardEntry>)
    requires
        matches_at(d, pos, enc_card_zone(s)),
        wf_card_zone(s),
    ensures
        p_card_zone(d, pos) == Ok::<(Seq<CardEntry>, int), SnapshotError>(
            (s, pos + enc_card_zone(s).len()),
        ),
{
    reveal(matches_at);
    lemma_matches_split(d, pos, seq![s.len() as u8], enc_cards(s));
    assert(d[pos] == seq![s.len() as u8][0]);
    lemma_read_cards(d, pos + 1, s);
}

proof fn lemma_read_perm_zone(d: Seq<u8>, pos: int, s: Seq<PermanentEntry>)
    requires
        matches_at(d, pos, enc_perm_zone(s)),
        wf_perm_zone(s),
    ensures
        p_perm_zone(d, pos) == Ok::<(Seq<PermanentEntry>, int), SnapshotError>(
            (s, pos + enc_perm_zone(s).len()),
        ),
{
    reveal(matches_at);
    lemma_matches_split(d, pos, seq![s.len() as u8], enc_perms(s));
    assert(d[pos] == seq![s.len() as u8][0]);
    lemma_read_perms(d, pos + 1, s);
}

pub(crate) proof fn lemma_read_name(d: Seq<u8>, pos: int, name: Seq<char>)
    requires
        matches_at(d, pos, enc_name(name)),
        encode_utf8(name).len() <= 255,
    ensures
        p_name(d, pos) == Ok::<(Seq<char>, int), SnapshotError>((name, pos + enc_name(name).len())),
{
    reveal(matches_at);
    let bytes = encode_utf8(name);
    lemma_matches_split(d, pos, seq![bytes.len() as u8], bytes);
    assert(d[pos] == seq![bytes.len() as u8][0]);
    assert(d.subrange(pos + 1, pos + 1 + bytes.len()) =~= bytes);
    vstd::utf8::encode_utf8_valid_utf8(name);
    vstd::utf8::encode_utf8_decode_utf8(name);
}

proof fn lemma_read_card_zones(d: Seq<u8>, pos: int, p: PlayerView)
    requires
        matches_at(
            d,
            pos,
            enc_card_zones(p),
        ),
        wf_card_zone(p.hand),
        wf_card_zone(p.library),
        wf_card_zone(p.graveyard),
        wf_card_zone(p.exile),
    ensures
        p_card_zones(d, pos) == Ok::<(Seq<Seq<CardEntry>>, int), SnapshotError>(
            (
                seq![p.hand, p.library, p.graveyard, p.exile],
                pos + enc_card_zones(p).len(),
            ),
        ),
{
    let a0 = enc_card_zone(p.hand);
    let a1 = a0 + enc_card_zone(p.library);
    let a2 = a1 + enc_card_zone(p.graveyard);
    lemma_matches_split(d, pos, a2, enc_card_zone(p.exile));
    lemma_matches_split(d, pos, a1, enc_card_zone(p.graveyard));
    lemma_matches_split(d, pos, a0, enc_card_zone(p.library));
    lemma_read_card_zone(d, pos, p.hand);
    lemma_read_card_zone(d, pos + a0.len(), p.library);
    lemma_read_card_zone(d, pos + a1.len(), p.graveyard);
    lemma_read_card_zone(d, pos + a2.len(), p.exile);
}

#[verifier::rlimit(40)]
proof fn lemma_read_player(d: Seq<u8>, pos: int, p: PlayerView)
    requires
        matches_at(d, pos, enc_player(p)),
        wf_player(p),
    ensures
        p_player(d, pos) == Ok::<(PlayerView, int), SnapshotError>(
            (PlayerView { life: 0, land_drop_available: false, ..p }, pos + enc_player(p).len()),
        ),
{
    let z = enc_card_zones(p);
    let a0 = enc_name(p.deck_name);
    let a1 = a0 + enc_perm_zone(p.lands);
    let a2 = a1 + enc_perm_zone(p.permanents);
    let a3 = a2 + z;
    lemma_matches_split(d, pos, a3, seq![p.hand_hidden]);
    lemma_matches_split(d, pos, a2, z);
    lemma_matches_split(d, pos, a1, enc_perm_zone(p.permanents));
    lemma_matches_split(d, pos, a0, enc_perm_zone(p.lands));
    lemma_read_name(d, pos, p.deck_name);
    lemma_read_perm_zone(d, pos + a0.len(), p.lands);
    lemma_read_perm_zone(d, pos + a1.len(), p.permanents);
    lemma_read_card_zones(d, pos + a2.len(), p);
    assert(p_u8(d, pos + a3.len()) == Ok::<(u8, int), SnapshotError>(
        (p.hand_hidden, pos + a3.len() + 1),
    )) by {
        reveal(matches_at);
        assert(seq![p.hand_hidden][0] == p.hand_hidden);
    }
    let zones = seq![p.hand, p.library, p.graveyard, p.exile];
    assert(zones[0] == p.hand && zones[1] == p.library && zones[2] == p.graveyard && zones[3]
        == p.exile);
    assert(PlayerView {
        deck_name: p.deck_name,
        life: 0,
        land_drop_available: false,
        lands: p.lands,
        permanents: p.permanents,
        hand: zones[0],
        library: zones[1],
        graveyard: zones[2],
        exile: zones[3],
        hand_hidden: p.hand_hidden,
    } == PlayerView { life: 0, land_drop_available: false, ..p });
}

pub(crate) proof fn lemma_read_header(d: Seq<u8>, version: u8, s: SnapshotView)
    requires
        matches_at(d, 0, enc_header(version, s)),
    ensures
        p_u8(d, 0) == Ok::<(u8, int), SnapshotError>((version, 1)),
        p_header_rest(d) == Ok::<(Header, int), SnapshotError>(
            (
                Header {
                    turn: s.turn,
                    stage: s.stage,
                    flags: header_flags(s),
                    us_life: s.us.life,
                    opp_life: s.opp.life,
                    lbdd: life_word(s.life_before_dd),
                },
                10,
            ),
        ),
{
    reveal(matches_at);
    let b = enc_header(version, s);
    assert(b[0] == version);
    assert(b[1] == s.turn);
    assert(b[2] == spec_stage_byte(s.stage));
    assert(b[3] == header_flags(s));
    assert(b[4] == le_i16(s.us.life)[0] && b[5] == le_i16(s.us.life)[1]);
    assert(b[6] == le_i16(s.opp.life)[0] && b[7] == le_i16(s.opp.life)[1]);
    assert(b[8] == le_i16(life_word(s.life_before_dd))[0] && b[9] == le_i16(
        life_word(s.life_before_dd),
    )[1]);
    lemma_i16_roundtrip(s.us.life);
    lemma_i16_roundtrip(s.opp.life);
    lemma_i16_roundtrip(life_word(s.life_before_dd));
}

/// The header flags read back as the three booleans they were made from.
proof fn lemma_header_flags(s: SnapshotView)
    ensures
        (header_flags(s) & 1 != 0) == s.on_play,
        (header_flags(s) & 2 != 0) == s.us.land_drop_available,
        (header_flags(s) & 4 != 0) == s.opp.land_drop_available,
{
    let a: u8 = if s.on_play { 1 } else { 0 };
    let u: u8 = if s.us.land_drop_available { 2 } else { 0 };
    let o: u8 = if s.opp.land_drop_available { 4 } else { 0 };
    assert((((a | u) | o) & 1) == a && (((a | u) | o) & 2) == u && (((a | u) | o) & 4) == o) by (bit_vector)
        requires
            a == 0 || a == 1,
            u == 0 || u == 2,
            o == 0 || o == 4,
    ;
}

/// The header a snapshot is written with.
pub open spec fn header_of(s: SnapshotView) -> Header {
    Header {
        turn: s.turn,
        stage: s.stage,
        flags: header_flags(s),
        us_life: s.us.life,
        opp_life: s.opp.life,
        lbdd: life_word(s.life_before_dd),
    }
}

proof fn lemma_decode_body_parts(
    d: Seq<u8>,
    h: Header,
    p1: int,
    stack: Seq<CardEntry>,
    p2: int,
    us: PlayerView,
    p3: int,
    opp: PlayerView,
    p4: int,
)
    requires
        p_header_rest(d) == Ok::<(Header, int), SnapshotError>((h, p1)),
        p_card_zone(d, p1) == Ok::<(Seq<CardEntry>, int), SnapshotError>((stack, p2)),
        p_player(d, p2) == Ok::<(PlayerView, int), SnapshotError>((us, p3)),
        p_player(d, p3) == Ok::<(PlayerView, int), SnapshotError>((opp, p4)),
    ensures
        spec_decode_body(d) == Ok::<SnapshotView, SnapshotError>(assemble(h, stack, us, opp)),
{
}

pub(crate) proof fn lemma_assemble_written(s: SnapshotView)
    requires
        s.life_before_dd != Some(i16::MIN),
    ensures
        assemble(
            header_of(s),
            s.stack,
            PlayerView { life: 0, land_drop_available: false, ..s.us },
            PlayerView { life: 0, land_drop_available: false, ..s.opp },
        ) == s,
{
    lemma_header_flags(s);
    assert(stage_of(spec_stage_byte(s.stage)) == s.stage);
}

proof fn lemma_decode_written(d: Seq<u8>, s: SnapshotView)
    requires
        wf_snapshot(s),
        matches_at(d, 0, spec_encode(s)),
    ensures
        spec_decode(d) == Ok::<SnapshotView, SnapshotError>(s),
{
    let h = enc_header(2, s);
    let a1 = h + enc_card_zone(s.stack);
    let a2 = a1 + enc_player(s.us);
    let a3 = a2 + enc_player(s.opp);
    assert(spec_encode(s) == a3);
    lemma_matches_split(d, 0, a2, enc_player(s.opp));
    lemma_matches_split(d, 0, a1, enc_player(s.us));
    lemma_matches_split(d, 0, h, enc_card_zone(s.stack));
    lemma_read_header(d, 2, s);
    assert(h.len() == 10);
    lemma_read_card_zone(d, 10, s.stack);
    lemma_read_player(d, a1.len() as int, s.us);
    lemma_read_player(d, a2.len() as int, s.opp);
    let us0 = PlayerView { life: 0, land_drop_available: false, ..s.us };
    let opp0 = PlayerView { life: 0, land_drop_available: false, ..s.opp };
    lemma_decode_body_parts(
        d,
        header_of(s),
        10,
        s.stack,
        a1.len() as int,
        us0,
        a2.len() as int,
        opp0,
        a3.len() as int,
    );
    lemma_assemble_written(s);
}

/// Reading back a written snapshot: `decode(encode(s))` gives `s` for every
/// snapshot the format can carry.
pub proof fn lemma_decode_encode(s: SnapshotView)
    requires
        wf_snapshot(s),
    ensures
        spec_decode(spec_encode(s)) == Ok::<SnapshotView, SnapshotError>(s),
{
    let d = spec_encode(s);
    assert(matches_at(d, 0, d)) by {
        reveal(matches_at);
    }
    lemma_decode_written(d, s);
}

// ── Truncated input ──────────────────────────────────────────────────────────

/// What a reader gives on a prefix `d.take(t)` compared with the whole of
/// `d`, when it reads the whole successfully from `pos`: the same result
/// when the read ends by `t`, else `TooShort`.
pub open spec fn prefix_result<T>(
    full: Result<(T, int), SnapshotError>,
    part: Result<(T, int), SnapshotError>,
    pos: int,
    t: int,
    n: int,
) -> bool {
    match full {
        Ok((_, end)) => pos <= end && end <= n && (end <= t ==> part == full) && (end > t ==> part
            == Err::<(T, int), SnapshotError>(SnapshotError::TooShort)),
        Err(_) => true,
    }
}

proof fn lemma_prefix_u8(d: Seq<u8>, t: int, pos: int)
    requires
        0 <= pos <= t <= d.len(),
    ensures
        prefix_result(p_u8(d, pos), p_u8(d.take(t), pos), pos, t, d.len() as int),
{
    if pos < t {
        assert(d.take(t)[pos] == d[pos]);
    }
}

proof fn lemma_prefix_u16(d: Seq<u8>, t: int, pos: int)
    requires
        0 <= pos <= t <= d.len(),
    ensures
        prefix_result(p_u16(d, pos), p_u16(d.take(t), pos), pos, t, d.len() as int),
        prefix_result(p_i16(d, pos), p_i16(d.take(t), pos), pos, t, d.len() as int),
{
    if pos + 2 <= t {
        assert(d.take(t)[pos] == d[pos]);
        assert(d.take(t)[pos + 1] == d[pos + 1]);
    }
}

proof fn lemma_prefix_bytes(d: Seq<u8>, t: int, pos: int, n: int)
    requires
        0 <= pos <= t <= d.len(),
        0 <= n,
    ensures
        prefix_result(p_bytes(d, pos, n), p_bytes(d.take(t), pos, n), pos, t, d.len() as int),
{
    if pos + n <= t {
        assert(d.take(t).subrange(pos, pos + n) =~= d.subrange(pos, pos + n));
    }
}

proof fn lemma_prefix_card(d: Seq<u8>, t: int, pos: int)
    requires
        0 <= pos <= t <= d.len(),
    ensures
        prefix_result(p_card(d, pos), p_card(d.take(t), pos), pos, t, d.len() as int),
{
    lemma_prefix_u16(d, t, pos);
    if pos + 2 <= t {
        lemma_prefix_u16(d, t, pos + 2);
        if pos + 4 <= t {
            lemma_prefix_u8(d, t, pos + 4);
        }
    }
}

proof fn lemma_prefix_cards(d: Seq<u8>, t: int, pos: int, n: nat)
    requires
        0 <= pos <= t <= d.len(),
    ensures
        prefix_result(p_cards(d, pos, n), p_cards(d.take(t), pos, n), pos, t, d.len() as int),
    decreases n,
{
    if n > 0 {
        lemma_prefix_cards(d, t, pos, (n - 1) as nat);
        if let Ok((_, p)) = p_cards(d, pos, (n - 1) as nat) {
            if p <= t {
                lemma_prefix_card(d, t, p);
            } else {
                lemma_prefix_card(d, d.len() as int, p);
            }
        }
    }
}

proof fn lemma_prefix_card_zone(d: Seq<u8>, t: int, pos: int)
    requires
        0 <= pos <= t <= d.len(),
    ensures
        prefix_result(p_card_zone(d, pos), p_card_zone(d.take(t), pos), pos, t, d.len() as int),
{
    lemma_prefix_u8(d, t, pos);
    if let Ok((n, p)) = p_u8(d, pos) {
        if p <= t {
            lemma_prefix_cards(d, t, p, n as nat);
        } else {
            lemma_prefix_cards(d, d.len() as int, p, n as nat);
        }
    }
}

proof fn lemma_prefix_perm(d: Seq<u8>, t: int, pos: int)
    requires
        0 <= pos <= t <= d.len(),
    ensures
        prefix_result(p_perm(d, pos), p_perm(d.take(t), pos), pos, t, d.len() as int),
{
    lemma_prefix_u16(d, t, pos);
    if pos + 2 <= t {
        lemma_prefix_u16(d, t, pos + 2);
        if pos + 4 <= t {
            lemma_prefix_u8(d, t, pos + 4);
            if pos + 5 <= t {
                lemma_prefix_u8(d, t, pos + 5);
                if pos + 6 <= t {
                    lemma_prefix_u8(d, t, pos + 6);
                }
            }
        }
    }
}

proof fn lemma_prefix_perms(d: Seq<u8>, t: int, pos: int, n: nat)
    requires
        0 <= pos <= t <= d.len(),
    ensures
        prefix_result(p_perms(d, pos, n), p_perms(d.take(t), pos, n), pos, t, d.len() as int),
    decreases n,
{
    if n > 0 {
        lemma_prefix_perms(d, t, pos, (n - 1) as nat);
        if let Ok((_, p)) = p_perms(d, pos, (n - 1) as nat) {
            if p <= t {
                lemma_prefix_perm(d, t, p);
            } else {
                lemma_prefix_perm(d, d.len() as int, p);
            }
        }
    }
}

proof fn lemma_prefix_perm_zone(d: Seq<u8>, t: int, pos: int)
    requires
        0 <= pos <= t <= d.len(),
    ensures
        prefix_result(p_perm_zone(d, pos), p_perm_zone(d.take(t), pos), pos, t, d.len() as int),
{
    lemma_prefix_u8(d, t, pos);
    if let Ok((n, p)) = p_u8(d, pos) {
        if p <= t {
            lemma_prefix_perms(d, t, p, n as nat);
        } else {
            lemma_prefix_perms(d, d.len() as int, p, n as nat);
        }
    }
}

proof fn lemma_prefix_name(d: Seq<u8>, t: int, pos: int)
    requires
        0 <= pos <= t <= d.len(),
    ensures
        prefix_result(p_name(d, pos), p_name(d.take(t), pos), pos, t, d.len() as int),
{
    lemma_prefix_u8(d, t, pos);
    if let Ok((n, p)) = p_u8(d, pos) {
        if p <= t {
            lemma_prefix_bytes(d, t, p, n as int);
        } else {
            lemma_prefix_bytes(d, d.len() as int, p, n as int);
        }
    }
}

proof fn lemma_prefix_card_zones(d: Seq<u8>, t: int, pos: int)
    requires
        0 <= pos <= t <= d.len(),
    ensures
        prefix_result(p_card_zones(d, pos), p_card_zones(d.take(t), pos), pos, t, d.len() as int),
{
    let n = d.len() as int;
    lemma_prefix_card_zone(d, t, pos);
    lemma_prefix_card_zone(d, n, pos);
    if let Ok((_, p1)) = p_card_zone(d, pos) {
        lemma_prefix_card_zone(d, n, p1);
        if p1 <= t {
            lemma_prefix_card_zone(d, t, p1);
        }
        if let Ok((_, p2)) = p_card_zone(d, p1) {
            lemma_prefix_card_zone(d, n, p2);
            if p2 <= t {
                lemma_prefix_card_zone(d, t, p2);
            }
            if let Ok((_, p3)) = p_card_zone(d, p2) {
                lemma_prefix_card_zone(d, n, p3);
                if p3 <= t {
                    lemma_prefix_card_zone(d, t, p3);
                }
            }
        }
    }
}

proof fn lemma_prefix_player(d: Seq<u8>, t: int, pos: int)
    requires
        0 <= pos <= t <= d.len(),
    ensures
        prefix_result(p_player(d, pos), p_player(d.take(t), pos), pos, t, d.len() as int),
{
    let n = d.len() as int;
    lemma_prefix_name(d, t, pos);
    lemma_prefix_name(d, n, pos);
    if let Ok((_, p1)) = p_name(d, pos) {
        lemma_prefix_perm_zone(d, n, p1);
        if p1 <= t {
            lemma_prefix_perm_zone(d, t, p1);
        }
        if let Ok((_, p2)) = p_perm_zone(d, p1) {
            lemma_prefix_perm_zone(d, n, p2);
            if p2 <= t {
                lemma_prefix_perm_zone(d, t, p2);
            }
            if let Ok((_, p3)) = p_perm_zone(d, p2) {
                lemma_prefix_card_zones(d, n, p3);
                if p3 <= t {
                    lemma_prefix_card_zones(d, t, p3);
                }
                if let Ok((_, p4)) = p_card_zones(d, p3) {
                    lemma_prefix_u8(d, n, p4);
                    if p4 <= t {
                        lemma_prefix_u8(d, t, p4);
                    }
                }
            }
        }
    }
}

proof fn lemma_prefix_header(d: Seq<u8>, t: int)
    requires
        1 <= t <= d.len(),
    ensures
        prefix_result(p_header_rest(d), p_header_rest(d.take(t)), 1, t, d.len() as int),
{
    lemma_prefix_u8(d, t, 1);
    if 2 <= t {
        lemma_prefix_u8(d, t, 2);
        if 3 <= t {
            lemma_prefix_u8(d, t, 3);
            if 4 <= t {
                lemma_prefix_u16(d, t, 4);
                if 6 <= t {
                    lemma_prefix_u16(d, t, 6);
                    if 8 <= t {
                        lemma_prefix_u16(d, t, 8);
                    }
                }
            }
        }
    }
}

proof fn lemma_encoded_parts(d: Seq<u8>, s: SnapshotView)
    requires
        wf_snapshot(s),
        matches_at(d, 0, spec_encode(s)),
        d.len() == spec_encode(s).len(),
    ensures
        ({
            let a1 = 10 + enc_card_zone(s.stack).len() as int;
            let a2 = a1 + enc_player(s.us).len() as int;
            &&& d.len() == a2 + enc_player(s.opp).len()
            &&& p_u8(d, 0) == Ok::<(u8, int), SnapshotError>((2, 1))
            &&& p_header_rest(d) matches Ok((_, e)) && e == 10
            &&& p_card_zone(d, 10) matches Ok((_, e)) && e == a1
            &&& p_player(d, a1) matches Ok((_, e)) && e == a2
            &&& p_player(d, a2) matches Ok((_, e)) && e == d.len()
        }),
{
    let h = enc_header(2, s);
    let a1 = h + enc_card_zone(s.stack);
    let a2 = a1 + enc_player(s.us);
    let a3 = a2 + enc_player(s.opp);
    assert(spec_encode(s) == a3);
    lemma_matches_split(d, 0, a2, enc_player(s.opp));
    lemma_matches_split(d, 0, a1, enc_player(s.us));
    lemma_matches_split(d, 0, h, enc_card_zone(s.stack));
    lemma_read_header(d, 2, s);
    assert(h.len() == 10);
    lemma_read_card_zone(d, 10, s.stack);
    lemma_read_player(d, a1.len() as int, s.us);
    lemma_read_player(d, a2.len() as int, s.opp);
}

/// Every strict prefix of a written snapshot, the empty one included, is
/// rejected as too short — never with another error.
#[verifier::rlimit(60)]
pub proof fn lemma_decode_prefix_too_short(s: SnapshotView, t: int)
    requires
        wf_snapshot(s),
        0 <= t < spec_encode(s).len(),
    ensures
        spec_decode(spec_encode(s).take(t)) == Err::<SnapshotView, SnapshotError>(
            SnapshotError::TooShort,
        ),
{
    let d = spec_encode(s);
    let dt = d.take(t);
    if t > 0 {
        assert(matches_at(d, 0, d)) by {
            reveal(matches_at);
        }
        lemma_encoded_parts(d, s);
        let a1 = 10 + enc_card_zone(s.stack).len() as int;
        let a2 = a1 + enc_player(s.us).len() as int;
        lemma_prefix_u8(d, t, 0);
        lemma_prefix_header(d, t);
        if 10 <= t {
            lemma_prefix_card_zone(d, t, 10);
            if a1 <= t {
                lemma_prefix_player(d, t, a1);
                if a2 <= t {
                    lemma_prefix_player(d, t, a2);
                }
            }
        }
    }
}

} // verus!
