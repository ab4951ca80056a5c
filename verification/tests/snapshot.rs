use mtg_engine::snapshot::{
    decode, decode_v3, encode, encode_v3, from_base64url, from_url_token, to_base64url,
    to_url_token, BoardSnapshot, CardEntry, CardId, CardRegistry, PermanentEntry, PlayerSnapshot,
    SnapshotError, Stage,
};
use mtg_engine::{CardResult, PermanentResult, PlayerResult, ScenarioResult};

fn sample_snapshot() -> BoardSnapshot {
    let dd_id = CardId::new(0, 42);
    let sea_id = CardId::new(1, 100);
    let ritual_id = CardId::new(2, 55);
    let oracle_id = CardId::new(0, 10);
    let petal_id = CardId::new(3, 200);
    let delta_id = CardId::new(1, 83);
    let delver_id = CardId::new(4, 11);
    let volc_id = CardId::new(1, 110);

    BoardSnapshot {
        turn: 2,
        stage: Stage::Early,
        on_play: true,
        life_before_dd: Some(20),
        stack: vec![CardEntry { id: dd_id, pile_slot: 0, known: true }],
        us: PlayerSnapshot {
            deck_name: "Doomsday".into(),
            life: 10,
            land_drop_available: false,
            lands: vec![
                PermanentEntry {
                    id: sea_id, tapped: true, flipped: false,
                    pile_slot: 0, counters: 0, loyalty: 0,
                },
                PermanentEntry {
                    id: delta_id, tapped: true, flipped: false,
                    pile_slot: 0, counters: 0, loyalty: 0,
                },
            ],
            permanents: vec![
                PermanentEntry {
                    id: petal_id, tapped: false, flipped: false,
                    pile_slot: 0, counters: 0, loyalty: 0,
                },
            ],
            hand: vec![],
            library: vec![
                CardEntry { id: oracle_id, pile_slot: 1, known: true },
                CardEntry { id: ritual_id, pile_slot: 2, known: true },
                CardEntry { id: petal_id, pile_slot: 3, known: true },
                CardEntry { id: sea_id, pile_slot: 4, known: true },
                CardEntry { id: sea_id, pile_slot: 5, known: true },
            ],
            graveyard: vec![
                CardEntry { id: ritual_id, pile_slot: 0, known: false },
            ],
            exile: vec![],
            hand_hidden: 0,
        },
        opp: PlayerSnapshot {
            deck_name: "Izzet Delver".into(),
            life: 20,
            land_drop_available: true,
            lands: vec![
                PermanentEntry {
                    id: volc_id, tapped: false, flipped: false,
                    pile_slot: 0, counters: 0, loyalty: 0,
                },
            ],
            permanents: vec![
                PermanentEntry {
                    id: delver_id, tapped: false, flipped: true,
                    pile_slot: 0, counters: 0, loyalty: 0,
                },
            ],
            hand: vec![
                CardEntry { id: ritual_id, pile_slot: 0, known: true },
            ],
            library: vec![],
            graveyard: vec![],
            exile: vec![],
            hand_hidden: 3,
        },
    }
}

fn flatten_ids(snap: &mut BoardSnapshot) {
    let fix = |c: &mut CardId| *c = CardId::new(0, c.collector_number);
    for e in &mut snap.stack { fix(&mut e.id); }
    for p in [&mut snap.us, &mut snap.opp] {
        for e in &mut p.lands      { fix(&mut e.id); }
        for e in &mut p.permanents { fix(&mut e.id); }
        for e in &mut p.hand       { fix(&mut e.id); }
        for e in &mut p.library    { fix(&mut e.id); }
        for e in &mut p.graveyard  { fix(&mut e.id); }
        for e in &mut p.exile      { fix(&mut e.id); }
    }
}

/// Card zones' non-pile entries sorted by (id, known), as the grouped
/// encoding reads them back.
fn canonicalize(s: &mut BoardSnapshot) {
    fn sort_zone(z: &mut Vec<CardEntry>) {
        let (pile, mut rest): (Vec<_>, Vec<_>) =
            z.drain(..).partition(|e| e.pile_slot != 0);
        let mut pile = pile;
        pile.sort_by_key(|e| e.pile_slot);
        rest.sort_by_key(|e| (e.id.collector_number, e.known));
        z.extend(pile);
        z.extend(rest);
    }
    for p in [&mut s.us, &mut s.opp] {
        sort_zone(&mut p.hand);
        sort_zone(&mut p.library);
        sort_zone(&mut p.graveyard);
        sort_zone(&mut p.exile);
    }
}

#[test]
fn roundtrip_binary() {
    let snap = sample_snapshot();
    let bytes = encode(&snap);
    let decoded = decode(&bytes).unwrap();
    assert_eq!(snap, decoded);
}

#[test]
fn roundtrip_base64url() {
    let mut snap = sample_snapshot();
    flatten_ids(&mut snap);
    canonicalize(&mut snap);
    let token = to_url_token(&snap);
    let decoded = from_url_token(&token).unwrap();
    assert_eq!(snap, decoded);

    assert!(!token.contains('+'));
    assert!(!token.contains('/'));
    assert!(!token.contains('='));
}

#[test]
fn snapshot_size() {
    let snap = sample_snapshot();
    let bytes = encode(&snap);
    let token = to_url_token(&snap);
    assert!(bytes.len() < 300, "binary too large: {} bytes", bytes.len());
    assert!(token.len() < 400, "token too large: {} chars", token.len());
}

#[test]
fn base64url_roundtrip_various_lengths() {
    for len in 0..20 {
        let data: Vec<u8> = (0..len).collect();
        let encoded = to_base64url(&data);
        let decoded = from_base64url(&encoded).unwrap();
        assert_eq!(data, decoded, "failed at len={len}");
    }
}

#[test]
fn pile_slot_survives_roundtrip() {
    let snap = sample_snapshot();
    let bytes = encode(&snap);
    let decoded = decode(&bytes).unwrap();
    let slots: Vec<u8> = decoded.us.library.iter().map(|c| c.pile_slot).collect();
    assert_eq!(slots, vec![1, 2, 3, 4, 5]);
    assert!(decoded.us.graveyard.iter().all(|c| c.pile_slot == 0));
}

#[test]
fn decode_bad_version() {
    let snap = sample_snapshot();
    let mut bytes = encode(&snap);
    bytes[0] = 99;
    assert!(matches!(decode(&bytes), Err(SnapshotError::BadVersion(99))));
}

#[test]
fn decode_truncated() {
    assert!(matches!(decode(&[2, 2]), Err(SnapshotError::TooShort)));
}

fn sample_registry() -> CardRegistry {
    CardRegistry::from_entries(&[
        ("Doomsday",            "WTH", 42),
        ("Underground Sea",     "3ED", 100),
        ("Dark Ritual",         "LEA", 55),
        ("Thassa's Oracle",     "THB", 10),
        ("Lotus Petal",         "TMP", 200),
        ("Polluted Delta",      "ONS", 83),
        ("Delver of Secrets",   "ISD", 11),
        ("Volcanic Island",     "3ED", 110),
    ])
}

#[test]
fn registry_roundtrip() {
    let reg = sample_registry();
    let id = reg.name_to_id("Dark Ritual").unwrap();
    let name = reg.id_to_name(id).unwrap();
    assert_eq!(name, "Dark Ritual");
}

#[test]
fn v3_roundtrip() {
    let mut snap = sample_snapshot();
    flatten_ids(&mut snap);
    canonicalize(&mut snap);
    let bytes = encode_v3(&snap);
    let decoded = decode_v3(&bytes).unwrap();
    assert_eq!(snap, decoded);
}

#[test]
fn from_url_token_decodes_both_v2_and_v3() {
    let snap2 = sample_snapshot();
    let v2_token = to_base64url(&encode(&snap2));
    assert_eq!(from_url_token(&v2_token).unwrap(), snap2);

    let mut snap3 = sample_snapshot();
    flatten_ids(&mut snap3);
    let v3_token = to_url_token(&snap3);
    assert_eq!(from_url_token(&v3_token).unwrap(), snap3);
}

// ── Further cases ────────────────────────────────────────────────────────────

#[test]
fn base64url_known_values() {
    assert_eq!(to_base64url(b""), "");
    assert_eq!(to_base64url(b"f"), "Zg");
    assert_eq!(to_base64url(b"fo"), "Zm8");
    assert_eq!(to_base64url(b"foo"), "Zm9v");
    assert_eq!(to_base64url(&[0xfb, 0xff]), "-_8");
    assert_eq!(from_base64url("Zm9vYg").unwrap(), b"foob".to_vec());
}

#[test]
fn base64url_rejects_foreign_characters() {
    assert!(matches!(from_base64url("Zm+v"), Err(SnapshotError::BadBase64)));
    assert!(matches!(from_base64url("Zm9v!A"), Err(SnapshotError::BadBase64)));
}

#[test]
fn decode_bad_stage() {
    let mut bytes = encode(&sample_snapshot());
    bytes[2] = 7;
    assert!(matches!(decode(&bytes), Err(SnapshotError::BadStage(7))));
}

#[test]
fn decode_bad_utf8_deck_name() {
    let mut bytes = encode(&sample_snapshot());
    // Header (10) + stack count (1) + one card (5) = 16; then the name length
    // and the first byte of "Doomsday".
    assert_eq!(bytes[16], 8);
    bytes[17] = 0xff;
    assert!(matches!(decode(&bytes), Err(SnapshotError::BadUtf8)));
}

#[test]
fn v2_header_layout() {
    let bytes = encode(&sample_snapshot());
    assert_eq!(&bytes[..10], &[2, 2, 0, 0b101, 10, 0, 20, 0, 20, 0]);
}

#[test]
fn v3_groups_and_counters() {
    let mut snap = sample_snapshot();
    flatten_ids(&mut snap);
    snap.us.permanents[0].counters = 3;
    snap.us.permanents[0].loyalty = 4;
    snap.us.exile = vec![
        CardEntry { id: CardId::new(0, 9), pile_slot: 0, known: true },
        CardEntry { id: CardId::new(0, 2), pile_slot: 0, known: false },
        CardEntry { id: CardId::new(0, 9), pile_slot: 0, known: true },
        CardEntry { id: CardId::new(0, 7), pile_slot: 2, known: false },
        CardEntry { id: CardId::new(0, 5), pile_slot: 1, known: true },
    ];
    let decoded = decode_v3(&encode_v3(&snap)).unwrap();
    assert_eq!(decoded.us.permanents[0].counters, 3);
    assert_eq!(decoded.us.permanents[0].loyalty, 4);
    let ids: Vec<(u16, u8, bool)> = decoded
        .us
        .exile
        .iter()
        .map(|e| (e.id.collector_number, e.pile_slot, e.known))
        .collect();
    assert_eq!(ids, vec![(5, 1, true), (7, 2, false), (2, 0, false), (9, 0, true), (9, 0, true)]);
}

#[test]
fn url_token_bad_version_and_empty() {
    assert!(matches!(from_url_token(""), Err(SnapshotError::TooShort)));
    let token = to_base64url(&[7, 1, 2]);
    assert!(matches!(from_url_token(&token), Err(SnapshotError::BadVersion(7))));
}

#[test]
fn registry_sorts_set_codes() {
    let reg = sample_registry();
    let codes: Vec<&str> = (0..7).map(|i| reg.set_code(i).unwrap()).collect();
    assert_eq!(codes, vec!["3ED", "ISD", "LEA", "ONS", "THB", "TMP", "WTH"]);
    assert!(reg.set_code(7).is_none());
    assert_eq!(reg.name_to_id("Volcanic Island"), Some(CardId::new(0, 110)));
    assert_eq!(reg.name_to_id("Doomsday"), Some(CardId::new(6, 42)));
    assert!(reg.name_to_id("Brainstorm").is_none());
    assert!(reg.id_to_name(CardId::new(5, 5)).is_none());
}

#[test]
fn registry_last_entry_wins() {
    let reg = CardRegistry::from_entries(&[("A", "X", 1), ("A", "X", 2), ("B", "X", 2)]);
    assert_eq!(reg.name_to_id("A"), Some(CardId::new(0, 2)));
    assert_eq!(reg.id_to_name(CardId::new(0, 2)), Some("B"));
}

fn sample_result() -> ScenarioResult {
    let perm = |name: &str, tapped: bool| PermanentResult {
        name: name.to_string(),
        tapped,
        counters: 0,
        loyalty: 0,
        flipped: false,
    };
    let player = |deck: &str, life: i32| PlayerResult {
        deck_name: deck.to_string(),
        life,
        lands: vec![perm("Underground Sea", true)],
        permanents: vec![perm("Lotus Petal", false)],
        hand: vec![CardResult { name: "Dark Ritual".to_string() }],
        hand_hidden: 2,
        land_drop_available: true,
        library: vec!["Thassa's Oracle".to_string()],
        graveyard: vec!["Dark Ritual".to_string()],
        exile: vec![],
    };
    ScenarioResult {
        turn: 3,
        stage: "Mid".to_string(),
        on_play: false,
        us: player("Doomsday", 5),
        opp: player("Delver", 20),
        log: vec!["x".to_string()],
        stack: vec!["Doomsday".to_string()],
        life_before_dd: Some(10),
        decision_log: vec![],
        text_summary: "t".to_string(),
    }
}

#[test]
fn result_conversion_roundtrip() {
    let reg = sample_registry();
    let r = sample_result();
    let snap = BoardSnapshot::from_result(&r, &reg).unwrap();
    assert_eq!(snap.stage, Stage::Mid);
    assert_eq!(snap.life_before_dd, Some(10));
    assert_eq!(snap.us.hand_hidden, 2);
    assert!(snap.us.library[0].known);
    assert!(!snap.us.graveyard[0].known);
    let back = snap.to_result(&reg);
    assert_eq!(back.stage, "Mid");
    assert_eq!(back.stack, vec!["Doomsday".to_string()]);
    assert_eq!(back.us.lands[0].name, "Underground Sea");
    assert_eq!(back.opp.library, vec!["Thassa's Oracle".to_string()]);
    assert!(back.log.is_empty());
    assert_eq!(back.text_summary, "");
}

#[test]
fn result_conversion_unknown_card() {
    let reg = sample_registry();
    let mut r = sample_result();
    r.opp.graveyard = vec!["Brainstorm".to_string()];
    r.us.exile = vec!["Ponder".to_string()];
    match BoardSnapshot::from_result(&r, &reg) {
        Err(SnapshotError::UnknownCard(name)) => assert_eq!(name, "Ponder"),
        _ => panic!("expected UnknownCard"),
    }
}

#[test]
fn to_result_marks_unknown_ids() {
    let reg = sample_registry();
    let mut snap = BoardSnapshot::from_result(&sample_result(), &reg).unwrap();
    snap.stack.push(CardEntry { id: CardId::new(9, 9), pile_slot: 0, known: true });
    snap.us.graveyard[0].id = CardId::new(9, 9);
    let r = snap.to_result(&reg);
    assert_eq!(r.stack, vec!["Doomsday".to_string()]);
    assert_eq!(r.us.graveyard, vec!["???".to_string()]);
}

#[test]
fn error_messages() {
    assert_eq!(SnapshotError::TooShort.message(), "unexpected end of data");
    assert_eq!(SnapshotError::BadVersion(99).message(), "unsupported version 99");
    assert_eq!(SnapshotError::BadStage(7).message(), "invalid stage 7");
    assert_eq!(SnapshotError::BadStage(0).message(), "invalid stage 0");
    assert_eq!(SnapshotError::BadUtf8.message(), "invalid UTF-8 in deck name");
    assert_eq!(SnapshotError::BadBase64.message(), "invalid base64url character");
    assert_eq!(
        SnapshotError::UnknownCard("Ponder".to_string()).message(),
        "card not in registry: Ponder"
    );
    assert_eq!(SnapshotError::BadVersion(255).message(), "unsupported version 255");
}

#[test]
fn v3_token_ignores_order_of_non_pile_cards() {
    let mut a = sample_snapshot();
    flatten_ids(&mut a);
    let mut b = a.clone();
    a.opp.library = vec![
        CardEntry { id: CardId::new(0, 9), pile_slot: 0, known: true },
        CardEntry { id: CardId::new(0, 7), pile_slot: 2, known: false },
        CardEntry { id: CardId::new(0, 2), pile_slot: 0, known: false },
        CardEntry { id: CardId::new(0, 5), pile_slot: 1, known: true },
        CardEntry { id: CardId::new(0, 4), pile_slot: 0, known: true },
    ];
    // The non-pile cards rotated, the pile cards in the same order.
    b.opp.library = vec![
        CardEntry { id: CardId::new(0, 4), pile_slot: 0, known: true },
        CardEntry { id: CardId::new(0, 2), pile_slot: 0, known: false },
        CardEntry { id: CardId::new(0, 7), pile_slot: 2, known: false },
        CardEntry { id: CardId::new(0, 9), pile_slot: 0, known: true },
        CardEntry { id: CardId::new(0, 5), pile_slot: 1, known: true },
    ];
    assert_eq!(encode_v3(&a), encode_v3(&b));
    assert_eq!(to_url_token(&a), to_url_token(&b));
}
