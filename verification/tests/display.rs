use mtg_engine::display::{collapse_counts, sec};

#[test]
fn heading_is_padded_with_dashes() {
    let h = sec("Battlefield");
    assert_eq!(h, format!("  ── Battlefield {}", "─".repeat(35)));
}

#[test]
fn heading_counts_characters_not_bytes() {
    let h = sec("Ålborg");
    assert_eq!(h, format!("  ── Ålborg {}", "─".repeat(40)));
}

#[test]
fn long_label_gets_no_padding() {
    let label = "x".repeat(47);
    assert_eq!(sec(&label), format!("  ── {} ", label));
}

fn strings(v: &[&str]) -> Vec<String> {
    v.iter().map(|s| s.to_string()).collect()
}

#[test]
fn repeated_entries_are_counted_in_first_seen_order() {
    let r = collapse_counts(strings(&["Island", "Forest", "Island", "Swamp", "Island", "Forest"]));
    assert_eq!(r, strings(&["Island ×3", "Forest ×2", "Swamp"]));
}

#[test]
fn single_entries_are_left_as_they_are() {
    assert_eq!(collapse_counts(strings(&["Brainstorm", "Ponder"])), strings(&["Brainstorm", "Ponder"]));
    assert!(collapse_counts(Vec::new()).is_empty());
}

#[test]
fn counts_of_ten_and_more_are_written_in_full() {
    let r = collapse_counts(vec!["Mountain".to_string(); 12]);
    assert_eq!(r, strings(&["Mountain ×12"]));
}
