use nusfjord_setup::building::Building;
use nusfjord_setup::deck::{decks_to_use, Decks, DeckSet};
use nusfjord_setup::game::{generate_setup, Setup};
use nusfjord_setup::render::render_setup;

const DECK_NAMES: [(&str, Decks); 5] = [
    ("Codfish", Decks::Codfish),
    ("Mackerel", Decks::Mackerel),
    ("Herring", Decks::Herring),
    ("Plaice", Decks::Plaice),
    ("Salmon", Decks::Salmon),
];

/// A dataset with 24 "A", 12 "B" and 20 "C" cards per deck, every
/// identifier distinct.
fn rich_dataset() -> Vec<Building> {
    let mut all = Vec::new();
    for (name, deck) in DECK_NAMES {
        for (tag, count) in [("A", 24), ("B", 12), ("C", 20)] {
            for i in 0..count {
                all.push(Building {
                    name: format!("{} {} {}", name, tag, i),
                    number: format!("{}-{}-{}", name, tag, i),
                    deck,
                    abc: tag.to_string(),
                    color: "Anytime".to_string(),
                });
            }
        }
    }
    all
}

fn initial_numbers_of_deck(st: &Setup, deck: Decks) -> Vec<String> {
    let mut out = Vec::new();
    for row in st.initial_rows.iter() {
        for card in row.iter() {
            if card.deck == deck {
                out.push(card.number.clone());
            }
        }
    }
    out
}

#[test]
fn codfish_two_players_scenario() {
    let all = rich_dataset();
    let decks = decks_to_use(Decks::Codfish, &vec![], false, false);
    let st = generate_setup(&all, 2, Decks::Codfish, &decks).expect("enough cards");
    assert_eq!(st.initial_rows.len(), 3);
    for row in st.initial_rows.iter() {
        assert_eq!(row.len(), 5);
        for card in row.iter() {
            assert_eq!(card.deck, Decks::Codfish);
        }
        for card in &row[0..2] {
            assert_eq!(card.abc, "B");
        }
        for card in &row[2..5] {
            assert_eq!(card.abc, "A");
        }
    }
    assert!(st.round_3_row.is_none());
    assert_eq!(st.round_4_rows.len(), 2);
    for row in st.round_4_rows.iter() {
        assert_eq!(row.len(), 4);
        for card in row.iter() {
            assert_eq!(card.deck, Decks::Codfish);
            assert_eq!(card.abc, "C");
        }
    }
    assert!(st.round_5_row.is_none());
}

#[test]
fn herring_five_players_all_decks_scenario() {
    let all = rich_dataset();
    let decks = decks_to_use(Decks::Herring, &vec![], false, true);
    for (_, d) in DECK_NAMES {
        assert!(decks.contains(d));
    }
    let st = generate_setup(&all, 5, Decks::Herring, &decks).expect("enough cards");
    assert_eq!(st.initial_rows.len(), 3);
    for row in st.initial_rows.iter() {
        assert_eq!(row.len(), 5);
    }
    let r3 = st.round_3_row.as_ref().expect("round 3 dealt with 5 players");
    assert_eq!(r3.len(), 5);
    for card in r3.iter() {
        assert_eq!(card.deck, Decks::Herring);
        assert_eq!(card.abc, "A");
    }
    assert_eq!(st.round_4_rows.len(), 5);
    for row in st.round_4_rows.iter() {
        assert_eq!(row.len(), 2);
        for card in row.iter() {
            assert_eq!(card.deck, Decks::Herring);
            assert_eq!(card.abc, "C");
        }
    }
    let r5 = st.round_5_row.as_ref().expect("round 5 dealt with 5 players");
    assert_eq!(r5.len(), 3);
    for card in r5.iter() {
        assert_eq!(card.deck, Decks::Herring);
        assert_eq!(card.abc, "B");
    }
}

#[test]
fn dealt_identifiers_do_not_reappear() {
    // rounds 3 and 5 never repeat an identifier that the initial setup
    // consumed from the chosen deck
    let all = rich_dataset();
    let decks = decks_to_use(Decks::Salmon, &vec![], false, false);
    for _ in 0..10 {
        let st = generate_setup(&all, 5, Decks::Salmon, &decks).expect("enough cards");
        let dealt = initial_numbers_of_deck(&st, Decks::Salmon);
        let r3 = st.round_3_row.as_ref().unwrap();
        let r5 = st.round_5_row.as_ref().unwrap();
        for card in r3.iter().chain(r5.iter()) {
            assert!(!dealt.contains(&card.number));
        }
    }
}

#[test]
fn every_player_count_succeeds_on_rich_data() {
    let all = rich_dataset();
    for players in 1..=5u32 {
        for (_, main) in DECK_NAMES {
            let decks = decks_to_use(main, &vec![], true, false);
            let st = generate_setup(&all, players, main, &decks).expect("enough cards");
            assert_eq!(st.initial_rows.len(), 3);
            assert_eq!(st.round_3_row.is_some(), players > 2);
            // one player draws no round-4 cards, so the round is skipped
            let round_4_players: usize = if players == 1 { 0 } else { players as usize };
            assert_eq!(st.round_4_rows.len(), round_4_players);
            assert_eq!(st.round_5_row.is_some(), players >= 3);
            let lines = render_setup(&st);
            let expected: usize = 15
                + if players > 2 { 6 } else { 0 }
                + if round_4_players > 0 { 1 + 6 * round_4_players } else { 0 }
                + if players >= 3 { 6 } else { 0 };
            assert_eq!(lines.len(), expected);
            if players > 2 {
                assert_eq!(lines[15], "********* ROUND 3 CARDS *********");
                assert_eq!(lines[21], "******** ROUND 4 CARDS ********");
                assert_eq!(lines[22], "Doing Player 0");
            } else if players == 2 {
                assert_eq!(lines[15], "******** ROUND 4 CARDS ********");
                assert_eq!(lines[16], "Doing Player 0");
                assert_eq!(lines[22], "Doing Player 1");
            } else {
                // one player: the output ends with the initial rows
                assert_eq!(lines.len(), 15);
                assert!(!lines.iter().any(|l| l.contains("ROUND 4")));
            }
            if players >= 3 {
                assert_eq!(lines[lines.len() - 6], "********* ROUND 5 CARDS *********");
            }
        }
    }
}

#[test]
fn setup_fails_without_enough_cards() {
    let mut all = Vec::new();
    for i in 0..4 {
        all.push(Building {
            name: format!("A card {}", i),
            number: format!("a-{}", i),
            deck: Decks::Codfish,
            abc: "A".to_string(),
            color: "Once".to_string(),
        });
    }
    let decks = DeckSet { codfish: true, mackerel: false, herring: false, plaice: false, salmon: false };
    assert!(generate_setup(&all, 2, Decks::Codfish, &decks).is_none());
}

#[test]
fn shuffling_changes_the_order_between_runs() {
    // the order is random, so two runs almost surely disagree somewhere
    let all = rich_dataset();
    let decks = decks_to_use(Decks::Plaice, &vec![], false, false);
    let first = generate_setup(&all, 2, Decks::Plaice, &decks).expect("enough cards");
    let reference: Vec<String> = first.initial_rows.iter().flatten().map(|c| c.number.clone()).collect();
    let mut saw_difference = false;
    for _ in 0..8 {
        let again = generate_setup(&all, 2, Decks::Plaice, &decks).expect("enough cards");
        let numbers: Vec<String> =
            again.initial_rows.iter().flatten().map(|c| c.number.clone()).collect();
        if numbers != reference {
            saw_difference = true;
            break;
        }
    }
    assert!(saw_difference);
}

#[test]
fn rows_hold_distinct_cards() {
    let all = rich_dataset();
    let decks = decks_to_use(Decks::Mackerel, &vec![], false, false);
    let st = generate_setup(&all, 3, Decks::Mackerel, &decks).expect("enough cards");
    let mut seen: Vec<String> = Vec::new();
    for row in st.initial_rows.iter() {
        for card in row.iter() {
            assert!(!seen.contains(&card.number));
            seen.push(card.number.clone());
        }
    }
    let mut seen_c: Vec<String> = Vec::new();
    for row in st.round_4_rows.iter() {
        for card in row.iter() {
            assert!(!seen_c.contains(&card.number));
            seen_c.push(card.number.clone());
        }
    }
    for row in st.round_3_row.iter().chain(st.round_5_row.iter()) {
        let mut seen_row: Vec<String> = Vec::new();
        for card in row.iter() {
            assert!(!seen_row.contains(&card.number));
            seen_row.push(card.number.clone());
        }
    }
}
