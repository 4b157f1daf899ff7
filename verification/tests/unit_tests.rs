use nusfjord_setup::deck::{decks_to_use, Decks, DeckSet};
use nusfjord_setup::parse::{parse_records, split_str};
use nusfjord_setup::render::{color_for, colorize, pad_to, render_card_row, CardColor};
use nusfjord_setup::setup::{round_3_count, round_4_count, round_5_count};
use nusfjord_setup::building::Building;
use core::str::FromStr;

#[test]
fn deck_names_parse() {
    assert_eq!(Decks::from_name("Codfish"), Some(Decks::Codfish));
    assert_eq!(Decks::from_name("Mackerel"), Some(Decks::Mackerel));
    assert_eq!(Decks::from_name("Herring"), Some(Decks::Herring));
    assert_eq!(Decks::from_name("Plaice"), Some(Decks::Plaice));
    assert_eq!(Decks::from_name("Salmon"), Some(Decks::Salmon));
    assert_eq!(Decks::from_name("codfish"), None);
    assert_eq!(Decks::from_name(""), None);
    assert_eq!(Decks::from_name("Codfishes"), None);
}

#[test]
fn deck_from_str_matches_from_name() {
    assert_eq!(Decks::from_str("Plaice"), Ok(Decks::Plaice));
    assert_eq!(Decks::from_str("Mackerel"), Ok(Decks::Mackerel));
    assert!(Decks::from_str("Trout").is_err());
}

#[test]
fn deck_set_single_and_insert() {
    let mut s = DeckSet::single(Decks::Herring);
    assert!(s.contains(Decks::Herring));
    assert!(!s.contains(Decks::Codfish));
    s.insert(Decks::Salmon);
    assert!(s.contains(Decks::Salmon));
    assert!(s.contains(Decks::Herring));
}

#[test]
fn decks_to_use_plain() {
    let s = decks_to_use(Decks::Plaice, &vec![], false, false);
    assert!(s.contains(Decks::Plaice));
    assert!(!s.contains(Decks::Codfish));
    assert!(!s.contains(Decks::Mackerel));
    assert!(!s.contains(Decks::Herring));
    assert!(!s.contains(Decks::Salmon));
}

#[test]
fn decks_to_use_addins() {
    let s = decks_to_use(Decks::Codfish, &vec![Decks::Salmon, Decks::Plaice], false, false);
    assert!(s.contains(Decks::Codfish));
    assert!(s.contains(Decks::Salmon));
    assert!(s.contains(Decks::Plaice));
    assert!(!s.contains(Decks::Herring));
    assert!(!s.contains(Decks::Mackerel));
}

#[test]
fn decks_to_use_addins_win_over_flags() {
    let s = decks_to_use(Decks::Codfish, &vec![Decks::Salmon], true, true);
    assert!(s.contains(Decks::Codfish));
    assert!(s.contains(Decks::Salmon));
    assert!(!s.contains(Decks::Herring));
}

#[test]
fn decks_to_use_all_base() {
    let s = decks_to_use(Decks::Salmon, &vec![], true, false);
    assert!(s.contains(Decks::Salmon));
    assert!(s.contains(Decks::Codfish));
    assert!(s.contains(Decks::Herring));
    assert!(s.contains(Decks::Mackerel));
    assert!(!s.contains(Decks::Plaice));
}

#[test]
fn decks_to_use_all_decks() {
    let s = decks_to_use(Decks::Herring, &vec![], false, true);
    assert!(s.contains(Decks::Codfish));
    assert!(s.contains(Decks::Mackerel));
    assert!(s.contains(Decks::Herring));
    assert!(s.contains(Decks::Plaice));
    assert!(s.contains(Decks::Salmon));
}

#[test]
fn round_counts_match_the_tables() {
    assert_eq!(round_3_count(1), 0);
    assert_eq!(round_3_count(2), 0);
    assert_eq!(round_3_count(3), 3);
    assert_eq!(round_3_count(4), 4);
    assert_eq!(round_3_count(5), 5);
    assert_eq!(round_4_count(1), 0);
    assert_eq!(round_4_count(2), 4);
    assert_eq!(round_4_count(3), 3);
    assert_eq!(round_4_count(4), 2);
    assert_eq!(round_4_count(5), 2);
    assert_eq!(round_5_count(1), 0);
    assert_eq!(round_5_count(2), 0);
    assert_eq!(round_5_count(3), 2);
    assert_eq!(round_5_count(4), 2);
    assert_eq!(round_5_count(5), 3);
}

#[test]
fn split_on_tabs_and_newlines() {
    let parts = split_str("a\tbb\t\tc", '\t');
    let parts: Vec<&str> = parts.iter().map(|s| s.as_str()).collect();
    assert_eq!(parts, vec!["a", "bb", "", "c"]);
    let lines = split_str("one\ntwo\n", '\n');
    let lines: Vec<&str> = lines.iter().map(|s| s.as_str()).collect();
    assert_eq!(lines, vec!["one", "two", ""]);
    let single = split_str("plain", '\n');
    assert_eq!(single.len(), 1);
    assert_eq!(single[0], "plain");
}

#[test]
fn parse_keeps_good_rows_and_drops_bad_ones() {
    let data = "name\tnumber\tdeck\tabc\tcolor\n\
                Wharf\t11\tCodfish\tA\tAnytime\n\
                too\tfew\tfields\n\
                Smokehouse\t12\tTrout\tB\tOnce\n\
                Cutter\t13\tHerring\tC\tWhenever\n\
                \n\
                Extra\t14\tSalmon\tA\tOnce\tsurplus\n";
    let records = parse_records(data);
    assert_eq!(records.len(), 2);
    assert_eq!(records[0].name, "Wharf");
    assert_eq!(records[0].number, "11");
    assert_eq!(records[0].deck, Decks::Codfish);
    assert_eq!(records[0].abc, "A");
    assert_eq!(records[0].color, "Anytime");
    assert_eq!(records[1].name, "Cutter");
    assert_eq!(records[1].deck, Decks::Herring);
    assert_eq!(records[1].abc, "C");
}

#[test]
fn parse_skips_the_header_row() {
    let data = "Wharf\t11\tCodfish\tA\tAnytime\nBoathouse\t12\tCodfish\tB\tOnce\n";
    let records = parse_records(data);
    assert_eq!(records.len(), 1);
    assert_eq!(records[0].name, "Boathouse");
}

#[test]
fn color_table_is_complete() {
    assert_eq!(color_for(&"Anytime".to_string(), false), CardColor::Blue);
    assert_eq!(color_for(&"Immediately".to_string(), false), CardColor::Red);
    assert_eq!(color_for(&"Once".to_string(), false), CardColor::Yellow);
    assert_eq!(color_for(&"Victory Points".to_string(), false), CardColor::BrightYellow);
    assert_eq!(color_for(&"Special Ability".to_string(), false), CardColor::BrightBlack);
    assert_eq!(color_for(&"Whenever".to_string(), false), CardColor::Green);
    assert_eq!(color_for(&"Unheard Of".to_string(), false), CardColor::White);
    assert_eq!(color_for(&"Anytime".to_string(), true), CardColor::Black);
}

#[test]
fn colorized_text_keeps_the_input() {
    let painted = colorize(&"Wharf".to_string(), &"Anytime".to_string(), false);
    assert!(painted.contains("Wharf"));
    let hidden = colorize(&"Wharf".to_string(), &"Anytime".to_string(), true);
    assert!(hidden.contains("Wharf"));
}

#[test]
fn padding_fills_to_the_width() {
    assert_eq!(pad_to(&"abc".to_string(), 6), "abc   ");
    assert_eq!(pad_to(&"abcdef".to_string(), 6), "abcdef");
    assert_eq!(pad_to(&"abcdefg".to_string(), 6), "abcdefg");
    assert_eq!(pad_to(&"".to_string(), 3), "   ");
}

fn sample_card(name: &str, number: &str) -> Building {
    Building {
        name: name.to_string(),
        number: number.to_string(),
        deck: Decks::Codfish,
        abc: "A".to_string(),
        color: "Unknown".to_string(),
    }
}

#[test]
fn card_row_borders_line_up() {
    let cards = vec![sample_card("One", "1"), sample_card("Two", "2"), sample_card("Three", "3")];
    let lines = render_card_row(&cards, false, false);
    assert_eq!(lines.len(), 5);
    assert_eq!(lines[0], "/----------------------\\".repeat(3));
    assert_eq!(lines[2], "|                      |".repeat(3));
    assert_eq!(lines[4], "\\----------------------/".repeat(3));
    assert!(lines[1].contains("One"));
    assert!(lines[3].contains("3"));
}

#[test]
fn card_row_separator_follows_the_second_card() {
    let cards = vec![
        sample_card("One", "1"),
        sample_card("Two", "2"),
        sample_card("Three", "3"),
        sample_card("Four", "4"),
    ];
    let lines = render_card_row(&cards, true, false);
    let border = "/----------------------\\";
    let expected = format!("{}{}|{}{}", border, border, border, border);
    assert_eq!(lines[0], expected);
}
