use std::collections::HashSet;

use bliss_mixer::genres::{collect_genres, genres_of_cell};

#[test]
fn cell_with_two_genres() {
    let genres = genres_of_cell("Rock; Electronic");
    assert_eq!(genres, vec!["Rock".to_string(), "Electronic".to_string()]);
}

#[test]
fn empty_parts_are_left_out() {
    assert_eq!(genres_of_cell(" ; ;Jazz;;"), vec!["Jazz".to_string()]);
    assert!(genres_of_cell("").is_empty());
    assert!(genres_of_cell("   ").is_empty());
}

#[test]
fn genres_of_all_cells_once_each() {
    let cells = vec![
        "Rock; Electronic".to_string(),
        "Rock".to_string(),
        " Electronic ;Pop".to_string(),
        "".to_string(),
    ];
    let genres = collect_genres(&cells);
    assert_eq!(genres.len(), 3);
    let set: HashSet<String> = genres.into_iter().collect();
    let expected: HashSet<String> =
        ["Rock", "Electronic", "Pop"].iter().map(|s| s.to_string()).collect();
    assert_eq!(set, expected);
}

#[test]
fn no_cells_no_genres() {
    assert!(collect_genres(&Vec::new()).is_empty());
}

#[test]
fn genre_read_back_names_itself() {
    let cells = vec!["  Hip Hop ; R&B".to_string()];
    for g in collect_genres(&cells) {
        assert_eq!(genres_of_cell(&g), vec![g.clone()]);
    }
}

#[test]
fn genres_of_joined_lists_are_the_union() {
    let a = vec!["Rock;Pop".to_string()];
    let b = vec!["Jazz; Rock".to_string()];
    let mut ab = a.clone();
    ab.extend(b.clone());
    let all: HashSet<String> = collect_genres(&ab).into_iter().collect();
    let mut union: HashSet<String> = collect_genres(&a).into_iter().collect();
    union.extend(collect_genres(&b));
    assert_eq!(all, union);
}
