use cdl::selection::{chosen_positions, parse_input, parse_selection};

#[test]
fn simple_parse() {
    assert_eq!(parse_input("1"), Some(vec![1]));
    assert_eq!(parse_input("1 2 3"), Some(vec![1, 2, 3]));
    assert_eq!(parse_input("1 1 2 1 3 4 10"), Some(vec![1, 2, 3, 4, 10]));
    assert_eq!(parse_input("1-9"), Some((1..=9).collect()));
    assert_eq!(parse_input("1-3 5 7"), Some(vec![1, 2, 3, 5, 7]));
    assert_eq!(parse_input("1 3 5-6 7"), Some(vec![1, 3, 5, 6, 7]));
    assert_eq!(parse_input("1-3 1 2 3"), Some((1..=3).collect()));
}

#[test]
fn range_and_singles_are_merged() {
    assert_eq!(parse_input("1-3 5 7"), Some(vec![1, 2, 3, 5, 7]));
}

#[test]
fn repeated_indices_keep_first_occurrence() {
    assert_eq!(parse_input("1 1 2"), Some(vec![1, 2]));
    assert_eq!(parse_input("3 1 3 2 1"), Some(vec![3, 1, 2]));
}

#[test]
fn bogus_selects_nothing() {
    assert_eq!(parse_input("bogus"), None);
    assert_eq!(parse_input("a-b c"), None);
}

#[test]
fn empty_selects_nothing() {
    assert_eq!(parse_input(""), None);
    assert_eq!(parse_input("   "), None);
}

#[test]
fn surrounding_whitespace_is_trimmed() {
    assert_eq!(parse_input("\t2 4\n"), Some(vec![2, 4]));
    assert_eq!(parse_selection("2 4\n"), Some(vec![2]));
}

#[test]
fn reversed_range_is_empty() {
    assert_eq!(parse_input("5-3"), None);
    assert_eq!(parse_input("5-3 4"), Some(vec![4]));
}

#[test]
fn range_ignores_third_part() {
    assert_eq!(parse_input("2-4-9"), Some(vec![2, 3, 4]));
}

#[test]
fn plus_sign_and_overflow() {
    assert_eq!(parse_input("+7"), Some(vec![7]));
    assert_eq!(parse_input("+"), None);
    assert_eq!(parse_input("99999999999999999999999 8"), Some(vec![8]));
    assert_eq!(parse_input("-4"), None);
}

#[test]
fn double_spaces_give_empty_pieces() {
    assert_eq!(parse_selection("1  2"), Some(vec![1, 2]));
}

#[test]
fn chosen_positions_in_list_order() {
    assert_eq!(chosen_positions(5, &vec![3, 1, 5]), Some(vec![0, 2, 4]));
    assert_eq!(chosen_positions(5, &vec![0, 2]), Some(vec![1]));
    assert_eq!(chosen_positions(3, &vec![1, 4]), None);
    assert_eq!(chosen_positions(0, &vec![]), Some(vec![]));
}
