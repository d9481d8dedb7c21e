use pimsync::selection::{number_capped, parse_selection, words};

#[test]
fn indices_and_ranges_are_selected_once_in_order() {
    assert_eq!(parse_selection("3 0 1-2 2", 5), vec![0, 1, 2, 3]);
    assert_eq!(parse_selection("  4\t1-1\n", 5), vec![1, 4]);
}

#[test]
fn out_of_bounds_and_malformed_words_select_nothing() {
    assert_eq!(parse_selection("7 x 2-x -1 1-2-3 +1", 5), Vec::<usize>::new());
    assert_eq!(parse_selection("3-10", 5), vec![3, 4]);
    assert_eq!(parse_selection("4-2", 5), Vec::<usize>::new());
    assert_eq!(parse_selection("99999999999999999999999 0", 2), vec![0]);
    assert!(parse_selection("", 3).is_empty());
    assert!(parse_selection("0", 0).is_empty());
}

#[test]
fn words_and_numbers() {
    assert_eq!(words("  a bc\t d  "), vec!["a".to_string(), "bc".to_string(), "d".to_string()]);
    assert!(words("   ").is_empty());
    assert_eq!(number_capped("042", 100), Some(42));
    assert_eq!(number_capped("420", 100), Some(100));
    assert_eq!(number_capped("", 100), None);
    assert_eq!(number_capped("4a", 100), None);
}
