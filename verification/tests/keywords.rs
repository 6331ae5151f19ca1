use expedient_database::filter::{holds_all, holds_any, keywords_in, with_spaces, Filter};

#[test]
fn filter() {
    let filter = Filter::new("a B");
    assert!(!filter.test("A"));
    assert!(!filter.test("B"));
    assert!(!filter.test("C"));
    assert!(filter.test("A B"));
    assert!(filter.test("B A C"));

    let filter = Filter::new("A_B");
    assert!(!filter.test("A"));
    assert!(!filter.test("B"));
    assert!(!filter.test("C"));
    assert!(filter.test("A B"));
    assert!(!filter.test("B A C"));

    let filter = Filter::new("A +b C");
    assert!(!filter.test("A"));
    assert!(!filter.test("B"));
    assert!(!filter.test("C"));
    assert!(filter.test("A B"));
    assert!(filter.test("B A C"));

    let filter = Filter::new("+A B");
    assert!(filter.test("A"));
    assert!(filter.test("B"));
    assert!(!filter.test("C"));
    assert!(filter.test("A B"));
    assert!(filter.test("B A C"));
}

#[test]
fn bare_plus_passes_everything() {
    let filter = Filter::new("+");
    assert!(filter.test(""));
    assert!(filter.test("anything"));
    let filter = Filter::new("");
    assert!(filter.test(""));
    assert!(filter.test("anything"));
    let filter = Filter::new("  \t ");
    assert!(filter.test("anything"));
}

#[test]
fn trailing_plus_adds_no_optional_group() {
    let filter = Filter::new("a+");
    assert!(filter.test("xax"));
    assert!(!filter.test("b"));
    let filter = Filter::new("a + ");
    assert!(filter.test("A"));
}

#[test]
fn only_the_first_plus_splits() {
    let filter = Filter::new("a +b+c d");
    assert!(!filter.test("a b"));
    assert!(filter.test("a b+c"));
    assert!(filter.test("a d"));
    assert!(!filter.test("b+c d"));
    let filter = Filter::new("a+b");
    assert!(filter.test("ab"));
    assert!(!filter.test("a"));
    assert!(!filter.test("a+c"));
}

#[test]
fn underscores_in_the_candidate_read_as_spaces() {
    let filter = Filter::new("a_b");
    assert!(filter.test("A_B"));
    assert!(filter.test("x a b y"));
    assert!(!filter.test("a-b"));
    let filter = Filter::new("+x_y z");
    assert!(filter.test("X_Y"));
    assert!(filter.test("x y"));
    assert!(filter.test("z"));
    assert!(!filter.test("x"));
}

#[test]
fn folded_entry_points_do_not_fold() {
    let filter = Filter::from_folded("a +b");
    assert!(filter.test_folded("a b"));
    assert!(!filter.test_folded("A B"));
    assert!(filter.test("A B"));
    let upper = Filter::from_folded("A");
    assert!(!upper.test("a"));
    assert!(!upper.test("A"));
    assert!(upper.test_folded("A"));
}

#[test]
fn keywords_are_split_and_spaced() {
    assert_eq!(keywords_in("  a_b  c\td_ "), vec!["a b", "c", "d "]);
    assert_eq!(keywords_in(""), Vec::<String>::new());
    assert_eq!(keywords_in(" \n "), Vec::<String>::new());
    assert_eq!(keywords_in("_"), vec![" "]);
}

#[test]
fn all_and_any() {
    let words: Vec<String> = vec![String::from("a"), String::from("b")];
    let none: Vec<String> = vec![];
    assert!(holds_all("ab", &words));
    assert!(!holds_all("a", &words));
    assert!(holds_all("", &none));
    assert!(holds_any("a", &words));
    assert!(holds_any("xb", &words));
    assert!(!holds_any("c", &words));
    assert!(!holds_any("abc", &none));
}

#[test]
fn with_spaces_turns_each_underscore() {
    let items: Vec<String> = vec![String::from("a_b"), String::from("__"), String::from("c")];
    assert_eq!(with_spaces(&items), vec!["a b", "  ", "c"]);
    assert_eq!(with_spaces(&Vec::new()), Vec::<String>::new());
}
