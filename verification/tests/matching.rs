use expedient_database::expedient::{
    match_collection, match_expedient, match_folded, match_person, match_text, score_keywords,
    Expedient, User,
};
use expedient_database::score::{MatchType, Score};

fn show(m: MatchType) -> String {
    match m {
        MatchType::Inclusive => String::from("Inclusive"),
        MatchType::Similar(s) => format!("Similar({:?})", s.num as f32 / s.den as f32),
    }
}

fn strings(items: &[&str]) -> Vec<String> {
    items.iter().map(|s| s.to_string()).collect()
}

fn user(name: &str, emails: &[&str], phones: &[&str]) -> User {
    User { name: String::from(name), emails: strings(emails), phones: strings(phones) }
}

#[test]
fn filter_string() {
    let text = "Hello to all RATIONAL creature!!";
    let s = String::from(text);

    let str_match = match_text(&s, &String::from(text));
    assert_eq!(show(str_match), "Inclusive");

    let str_match = match_text(&s, &String::from(text).to_uppercase());
    assert_eq!(show(str_match), "Inclusive");

    let str_match = match_text(&s, &String::from("Hello"));
    assert_eq!(show(str_match), "Inclusive");

    let str_match = match_text(&s, &String::from("rational hello"));
    assert_eq!(show(str_match), "Similar(1.0)");

    let str_match = match_text(&s, &String::from("helloall"));
    assert_eq!(show(str_match), "Similar(0.0)");
}

#[test]
fn filter_user() {
    let juan = user("Juan Antonio Mario", &[], &["932123456"]);
    let juan_first_name = user("Juan", &[], &[]);
    let juan_phone = user("", &[], &["932123456"]);
    let mario = user("Mario Bro", &["mariobro@email.com"], &["123456789"]);
    let mario_emal = user("", &["mariobro@email.com"], &[]);
    let pepa = user("Pepa la pera", &[""], &[""]);

    assert_eq!(show(match_person(&juan, &juan)), "Inclusive");
    assert_eq!(show(match_person(&juan, &juan_first_name)), "Similar(1.0)");
    assert_eq!(show(match_person(&juan, &juan_phone)), "Inclusive");
    assert_eq!(show(match_person(&juan, &mario)), "Similar(0.5)");
    assert_eq!(show(match_person(&juan, &pepa)), "Similar(0.0)");
    assert_eq!(show(match_person(&mario, &mario_emal)), "Inclusive");
}

#[test]
fn text_matches_itself_in_any_case() {
    for t in ["a", "Hello World", "  spaced  ", "ÀÉÎ õü", "x_y+z"] {
        assert!(matches!(match_text(t, t), MatchType::Inclusive));
        assert!(matches!(match_text(t, &t.to_uppercase()), MatchType::Inclusive));
        assert!(matches!(match_text(&t.to_uppercase(), t), MatchType::Inclusive));
    }
}

#[test]
fn empty_query_is_weakest() {
    for t in ["", "a", "Hello World"] {
        match match_text(t, "") {
            MatchType::Similar(s) => assert_eq!((s.num, s.den), (0, 1)),
            MatchType::Inclusive => panic!("an empty query matched literally"),
        }
    }
}

#[test]
fn blank_query_scores_zero() {
    assert_eq!(show(match_text("abc", "   ")), "Similar(0.0)");
    assert_eq!(show(match_text("abc", " \t\n")), "Similar(0.0)");
    match match_text("abc", "  ") {
        MatchType::Similar(s) => assert_eq!((s.num, s.den), (0, 1)),
        MatchType::Inclusive => panic!("a blank query matched literally"),
    }
    assert_eq!(show(match_text("a  b", "  ")), "Inclusive");
}

#[test]
fn partial_overlap_is_a_fraction() {
    match match_text("Hello to all", "hello nobody") {
        MatchType::Similar(s) => assert_eq!((s.num, s.den), (1, 2)),
        MatchType::Inclusive => panic!("not a substring"),
    }
    match match_text("Hello to all", "all x hello y to") {
        MatchType::Similar(s) => assert_eq!((s.num, s.den), (3, 5)),
        MatchType::Inclusive => panic!("not a substring"),
    }
    match match_text("one", "two  three\tfour") {
        MatchType::Similar(s) => assert_eq!((s.num, s.den), (0, 3)),
        MatchType::Inclusive => panic!("not a substring"),
    }
    assert_eq!(show(match_text("Mario", "mario bro")), "Similar(0.5)");
}

#[test]
fn repeated_words_count_each_time() {
    match match_text("abc", "abc x abc") {
        MatchType::Similar(s) => assert_eq!((s.num, s.den), (2, 3)),
        MatchType::Inclusive => panic!("not a substring"),
    }
}

#[test]
fn folded_match_does_not_fold() {
    assert_eq!(show(match_folded("hello", "HELLO")), "Similar(0.0)");
    assert_eq!(show(match_folded("hello", "hello")), "Inclusive");
    assert_eq!(show(match_folded("hello", "")), "Inclusive");
    assert_eq!(show(match_folded("hello world", "world hello")), "Similar(1.0)");
}

#[test]
fn score_keywords_counts_hits() {
    let s = score_keywords("hello world", &strings(&["hello", "moon", "world", "o w"]));
    assert_eq!((s.num, s.den), (3, 4));
    let s = score_keywords("hello world", &strings(&[]));
    assert_eq!((s.num, s.den), (0, 1));
    let s = score_keywords("", &strings(&["a"]));
    assert_eq!((s.num, s.den), (0, 1));
}

#[test]
fn collection_takes_the_best_pair() {
    let candidates = strings(&["alpha beta", "gamma"]);
    assert_eq!(show(match_collection(&candidates, &strings(&["beta x", "delta"]))), "Similar(0.5)");
    assert_eq!(show(match_collection(&candidates, &strings(&["delta", "GAMMA"]))), "Inclusive");
    assert_eq!(show(match_collection(&candidates, &strings(&["delta"]))), "Similar(0.0)");
    match match_collection(&candidates, &strings(&["beta x y", "alpha z", "gamma q w e"])) {
        MatchType::Similar(s) => assert_eq!((s.num, s.den), (1, 2)),
        MatchType::Inclusive => panic!("no literal hit"),
    }
}

#[test]
fn collection_order_is_irrelevant() {
    let a = strings(&["alpha beta", "gamma", "delta epsilon"]);
    let b = strings(&["delta epsilon", "alpha beta", "gamma"]);
    let q = strings(&["epsilon nothing", "beta alpha zeta"]);
    let r = strings(&["beta alpha zeta", "epsilon nothing"]);
    let first = match_collection(&a, &q);
    for m in [match_collection(&b, &q), match_collection(&a, &r), match_collection(&b, &r)] {
        match (first, m) {
            (MatchType::Similar(x), MatchType::Similar(y)) => {
                assert_eq!((x.num, x.den), (y.num, y.den))
            }
            _ => panic!("no literal hit"),
        }
    }
    assert_eq!(show(first), format!("Similar({:?})", 2f32 / 3f32));
}

#[test]
fn empty_collections_give_the_seed() {
    let some = strings(&["a", "b"]);
    let none = strings(&[]);
    for m in [
        match_collection(&none, &some),
        match_collection(&some, &none),
        match_collection(&none, &none),
    ] {
        match m {
            MatchType::Similar(s) => assert_eq!((s.num, s.den), (0, 1)),
            MatchType::Inclusive => panic!("nothing to match"),
        }
    }
}

#[test]
fn person_scenario() {
    let candidate = user("Juan Antonio Mario", &[], &["932123456"]);
    assert_eq!(show(match_person(&candidate, &user("Juan", &[], &[]))), "Similar(1.0)");
    assert_eq!(show(match_person(&candidate, &user("", &[], &["932123456"]))), "Inclusive");
    let mario = user("Mario Bro", &["mariobro@email.com"], &["123456789"]);
    assert_eq!(show(match_person(&candidate, &mario)), "Similar(0.5)");
}

#[test]
fn name_alone_is_never_inclusive() {
    let candidate = user("Ana", &["ana@mail.com"], &["600"]);
    let by_name = user("ANA", &["zzz"], &["999"]);
    match match_person(&candidate, &by_name) {
        MatchType::Similar(s) => assert_eq!((s.num, s.den), (1, 1)),
        MatchType::Inclusive => panic!("a name hit was not softened"),
    }
    let by_mail = user("nobody", &["MAIL.com"], &[]);
    assert!(matches!(match_person(&candidate, &by_mail), MatchType::Inclusive));
    let by_phone = user("nobody", &[], &["00"]);
    assert!(matches!(match_person(&candidate, &by_phone), MatchType::Inclusive));
}

#[test]
fn expedients_are_not_compared() {
    let full = Expedient {
        users: vec![user("Ana", &[], &[])],
        model: String::from("Model"),
        license_plate: String::from("1234ABC"),
        vin: String::from("VIN"),
        description: String::from("text"),
        orders: vec![],
    };
    match match_expedient(&full, &full) {
        MatchType::Similar(s) => assert_eq!((s.num, s.den), (0, 1)),
        MatchType::Inclusive => panic!("cases are not compared"),
    }
}

#[test]
fn score_helpers() {
    let z = Score::zero();
    let o = Score::one();
    assert_eq!((z.num, z.den, o.num, o.den), (0, 1, 1, 1));
    assert_eq!(show(MatchType::weakest()), "Similar(0.0)");
}
