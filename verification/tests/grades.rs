use expedient_database::score::{MatchType, Score};

fn sim(num: u64, den: u64) -> MatchType {
    MatchType::Similar(Score { num, den })
}

fn key(m: MatchType) -> Option<(u64, u64)> {
    match m {
        MatchType::Inclusive => None,
        MatchType::Similar(s) => Some((s.num, s.den)),
    }
}

fn samples() -> Vec<MatchType> {
    vec![
        MatchType::Inclusive,
        sim(0, 1),
        sim(0, 7),
        sim(1, 2),
        sim(2, 4),
        sim(1, 3),
        sim(2, 3),
        sim(1, 1),
        sim(5, 5),
        sim(u64::MAX, u64::MAX),
        sim(u64::MAX - 1, u64::MAX),
        sim(3, 2),
    ]
}

#[test]
fn combine_best_picks_the_larger_score() {
    assert_eq!(key(sim(1, 2).combine_best(&sim(2, 3))), Some((2, 3)));
    assert_eq!(key(sim(2, 3).combine_best(&sim(1, 2))), Some((2, 3)));
    assert_eq!(key(sim(0, 1).combine_best(&sim(0, 1))), Some((0, 1)));
    assert_eq!(key(sim(1, 1).combine_best(&sim(1, 2))), Some((1, 1)));
    assert_eq!(
        key(sim(u64::MAX - 1, u64::MAX).combine_best(&sim(u64::MAX, u64::MAX))),
        Some((u64::MAX, u64::MAX))
    );
    assert_eq!(Score { num: 1, den: 4 }.max(Score { num: 1, den: 3 }).den, 3);
}

#[test]
fn combine_best_breaks_ties_by_denominator() {
    assert_eq!(key(sim(1, 2).combine_best(&sim(2, 4))), Some((1, 2)));
    assert_eq!(key(sim(2, 4).combine_best(&sim(1, 2))), Some((1, 2)));
    assert_eq!(key(sim(0, 7).combine_best(&sim(0, 1))), Some((0, 1)));
}

#[test]
fn inclusive_absorbs() {
    for m in samples() {
        assert_eq!(key(MatchType::Inclusive.combine_best(&m)), None);
        assert_eq!(key(m.combine_best(&MatchType::Inclusive)), None);
    }
}

#[test]
fn combine_best_is_commutative() {
    for a in samples() {
        for b in samples() {
            assert_eq!(key(a.combine_best(&b)), key(b.combine_best(&a)));
        }
    }
}

#[test]
fn combine_best_is_associative() {
    for a in samples() {
        for b in samples() {
            for c in samples() {
                assert_eq!(
                    key(a.combine_best(&b).combine_best(&c)),
                    key(a.combine_best(&b.combine_best(&c)))
                );
            }
        }
    }
}

#[test]
fn soften_caps_inclusive() {
    assert_eq!(key(MatchType::Inclusive.soften()), Some((1, 1)));
    for m in samples() {
        if let MatchType::Similar(_) = m {
            assert_eq!(key(m.soften()), key(m));
        }
        assert_eq!(key(m.soften().soften()), key(m.soften()));
    }
}

#[test]
fn equality_is_by_value() {
    assert_eq!(sim(1, 2), sim(2, 4));
    assert_eq!(sim(0, 1), sim(0, 9));
    assert_eq!(MatchType::Inclusive, MatchType::Inclusive);
    assert_ne!(sim(1, 2), sim(2, 3));
    assert_ne!(sim(1, 1), MatchType::Inclusive);
    assert_ne!(MatchType::Inclusive, sim(1, 1));
    assert_eq!(Score { num: 3, den: 9 }, Score { num: 1, den: 3 });
    assert!(Score { num: u64::MAX, den: 1 } != Score { num: 1, den: u64::MAX });
    assert!(Score { num: 2, den: 6 }.same_value(Score { num: 1, den: 3 }));
    assert!(!Score { num: 2, den: 6 }.same_value(Score { num: 1, den: 2 }));
}
