//! Match quality: a literal hit, or a graded score kept as an exact ratio.

use vstd::prelude::*;

verus! {

/// A non-negative ratio `num / den`. Scores are kept exact so that two of
/// them can be ordered without rounding.
#[derive(Clone, Copy, Debug)]
pub struct Score {
    pub num: u64,
    pub den: u64,
}

/// How well a candidate answered a query.
#[derive(Clone, Copy, Debug)]
pub enum MatchType {
    /// The candidate holds the query as a literal substring.
    Inclusive,
    /// A graded match.
    Similar(Score),
}

/// The ratio `num / den` that a `Score` stands for.
pub struct Ratio {
    pub num: nat,
    pub den: nat,
}

/// The quality that a `MatchType` stands for.
pub enum Grade {
    Inclusive,
    Similar(Ratio),
}

impl Ratio {
    /// The denominator is not zero.
    pub open spec fn wf(self) -> bool {
        self.den > 0
    }

    /// `self` is worth less than `other`.
    pub open spec fn lt(self, other: Ratio) -> bool {
        self.num * other.den < other.num * self.den
    }

    /// `self` and `other` are worth the same.
    pub open spec fn same_value(self, other: Ratio) -> bool {
        self.num * other.den == other.num * self.den
    }

    /// The larger of two ratios. Of two that are worth the same, the one
    /// with the smaller denominator.
    pub open spec fn max(self, other: Ratio) -> Ratio {
        if self.lt(other) {
            other
        } else if other.lt(self) {
            self
        } else if other.den < self.den {
            other
        } else {
            self
        }
    }

    /// The ratio `0 / 1`.
    pub open spec fn zero() -> Ratio {
        Ratio { num: 0, den: 1 }
    }

    /// The ratio `1 / 1`.
    pub open spec fn one() -> Ratio {
        Ratio { num: 1, den: 1 }
    }
}

impl Grade {
    /// Every ratio inside has a denominator other than zero.
    pub open spec fn wf(self) -> bool {
        match self {
            Grade::Inclusive => true,
            Grade::Similar(s) => s.wf(),
        }
    }

    /// Both are `Inclusive`, or both are ratios that are worth the same.
    pub open spec fn same_quality(self, other: Grade) -> bool {
        match (self, other) {
            (Grade::Inclusive, Grade::Inclusive) => true,
            (Grade::Similar(a), Grade::Similar(b)) => a.same_value(b),
            _ => false,
        }
    }

    /// The weakest grade, `Similar(0 / 1)`.
    pub open spec fn weakest() -> Grade {
        Grade::Similar(Ratio::zero())
    }

    /// The better of two grades: `Inclusive` if either is, else the larger
    /// ratio.
    pub open spec fn combine_best(self, other: Grade) -> Grade {
        match (self, other) {
            (Grade::Similar(a), Grade::Similar(b)) => Grade::Similar(a.max(b)),
            _ => Grade::Inclusive,
        }
    }

    /// `Inclusive` capped to `Similar(1 / 1)`; a ratio as it is.
    pub open spec fn soften(self) -> Grade {
        match self {
            Grade::Inclusive => Grade::Similar(Ratio::one()),
            Grade::Similar(s) => Grade::Similar(s),
        }
    }
}

impl View for Score {
    type V = Ratio;

    open spec fn view(&self) -> Ratio {
        Ratio { num: self.num as nat, den: self.den as nat }
    }
}

impl View for MatchType {
    type V = Grade;

    open spec fn view(&self) -> Grade {
        match *self {
            MatchType::Inclusive => Grade::Inclusive,
            MatchType::Similar(s) => Grade::Similar(s@),
        }
    }
}

impl Score {
    /// The score `0 / 1`.
    pub fn zero() -> (r: Score)
        ensures
            r@ == Ratio::zero(),
            r@.wf(),
    {
        Score { num: 0, den: 1 }
    }

    /// The score `1 / 1`.
    pub fn one() -> (r: Score)
        ensures
            r@ == Ratio::one(),
            r@.wf(),
    {
        Score { num: 1, den: 1 }
    }

    /// Whether two scores are worth the same.
    pub fn same_value(self, other: Score) -> (r: bool)
        ensures
            r == self@.same_value(other@),
    {
        proof {
            lemma_product_fits(self.num, other.den);
            lemma_product_fits(other.num, self.den);
        }
        let left: u128 = (self.num as u128) * (other.den as u128);
        let right: u128 = (other.num as u128) * (self.den as u128);
        left == right
    }

    /// The larger of two scores; of two that are worth the same, the one
    /// with the smaller denominator.
    pub fn max(self, other: Score) -> (r: Score)
        ensures
            r@ == self@.max(other@),
            r == self || r == other,
    {
        proof {
            lemma_product_fits(self.num, other.den);
            lemma_product_fits(other.num, self.den);
        }
        let left: u128 = (self.num as u128) * (other.den as u128);
        let right: u128 = (other.num as u128) * (self.den as u128);
        if left < right {
            other
        } else if right < left {
            self
        } else if other.den < self.den {
            other
        } else {
            self
        }
    }
}

impl PartialEq for Score {
    /// Two scores are equal when they are worth the same: `1 / 2` equals
    /// `2 / 4`.
    fn eq(&self, other: &Score) -> (r: bool) {
        self.same_value(*other)
    }
}

impl vstd::std_specs::cmp::PartialEqSpecImpl for Score {
    open spec fn obeys_eq_spec() -> bool {
        true
    }

    open spec fn eq_spec(&self, other: &Score) -> bool {
        self@.same_value(other@)
    }
}

impl PartialEq for MatchType {
    /// Two matches are equal when both are literal hits, or both are graded
    /// with scores that are worth the same.
    fn eq(&self, other: &MatchType) -> (r: bool) {
        match (self, other) {
            (MatchType::Inclusive, MatchType::Inclusive) => true,
            (MatchType::Similar(a), MatchType::Similar(b)) => a.same_value(*b),
            _ => false,
        }
    }
}

impl vstd::std_specs::cmp::PartialEqSpecImpl for MatchType {
    open spec fn obeys_eq_spec() -> bool {
        true
    }

    open spec fn eq_spec(&self, other: &MatchType) -> bool {
        self@.same_quality(other@)
    }
}

impl MatchType {
    /// The weakest match, `Similar(0 / 1)`: what a comparison yields when it
    /// has nothing to go on.
    pub fn weakest() -> (r: MatchType)
        ensures
            r@ == Grade::weakest(),
            r@.wf(),
    {
        MatchType::Similar(Score::zero())
    }

    /// The better of two matches: `Inclusive` if either is, else the larger
    /// score.
    pub fn combine_best(&self, other: &MatchType) -> (r: MatchType)
        ensures
            r@ == self@.combine_best(other@),
            self@.wf() && other@.wf() ==> r@.wf(),
    {
        match self {
            MatchType::Inclusive => MatchType::Inclusive,
            MatchType::Similar(a) => match other {
                MatchType::Inclusive => MatchType::Inclusive,
                MatchType::Similar(b) => MatchType::Similar(a.max(*b)),
            },
        }
    }

    /// Caps a literal hit at the top of the graded scale, `Similar(1 / 1)`;
    /// a graded match passes unchanged.
    pub fn soften(&self) -> (r: MatchType)
        ensures
            r@ == self@.soften(),
            *self is Similar ==> r == *self,
            self@.wf() ==> r@.wf(),
    {
        match self {
            MatchType::Inclusive => MatchType::Similar(Score::one()),
            MatchType::Similar(_) => *self,
        }
    }
}

proof fn lemma_product_fits(a: u64, b: u64)
    ensures
        (a as u128) * (b as u128) <= u128::MAX,
        (a as u128) * (b as u128) == (a as int) * (b as int),
{
    assert((a as int) * (b as int) <= 0xffff_ffff_ffff_ffff * 0xffff_ffff_ffff_ffff)
        by (nonlinear_arith)
        requires
            0 <= a <= 0xffff_ffff_ffff_ffff,
            0 <= b <= 0xffff_ffff_ffff_ffff,
    ;
}

/// With the ties broken by the denominator, the ratios are in one line:
/// `a` stands at or below `b`.
pub open spec fn at_most(a: Ratio, b: Ratio) -> bool {
    a.lt(b) || (a.same_value(b) && a.den >= b.den)
}

proof fn lemma_at_most_total(a: Ratio, b: Ratio)
    requires
        a.wf(),
        b.wf(),
    ensures
        at_most(a, b) || at_most(b, a),
        at_most(a, b) && at_most(b, a) ==> a == b,
        a.max(b) == (if at_most(a, b) { b } else { a }),
{
    if a.same_value(b) && a.den == b.den {
        assert(a.num == b.num) by (nonlinear_arith)
            requires
                a.num * b.den == b.num * a.den,
                a.den == b.den,
                a.den > 0,
        ;
    }
}

proof fn lemma_cross_chain(x1: int, d1: int, x2: int, d2: int, x3: int, d3: int)
    requires
        d1 > 0,
        d2 > 0,
        d3 > 0,
        0 <= x1,
        0 <= x2,
        0 <= x3,
        x1 * d2 <= x2 * d1,
        x2 * d3 <= x3 * d2,
    ensures
        x1 * d3 <= x3 * d1,
        x1 * d2 < x2 * d1 || x2 * d3 < x3 * d2 ==> x1 * d3 < x3 * d1,
{
    assert((x1 * d2) * d3 <= (x2 * d1) * d3) by (nonlinear_arith)
        requires
            x1 * d2 <= x2 * d1,
            d3 > 0,
    ;
    assert((x2 * d3) * d1 <= (x3 * d2) * d1) by (nonlinear_arith)
        requires
            x2 * d3 <= x3 * d2,
            d1 > 0,
    ;
    assert((x1 * d2) * d3 == (x1 * d3) * d2) by (nonlinear_arith);
    assert((x2 * d1) * d3 == (x2 * d3) * d1) by (nonlinear_arith);
    assert((x3 * d2) * d1 == (x3 * d1) * d2) by (nonlinear_arith);
    assert(x1 * d3 <= x3 * d1) by (nonlinear_arith)
        requires
            (x1 * d3) * d2 <= (x3 * d1) * d2,
            d2 > 0,
    ;
    if x1 * d2 < x2 * d1 {
        assert((x1 * d2) * d3 < (x2 * d1) * d3) by (nonlinear_arith)
            requires
                x1 * d2 < x2 * d1,
                d3 > 0,
        ;
        assert(x1 * d3 < x3 * d1) by (nonlinear_arith)
            requires
                (x1 * d3) * d2 < (x3 * d1) * d2,
                d2 > 0,
        ;
    }
    if x2 * d3 < x3 * d2 {
        assert((x2 * d3) * d1 < (x3 * d2) * d1) by (nonlinear_arith)
            requires
                x2 * d3 < x3 * d2,
                d1 > 0,
        ;
        assert(x1 * d3 < x3 * d1) by (nonlinear_arith)
            requires
                (x1 * d3) * d2 < (x3 * d1) * d2,
                d2 > 0,
        ;
    }
}

proof fn lemma_at_most_transitive(a: Ratio, b: Ratio, c: Ratio)
    requires
        a.wf(),
        b.wf(),
        c.wf(),
        at_most(a, b),
        at_most(b, c),
    ensures
        at_most(a, c),
{
    lemma_cross_chain(
        a.num as int,
        a.den as int,
        b.num as int,
        b.den as int,
        c.num as int,
        c.den as int,
    );
}

/// The larger of two ratios does not depend on their order.
pub proof fn lemma_max_commutative(a: Ratio, b: Ratio)
    requires
        a.wf(),
        b.wf(),
    ensures
        a.max(b) == b.max(a),
{
    lemma_at_most_total(a, b);
    lemma_at_most_total(b, a);
}

/// The largest of three ratios does not depend on how they are grouped.
pub proof fn lemma_max_associative(a: Ratio, b: Ratio, c: Ratio)
    requires
        a.wf(),
        b.wf(),
        c.wf(),
    ensures
        a.max(b).max(c) == a.max(b.max(c)),
{
    lemma_at_most_total(a, b);
    lemma_at_most_total(b, c);
    lemma_at_most_total(a, c);
    lemma_at_most_total(a.max(b), c);
    lemma_at_most_total(a, b.max(c));
    if at_most(a, b) && at_most(b, c) {
        lemma_at_most_transitive(a, b, c);
    }
    if at_most(c, b) && at_most(b, a) {
        lemma_at_most_transitive(c, b, a);
    }
    if at_most(b, a) && at_most(a, c) {
        lemma_at_most_transitive(b, a, c);
    }
    if at_most(c, a) && at_most(a, b) {
        lemma_at_most_transitive(c, a, b);
    }
    if at_most(a, c) && at_most(c, b) {
        lemma_at_most_transitive(a, c, b);
    }
    if at_most(b, c) && at_most(c, a) {
        lemma_at_most_transitive(b, c, a);
    }
}

/// The larger of two ratios is one of them, and is worth at least as much
/// as either.
pub proof fn lemma_max_is_upper_bound(a: Ratio, b: Ratio)
    requires
        a.wf(),
        b.wf(),
    ensures
        a.max(b) == a || a.max(b) == b,
        a.max(b).wf(),
        !a.max(b).lt(a),
        !a.max(b).lt(b),
        at_most(a, a.max(b)),
        at_most(b, a.max(b)),
{
    lemma_at_most_total(a, b);
}

/// The grades in one line: `Inclusive` above every score, the scores as
/// `at_most` orders them.
pub open spec fn grade_at_most(a: Grade, b: Grade) -> bool {
    match (a, b) {
        (_, Grade::Inclusive) => true,
        (Grade::Inclusive, Grade::Similar(_)) => false,
        (Grade::Similar(x), Grade::Similar(y)) => at_most(x, y),
    }
}

/// If `a` stands at or below `b`, and `b` at or below `c`, then `a` stands
/// at or below `c`.
pub proof fn lemma_grade_at_most_transitive(a: Grade, b: Grade, c: Grade)
    requires
        a.wf(),
        b.wf(),
        c.wf(),
        grade_at_most(a, b),
        grade_at_most(b, c),
    ensures
        grade_at_most(a, c),
{
    match (a, b, c) {
        (Grade::Similar(x), Grade::Similar(y), Grade::Similar(z)) => {
            lemma_at_most_transitive(x, y, z)
        },
        _ => {},
    }
}

/// The better of two grades is one of them, and neither stands above it.
pub proof fn lemma_combine_best_is_upper_bound(a: Grade, b: Grade)
    requires
        a.wf(),
        b.wf(),
    ensures
        a.combine_best(b) == a || a.combine_best(b) == b,
        a.combine_best(b).wf(),
        grade_at_most(a, a.combine_best(b)),
        grade_at_most(b, a.combine_best(b)),
{
    match (a, b) {
        (Grade::Similar(x), Grade::Similar(y)) => lemma_max_is_upper_bound(x, y),
        _ => {},
    }
}

/// The better of two grades does not depend on their order.
pub proof fn lemma_combine_best_commutative(a: Grade, b: Grade)
    requires
        a.wf(),
        b.wf(),
    ensures
        a.combine_best(b) == b.combine_best(a),
{
    match (a, b) {
        (Grade::Similar(x), Grade::Similar(y)) => lemma_max_commutative(x, y),
        _ => {},
    }
}

/// The best of three grades does not depend on how they are grouped.
pub proof fn lemma_combine_best_associative(a: Grade, b: Grade, c: Grade)
    requires
        a.wf(),
        b.wf(),
        c.wf(),
    ensures
        a.combine_best(b).combine_best(c) == a.combine_best(
            b.combine_best(c),
        ),
{
    match (a, b, c) {
        (Grade::Similar(x), Grade::Similar(y), Grade::Similar(z)) => {
            lemma_max_associative(x, y, z)
        },
        _ => {},
    }
}

/// A literal hit beats every other grade, on either side.
pub proof fn lemma_inclusive_absorbs(m: Grade)
    ensures
        Grade::Inclusive.combine_best(m) == Grade::Inclusive,
        m.combine_best(Grade::Inclusive) == Grade::Inclusive,
{
}

/// Softening a literal hit gives `Similar(1 / 1)`; a score is left as it
/// is, and softening twice changes nothing more.
pub proof fn lemma_soften(m: Grade)
    ensures
        Grade::Inclusive.soften() == Grade::Similar(Ratio::one()),
        m is Similar ==> m.soften() == m,
        m.soften().soften() == m.soften(),
        m.soften() is Similar,
{
}

} // verus!
