use vstd::prelude::*;

verus! {

/// The numbers that attribute values, magnitudes and clock readings are made
/// of. The library moves such numbers about and decides when which operation
/// is due; what an operation yields is the implementor's affair, and the
/// contracts of the library speak of it only as a possible outcome.
pub trait Scalar: Copy {
    /// The number that changes nothing when added.
    fn zero() -> Self;

    /// The number that changes nothing when multiplied by.
    fn one() -> Self;

    /// `self + rhs`.
    fn plus(self, rhs: Self) -> Self;

    /// `self - rhs`.
    fn minus(self, rhs: Self) -> Self;

    /// `self * rhs`.
    fn times(self, rhs: Self) -> Self;

    /// `self >= rhs`.
    fn at_least(self, rhs: Self) -> bool;

    /// `self > rhs`.
    fn greater_than(self, rhs: Self) -> bool;

    /// `self < rhs`.
    fn less_than(self, rhs: Self) -> bool;

    /// The larger of `self` and `rhs`.
    fn larger(self, rhs: Self) -> Self;

    /// The smaller of `self` and `rhs`.
    fn smaller(self, rhs: Self) -> Self;
}

/// `value` can come of `Scalar::zero`.
pub open spec fn is_zero<V: Scalar>(value: V) -> bool {
    call_ensures(V::zero, (), value)
}

/// `value` can come of `Scalar::one`.
pub open spec fn is_one<V: Scalar>(value: V) -> bool {
    call_ensures(V::one, (), value)
}

/// `value` can come of adding `rhs` to `lhs`.
pub open spec fn is_sum<V: Scalar>(lhs: V, rhs: V, value: V) -> bool {
    call_ensures(V::plus, (lhs, rhs), value)
}

/// `value` can come of subtracting `rhs` from `lhs`.
pub open spec fn is_difference<V: Scalar>(lhs: V, rhs: V, value: V) -> bool {
    call_ensures(V::minus, (lhs, rhs), value)
}

/// `value` can come of multiplying `lhs` by `rhs`.
pub open spec fn is_product<V: Scalar>(lhs: V, rhs: V, value: V) -> bool {
    call_ensures(V::times, (lhs, rhs), value)
}

/// `answer` can come of asking whether `lhs` is at least `rhs`.
pub open spec fn is_at_least<V: Scalar>(lhs: V, rhs: V, answer: bool) -> bool {
    call_ensures(V::at_least, (lhs, rhs), answer)
}

/// `answer` can come of asking whether `lhs` is greater than `rhs`.
pub open spec fn is_greater_than<V: Scalar>(lhs: V, rhs: V, answer: bool) -> bool {
    call_ensures(V::greater_than, (lhs, rhs), answer)
}

/// `answer` can come of asking whether `lhs` is less than `rhs`.
pub open spec fn is_less_than<V: Scalar>(lhs: V, rhs: V, answer: bool) -> bool {
    call_ensures(V::less_than, (lhs, rhs), answer)
}

/// `value` can come of taking the larger of `lhs` and `rhs`.
pub open spec fn is_larger<V: Scalar>(lhs: V, rhs: V, value: V) -> bool {
    call_ensures(V::larger, (lhs, rhs), value)
}

/// `value` can come of taking the smaller of `lhs` and `rhs`.
pub open spec fn is_smaller<V: Scalar>(lhs: V, rhs: V, value: V) -> bool {
    call_ensures(V::smaller, (lhs, rhs), value)
}

/// `partial` holds the sums met while the numbers of `terms` are added to
/// `start`, first to last: `start` itself, then the sum after each term.
pub open spec fn is_sum_trace<V: Scalar>(start: V, terms: Seq<V>, partial: Seq<V>) -> bool {
    &&& partial.len() == terms.len() + 1
    &&& partial[0] == start
    &&& forall|k: int| 0 <= k < terms.len() ==> is_sum(partial[k], terms[k], #[trigger] partial[k + 1])
}

/// `total` can come of adding the numbers of `terms` to `start`, first to last.
pub open spec fn is_running_sum<V: Scalar>(start: V, terms: Seq<V>, total: V) -> bool {
    exists|partial: Seq<V>| #[trigger] is_sum_trace(start, terms, partial) && partial.last() == total
}

/// `partial` holds the products met while `start` is multiplied by the
/// numbers of `factors`, first to last: `start` itself, then the product
/// after each factor.
pub open spec fn is_product_trace<V: Scalar>(start: V, factors: Seq<V>, partial: Seq<V>) -> bool {
    &&& partial.len() == factors.len() + 1
    &&& partial[0] == start
    &&& forall|k: int|
        0 <= k < factors.len() ==> is_product(partial[k], factors[k], #[trigger] partial[k + 1])
}

/// `total` can come of multiplying `start` by the numbers of `factors`, first
/// to last.
pub open spec fn is_running_product<V: Scalar>(start: V, factors: Seq<V>, total: V) -> bool {
    exists|partial: Seq<V>| #[trigger]
        is_product_trace(start, factors, partial) && partial.last() == total
}

/// `elapsed` can come of asking whether at least `span` has passed at `now`
/// since `since`.
pub open spec fn is_elapsed<V: Scalar>(now: V, since: V, span: V, elapsed: bool) -> bool {
    exists|passed: V| #[trigger] is_difference(now, since, passed) && is_at_least(passed, span, elapsed)
}

/// Whether at `now` at least `span` has passed since `since`.
pub fn has_elapsed<V: Scalar>(now: V, since: V, span: V) -> (elapsed: bool)
    ensures
        is_elapsed(now, since, span, elapsed),
{
    let passed = now.minus(since);
    let elapsed = passed.at_least(span);
    proof {
        assert(is_difference(now, since, passed) && is_at_least(passed, span, elapsed));
    }
    elapsed
}

} // verus!
