use core::cmp::Ordering;
use vstd::prelude::*;
use vstd::std_specs::cmp::PartialEqSpec;
use vstd::std_specs::cmp::PartialOrdSpec;

verus! {

/// A three-way comparison strategy: a negative answer orders the first
/// argument before the second, zero makes the two equal, a positive answer
/// orders the first after the second.
///
/// Closures and functions of type `Fn(&T, &T) -> i32` are strategies.
pub trait CompareFunction<T> {
    /// The strategy may be asked about `a` and `b`.
    spec fn accepts(&self, a: T, b: T) -> bool;

    /// `r` is an answer that the strategy can give for `a` and `b`.
    spec fn yields(&self, a: T, b: T, r: i32) -> bool;

    /// Compares `a` with `b`.
    fn compare(&self, a: &T, b: &T) -> (r: i32)
        requires
            self.accepts(*a, *b),
        ensures
            self.yields(*a, *b, r),
    ;
}

impl<T, F: Fn(&T, &T) -> i32> CompareFunction<T> for F {
    open spec fn accepts(&self, a: T, b: T) -> bool {
        call_requires(*self, (&a, &b))
    }

    open spec fn yields(&self, a: T, b: T, r: i32) -> bool {
        call_ensures(*self, (&a, &b), r)
    }

    fn compare(&self, a: &T, b: &T) -> (r: i32) {
        self(a, b)
    }
}

/// `T`'s `==` and `>` behave as `eq_spec` and `partial_cmp_spec` say.
pub open spec fn has_natural_order<T: PartialEq + PartialOrd>() -> bool {
    T::obeys_eq_spec() && T::obeys_partial_cmp_spec()
}

/// The three-way result of comparing `a` with `b` by `T`'s own `==` and `>`:
/// 0 where they are equal, 1 where `a` is greater, -1 in every other case.
pub open spec fn natural_order<T: PartialEq + PartialOrd>(a: T, b: T) -> i32 {
    if a.eq_spec(&b) {
        0i32
    } else if a.partial_cmp_spec(&b) == Some(Ordering::Greater) {
        1i32
    } else {
        -1i32
    }
}

/// The strategy of [`Comparator::default_compare_function`].
struct NaturalOrder;

impl<T: PartialEq + PartialOrd + 'static> CompareFunction<T> for NaturalOrder {
    closed spec fn accepts(&self, a: T, b: T) -> bool {
        has_natural_order::<T>()
    }

    closed spec fn yields(&self, a: T, b: T, r: i32) -> bool {
        r == natural_order(a, b)
    }

    fn compare(&self, a: &T, b: &T) -> (r: i32) {
        Comparator::<T>::default_compare_function(a, b)
    }
}

/// `-r`, for every `r` but `i32::MIN`.
pub open spec fn negation(r: i32) -> i32 {
    (0 - r) as i32
}

/// The strategy that answers with the negation of what `inner` answers.
#[verifier::reject_recursive_types(T)]
struct Negated<T> {
    inner: Box<dyn CompareFunction<T>>,
}

impl<T> CompareFunction<T> for Negated<T> {
    closed spec fn accepts(&self, a: T, b: T) -> bool {
        &&& self.inner.accepts(a, b)
        &&& forall|r: i32| self.inner.yields(a, b, r) ==> r > i32::MIN
    }

    closed spec fn yields(&self, a: T, b: T, r: i32) -> bool {
        r > i32::MIN && self.inner.yields(a, b, negation(r))
    }

    fn compare(&self, a: &T, b: &T) -> (r: i32) {
        let s = self.inner.compare(a, b);
        -s
    }
}

/// Derives equality and ordering predicates from one three-way comparison.
#[verifier::reject_recursive_types(T)]
pub struct Comparator<T> {
    compare: Box<dyn CompareFunction<T>>,
}

impl<T: PartialEq + PartialOrd + 'static> Comparator<T> {
    /// `r` is an answer that the comparison function can give for `a` and `b`.
    pub closed spec fn yields(&self, a: T, b: T, r: i32) -> bool {
        self.compare.yields(a, b, r)
    }

    /// The comparison function may be asked about every pair of values, and
    /// no pair has two answers.
    pub closed spec fn wf(&self) -> bool {
        &&& forall|a: T, b: T| self.compare.accepts(a, b)
        &&& forall|a: T, b: T, r: i32, s: i32|
            self.compare.yields(a, b, r) && self.compare.yields(a, b, s) ==> r == s
    }

    /// The three-way result of comparing `a` with `b`.
    pub open spec fn result(&self, a: T, b: T) -> i32 {
        choose|r: i32| self.yields(a, b, r)
    }

    /// The comparison function has an answer for `a` and `b`. It has one
    /// wherever it has returned from a call.
    pub open spec fn decided(&self, a: T, b: T) -> bool {
        self.yields(a, b, self.result(a, b))
    }

    /// `a` and `b` compare as equal.
    pub open spec fn spec_equal(&self, a: T, b: T) -> bool {
        self.result(a, b) == 0
    }

    /// `a` orders before `b`.
    pub open spec fn spec_less_than(&self, a: T, b: T) -> bool {
        self.result(a, b) < 0
    }

    /// `a` orders after `b`.
    pub open spec fn spec_greater_than(&self, a: T, b: T) -> bool {
        self.result(a, b) > 0
    }

    /// The test that an element passes where it does not compare as equal to
    /// `value`.
    pub open spec fn differs_from(&self, value: T) -> spec_fn(T) -> bool {
        |x: T| !self.spec_equal(x, value)
    }

    /// `i` is the first position of `s` whose element compares as equal to
    /// `value`.
    pub open spec fn is_first_equal(&self, s: Seq<T>, value: T, i: int) -> bool {
        &&& 0 <= i < s.len()
        &&& self.spec_equal(s[i], value)
        &&& forall|j: int| 0 <= j < i ==> !self.spec_equal(#[trigger] s[j], value)
    }

    /// The last element of `s` that compares as equal to `value`.
    pub open spec fn last_equal(&self, s: Seq<T>, value: T) -> Option<T>
        decreases s.len(),
    {
        if s.len() == 0 {
            None
        } else if self.spec_equal(s.last(), value) {
            Some(s.last())
        } else {
            self.last_equal(s.drop_last(), value)
        }
    }

    /// The comparison function has an answer for each element of `s` and
    /// `value`.
    pub open spec fn decided_all(&self, s: Seq<T>, value: T) -> bool {
        forall|i: int| 0 <= i < s.len() ==> self.decided(#[trigger] s[i], value)
    }

    /// Of no elements, none differs from `value`, none is equal to it, and
    /// none is left to be asked about.
    pub proof fn lemma_none_seen(&self, s: Seq<T>, value: T)
        ensures
            s.take(0).filter(self.differs_from(value)) == Seq::<T>::empty(),
            self.last_equal(s.take(0), value) is None,
            self.decided_all(s.take(0), value),
    {
        reveal(Seq::filter);
    }

    /// What the first `k + 1` elements of `s` add to what holds of the first
    /// `k`: the element at `k` is the last one equal to `value`, or it is one
    /// more that differs from `value`.
    pub proof fn lemma_one_more_seen(&self, s: Seq<T>, value: T, k: int)
        requires
            0 <= k < s.len(),
        ensures
            s.take(k + 1).filter(self.differs_from(value)) == if self.spec_equal(s[k], value) {
                s.take(k).filter(self.differs_from(value))
            } else {
                s.take(k).filter(self.differs_from(value)).push(s[k])
            },
            self.last_equal(s.take(k + 1), value) == if self.spec_equal(s[k], value) {
                Some(s[k])
            } else {
                self.last_equal(s.take(k), value)
            },
            self.decided_all(s.take(k), value) && self.decided(s[k], value)
                ==> self.decided_all(s.take(k + 1), value),
    {
        assert(s.take(k + 1).drop_last() == s.take(k));
        assert(s.take(k + 1) == s.take(k).push(s[k]));
        s.take(k).lemma_filter_push(s[k], self.differs_from(value));
    }

    /// An answer of a well-formed comparator is its result.
    pub proof fn lemma_answer_is_result(&self, a: T, b: T, r: i32)
        requires
            self.wf(),
            self.yields(a, b, r),
        ensures
            self.result(a, b) == r,
            self.decided(a, b),
    {
    }

    /// A comparator over `compare_function`, or over
    /// [`Comparator::default_compare_function`] where none is given.
    pub fn new(compare_function: Option<Box<dyn CompareFunction<T>>>) -> (c: Self)
        requires
            compare_function is None ==> has_natural_order::<T>(),
            compare_function matches Some(f) ==> forall|a: T, b: T| f.accepts(a, b),
            compare_function matches Some(f) ==> forall|a: T, b: T, r: i32, s: i32|
                f.yields(a, b, r) && f.yields(a, b, s) ==> r == s,
        ensures
            c.wf(),
            forall|a: T, b: T, r: i32|
                (#[trigger] c.yields(a, b, r)) <==> match compare_function {
                    Some(f) => f.yields(a, b, r),
                    None => r == natural_order(a, b),
                },
            compare_function is None ==> forall|a: T, b: T|
                (#[trigger] c.result(a, b)) == natural_order(a, b),
    {
        match compare_function {
            Some(f) => Comparator { compare: f },
            None => {
                let c = Comparator { compare: Box::new(NaturalOrder) };
                assert forall|a: T, b: T| (#[trigger] c.result(a, b)) == natural_order(a, b) by {
                    c.lemma_answer_is_result(a, b, natural_order(a, b));
                }
                c
            },
        }
    }

    /// A comparator over the function or closure `f`: its answers are those
    /// that the contract of `f` allows.
    pub fn from_fn<F: Fn(&T, &T) -> i32 + 'static>(f: F) -> (c: Self)
        requires
            forall|a: T, b: T| call_requires(f, (&a, &b)),
            forall|a: T, b: T, r: i32, s: i32|
                call_ensures(f, (&a, &b), r) && call_ensures(f, (&a, &b), s) ==> r == s,
        ensures
            c.wf(),
            forall|a: T, b: T, r: i32|
                (#[trigger] c.yields(a, b, r)) <==> call_ensures(f, (&a, &b), r),
    {
        Comparator { compare: Box::new(f) }
    }

    /// Compares by `T`'s own `==` and `>`.
    pub fn default_compare_function(a: &T, b: &T) -> (r: i32)
        ensures
            -1 <= r <= 1,
            has_natural_order::<T>() ==> r == natural_order(*a, *b),
    {
        if a == b {
            0
        } else if a > b {
            1
        } else {
            -1
        }
    }

    /// Asks the comparison function.
    fn three_way(&self, a: &T, b: &T) -> (r: i32)
        requires
            self.wf(),
        ensures
            r == self.result(*a, *b),
            self.decided(*a, *b),
    {
        let r = self.compare.compare(a, b);
        proof {
            self.lemma_answer_is_result(*a, *b, r);
        }
        r
    }

    /// Whether `a` and `b` compare as equal.
    pub fn equal(&self, a: &T, b: &T) -> (r: bool)
        requires
            self.wf(),
        ensures
            r == self.spec_equal(*a, *b),
            self.decided(*a, *b),
    {
        self.three_way(a, b) == 0
    }

    /// Whether `a` orders before `b`.
    pub fn less_than(&self, a: &T, b: &T) -> (r: bool)
        requires
            self.wf(),
        ensures
            r == self.spec_less_than(*a, *b),
            self.decided(*a, *b),
    {
        self.three_way(a, b) < 0
    }

    /// Whether `a` orders after `b`.
    pub fn greater_than(&self, a: &T, b: &T) -> (r: bool)
        requires
            self.wf(),
        ensures
            r == self.spec_greater_than(*a, *b),
            self.decided(*a, *b),
    {
        self.three_way(a, b) > 0
    }

    /// Whether `a` orders before `b` or compares as equal to it.
    pub fn less_than_or_equal(&self, a: &T, b: &T) -> (r: bool)
        requires
            self.wf(),
        ensures
            r == (self.spec_less_than(*a, *b) || self.spec_equal(*a, *b)),
            self.decided(*a, *b),
    {
        self.three_way(a, b) <= 0
    }

    /// Whether `a` orders after `b` or compares as equal to it.
    pub fn greater_than_or_equal(&self, a: &T, b: &T) -> (r: bool)
        requires
            self.wf(),
        ensures
            r == (self.spec_greater_than(*a, *b) || self.spec_equal(*a, *b)),
            self.decided(*a, *b),
    {
        self.three_way(a, b) >= 0
    }

    /// The comparator that orders the other way round: each of its answers is
    /// the negation of an answer of this one.
    pub fn reverse(self) -> (reversed: Self)
        requires
            self.wf(),
            forall|a: T, b: T, r: i32| self.yields(a, b, r) ==> r > i32::MIN,
        ensures
            reversed.wf(),
            forall|a: T, b: T, r: i32|
                (#[trigger] reversed.yields(a, b, r)) <==> r > i32::MIN && self.yields(
                    a,
                    b,
                    negation(r),
                ),
            forall|a: T, b: T|
                (#[trigger] self.decided(a, b)) ==> reversed.decided(a, b) && reversed.result(a, b)
                    == -self.result(a, b),
    {
        let reversed = Comparator { compare: Box::new(Negated { inner: self.compare }) };
        assert forall|a: T, b: T| reversed.compare.accepts(a, b) by {
            assert forall|r: i32| self.compare.yields(a, b, r) implies r > i32::MIN by {
                assert(self.yields(a, b, r));
            }
        }
        assert forall|a: T, b: T| #[trigger] self.decided(a, b) implies reversed.decided(a, b)
            && reversed.result(a, b) == -self.result(a, b) by {
            let s = self.result(a, b);
            reversed.lemma_answer_is_result(a, b, negation(s));
        }
        reversed
    }
}

} // verus!
