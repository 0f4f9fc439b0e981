use crate::comparator::Comparator;
use vstd::prelude::*;

verus! {

/// What a list that holds `start` holds after each element of `values` has
/// been appended to it, the first of them first.
pub open spec fn after_appends<T>(start: Seq<T>, values: Seq<T>) -> Seq<T>
    decreases values.len(),
{
    if values.len() == 0 {
        start
    } else {
        after_appends(start, values.drop_last()).push(values.last())
    }
}

/// What a list that holds `start` holds after each element of `values` has
/// been prepended to it, the first of them first.
pub open spec fn after_prepends<T>(start: Seq<T>, values: Seq<T>) -> Seq<T>
    decreases values.len(),
{
    if values.len() == 0 {
        start
    } else {
        seq![values.last()] + after_prepends(start, values.drop_last())
    }
}

/// The positions of `s` whose elements pass `keep`, in ascending order.
pub open spec fn kept_positions<T>(s: Seq<T>, keep: spec_fn(T) -> bool) -> Seq<int>
    decreases s.len(),
{
    if s.len() == 0 {
        Seq::empty()
    } else if keep(s.last()) {
        kept_positions(s.drop_last(), keep).push(s.len() - 1)
    } else {
        kept_positions(s.drop_last(), keep)
    }
}

/// Appending keeps the order of arrival: after any number of appends the
/// list holds what it held before, followed by the appended values in the
/// order in which they came. A list that was empty holds exactly them.
pub proof fn law_appends_keep_order<T>(start: Seq<T>, values: Seq<T>)
    ensures
        after_appends(start, values) == start + values,
        after_appends(Seq::empty(), values) == values,
    decreases values.len(),
{
    if values.len() > 0 {
        law_appends_keep_order(start, values.drop_last());
    }
}

/// Prepending turns the order of arrival round: after any number of
/// prepends the list holds the prepended values, the last that came first,
/// followed by what it held before. A list that was empty holds exactly the
/// reverse of them.
pub proof fn law_prepends_reverse_order<T>(start: Seq<T>, values: Seq<T>)
    ensures
        after_prepends(start, values) == values.reverse() + start,
        after_prepends(Seq::empty(), values) == values.reverse(),
    decreases values.len(),
{
    if values.len() > 0 {
        law_prepends_reverse_order(start, values.drop_last());
    }
}

/// Reversing twice restores the order.
pub proof fn law_reverse_twice<T>(s: Seq<T>)
    ensures
        s.reverse().reverse() == s,
{
}

/// What is left of `s` when every element that `c` finds equal to `value`
/// has been taken out: no element that is left is equal to `value`, every
/// element that is not equal to `value` is left, and those that are left
/// stand in the order in which they stood in `s`.
pub proof fn law_delete_keeps_the_others_in_order<T: PartialEq + PartialOrd + 'static>(
    c: Comparator<T>,
    s: Seq<T>,
    value: T,
)
    ensures
        ({
            let left = s.filter(c.differs_from(value));
            let from = kept_positions(s, c.differs_from(value));
            &&& from.len() == left.len()
            &&& forall|k: int|
                0 <= k < left.len() ==> 0 <= #[trigger] from[k] < s.len() && left[k] == s[from[k]]
            &&& forall|k: int| 0 <= k < left.len() ==> !c.spec_equal(#[trigger] left[k], value)
            &&& forall|k: int, l: int| 0 <= k < l < left.len() ==> from[k] < from[l]
            &&& forall|i: int|
                0 <= i < s.len() && !c.spec_equal(#[trigger] s[i], value) ==> from.contains(i)
        }),
    decreases s.len(),
{
    reveal(Seq::filter);
    let keep = c.differs_from(value);
    let from = kept_positions(s, keep);
    if s.len() > 0 {
        let head = s.drop_last();
        law_delete_keeps_the_others_in_order(c, head, value);
        let before = kept_positions(head, keep);
        assert forall|i: int| 0 <= i < s.len() && !c.spec_equal(
            #[trigger] s[i],
            value,
        ) implies from.contains(i) by {
            if i < s.len() - 1 {
                assert(head[i] == s[i]);
                let k = before.index_of(i);
                assert(from[k] == i);
            } else {
                assert(from[from.len() - 1] == i);
            }
        }
    }
}

} // verus!
