use linked_list::Comparator;
use linked_list::CompareFunction;
use linked_list::Predicate;

fn by_absolute_value(a: &i32, b: &i32) -> i32 {
    a.abs() - b.abs()
}

#[test]
fn test_comparator() {
    let comparator: Comparator<i32> = Comparator::new(None);

    assert!(comparator.equal(&1, &1));
    assert!(comparator.less_than(&1, &2));
    assert!(comparator.greater_than(&2, &1));
    assert!(comparator.less_than_or_equal(&1, &1));
    assert!(comparator.less_than_or_equal(&1, &2));
    assert!(comparator.greater_than_or_equal(&2, &2));

    let custom_comparator: Comparator<i32> =
        Comparator::new(Some(Box::new(|a: &i32, b: &i32| b.cmp(a) as i32)));
    assert!(custom_comparator.less_than(&2, &1));
    let custom_comparator: Comparator<i32> = custom_comparator.reverse();
    assert!(custom_comparator.greater_than(&2, &1));
}

#[test]
fn default_compare_function_gives_minus_one_zero_or_one() {
    assert_eq!(Comparator::<i32>::default_compare_function(&1, &1), 0);
    assert_eq!(Comparator::<i32>::default_compare_function(&5, &-3), 1);
    assert_eq!(Comparator::<i32>::default_compare_function(&-3, &5), -1);
    assert_eq!(Comparator::<i32>::default_compare_function(&i32::MIN, &i32::MAX), -1);
    assert_eq!(Comparator::<&str>::default_compare_function(&"b", &"a"), 1);
    assert_eq!(Comparator::<&str>::default_compare_function(&"a", &"a"), 0);
}

#[test]
fn the_default_comparator_follows_the_natural_order() {
    let comparator: Comparator<i32> = Comparator::new(None);
    assert!(!comparator.equal(&1, &2));
    assert!(!comparator.less_than(&2, &1));
    assert!(!comparator.less_than(&1, &1));
    assert!(!comparator.greater_than(&1, &2));
    assert!(!comparator.greater_than(&1, &1));
    assert!(!comparator.less_than_or_equal(&2, &1));
    assert!(comparator.greater_than_or_equal(&2, &1));
    assert!(!comparator.greater_than_or_equal(&1, &2));
}

#[test]
fn a_reversed_comparator_orders_the_other_way_round() {
    let natural: Comparator<i32> = Comparator::new(None);
    assert!(!natural.less_than(&2, &1));
    let reversed = natural.reverse();
    assert!(reversed.less_than(&2, &1));
    assert!(reversed.greater_than(&1, &2));
    assert!(reversed.equal(&3, &3));
    assert!(reversed.less_than_or_equal(&3, &3));
    assert!(reversed.greater_than_or_equal(&3, &3));
    assert!(!reversed.less_than(&1, &2));
}

#[test]
fn reversing_twice_gives_the_order_back() {
    let comparator: Comparator<i32> = Comparator::new(None);
    let twice = comparator.reverse().reverse();
    assert!(twice.less_than(&1, &2));
    assert!(twice.greater_than(&2, &1));
    assert!(twice.equal(&2, &2));
}

#[test]
fn a_custom_function_decides() {
    let by_length: Comparator<&str> =
        Comparator::new(Some(Box::new(|a: &&str, b: &&str| a.len() as i32 - b.len() as i32)));
    assert!(by_length.equal(&"ab", &"cd"));
    assert!(by_length.less_than(&"z", &"aa"));
    assert!(by_length.greater_than(&"aaa", &"zz"));
    assert!(by_length.less_than_or_equal(&"ab", &"cd"));
    assert!(by_length.greater_than_or_equal(&"ab", &"cd"));
}

#[test]
fn a_comparator_can_be_made_from_a_function() {
    let comparator = Comparator::from_fn(by_absolute_value);
    assert!(comparator.equal(&-3, &3));
    assert!(comparator.less_than(&2, &-3));
    let reversed = comparator.reverse();
    assert!(reversed.greater_than(&2, &-3));
}

#[test]
fn results_other_than_one_count_by_their_sign() {
    let comparator: Comparator<i32> = Comparator::from_fn(|a: &i32, b: &i32| (a - b) * 100);
    assert!(comparator.less_than(&1, &2));
    assert!(comparator.greater_than(&2, &1));
    assert!(comparator.equal(&2, &2));
}

#[test]
fn a_closure_is_a_compare_function() {
    let difference = |a: &i32, b: &i32| a - b;
    assert_eq!(difference.compare(&3, &1), 2);
    assert_eq!(difference.compare(&1, &3), -2);
    assert_eq!(difference.compare(&3, &3), 0);
}

#[test]
fn a_closure_is_a_predicate() {
    let positive = |value: &i32| *value > 0;
    assert!(positive.test(&1));
    assert!(!positive.test(&0));
}
