use linked_list::text::join_with_commas;

#[test]
fn joining_nothing_gives_the_empty_text() {
    assert_eq!(join_with_commas(&Vec::new()), "");
}

#[test]
fn joining_one_part_gives_that_part() {
    assert_eq!(join_with_commas(&vec![String::from("a")]), "a");
    assert_eq!(join_with_commas(&vec![String::new()]), "");
}

#[test]
fn joining_puts_a_comma_between_each_two_parts() {
    let parts = vec![String::from("a"), String::from("bc"), String::from("d")];
    assert_eq!(join_with_commas(&parts), "a,bc,d");
    let with_gaps = vec![String::new(), String::from("x"), String::new()];
    assert_eq!(join_with_commas(&with_gaps), ",x,");
}

#[test]
fn debug_string_is_the_debug_text() {
    assert_eq!(linked_list::text::debug_string(&"a"), "\"a\"");
    assert_eq!(linked_list::text::debug_string(&-3), "-3");
    assert_eq!(linked_list::text::debug_string(&Some(1)), "Some(1)");
}
