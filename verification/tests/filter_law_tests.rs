use csv_converter::filter::Filter;

#[test]
fn chain_applies_left_to_right_test() {
    // Applying a two-filter chain equals applying the second filter to the
    // first filter's result.
    let f1 = Filter::Replace(String::from("-"), String::from(" "));
    let f2 = Filter::UpperCase;
    let input = "a-b-c";
    let chained = f2.run(&f1.run(input));
    assert_eq!(chained, String::from("A B C"));
    // The parsed chain of the same two filters agrees.
    let (filters, _) = Filter::parse("REPLACE|'-'|' ' UPPER_CASE").unwrap();
    let mut value = String::from(input);
    for f in &filters {
        value = f.run(&value);
    }
    assert_eq!(value, chained);
}

#[test]
fn substring_round_trip_test() {
    // A substring from the start with no length gives the string back.
    assert_eq!(Filter::SubString(0, None).run("anything at all"), String::from("anything at all"));
    assert_eq!(Filter::SubString(0, None).run(""), String::from(""));
    // A positive start is not idempotent: a second application can change
    // the value.
    let once = Filter::SubString(2, None).run("abcd");
    assert_eq!(once, String::from("cd"));
    let twice = Filter::SubString(2, None).run(&once);
    assert_eq!(twice, String::from(""));
    assert_ne!(once, twice);
}

#[test]
fn split_past_end_is_empty_test() {
    // Fewer than eleven segments, so segment ten is empty.
    assert_eq!(Filter::Split(String::from("-"), 10).run("0-1-2-3-4-5"), String::from(""));
    assert_eq!(Filter::Split(String::from("-"), 6).run("0-1-2-3-4-5"), String::from(""));
    assert_eq!(Filter::Split(String::from("-"), 5).run("0-1-2-3-4-5"), String::from("5"));
}

#[test]
fn replace_replaces_every_occurrence_test() {
    assert_eq!(
        Filter::Replace(String::from(" "), String::from("")).run(" The shirt  is blue"),
        String::from("Theshirtisblue")
    );
    assert_eq!(
        Filter::Replace(String::from("aa"), String::from("b")).run("aaaa"),
        String::from("bb")
    );
}

#[test]
fn substring_clamps_test() {
    assert_eq!(Filter::SubString(3, Some(100)).run("abcde"), String::from("de"));
    assert_eq!(Filter::SubString(99, None).run("abcde"), String::from(""));
    assert_eq!(Filter::SubString(1, Some(0)).run("abcde"), String::from(""));
}
