use wichtele::parse_names;

#[test]
fn extraction_skips_malformed_lines() {
    let persons = parse_names("Alice Smith\nnotaname\nBob Jones");
    assert_eq!(2, persons.len());
    assert_eq!("Alice", persons[0].first_name);
    assert_eq!("Smith", persons[0].last_name);
    assert_eq!("Bob", persons[1].first_name);
    assert_eq!("Jones", persons[1].last_name);
}

#[test]
fn extraction_of_empty_text_yields_nothing() {
    assert_eq!(0, parse_names("").len());
}

#[test]
fn extraction_takes_full_word_runs_around_the_first_match() {
    // The name starts after the hyphen and the runs extend over
    // digits and underscores; only the first name of a line counts.
    let persons = parse_names("-Anna_1 Lee2 extra");
    assert_eq!(1, persons.len());
    assert_eq!("Anna_1", persons[0].first_name);
    assert_eq!("Lee2", persons[0].last_name);
}

#[test]
fn extraction_accepts_tab_as_separator() {
    let persons = parse_names("Alice\tSmith");
    assert_eq!(1, persons.len());
    assert_eq!("Alice", persons[0].first_name);
    assert_eq!("Smith", persons[0].last_name);
}

#[test]
fn extraction_needs_a_single_separator() {
    // Two whitespace characters in a row separate no name.
    let persons = parse_names("Alice  Smith\nBob Jones");
    assert_eq!(1, persons.len());
    assert_eq!("Bob", persons[0].first_name);
}

#[test]
fn extraction_keeps_input_order() {
    let persons = parse_names("Carol White\nAlice Smith\nBob Jones");
    assert_eq!(3, persons.len());
    assert_eq!("Carol", persons[0].first_name);
    assert_eq!("Alice", persons[1].first_name);
    assert_eq!("Bob", persons[2].first_name);
}
