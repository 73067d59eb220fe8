use wichtele::{check_assignments, generate_assignment, get_valid_assignment, Config, Person};

#[test]
fn accepted_assignment_satisfies_all_invariants() {
    let content = "Ann Ash\nBen Birch\nCid Cedar\nDee Dogwood";
    let assignments = get_valid_assignment(content, 100000).expect("a valid assignment exists");
    assert_eq!(4, assignments.len());
    // Givers are the participants in input order.
    assert_eq!("Ann", assignments[0].person1.first_name);
    assert_eq!("Ben", assignments[1].person1.first_name);
    assert_eq!("Cid", assignments[2].person1.first_name);
    assert_eq!("Dee", assignments[3].person1.first_name);
    // The accepted set passes every check.
    assert_eq!(Ok(()), check_assignments(&assignments));
    // The receivers are a rearrangement of the participants.
    let mut receivers: Vec<String> = assignments
        .iter()
        .map(|a| format!("{} {}", a.person2.first_name, a.person2.last_name))
        .collect();
    receivers.sort();
    assert_eq!(
        vec![
            "Ann Ash".to_string(),
            "Ben Birch".to_string(),
            "Cid Cedar".to_string(),
            "Dee Dogwood".to_string()
        ],
        receivers
    );
}

#[test]
fn unsatisfiable_constraints_exhaust_the_attempt_budget() {
    // Two participants of one family: the family check rejects every
    // candidate, whatever the shuffle does.
    assert!(get_valid_assignment("Ann Ash\nBen Ash", 50).is_none());
}

#[test]
fn generated_candidate_pairs_participants_with_a_rearrangement() {
    let persons = vec![
        Person { first_name: "Ann".to_string(), last_name: "Ash".to_string() },
        Person { first_name: "Ben".to_string(), last_name: "Birch".to_string() },
        Person { first_name: "Cid".to_string(), last_name: "Cedar".to_string() },
    ];
    let assignments = generate_assignment(&persons);
    assert_eq!(3, assignments.len());
    for (i, a) in assignments.iter().enumerate() {
        assert_eq!(persons[i].first_name, a.person1.first_name);
        assert_eq!(persons[i].last_name, a.person1.last_name);
    }
    let mut receivers: Vec<String> = assignments.iter().map(|a| a.person2.first_name.clone()).collect();
    receivers.sort();
    assert_eq!(vec!["Ann".to_string(), "Ben".to_string(), "Cid".to_string()], receivers);
}

#[test]
fn config_takes_the_argument_after_the_program_name() {
    let args = vec!["wichtele".to_string(), "names.txt".to_string()];
    let config = Config::build(&args).expect("two arguments are enough");
    assert_eq!("names.txt", config.file_path);
}

#[test]
fn config_rejects_an_empty_argument_list() {
    let args: Vec<String> = Vec::new();
    assert_eq!(Err("not enough arguments"), Config::build(&args).map(|c| c.file_path));
}
