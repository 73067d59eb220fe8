use wichtele::{check_family, check_family_to_family, check_full_circle, check_person_to_itself,
    Assignment, Person};

fn person(first: &str, last: &str) -> Person {
    Person { first_name: first.to_string(), last_name: last.to_string() }
}

fn assignment(p1: Person, p2: Person) -> Assignment {
    Assignment { person1: p1, person2: p2 }
}

#[test]
fn test_check_person_to_itself() {
    let assignment1 = Assignment {
        person1: Person {
            first_name: "FirstName1".to_string(),
            last_name: "LastName1".to_string(),
        },
        person2: Person {
            first_name: "FirstName2".to_string(),
            last_name: "LastName2".to_string(),
        },
    };
    let assignment2 = Assignment {
        person1: Person {
            first_name: "FirstName2".to_string(),
            last_name: "LastName2".to_string(),
        },
        person2: Person {
            first_name: "FirstName1".to_string(),
            last_name: "LastName1".to_string(),
        },
    };
    let assignment3 = Assignment {
        person1: Person {
            first_name: "FirstName3".to_string(),
            last_name: "LastName3".to_string(),
        },
        person2: Person {
            first_name: "FirstName3".to_string(),
            last_name: "LastName3".to_string(),
        },
    };
    let mut assignments = Vec::new();
    assignments.push(assignment1);
    assignments.push(assignment2);
    assignments.push(assignment3);

    assert_eq!(
        Err("Conflict: Itself with FirstName3, LastName3".to_string()),
        check_person_to_itself(&assignments)
    );
}

#[test]
fn test_check_family() {
    let assignment1 = Assignment {
        person1: Person {
            first_name: "FirstName1".to_string(),
            last_name: "LastName1".to_string(),
        },
        person2: Person {
            first_name: "FirstName2".to_string(),
            last_name: "LastName2".to_string(),
        },
    };
    let assignment2 = Assignment {
        person1: Person {
            first_name: "FirstName2".to_string(),
            last_name: "LastName2".to_string(),
        },
        person2: Person {
            first_name: "FirstName3".to_string(),
            last_name: "LastName2".to_string(),
        },
    };
    let assignment3 = Assignment {
        person1: Person {
            first_name: "FirstName3".to_string(),
            last_name: "LastName2".to_string(),
        },
        person2: Person {
            first_name: "FirstName1".to_string(),
            last_name: "LastName1".to_string(),
        },
    };
    let mut assignments = Vec::new();
    assignments.push(assignment1);
    assignments.push(assignment2);
    assignments.push(assignment3);

    assert_eq!(
        Err("Conflict: Family FirstName2 LastName2 with FirstName3 LastName2".to_string()),
        check_family(&assignments)
    );
}

#[test]
fn test_check_two_circle() {
    let assignment1 = Assignment {
        person1: Person {
            first_name: "FirstName1".to_string(),
            last_name: "LastName1".to_string(),
        },
        person2: Person {
            first_name: "FirstName2".to_string(),
            last_name: "LastName2".to_string(),
        },
    };
    let assignment2 = Assignment {
        person1: Person {
            first_name: "FirstName2".to_string(),
            last_name: "LastName2".to_string(),
        },
        person2: Person {
            first_name: "FirstName1".to_string(),
            last_name: "LastName1".to_string(),
        },
    };
    let assignment3 = Assignment {
        person1: Person {
            first_name: "FirstName3".to_string(),
            last_name: "LastName3".to_string(),
        },
        person2: Person {
            first_name: "FirstName4".to_string(),
            last_name: "LastName4".to_string(),
        },
    };
    let assignment4 = Assignment {
        person1: Person {
            first_name: "FirstName4".to_string(),
            last_name: "LastName4".to_string(),
        },
        person2: Person {
            first_name: "FirstName3".to_string(),
            last_name: "LastName3".to_string(),
        },
    };
    let mut assignments = Vec::new();
    assignments.push(assignment1);
    assignments.push(assignment2);
    assignments.push(assignment3);
    assignments.push(assignment4);

    assert_eq!(
        Err("Conflict: Should have one large circle, but has len 2/4".to_string()),
        check_full_circle(&assignments)
    );
}

#[test]
fn test_check_full_circle() {
    let assignment1 = Assignment {
        person1: Person {
            first_name: "FirstName1".to_string(),
            last_name: "LastName1".to_string(),
        },
        person2: Person {
            first_name: "FirstName2".to_string(),
            last_name: "LastName2".to_string(),
        },
    };
    let assignment2 = Assignment {
        person1: Person {
            first_name: "FirstName2".to_string(),
            last_name: "LastName2".to_string(),
        },
        person2: Person {
            first_name: "FirstName3".to_string(),
            last_name: "LastName3".to_string(),
        },
    };
    let assignment3 = Assignment {
        person1: Person {
            first_name: "FirstName3".to_string(),
            last_name: "LastName3".to_string(),
        },
        person2: Person {
            first_name: "FirstName4".to_string(),
            last_name: "LastName4".to_string(),
        },
    };
    let assignment4 = Assignment {
        person1: Person {
            first_name: "FirstName4".to_string(),
            last_name: "LastName4".to_string(),
        },
        person2: Person {
            first_name: "FirstName1".to_string(),
            last_name: "LastName1".to_string(),
        },
    };
    let mut assignments = Vec::new();
    assignments.push(assignment1);
    assignments.push(assignment2);
    assignments.push(assignment3);
    assignments.push(assignment4);

    assert_eq!(Ok(()), check_full_circle(&assignments));
}

#[test]
fn test_check_family_to_family() {
    let assignment1 = Assignment {
        person1: Person {
            first_name: "FirstName1".to_string(),
            last_name: "LastName1".to_string(),
        },
        person2: Person {
            first_name: "FirstName2".to_string(),
            last_name: "LastName2".to_string(),
        },
    };
    let assignment2 = Assignment {
        person1: Person {
            first_name: "FirstName2".to_string(),
            last_name: "LastName1".to_string(),
        },
        person2: Person {
            first_name: "FirstName1".to_string(),
            last_name: "LastName2".to_string(),
        },
    };
    let mut assignments = Vec::new();
    assignments.push(assignment1);
    assignments.push(assignment2);

    assert_eq!(
        Err("Conflict: family to family".to_string()),
        check_family_to_family(&assignments)
    );
}

#[test]
fn family_to_family_accepts_distinct_pairs() {
    let assignments = vec![
        assignment(person("A", "FamA"), person("B", "FamB")),
        assignment(person("B", "FamB"), person("C", "FamC")),
        assignment(person("C", "FamC"), person("A", "FamA")),
    ];
    assert_eq!(Ok(()), check_family_to_family(&assignments));
}

#[test]
fn person_to_itself_accepts_clean_set() {
    let assignments = vec![
        assignment(person("A", "FamA"), person("B", "FamB")),
        assignment(person("B", "FamB"), person("A", "FamA")),
    ];
    assert_eq!(Ok(()), check_person_to_itself(&assignments));
}

#[test]
fn family_check_accepts_distinct_families() {
    let assignments = vec![
        assignment(person("A", "FamA"), person("B", "FamB")),
        assignment(person("B", "FamB"), person("A", "FamA")),
    ];
    assert_eq!(Ok(()), check_family(&assignments));
}

#[test]
fn full_circle_reports_multi_digit_counts() {
    // Ten participants in one cycle, two more in a separate cycle:
    // the walk from the first giver closes after 10 of 12 steps.
    let mut assignments = Vec::new();
    for i in 0..10 {
        let j = (i + 1) % 10;
        assignments.push(assignment(
            person(&format!("F{}", i), &format!("L{}", i)),
            person(&format!("F{}", j), &format!("L{}", j)),
        ));
    }
    assignments.push(assignment(person("F10", "L10"), person("F11", "L11")));
    assignments.push(assignment(person("F11", "L11"), person("F10", "L10")));
    assert_eq!(
        Err("Conflict: Should have one large circle, but has len 10/12".to_string()),
        check_full_circle(&assignments)
    );
}
