use pty_for_each::programs::{
    find_separator, join_words, make_programs, plan_keyed, plan_programs, plan_single,
    prefix_of_single, prefix_of_value, BuildError, Invocation, Opt, Plan,
};
use pty_for_each::terminal::{count_bytes, resolve_dimensions, Dimensions, FALLBACK_ROWS};

fn words(items: &[&str]) -> Vec<String> {
    items.iter().map(|s| s.to_string()).collect()
}

fn wide() -> Dimensions {
    Dimensions { rows: 25, columns: 80 }
}

#[test]
fn arguments_without_separator_are_a_usage_error() {
    let args = words(&["a", "b", "echo", "%K"]);
    assert_eq!(find_separator(&args), Err(BuildError::MissingSeparator));
    assert_eq!(plan_keyed(&"K".to_string(), false, &args, wide()), Err(BuildError::MissingSeparator));
    assert_eq!(plan_keyed(&"K".to_string(), true, &args, wide()), Err(BuildError::MissingSeparator));
    assert_eq!(
        plan_keyed(&"K".to_string(), true, &words(&[]), wide()),
        Err(BuildError::MissingSeparator)
    );
}

#[test]
fn a_second_separator_is_a_usage_error() {
    let args = words(&["a", "%%", "echo", "%%", "%K"]);
    assert_eq!(find_separator(&args), Err(BuildError::MissingSeparator));
    assert_eq!(plan_keyed(&"K".to_string(), true, &args, wide()), Err(BuildError::MissingSeparator));
    let twice = words(&["%%", "%%"]);
    assert_eq!(plan_keyed(&"K".to_string(), true, &twice, wide()), Err(BuildError::MissingSeparator));
}

#[test]
fn a_separator_with_nothing_behind_it_is_an_empty_command() {
    let args = words(&["a", "b", "%%"]);
    assert_eq!(find_separator(&args), Err(BuildError::EmptyCommand));
    assert_eq!(plan_keyed(&"K".to_string(), false, &args, wide()), Err(BuildError::EmptyCommand));
    assert_eq!(
        plan_keyed(&"K".to_string(), true, &words(&["%%"]), wide()),
        Err(BuildError::EmptyCommand)
    );
}

#[test]
fn separator_is_found_where_it_stands_alone() {
    assert_eq!(find_separator(&words(&["a", "b", "%%", "echo"])), Ok(2));
    assert_eq!(find_separator(&words(&["%%", "echo", "x"])), Ok(0));
    assert_eq!(find_separator(&words(&["%", "%%%", "%%", "echo"])), Ok(2));
}

#[test]
fn dry_run_shows_one_command_for_each_value() {
    let args = words(&["a", "b", "%%", "echo", "%K"]);
    let plan = plan_keyed(&"K".to_string(), true, &args, wide());
    assert_eq!(plan, Ok(Plan::DryRun(words(&["echo a", "echo b"]))));
}

#[test]
fn keyed_mode_plans_one_child_for_each_value() {
    let args = words(&["web1", "db", "%%", "ssh", "%host", "uptime", "\\%host"]);
    let plan = plan_keyed(&"host".to_string(), false, &args, wide());
    let expected = vec![
        Invocation {
            prefix: "web1: ".to_string(),
            dimensions: Dimensions { rows: 25, columns: 74 },
            command: words(&["ssh", "web1", "uptime", "%host"]),
        },
        Invocation {
            prefix: "db: ".to_string(),
            dimensions: Dimensions { rows: 25, columns: 76 },
            command: words(&["ssh", "db", "uptime", "%host"]),
        },
    ];
    assert_eq!(plan, Ok(Plan::Spawn(expected)));
}

#[test]
fn keyed_mode_without_values_plans_nothing() {
    let args = words(&["%%", "echo", "%K"]);
    assert_eq!(plan_keyed(&"K".to_string(), false, &args, wide()), Ok(Plan::Spawn(vec![])));
    assert_eq!(plan_keyed(&"K".to_string(), true, &args, wide()), Ok(Plan::DryRun(vec![])));
}

#[test]
fn columns_are_narrowed_by_the_prefix_with_a_floor_of_one() {
    let base = Dimensions { rows: 40, columns: 80 };
    assert_eq!(base.narrow(3), Dimensions { rows: 40, columns: 77 });
    assert_eq!(base.narrow(0), Dimensions { rows: 40, columns: 80 });
    assert_eq!(base.narrow(78), Dimensions { rows: 40, columns: 2 });
    assert_eq!(base.narrow(79), Dimensions { rows: 40, columns: 1 });
    assert_eq!(base.narrow(80), Dimensions { rows: 40, columns: 1 });
    assert_eq!(base.narrow(81), Dimensions { rows: 40, columns: 1 });
    assert_eq!(base.narrow(70_000), Dimensions { rows: 40, columns: 1 });
    assert_eq!(base.narrow(usize::MAX), Dimensions { rows: 40, columns: 1 });
    let none = Dimensions { rows: 1, columns: 0 };
    assert_eq!(none.narrow(0), Dimensions { rows: 1, columns: 1 });
    let full = Dimensions { rows: 0, columns: u16::MAX };
    assert_eq!(full.narrow(1), Dimensions { rows: 0, columns: 65534 });
}

#[test]
fn narrow_terminal_leaves_each_child_one_column() {
    let args = words(&["abcdef", "%%", "true"]);
    let small = Dimensions { rows: 3, columns: 4 };
    let plan = plan_keyed(&"K".to_string(), false, &args, small);
    let expected = vec![Invocation {
        prefix: "abcdef: ".to_string(),
        dimensions: Dimensions { rows: 3, columns: 1 },
        command: words(&["true"]),
    }];
    assert_eq!(plan, Ok(Plan::Spawn(expected)));
}

#[test]
fn prefix_is_measured_in_bytes() {
    assert_eq!(count_bytes("a: "), 3);
    assert_eq!(count_bytes(""), 0);
    assert_eq!(count_bytes("\u{e9}: "), 4);
    let args = words(&["\u{e9}", "%%", "true"]);
    let plan = plan_keyed(&"K".to_string(), false, &args, wide());
    let expected = vec![Invocation {
        prefix: "\u{e9}: ".to_string(),
        dimensions: Dimensions { rows: 25, columns: 76 },
        command: words(&["true"]),
    }];
    assert_eq!(plan, Ok(Plan::Spawn(expected)));
}

#[test]
fn single_mode_runs_the_command_as_it_stands() {
    let command = words(&["echo", "%K", "\\%K"]);
    let plan = plan_single(&"job".to_string(), false, &command, wide());
    let expected = vec![Invocation {
        prefix: "job: ".to_string(),
        dimensions: Dimensions { rows: 25, columns: 75 },
        command: words(&["echo", "%K", "\\%K"]),
    }];
    assert_eq!(plan, Ok(Plan::Spawn(expected)));
}

#[test]
fn single_mode_keeps_an_empty_prefix_empty() {
    let command = words(&["ls", "-l"]);
    let plan = plan_single(&"".to_string(), false, &command, wide());
    let expected = vec![Invocation {
        prefix: "".to_string(),
        dimensions: Dimensions { rows: 25, columns: 80 },
        command: words(&["ls", "-l"]),
    }];
    assert_eq!(plan, Ok(Plan::Spawn(expected)));
}

#[test]
fn single_mode_dry_run_shows_the_command() {
    let command = words(&["ls", "-l", "a b"]);
    assert_eq!(
        plan_single(&"p".to_string(), true, &command, wide()),
        Ok(Plan::DryRun(words(&["ls -l a b"])))
    );
}

#[test]
fn single_mode_refuses_an_empty_command() {
    assert_eq!(plan_single(&"p".to_string(), false, &words(&[]), wide()), Err(BuildError::EmptyCommand));
    assert_eq!(plan_single(&"".to_string(), true, &words(&[]), wide()), Err(BuildError::EmptyCommand));
}

#[test]
fn words_are_joined_by_single_spaces() {
    assert_eq!(join_words(&words(&[])), "");
    assert_eq!(join_words(&words(&["a"])), "a");
    assert_eq!(join_words(&words(&["a", "b c", ""])), "a b c ");
    assert_eq!(join_words(&words(&["", ""])), " ");
}

#[test]
fn dimensions_fall_back_to_fixed_rows_and_named_columns() {
    assert_eq!(FALLBACK_ROWS, 25);
    assert_eq!(resolve_dimensions(None, 132), Dimensions { rows: 25, columns: 132 });
    let known = Dimensions { rows: 50, columns: 200 };
    assert_eq!(resolve_dimensions(Some(known), 132), known);
}

#[test]
fn plan_programs_follows_the_mode() {
    let keyed = Opt::Key {
        name: "K".to_string(),
        dryrun: false,
        columns: 20,
        values_and_command: words(&["a", "%%", "echo", "%K"]),
    };
    let expected = vec![Invocation {
        prefix: "a: ".to_string(),
        dimensions: Dimensions { rows: 25, columns: 17 },
        command: words(&["echo", "a"]),
    }];
    assert_eq!(plan_programs(&keyed, None), Ok(Plan::Spawn(expected)));
    let on_terminal = vec![Invocation {
        prefix: "a: ".to_string(),
        dimensions: Dimensions { rows: 9, columns: 97 },
        command: words(&["echo", "a"]),
    }];
    let terminal = Some(Dimensions { rows: 9, columns: 100 });
    assert_eq!(plan_programs(&keyed, terminal), Ok(Plan::Spawn(on_terminal)));
    let single = Opt::Single {
        prefix: "one".to_string(),
        dryrun: true,
        columns: 20,
        command: words(&["echo", "%K"]),
    };
    assert_eq!(plan_programs(&single, None), Ok(Plan::DryRun(words(&["echo %K"]))));
}

#[test]
fn make_programs_plans_a_dry_run_on_any_terminal() {
    let keyed = Opt::Key {
        name: "K".to_string(),
        dryrun: true,
        columns: 80,
        values_and_command: words(&["a", "b", "%%", "echo", "%K"]),
    };
    assert_eq!(make_programs(&keyed), Ok(Plan::DryRun(words(&["echo a", "echo b"]))));
    let broken = Opt::Single { prefix: "p".to_string(), dryrun: false, columns: 80, command: words(&[]) };
    assert_eq!(make_programs(&broken), Err(BuildError::EmptyCommand));
}

#[test]
fn usage_errors_come_before_the_key_is_looked_at() {
    let key = "k".repeat(3_000_000);
    let args = words(&["a", "b", "echo"]);
    assert_eq!(plan_keyed(&key, false, &args, wide()), Err(BuildError::MissingSeparator));
}

#[test]
fn a_key_too_large_for_a_pattern_is_rejected() {
    let key = "k".repeat(3_000_000);
    let args = words(&["a", "%%", "echo"]);
    assert_eq!(plan_keyed(&key, false, &args, wide()), Err(BuildError::KeyRejected));
}

#[test]
fn errors_have_their_messages() {
    assert_eq!(
        BuildError::MissingSeparator.message(),
        "Expected '%%' separator between keys and command"
    );
    assert_eq!(BuildError::EmptyCommand.message(), "Expected non empty command");
    assert_eq!(BuildError::KeyRejected.message(), "Key cannot be used as a pattern");
}

#[test]
fn prefixes_end_in_a_colon_and_a_space() {
    assert_eq!(prefix_of_value(&"web1".to_string()), "web1: ");
    assert_eq!(prefix_of_value(&"".to_string()), ": ");
    assert_eq!(prefix_of_single(&"job".to_string()), "job: ");
    assert_eq!(prefix_of_single(&"".to_string()), "");
}

#[test]
fn a_child_gets_the_columns_that_its_prefix_leaves() {
    let child = Invocation::new("abc: ".to_string(), words(&["ls", "-l"]), wide());
    assert_eq!(child.prefix, "abc: ");
    assert_eq!(child.command, words(&["ls", "-l"]));
    assert_eq!(child.dimensions, Dimensions { rows: 25, columns: 75 });
    let crowded = Invocation::new("abc: ".to_string(), words(&["ls"]), Dimensions { rows: 2, columns: 5 });
    assert_eq!(crowded.dimensions, Dimensions { rows: 2, columns: 1 });
    let bare = Invocation::new(String::new(), words(&["ls"]), Dimensions { rows: 2, columns: 5 });
    assert_eq!(bare.dimensions, Dimensions { rows: 2, columns: 5 });
}
