use supplement::completion::CompletionGroup;
use supplement::engine::{flag_type, Arg, Command, CompleteWithEqual, Flag};
use supplement::error::Error;
use supplement::history::History;
use supplement::id;

fn schema() -> Command {
    Command {
        name: "root".to_owned(),
        description: "".to_owned(),
        all_flags: vec![
            Flag {
                ty: flag_type::Type::new_bool(id::NoVal::new(1)),
                short: vec!['b'],
                long: vec!["bool-flag".to_owned()],
                description: "".to_owned(),
                once: false,
            },
            Flag {
                ty: flag_type::Type::new_valued(
                    id::SingleVal::new(2).into(),
                    CompleteWithEqual::Must,
                    vec![],
                ),
                short: vec!['m'],
                long: vec!["must".to_owned()],
                description: "".to_owned(),
                once: false,
            },
            Flag {
                ty: flag_type::Type::new_valued(
                    id::SingleVal::new(3).into(),
                    CompleteWithEqual::NoNeed,
                    vec![],
                ),
                short: vec!['v'],
                long: vec!["valued".to_owned()],
                description: "".to_owned(),
                once: false,
            },
        ],
        args: vec![Arg {
            id: id::SingleVal::new(4).into(),
            max_values: 1,
        }],
        commands: vec![],
    }
}

fn run(args: &[&str]) -> Result<CompletionGroup, Error> {
    let tokens: Vec<String> = args.iter().map(|s| s.to_string()).collect();
    let mut history = History::new();
    schema().supplement_with_history(&mut history, &tokens)
}

#[test]
fn args_too_short_without_any_token() {
    assert_eq!(run(&["prog"]).unwrap_err(), Error::ArgsTooShort);
    assert_eq!(run(&[]).unwrap_err(), Error::ArgsTooShort);
}

#[test]
fn unexpected_arg_when_no_slot_is_left() {
    assert_eq!(
        run(&["prog", "one", "two", "three"]).unwrap_err(),
        Error::UnexpectedArg("two".to_owned())
    );
}

#[test]
fn flag_not_found_for_unknown_names() {
    assert_eq!(
        run(&["prog", "--nothing", "x"]).unwrap_err(),
        Error::FlagNotFound("nothing".to_owned())
    );
    assert_eq!(
        run(&["prog", "-z", "x"]).unwrap_err(),
        Error::FlagNotFound("z".to_owned())
    );
}

#[test]
fn flag_no_value_when_the_value_looks_like_a_flag() {
    assert_eq!(
        run(&["prog", "--valued", "--bool-flag", "x"]).unwrap_err(),
        Error::FlagNoValue("valued".to_owned())
    );
}

#[test]
fn requires_equal_for_must_flags_without_equals() {
    assert_eq!(
        run(&["prog", "--must", "x", "y"]).unwrap_err(),
        Error::RequiresEqual("must".to_owned())
    );
    // mid-cluster as well
    assert_eq!(
        run(&["prog", "-mb", "x"]).unwrap_err(),
        Error::RequiresEqual("must".to_owned())
    );
}

#[test]
fn bool_flag_equals_value_is_refused() {
    assert_eq!(
        run(&["prog", "--bool-flag=v", "x"]).unwrap_err(),
        Error::BoolFlagEqualsValue("--bool-flag=v".to_owned())
    );
    assert_eq!(
        run(&["prog", "-b=v", "x"]).unwrap_err(),
        Error::BoolFlagEqualsValue("-b=v".to_owned())
    );
}

#[test]
fn unexpected_flag_when_nothing_is_eligible() {
    let bare = Command {
        name: "bare".to_owned(),
        description: "".to_owned(),
        all_flags: vec![],
        args: vec![],
        commands: vec![],
    };
    let tokens: Vec<String> = vec!["prog".to_owned(), "-".to_owned()];
    let mut history = History::new();
    assert_eq!(
        bare.supplement_with_history(&mut history, &tokens)
            .unwrap_err(),
        Error::UnexpectedFlag
    );
}

#[test]
fn malformed_flag_tokens_are_not_found() {
    assert_eq!(
        run(&["prog", "---x", "y"]).unwrap_err(),
        Error::FlagNotFound("---x".to_owned())
    );
}

fn three_bools() -> Command {
    let bool_flag = |n: u32, c: char| Flag {
        ty: flag_type::Type::new_bool(id::NoVal::new(n)),
        short: vec![c],
        long: vec![],
        description: "".to_owned(),
        once: false,
    };
    Command {
        name: "root".to_owned(),
        description: "".to_owned(),
        all_flags: vec![bool_flag(1, 'x'), bool_flag(2, 'y'), bool_flag(3, 'z')],
        args: vec![Arg {
            id: id::SingleVal::new(4).into(),
            max_values: 1,
        }],
        commands: vec![],
    }
}

#[test]
fn bool_cluster_equals_singles() {
    let schema = three_bools();
    let run = |args: &[&str]| {
        let tokens: Vec<String> = args.iter().map(|s| s.to_string()).collect();
        let mut history = History::new();
        let r = schema.supplement_with_history(&mut history, &tokens);
        (history.into_inner(), r.unwrap())
    };
    let (h1, _) = run(&["prog", "-xyz", ""]);
    let (h2, _) = run(&["prog", "-x", "-y", "-z", ""]);
    assert_eq!(h1, h2);
    assert_eq!(h1.len(), 3);
}
