use supplement::completion::{naive_fuzzy, Completion, CompletionGroup, Ready, Shell, Unready};
use supplement::engine::{flag_type, Command, CompleteWithEqual, Flag};
use supplement::history::History;
use supplement::id;

fn ready_of(args: &str, schema: &Command) -> Ready {
    let tokens: Vec<String> = args.split(' ').map(|s| s.to_owned()).collect();
    let mut history = History::new();
    match schema.supplement_with_history(&mut history, &tokens).unwrap() {
        CompletionGroup::Ready(r) => r,
        g => panic!("{:?} is unready", g),
    }
}

fn schema() -> Command {
    Command {
        name: "root".to_owned(),
        description: "".to_owned(),
        all_flags: vec![
            Flag {
                ty: flag_type::Type::new_bool(id::NoVal::new(1)),
                short: vec!['a'],
                long: vec!["apple".to_owned()],
                description: "the apple flag".to_owned(),
                once: false,
            },
            Flag {
                ty: flag_type::Type::new_valued(
                    id::SingleVal::new(2).into(),
                    CompleteWithEqual::Must,
                    vec![],
                ),
                short: vec![],
                long: vec!["banana".to_owned()],
                description: "".to_owned(),
                once: false,
            },
        ],
        args: vec![],
        commands: vec![
            Command {
                name: "go".to_owned(),
                description: "go somewhere".to_owned(),
                all_flags: vec![],
                args: vec![],
                commands: vec![],
            },
        ],
    }
}

#[test]
fn fuzzy_is_a_subsequence_check() {
    assert!(naive_fuzzy("--long-flag", "-lf"));
    assert!(naive_fuzzy("anything", ""));
    assert!(!naive_fuzzy("short", "shorter"));
    assert!(!naive_fuzzy("acb", "abc"));
    assert!(naive_fuzzy("acb", "ab"));
    assert!(!naive_fuzzy("xyz", "a"));
}

#[test]
fn bash_lists_prefix_matches_only() {
    let root = schema();
    let ready = ready_of("prog --", &root);
    let out = ready.print(Shell::Bash);
    assert_eq!(out, "--apple\n--banana=\n");

    // bash filters by literal prefix against the partial text
    let ready = ready_of("prog --b", &root);
    let out = ready.print(Shell::Bash);
    assert_eq!(out, "--banana=\n");
}

#[test]
fn fish_lists_value_and_description() {
    let root = schema();
    let ready = ready_of("prog --a", &root);
    let out = ready.print(Shell::Fish);
    // fish keeps subsequence matches; "--a" matches both names here
    assert_eq!(out, "--apple\tthe apple flag\n--banana=\tbanana\n");
}

#[test]
fn zsh_groups_and_sorts() {
    let root = schema();
    // final empty token: the one subcommand, grouped under "command"
    let tokens: Vec<String> = vec!["prog".to_owned(), "".to_owned()];
    let mut history = History::new();
    let grp = root.supplement_with_history(&mut history, &tokens).unwrap();
    let ready2 = match grp {
        CompletionGroup::Ready(r) => r,
        g => panic!("{:?} is unready", g),
    };
    let out = ready2.print(Shell::Zsh);
    assert_eq!(out, "command\n\tgo\tgo -- go somewhere\nEND\n");
}

#[test]
fn zsh_orders_groups_by_size_then_name() {
    let comps = vec![
        Completion::new("v1", "").group("beta"),
        Completion::new("v2", "").group("beta"),
        Completion::new("v3", "").group("alpha"),
    ];
    let ready = Ready {
        arg: String::new(),
        comps,
    };
    let out = ready.print(Shell::Zsh);
    // the smaller group comes first; same-size groups would sort by name
    assert_eq!(out, "alpha\n\tv3\tv3\nbeta\n\tv1\tv1\n\tv2\tv2\nEND\n");
}

#[test]
fn to_ready_prefixes_and_merges() {
    let unready = Unready {
        arg: "--color=au".to_owned(),
        prefix: "--color=".to_owned(),
        preexist: vec![Completion::new("kept", "as is")],
    };
    let ready = unready.to_ready(vec![
        Completion::new("auto", ""),
        Completion::new("always", ""),
    ]);
    let values: Vec<&str> = ready.comps.iter().map(|c| c.value.as_str()).collect();
    assert_eq!(values, vec!["kept", "--color=auto", "--color=always"]);
    assert_eq!(ready.arg, "--color=au");
}

#[test]
fn shell_parses_from_name() {
    let shell: Shell = "fish".parse().unwrap();
    assert_eq!(shell, Shell::Fish);
    let shell: Shell = "zsh".parse().unwrap();
    assert_eq!(shell, Shell::Zsh);
    let shell: Shell = "bash".parse().unwrap();
    assert_eq!(shell, Shell::Bash);
    assert!("tcsh".parse::<Shell>().is_err());
}

#[test]
fn always_match_survives_filtering() {
    let comps = vec![
        Completion::new("nomatch", "").always_match(),
        Completion::new("other", ""),
    ];
    let ready = Ready {
        arg: "zzz".to_owned(),
        comps,
    };
    let out = ready.print(Shell::Fish);
    assert_eq!(out, "nomatch\t\n");
}

#[test]
fn completion_value_rewrites() {
    let c = Completion::new("-x", "d").value(|v| format!("-a{}", &v[1..]));
    assert_eq!(c.value, "-ax");
    assert_eq!(c.description, "d");
}
