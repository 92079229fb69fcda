//! The engine driven by a hand-written schema in the shape a git-like tool's
//! generated definition takes.

use supplement::completion::{Completion, CompletionGroup};
use supplement::engine::{flag_type, Arg, Command, CompleteWithEqual, Flag};
use supplement::error::Error;
use supplement::history::History;
use supplement::id;

const ID_EXTERNAL: u32 = 1;
const ID_GIT_DIR: u32 = 2;
const ID_FLAG1: u32 = 3;
const ID_FILE_OR_COMMIT: u32 = 4;
const ID_COMMIT: u32 = 5;
const ID_GRAPH: u32 = 6;
const ID_PRETTY: u32 = 7;
const ID_BISECT: u32 = 8;
const ID_TAGS: u32 = 9;
const ID_NAME: u32 = 10;

fn git_dir_flag() -> Flag {
    Flag {
        ty: flag_type::Type::new_valued(
            id::SingleVal::new(ID_GIT_DIR).into(),
            CompleteWithEqual::NoNeed,
            vec![],
        ),
        short: vec![],
        long: vec!["git-dir".to_owned()],
        description: "".to_owned(),
        once: false,
    }
}

fn flag1_flag() -> Flag {
    Flag {
        ty: flag_type::Type::new_valued(
            id::SingleVal::new(ID_FLAG1).into(),
            CompleteWithEqual::NoNeed,
            vec![],
        ),
        short: vec![],
        long: vec!["flag1".to_owned()],
        description: "".to_owned(),
        once: false,
    }
}

fn graph_flag() -> Flag {
    Flag {
        ty: flag_type::Type::new_bool(id::NoVal::new(ID_GRAPH)),
        short: vec![],
        long: vec!["graph".to_owned()],
        description: "".to_owned(),
        once: false,
    }
}

fn pretty_flag() -> Flag {
    Flag {
        ty: flag_type::Type::new_valued(
            id::SingleVal::new(ID_PRETTY).into(),
            CompleteWithEqual::Optional,
            vec![
                ("oneline".to_owned(), "<sha1> <title line>".to_owned()),
                ("short".to_owned(), "<sha1> / <author> / <title line>)".to_owned()),
                (
                    "full".to_owned(),
                    "<sha1> / <author> / <committer> / <title> / <commit msg>".to_owned(),
                ),
            ],
        ),
        short: vec![],
        long: vec!["pretty".to_owned()],
        description: "".to_owned(),
        once: false,
    }
}

fn checkout_cmd() -> Command {
    Command {
        name: "checkout".to_owned(),
        description: "".to_owned(),
        all_flags: vec![git_dir_flag()],
        args: vec![
            Arg {
                id: id::SingleVal::new(ID_FILE_OR_COMMIT).into(),
                max_values: 1,
            },
        ],
        commands: vec![],
    }
}

fn log_cmd() -> Command {
    Command {
        name: "log".to_owned(),
        description: "log".to_owned(),
        all_flags: vec![flag1_flag(), git_dir_flag(), graph_flag(), pretty_flag()],
        args: vec![
            Arg {
                id: id::SingleVal::new(ID_COMMIT).into(),
                max_values: 1,
            },
        ],
        commands: vec![],
    }
}

fn remote_cmd(with_subs: bool) -> Command {
    let commands = if with_subs {
        vec![
            Command {
                name: "add".to_owned(),
                description: "".to_owned(),
                all_flags: vec![
                    Flag {
                        ty: flag_type::Type::new_bool(id::NoVal::new(ID_TAGS)),
                        short: vec![],
                        long: vec!["tags".to_owned()],
                        description: "".to_owned(),
                        once: false,
                    },
                ],
                args: vec![
                    Arg {
                        id: id::SingleVal::new(ID_NAME).into(),
                        max_values: 1,
                    },
                ],
                commands: vec![],
            },
            Command {
                name: "remove".to_owned(),
                description: "".to_owned(),
                all_flags: vec![],
                args: vec![],
                commands: vec![],
            },
        ]
    } else {
        vec![]
    };
    Command {
        name: "remote".to_owned(),
        description: "".to_owned(),
        all_flags: vec![git_dir_flag()],
        args: vec![],
        commands,
    }
}

fn bisect_cmd() -> Command {
    Command {
        name: "bisect".to_owned(),
        description: "".to_owned(),
        all_flags: vec![git_dir_flag()],
        args: vec![
            Arg {
                id: id::SingleVal::new_certain(
                    ID_BISECT,
                    vec![
                        ("good".to_owned(), "".to_owned()),
                        ("bad".to_owned(), "".to_owned()),
                    ],
                )
                .into(),
                max_values: 1,
            },
        ],
        commands: vec![],
    }
}

fn dummy_root() -> Command {
    Command {
        name: "git".to_owned(),
        description: "".to_owned(),
        all_flags: vec![git_dir_flag()],
        args: vec![
            Arg {
                id: id::SingleVal::new(ID_EXTERNAL).into(),
                max_values: 1,
            },
        ],
        commands: vec![checkout_cmd(), log_cmd(), remote_cmd(false)],
    }
}

fn full_root() -> Command {
    Command {
        name: "git".to_owned(),
        description: "".to_owned(),
        all_flags: vec![git_dir_flag()],
        args: vec![
            Arg {
                id: id::SingleVal::new(ID_EXTERNAL).into(),
                max_values: 1,
            },
        ],
        commands: vec![bisect_cmd(), checkout_cmd(), log_cmd(), remote_cmd(true)],
    }
}

fn run_with(root: &Command, cmd: &str) -> Result<CompletionGroup, Error> {
    let tokens: Vec<String> = cmd.split(' ').map(|s| s.to_owned()).collect();
    let mut history = History::new();
    root.supplement_with_history(&mut history, &tokens)
}

fn map_comps(comps: &[Completion]) -> Vec<&str> {
    let mut v: Vec<_> = comps.iter().map(|c| c.value.as_str()).collect();
    v.sort();
    v
}

fn map_ready(grp: &CompletionGroup) -> Vec<&str> {
    let v = match grp {
        CompletionGroup::Ready(r) => r.inner().0,
        _ => panic!("{:?} is unready", grp),
    };
    map_comps(v)
}

fn map_unready(grp: &CompletionGroup) -> (u32, &str, Vec<&str>, &str) {
    match grp {
        CompletionGroup::Unready { unready, id, value } => {
            let preexist = map_comps(&unready.preexist);
            (*id, value, preexist, &unready.prefix)
        }
        _ => panic!("{:?} is ready", grp),
    }
}

#[test]
fn dummy_test_simple() {
    let root = dummy_root();

    let comps = run_with(&root, "git -").unwrap();
    assert_eq!(vec!["--git-dir"], map_ready(&comps));

    let comps = run_with(&root, "git g").unwrap();
    assert_eq!(
        map_unready(&comps),
        (ID_EXTERNAL, "g", vec!["checkout", "log", "remote"], "")
    );

    let comps = run_with(&root, "git log -").unwrap();
    assert_eq!(
        vec!["--flag1", "--git-dir", "--graph", "--pretty", "--pretty="],
        map_ready(&comps)
    );

    let comps = run_with(&root, "git checkout -").unwrap();
    assert_eq!(vec!["--git-dir"], map_ready(&comps));

    let comps = run_with(&root, "git log --pretty=").unwrap();
    assert_eq!(
        vec!["--pretty=full", "--pretty=oneline", "--pretty=short"],
        map_ready(&comps)
    );
}

#[test]
fn lib_test_simple() {
    let root = full_root();

    let comps = run_with(&root, "git -").unwrap();
    assert_eq!(vec!["--git-dir"], map_ready(&comps));

    let comps = run_with(&root, "git g").unwrap();
    assert_eq!(
        map_unready(&comps),
        (
            ID_EXTERNAL,
            "g",
            vec!["bisect", "checkout", "log", "remote"],
            ""
        )
    );

    let comps = run_with(&root, "git remote g").unwrap();
    assert_eq!(map_ready(&comps), vec!["add", "remove"]);

    let comps = run_with(&root, "git log -").unwrap();
    assert_eq!(
        vec!["--flag1", "--git-dir", "--graph", "--pretty", "--pretty="],
        map_ready(&comps)
    );

    let comps = run_with(&root, "git checkout -").unwrap();
    assert_eq!(vec!["--git-dir"], map_ready(&comps));

    let comps = run_with(&root, "git log --pretty=").unwrap();
    assert_eq!(
        vec!["--pretty=full", "--pretty=oneline", "--pretty=short"],
        map_ready(&comps)
    );

    let comps = run_with(&root, "git bisect x").unwrap();
    assert_eq!(vec!["bad", "good"], map_ready(&comps));
}
