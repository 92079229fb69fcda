use supplement::completion::{Completion, CompletionGroup};
use supplement::engine::{flag_type, Arg, Command, CompleteWithEqual, Flag};
use supplement::error::Error;
use supplement::history::{
    History, HistoryUnit, HistoryUnitMultiVal, HistoryUnitNoVal, HistoryUnitSingleVal,
};
use supplement::id;

const ID_A: u32 = 1;
const ID_B: u32 = 2;
const ID_D: u32 = 3;
const ID_OPT: u32 = 4;
const ID_C: u32 = 100;

fn c_flag() -> Flag {
    Flag {
        ty: flag_type::Type::new_bool(id::NoVal::new(ID_C)),
        short: vec!['c'],
        long: vec!["long-c".to_owned(), "long-c-2".to_owned()],
        description: "test description for flag C".to_owned(),
        once: true,
    }
}

fn b_flag() -> Flag {
    Flag {
        ty: flag_type::Type::new_valued(
            id::SingleVal::new(ID_B).into(),
            CompleteWithEqual::NoNeed,
            vec![],
        ),
        short: vec!['b', 'x'],
        long: vec!["long-b".to_owned()],
        description: "test description for flag B".to_owned(),
        once: true,
    }
}

fn opt_flag() -> Flag {
    Flag {
        ty: flag_type::Type::new_valued(
            id::SingleVal::new(ID_OPT).into(),
            CompleteWithEqual::Optional,
            vec![
                ("opt1".to_owned(), "".to_owned()),
                ("opt2".to_owned(), "".to_owned()),
            ],
        ),
        short: vec!['o'],
        long: vec!["opt".to_owned()],
        description: "test description for flag OPT".to_owned(),
        once: true,
    }
}

fn a_arg() -> Arg {
    Arg {
        id: id::SingleVal::new(ID_A).into(),
        max_values: 1,
    }
}

fn d_arg() -> Arg {
    Arg {
        id: id::MultiVal::new(ID_D).into(),
        max_values: 2,
    }
}

fn sub() -> Command {
    Command {
        name: "sub".to_owned(),
        description: "test sub description".to_owned(),
        all_flags: vec![b_flag()],
        args: vec![a_arg(), a_arg()],
        commands: vec![],
    }
}

fn root() -> Command {
    Command {
        name: "root".to_owned(),
        description: "".to_owned(),
        all_flags: vec![b_flag(), c_flag(), opt_flag()],
        args: vec![a_arg(), d_arg()],
        commands: vec![sub()],
    }
}

fn try_run(
    args: &str,
    last_is_empty: bool,
) -> (Vec<HistoryUnit>, Result<CompletionGroup, Error>) {
    let mut tokens: Vec<String> = vec!["whatever".to_owned()];
    for t in args.split(' ') {
        tokens.push(t.to_owned());
    }
    if last_is_empty {
        tokens.push(String::new());
    }
    let mut history = History::new();
    let res = root().supplement_with_history(&mut history, &tokens);
    (history.into_inner(), res)
}

fn run(args: &str, last_is_empty: bool) -> (Vec<HistoryUnit>, CompletionGroup) {
    let (h, r) = try_run(args, last_is_empty);
    (h, r.unwrap())
}

fn map_comps(comps: &[Completion]) -> Vec<&str> {
    let mut v: Vec<_> = comps.iter().map(|c| c.value.as_str()).collect();
    v.sort();
    v
}

fn map_unready(grp: &CompletionGroup) -> (u32, &str, Vec<&str>, &str) {
    match grp {
        CompletionGroup::Unready { unready, id, value } => {
            let preexist = map_comps(&unready.preexist);
            (*id, value, preexist, &unready.prefix)
        }
        _ => panic!("{:?} is ready", grp),
    }
}

fn map_comp_values(grp: &CompletionGroup) -> Vec<&str> {
    let v = match grp {
        CompletionGroup::Ready(r) => r.inner().0,
        _ => panic!("{:?} is unready", grp),
    };
    map_comps(v)
}

fn no_unit(id: u32) -> HistoryUnit {
    HistoryUnit::No(HistoryUnitNoVal {
        id: id::NoVal::new(id),
        count: 1,
    })
}

fn single_unit(id: u32, value: &str) -> HistoryUnit {
    HistoryUnit::Single(HistoryUnitSingleVal {
        id: id::SingleVal::new(id),
        value: value.to_owned(),
    })
}

fn multi_unit(id: u32, values: &[&str]) -> HistoryUnit {
    HistoryUnit::Multi(HistoryUnitMultiVal {
        id: id::MultiVal::new(id),
        values: values.iter().map(|s| s.to_string()).collect(),
    })
}

#[test]
fn test_args_last() {
    let (h, r) = run("sub a1", true);
    assert_eq!(h, vec![single_unit(ID_A, "a1")]);
    assert_eq!(map_unready(&r), (ID_A, "", vec![], ""));
}

#[test]
fn test_flags_not_last() {
    let expected_h = vec![no_unit(ID_C), single_unit(ID_B, "option")];
    let expected_r = (ID_A, "", vec![], "");

    let (h, r) = run("-c --long-b=option sub", true);
    assert_eq!(h, expected_h);
    assert_eq!(map_unready(&r), expected_r);
    let (h, r) = run("-c -b=option sub", true);
    assert_eq!(h, expected_h);
    assert_eq!(map_unready(&r), expected_r);
    let (h, r) = run("-cb=option sub", true);
    assert_eq!(h, expected_h);
    assert_eq!(map_unready(&r), expected_r);
    let (h, r) = run("-cb option sub", true);
    assert_eq!(h, expected_h);
    assert_eq!(map_unready(&r), expected_r);
    let (h, r) = run("-cboption sub", true);
    assert_eq!(h, expected_h);
    assert_eq!(map_unready(&r), expected_r);

    let (h, r) = run("-bc=option sub", true);
    assert_eq!(h, vec![single_unit(ID_B, "c=option")]);
    assert_eq!(map_unready(&r), expected_r);
}

#[test]
fn test_once_flag() {
    let (h, r) = run("-", false);
    assert_eq!(h, vec![]);
    assert_eq!(
        map_comp_values(&r),
        vec!["--long-b", "--long-c", "--opt", "--opt="],
    );

    let (h, r) = run("-b option -", false);
    assert_eq!(h, vec![single_unit(ID_B, "option")]);
    assert_eq!(map_comp_values(&r), vec!["--long-c", "--opt", "--opt="]);
}

#[test]
fn test_flags_last() {
    let expected_h = vec![no_unit(ID_C)];

    let (h, r) = run("-c --long-b=x", false);
    assert_eq!(expected_h, h);
    assert_eq!(map_unready(&r), (ID_B, "x", vec![], "--long-b="));

    let (h, r) = run("-c -b=x", false);
    assert_eq!(expected_h, h);
    assert_eq!(map_unready(&r), (ID_B, "x", vec![], "-b="));

    let (h, r) = run("-cb=x", false);
    assert_eq!(expected_h, h);
    assert_eq!(map_unready(&r), (ID_B, "x", vec![], "-cb="));

    let (h, r) = run("-cbx", false);
    assert_eq!(expected_h, h);
    assert_eq!(map_unready(&r), (ID_B, "x", vec![], "-cb"));

    let (h, r) = run("-cb", false);
    assert_eq!(expected_h, h);
    assert_eq!(map_unready(&r), (ID_B, "", vec![], "-cb"));

    let (h, r) = run("-c", false);
    assert_eq!(expected_h, h);
    assert_eq!(map_comp_values(&r), vec!["-cb", "-co", "-co="]);
}

#[test]
fn test_flags_supplement() {
    let expected_h = vec![no_unit(ID_C)];
    let expected_r = (ID_B, "x", vec![], "");

    let (h, r) = run("-c --long-b x", false);
    assert_eq!(h, expected_h);
    assert_eq!(map_unready(&r), expected_r);

    let (h, r) = run("-c -b x", false);
    assert_eq!(h, expected_h);
    assert_eq!(map_unready(&r), expected_r);

    let (h, r) = run("-cb x", false);
    assert_eq!(h, expected_h);
    assert_eq!(map_unready(&r), expected_r);

    let (h, r) = run("-c x", false);
    assert_eq!(h, expected_h);
    assert_eq!(map_unready(&r), (ID_A, "x", vec!["sub"], ""));
}

#[test]
fn test_fall_back_and_var_len_arg() {
    let (h, r) = run("arg1", true);
    assert_eq!(h, vec![single_unit(ID_A, "arg1")]);
    assert_eq!(map_unready(&r), (ID_D, "", vec![], ""));

    let (h, r) = run("arg1 d1", true);
    assert_eq!(
        h,
        vec![single_unit(ID_A, "arg1"), multi_unit(ID_D, &["d1"])]
    );
    assert_eq!(map_unready(&r), (ID_D, "", vec![], ""));

    let expected_h = vec![single_unit(ID_A, "arg1"), multi_unit(ID_D, &["d1", "d2"])];

    let (h, r) = try_run("arg1 d1 d2", true);
    assert_eq!(h, expected_h);
    assert_eq!(r.unwrap_err(), Error::UnexpectedArg("".to_owned()));

    let (h, r) = try_run("arg1 d1 d2 d3", true);
    assert_eq!(h, expected_h);
    assert_eq!(r.unwrap_err(), Error::UnexpectedArg("d3".to_owned()));
}

#[test]
fn test_flag_after_args() {
    let (h, r) = run("sub arg1 --", false);
    assert_eq!(h, vec![single_unit(ID_A, "arg1")]);
    assert_eq!(map_comp_values(&r), vec!["--long-b"],);

    let (h, r) = run("sub arg1 --long-b flag1", false);
    assert_eq!(h, vec![single_unit(ID_A, "arg1")]);
    assert_eq!(map_unready(&r), (ID_B, "flag1", vec![], ""));

    let (h, r) = run("sub arg1 --long-b flag1", true);
    assert_eq!(
        h,
        vec![single_unit(ID_A, "arg1"), single_unit(ID_B, "flag1")]
    );
    assert_eq!(map_unready(&r), (ID_A, "", vec![], ""));
}

#[test]
fn test_flag_after_external_sub() {
    let (h, r) = run("--long-b flag1 ext", true);
    assert_eq!(
        h,
        vec![single_unit(ID_B, "flag1"), single_unit(ID_A, "ext")]
    );
    assert_eq!(map_unready(&r), (ID_D, "", vec![], ""));

    let (h, r) = run("ext --", false);
    assert_eq!(h, vec![single_unit(ID_A, "ext")]);
    assert_eq!(map_unready(&r), (ID_D, "--", vec![], ""));

    let (h, r) = run("ext --long-b flag1", false);
    assert_eq!(
        h,
        vec![single_unit(ID_A, "ext"), multi_unit(ID_D, &["--long-b"])]
    );
    assert_eq!(map_unready(&r), (ID_D, "flag1", vec![], ""));

    let expected_h = vec![
        single_unit(ID_A, "ext"),
        multi_unit(ID_D, &["--long-b", "flag1"]),
    ];
    let (h, r) = try_run("ext --long-b flag1", true);
    assert_eq!(h, expected_h);
    assert_eq!(r.unwrap_err(), Error::UnexpectedArg("".to_owned()));
}

#[test]
fn test_optional_flag() {
    let (h, r) = run("--opt=", false);
    assert_eq!(h, vec![]);
    assert_eq!(map_comp_values(&r), vec!["--opt=opt1", "--opt=opt2"]);

    let (h, r) = run("--opt=xxx", true);
    assert_eq!(h, vec![single_unit(ID_OPT, "xxx")]);
    assert_eq!(map_unready(&r), (ID_A, "", vec!["sub"], ""));

    let (h, r) = run("--opt", true);
    assert_eq!(h, vec![single_unit(ID_OPT, "")]);
    assert_eq!(map_unready(&r), (ID_A, "", vec!["sub"], ""));

    let (h, r) = run("--opt sub", true);
    assert_eq!(h, vec![single_unit(ID_OPT, "")]);
    assert_eq!(map_unready(&r), (ID_A, "", vec![], ""));

    // short flags

    let (h, r) = run("-oba", false);
    assert_eq!(h, vec![single_unit(ID_OPT, "")]);
    assert_eq!(map_unready(&r), (ID_B, "a", vec![], "-ob"));

    let (h, r) = run("-oba", true);
    assert_eq!(
        h,
        vec![single_unit(ID_OPT, ""), single_unit(ID_B, "a")]
    );
    assert_eq!(map_unready(&r), (ID_A, "", vec!["sub"], ""));

    let (h, r) = run("-ob a", false);
    assert_eq!(h, vec![single_unit(ID_OPT, "")]);
    assert_eq!(map_unready(&r), (ID_B, "a", vec![], ""));

    let (h, r) = run("-c", false);
    assert_eq!(h, vec![no_unit(ID_C)]);
    assert_eq!(map_comp_values(&r), vec!["-cb", "-co", "-co="]);

    let (h, r) = run("-co", false);
    assert_eq!(h, vec![no_unit(ID_C)]);
    assert_eq!(map_comp_values(&r), vec!["-co", "-co=opt1", "-co=opt2"]);

    let (h, r) = try_run("-oz", false);
    assert_eq!(h, vec![single_unit(ID_OPT, "")]);
    assert_eq!(r.unwrap_err(), Error::FlagNotFound("z".to_owned()));
}
