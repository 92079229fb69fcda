use supplement::engine::CompleteWithEqual;
use supplement::generate::utils::{
    compute_flag_equal, compute_flag_equal_enum, escape_help, gen_enum_name, gen_rust_name,
    get_id_value, to_pascal_case, to_screaming_snake_case, to_snake_case,
};
use supplement::generate::{Config, NameType, Trace};
use supplement::SupplementID;

#[test]
fn case_conversions() {
    assert_eq!(to_snake_case("long-flag-Name"), "long_flag_name");
    assert_eq!(to_screaming_snake_case("long-flag-name"), "LONG_FLAG_NAME");
    assert_eq!(to_pascal_case("long-flag-name"), "LongFlagName");
    assert_eq!(to_pascal_case("__x__"), "X");
    assert_eq!(to_pascal_case(""), "");
}

#[test]
fn escape_help_makes_literals_safe() {
    assert_eq!(escape_help("a\nb"), "a b");
    assert_eq!(escape_help("say \"hi\""), "say \\\"hi\\\"");
    assert_eq!(escape_help("plain"), "plain");
}

#[test]
fn generated_names() {
    assert_eq!(gen_enum_name(NameType::Command, "remote-add"), "CMDRemoteAdd");
    assert_eq!(gen_enum_name(NameType::Arg, "name"), "ValName");
    assert_eq!(gen_enum_name(NameType::External, "whatever"), "ValExternal");
    assert_eq!(gen_rust_name(NameType::Arg, "files"), "VAL_FILES");
    assert_eq!(gen_rust_name(NameType::Command, ""), "CMD");
}

#[test]
fn id_values_nest_through_command_levels() {
    assert_eq!(get_id_value(&[], NameType::Arg, "external"), "ID::ValExternal");
    let prev = vec![
        Trace {
            cmd_id: "remote".to_owned(),
        },
        Trace {
            cmd_id: "add".to_owned(),
        },
    ];
    assert_eq!(
        get_id_value(&prev, NameType::Arg, "name"),
        "super::super::ID::CMDRemote(super::ID::CMDAdd(ID::ValName))"
    );
}

#[test]
fn flag_equal_policy_follows_the_flag_shape() {
    assert_eq!(
        compute_flag_equal_enum(false, false, true),
        Ok(CompleteWithEqual::NoNeed)
    );
    assert_eq!(
        compute_flag_equal_enum(true, true, true),
        Ok(CompleteWithEqual::Optional)
    );
    assert_eq!(
        compute_flag_equal_enum(false, true, true),
        Ok(CompleteWithEqual::Must)
    );
    assert!(compute_flag_equal_enum(true, false, true).is_err());
    assert_eq!(
        compute_flag_equal_enum(true, false, false),
        Ok(CompleteWithEqual::NoNeed)
    );
    assert_eq!(
        compute_flag_equal(false, true, true),
        Ok("CompleteWithEqual::Must")
    );
}

#[test]
fn config_tracks_unused_entries() {
    let mut cfg = Config::new()
        .ignore(&["some-cmd", "pretty"])
        .ignore(&["other"]);
    assert!(cfg.is_strict());
    let trace = vec![Trace {
        cmd_id: "some-cmd".to_owned(),
    }];
    assert!(cfg.is_ignored(&trace, "pretty"));
    assert!(!cfg.is_ignored(&trace, "unknown"));
    let err = cfg.check_unprocessed_config().unwrap_err();
    let v = match err {
        supplement::error::GenerateError::UnprocessedConfigObj(v) => v,
        _ => panic!("unexpected error kind"),
    };
    assert_eq!(v, vec![vec!["other".to_owned()]]);
}

#[test]
fn config_renames_commands() {
    let mut cfg = Config::new().rename_cmd(&["one"], "my-one").strict(false);
    assert!(!cfg.is_strict());
    assert_eq!(cfg.get_cmd_name(&[], "one"), "my-one");
    assert_eq!(cfg.get_cmd_name(&[], "two"), "two");
    assert!(cfg.check_unprocessed_config().is_ok());
}

#[test]
fn supplement_id_keeps_its_parts() {
    let id = SupplementID::new(7, "name");
    assert_eq!(id, SupplementID(7, "name"));
}
