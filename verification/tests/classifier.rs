use supplement::parsed_flag::{Error, ParsedFlag};

#[test]
fn parsed_flag_test_simple() {
    assert_eq!(ParsedFlag::new(""), ParsedFlag::Empty);
    assert_eq!(ParsedFlag::new("-"), ParsedFlag::SingleDash);
    assert_eq!(ParsedFlag::new("--"), ParsedFlag::DoubleDash);
    assert_eq!(
        ParsedFlag::new("-s"),
        ParsedFlag::Short {
            body: 's',
            equal: None
        }
    );
    assert_eq!(
        ParsedFlag::new("--long"),
        ParsedFlag::Long {
            body: "long",
            equal: None
        }
    );
    assert_eq!(
        ParsedFlag::new("-long"),
        ParsedFlag::MultiShort {
            body: "long",
            equal: None
        }
    );

    assert_eq!(
        ParsedFlag::new("--l"),
        ParsedFlag::Long {
            body: "l",
            equal: None
        },
        "This may seem strange, but I don't want to be too strict. It probably will not find the flag anyways"
    );
}

#[test]
fn test_equal() {
    assert_eq!(
        ParsedFlag::new("-s="),
        ParsedFlag::Short {
            body: 's',
            equal: Some("")
        }
    );
    assert_eq!(
        ParsedFlag::new("--long=x"),
        ParsedFlag::Long {
            body: "long",
            equal: Some("x")
        }
    );
    assert_eq!(
        ParsedFlag::new("-long=x"),
        ParsedFlag::MultiShort {
            body: "long",
            equal: Some("x")
        }
    );

    assert_eq!(
        ParsedFlag::new("--l=x"),
        ParsedFlag::Long {
            body: "l",
            equal: Some("x")
        },
        "This may seem strange, but I don't want to be too strict. It probably will not find the flag anyways"
    );
}

#[test]
fn test_invalid() {
    assert_eq!(
        ParsedFlag::new("-s-b"),
        ParsedFlag::Error(Error::DashNotAllowed)
    );
    assert_eq!(
        ParsedFlag::new("---long"),
        ParsedFlag::Error(Error::ConsecutiveDashes)
    );
    assert_eq!(
        ParsedFlag::new("--long--and"),
        ParsedFlag::Error(Error::ConsecutiveDashes)
    );
    assert_eq!(
        ParsedFlag::new("-a=b=c"),
        ParsedFlag::Error(Error::TooManyEquals)
    );
}
