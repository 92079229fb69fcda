use supplement::arg_context::ArgsContext;
use supplement::engine::Arg;
use supplement::id;

fn single_arg(n: u32) -> Arg {
    Arg {
        id: id::SingleVal::new(n).into(),
        max_values: 1,
    }
}

fn multi_arg(n: u32, max_values: usize) -> Arg {
    Arg {
        id: id::SingleVal::new(n).into(),
        max_values,
    }
}

#[test]
fn test_empty_arg_ctx() {
    let args: Vec<Arg> = vec![];
    let mut ctx = ArgsContext::new(&args);
    assert_eq!(ctx.has_seen_arg(), false);
    assert!(ctx.next_arg().is_none());
    assert_eq!(ctx.has_seen_arg(), false);
}

#[test]
fn test_simple_arg_ctx() {
    let args = vec![single_arg(0), single_arg(0)];
    let mut ctx = ArgsContext::new(&args);
    assert_eq!(ctx.has_seen_arg(), false);
    assert_eq!(ctx.next_arg().unwrap().id, args[0].id);
    assert_eq!(ctx.has_seen_arg(), true);
    assert_eq!(ctx.next_arg().unwrap().id, args[1].id);
    assert!(ctx.next_arg().is_none());
}

#[test]
fn test_var_arg_ctx() {
    let args = vec![single_arg(0), multi_arg(0, 2), multi_arg(0, 3)];
    let mut ctx = ArgsContext::new(&args);
    assert_eq!(ctx.has_seen_arg(), false);
    assert_eq!(ctx.next_arg().unwrap().id, args[0].id);
    assert_eq!(ctx.has_seen_arg(), true);

    assert_eq!(ctx.next_arg().unwrap().id, args[1].id);
    assert_eq!(ctx.next_arg().unwrap().id, args[1].id);

    assert_eq!(ctx.next_arg().unwrap().id, args[2].id);
    assert_eq!(ctx.next_arg().unwrap().id, args[2].id);
    assert_eq!(ctx.next_arg().unwrap().id, args[2].id);

    assert!(ctx.next_arg().is_none());
}
