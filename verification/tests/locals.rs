use sway_ir::text::{compare_names, push_decimal, with_decimal, NameOrder};
use sway_ir::{Constant, Context, Function, IrError, LocalVar, Module, Type};

fn function_in(context: &mut Context, name: &str) -> Function {
    let module = Module::new(context);
    Function::new(
        context,
        module,
        name.to_string(),
        Vec::new(),
        Type::Unit,
        None,
        false,
        false,
        None,
    )
}

fn names(context: &Context, func: Function) -> Vec<String> {
    func.locals_iter(context)
        .iter()
        .map(|(name, _)| name.clone())
        .collect()
}

#[test]
fn same_name_twice_is_refused_the_second_time() {
    let mut context = Context::new();
    let func = function_in(&mut context, "owner");
    let first = func
        .new_local_var(&mut context, "x".to_string(), Type::Bool, None)
        .unwrap();
    let second = func.new_local_var(&mut context, "x".to_string(), Type::Uint(8), None);
    assert_eq!(
        second,
        Err(IrError::FunctionLocalClobbered(
            "owner".to_string(),
            "x".to_string()
        ))
    );
    assert_eq!(func.get_local_var(&context, "x"), Some(first));
    assert_eq!(func.locals_iter(&context).len(), 1);
    assert_eq!(first.get_type(&context), Type::Bool);
}

#[test]
fn local_var_keeps_its_type_and_initializer() {
    let mut context = Context::new();
    let func = function_in(&mut context, "f");
    let init = Constant::new_uint(64, 42);
    let var = func
        .new_local_var(&mut context, "answer".to_string(), Type::Uint(64), Some(init))
        .unwrap();
    assert_eq!(var.get_type(&context), Type::Uint(64));
    assert_eq!(var.get_initializer(&context), Some(init));
    let plain = func
        .new_local_var(&mut context, "plain".to_string(), Type::Unit, None)
        .unwrap();
    assert_eq!(plain.get_initializer(&context), None);
    assert_ne!(var, plain);
}

#[test]
fn get_local_var_misses_an_unknown_name() {
    let mut context = Context::new();
    let func = function_in(&mut context, "f");
    assert_eq!(func.get_local_var(&context, "x"), None);
    func.new_local_var(&mut context, "x".to_string(), Type::Bool, None)
        .unwrap();
    assert_eq!(func.get_local_var(&context, "y"), None);
    assert_eq!(func.get_local_var(&context, "x0"), None);
    assert_eq!(func.get_local_var(&context, ""), None);
}

#[test]
fn lookup_local_name_finds_the_name_of_a_handle() {
    let mut context = Context::new();
    let f = function_in(&mut context, "f");
    let g = function_in(&mut context, "g");
    let x = f
        .new_local_var(&mut context, "x".to_string(), Type::Bool, None)
        .unwrap();
    let y = f
        .new_local_var(&mut context, "y".to_string(), Type::Bool, None)
        .unwrap();
    let theirs = g
        .new_local_var(&mut context, "x".to_string(), Type::Bool, None)
        .unwrap();
    assert_eq!(f.lookup_local_name(&context, &x), Some(&"x".to_string()));
    assert_eq!(f.lookup_local_name(&context, &y), Some(&"y".to_string()));
    assert_eq!(f.lookup_local_name(&context, &theirs), None);
    assert_eq!(g.lookup_local_name(&context, &theirs), Some(&"x".to_string()));
}

#[test]
fn locals_are_listed_by_name_whatever_the_order_of_insertion() {
    let mut context = Context::new();
    let func = function_in(&mut context, "f");
    for name in ["b", "ab", "c", "B", "a", "", "zz", "z", "\u{e9}"] {
        func.new_local_var(&mut context, name.to_string(), Type::Bool, None)
            .unwrap();
    }
    assert_eq!(
        names(&context, func),
        vec!["", "B", "a", "ab", "b", "c", "z", "zz", "\u{e9}"]
    );
    let other = function_in(&mut context, "g");
    for name in ["\u{e9}", "z", "zz", "", "a", "B", "c", "ab", "b"] {
        other
            .new_local_var(&mut context, name.to_string(), Type::Bool, None)
            .unwrap();
    }
    assert_eq!(names(&context, other), names(&context, func));
}

#[test]
fn unique_local_var_keeps_a_free_name() {
    let mut context = Context::new();
    let func = function_in(&mut context, "f");
    let var = func.new_unique_local_var(&mut context, "x".to_string(), Type::Bool, None);
    assert_eq!(func.get_local_var(&context, "x"), Some(var));
    assert_eq!(names(&context, func), vec!["x"]);
}

#[test]
fn unique_local_var_takes_the_first_free_number() {
    let mut context = Context::new();
    let func = function_in(&mut context, "f");
    let x = func.new_unique_local_var(&mut context, "x".to_string(), Type::Bool, None);
    let x0 = func.new_unique_local_var(&mut context, "x".to_string(), Type::Bool, None);
    let x1 = func.new_unique_local_var(&mut context, "x".to_string(), Type::Bool, None);
    assert_eq!(func.get_local_var(&context, "x"), Some(x));
    assert_eq!(func.get_local_var(&context, "x0"), Some(x0));
    assert_eq!(func.get_local_var(&context, "x1"), Some(x1));
    assert_eq!(names(&context, func), vec!["x", "x0", "x1"]);
}

#[test]
fn unique_local_var_fills_a_gap_in_the_numbers() {
    let mut context = Context::new();
    let func = function_in(&mut context, "f");
    for name in ["x", "x0", "x2"] {
        func.new_local_var(&mut context, name.to_string(), Type::Bool, None)
            .unwrap();
    }
    let var = func.new_unique_local_var(&mut context, "x".to_string(), Type::Bool, None);
    assert_eq!(func.get_local_var(&context, "x1"), Some(var));
    let next = func.new_unique_local_var(&mut context, "x".to_string(), Type::Bool, None);
    assert_eq!(func.get_local_var(&context, "x3"), Some(next));
}

#[test]
fn unique_local_var_counts_past_ten() {
    let mut context = Context::new();
    let func = function_in(&mut context, "f");
    func.new_local_var(&mut context, "v".to_string(), Type::Bool, None)
        .unwrap();
    let mut last = None;
    for _ in 0..12 {
        last = Some(func.new_unique_local_var(&mut context, "v".to_string(), Type::Bool, None));
    }
    assert_eq!(func.get_local_var(&context, "v11"), last);
    assert_eq!(func.locals_iter(&context).len(), 13);
    assert_eq!(func.get_local_var(&context, "v12"), None);
}

#[test]
fn unique_local_var_with_an_empty_name() {
    let mut context = Context::new();
    let func = function_in(&mut context, "f");
    let a = func.new_unique_local_var(&mut context, String::new(), Type::Bool, None);
    let b = func.new_unique_local_var(&mut context, String::new(), Type::Bool, None);
    assert_eq!(func.get_local_var(&context, ""), Some(a));
    assert_eq!(func.get_local_var(&context, "0"), Some(b));
}

#[test]
fn merge_renames_a_colliding_local() {
    let mut context = Context::new();
    let f = function_in(&mut context, "f");
    let g = function_in(&mut context, "g");
    let f_tmp = f
        .new_local_var(&mut context, "tmp".to_string(), Type::Bool, None)
        .unwrap();
    let g_tmp = g
        .new_local_var(&mut context, "tmp".to_string(), Type::Uint(8), None)
        .unwrap();
    let map = f.merge_locals_from(&mut context, g);
    assert_eq!(names(&context, f), vec!["tmp", "tmp0"]);
    assert_eq!(func_local(&context, f, "tmp"), f_tmp);
    let merged = func_local(&context, f, "tmp0");
    assert_eq!(map.len(), 1);
    assert_eq!(map.get(&g_tmp), Some(&merged));
    assert_ne!(merged, g_tmp);
    assert_ne!(merged, f_tmp);
    assert_eq!(merged.get_type(&context), Type::Uint(8));
    assert_eq!(names(&context, g), vec!["tmp"]);
    assert_eq!(func_local(&context, g, "tmp"), g_tmp);
}

fn func_local(context: &Context, func: Function, name: &str) -> LocalVar {
    func.get_local_var(context, name).unwrap()
}

#[test]
fn merge_maps_each_local_to_a_new_one_of_its_own() {
    let mut context = Context::new();
    let a = function_in(&mut context, "a");
    let b = function_in(&mut context, "b");
    let a_x = a
        .new_local_var(&mut context, "x".to_string(), Type::Bool, None)
        .unwrap();
    let a_k = a
        .new_local_var(&mut context, "k".to_string(), Type::Bool, None)
        .unwrap();
    let init = Constant::new_bool(true);
    let b_x = b
        .new_local_var(&mut context, "x".to_string(), Type::Bool, Some(init))
        .unwrap();
    let b_x0 = b
        .new_local_var(&mut context, "x0".to_string(), Type::Uint(16), None)
        .unwrap();
    let b_y = b
        .new_local_var(&mut context, "y".to_string(), Type::B256, None)
        .unwrap();
    let map = a.merge_locals_from(&mut context, b);
    assert_eq!(map.len(), 3);
    let targets = [map[&b_x], map[&b_x0], map[&b_y]];
    assert_ne!(targets[0], targets[1]);
    assert_ne!(targets[0], targets[2]);
    assert_ne!(targets[1], targets[2]);
    for target in targets {
        assert!(a.lookup_local_name(&context, &target).is_some());
        assert!(target != a_x && target != a_k);
        assert!(target != b_x && target != b_x0 && target != b_y);
    }
    assert_eq!(names(&context, a), vec!["k", "x", "x0", "x00", "y"]);
    assert_eq!(a.get_local_var(&context, "x"), Some(a_x));
    assert_eq!(a.get_local_var(&context, "k"), Some(a_k));
    assert_eq!(a.get_local_var(&context, "x0"), Some(map[&b_x]));
    assert_eq!(a.get_local_var(&context, "x00"), Some(map[&b_x0]));
    assert_eq!(a.get_local_var(&context, "y"), Some(map[&b_y]));
    assert_eq!(map[&b_x].get_initializer(&context), Some(init));
    assert_eq!(map[&b_x0].get_type(&context), Type::Uint(16));
    assert_eq!(map[&b_y].get_type(&context), Type::B256);
    assert_eq!(names(&context, b), vec!["x", "x0", "y"]);
}

#[test]
fn merge_from_a_function_without_locals_changes_nothing() {
    let mut context = Context::new();
    let a = function_in(&mut context, "a");
    let b = function_in(&mut context, "b");
    a.new_local_var(&mut context, "x".to_string(), Type::Bool, None)
        .unwrap();
    let map = a.merge_locals_from(&mut context, b);
    assert!(map.is_empty());
    assert_eq!(names(&context, a), vec!["x"]);
}

#[test]
fn merge_from_itself_doubles_the_locals() {
    let mut context = Context::new();
    let a = function_in(&mut context, "a");
    let x = a
        .new_local_var(&mut context, "x".to_string(), Type::Bool, None)
        .unwrap();
    let map = a.merge_locals_from(&mut context, a);
    assert_eq!(map.len(), 1);
    assert_eq!(names(&context, a), vec!["x", "x0"]);
    assert_eq!(a.get_local_var(&context, "x0"), Some(map[&x]));
    assert_eq!(a.get_local_var(&context, "x"), Some(x));
}

#[test]
fn names_compare_byte_by_byte() {
    assert_eq!(compare_names("a", "b"), NameOrder::Before);
    assert_eq!(compare_names("b", "a"), NameOrder::After);
    assert_eq!(compare_names("a", "a"), NameOrder::Same);
    assert_eq!(compare_names("", ""), NameOrder::Same);
    assert_eq!(compare_names("", "a"), NameOrder::Before);
    assert_eq!(compare_names("a", ""), NameOrder::After);
    assert_eq!(compare_names("ab", "abc"), NameOrder::Before);
    assert_eq!(compare_names("abd", "abc"), NameOrder::After);
    assert_eq!(compare_names("Z", "a"), NameOrder::Before);
    assert_eq!(compare_names("x10", "x9"), NameOrder::Before);
    assert_eq!(compare_names("z", "\u{e9}"), NameOrder::Before);
    assert_eq!(compare_names("\u{e9}", "\u{4e2d}"), NameOrder::Before);
}

#[test]
fn numerals_are_decimal_without_leading_zeros() {
    assert_eq!(with_decimal("x", 0), "x0");
    assert_eq!(with_decimal("x", 7), "x7");
    assert_eq!(with_decimal("x", 10), "x10");
    assert_eq!(with_decimal("", 905), "905");
    assert_eq!(with_decimal("block", 1000), "block1000");
    assert_eq!(with_decimal("n", u64::MAX), "n18446744073709551615");
    let mut text = String::from("a");
    push_decimal(&mut text, 12);
    push_decimal(&mut text, 0);
    push_decimal(&mut text, 340);
    assert_eq!(text, "a120340");
}
