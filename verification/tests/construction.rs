use generational_arena::Index;
use sway_ir::{
    Block, BlockArgument, Context, Function, FunctionIterator, MetadataIndex, Module, Type, Value,
    ValueDatum,
};

fn module_in(context: &mut Context) -> Module {
    Module::new(context)
}

fn plain_function(context: &mut Context, module: Module, name: &str) -> Function {
    Function::new(
        context,
        module,
        name.to_string(),
        Vec::new(),
        Type::Unit,
        None,
        false,
        false,
        None,
    )
}

fn argument_of(context: &Context, value: Value) -> BlockArgument {
    match &context.value(value).value {
        ValueDatum::Argument(arg) => *arg,
        other => panic!("not an argument: {:?}", other),
    }
}

#[test]
fn two_arguments_are_the_entry_block_parameters() {
    let mut context = Context::new();
    let module = module_in(&mut context);
    let func = Function::new(
        &mut context,
        module,
        "main".to_string(),
        vec![
            ("a".to_string(), Type::Bool, false, None),
            ("b".to_string(), Type::Uint(64), false, None),
        ],
        Type::Unit,
        None,
        false,
        false,
        None,
    );
    assert_eq!(func.num_args(&context), 2);
    let a = func.get_arg(&context, "a").unwrap();
    let b = func.get_arg(&context, "b").unwrap();
    assert_ne!(a, b);
    let entry = func.get_entry_block(&context);
    assert_eq!(entry.num_args(&context), 2);
    assert_eq!(entry.get_arg(&context, 0), Some(a));
    assert_eq!(entry.get_arg(&context, 1), Some(b));
    assert_eq!(entry.get_arg(&context, 2), None);
}

#[test]
fn new_function_has_one_block_labelled_entry() {
    let mut context = Context::new();
    let module = module_in(&mut context);
    let func = plain_function(&mut context, module, "f");
    assert_eq!(func.num_blocks(&context), 1);
    let entry = func.get_entry_block(&context);
    assert_eq!(entry.get_label(&context), "entry");
    assert_eq!(entry.get_function(&context), func);
    assert_eq!(entry.num_instructions(&context), 0);
    assert_eq!(func.block_iter(&context), vec![entry]);
    assert_eq!(func.num_instructions(&context), 0);
    assert!(func.locals_iter(&context).is_empty());
    assert!(func.args_iter(&context).is_empty());
}

#[test]
fn new_function_keeps_what_it_was_given() {
    let mut context = Context::new();
    let module = module_in(&mut context);
    let metadata = MetadataIndex(Index::from_raw_parts(3, 9));
    let func = Function::new(
        &mut context,
        module,
        "transfer".to_string(),
        Vec::new(),
        Type::B256,
        Some([1, 2, 3, 4]),
        true,
        true,
        Some(metadata),
    );
    assert_eq!(func.get_name(&context), "transfer");
    assert_eq!(func.get_return_type(&context), Type::B256);
    assert!(func.has_selector(&context));
    assert_eq!(func.get_selector(&context), Some([1, 2, 3, 4]));
    assert!(func.is_entry(&context));
    assert_eq!(func.get_metadata(&context), Some(metadata));
    assert!(context.function(func).is_public);
    assert_eq!(context.function(func).next_label_idx, 0);
}

#[test]
fn function_without_selector_or_metadata() {
    let mut context = Context::new();
    let module = module_in(&mut context);
    let func = plain_function(&mut context, module, "f");
    assert!(!func.has_selector(&context));
    assert_eq!(func.get_selector(&context), None);
    assert!(!func.is_entry(&context));
    assert_eq!(func.get_metadata(&context), None);
    assert_eq!(func.get_return_type(&context), Type::Unit);
}

#[test]
fn argument_values_know_their_position_type_and_metadata() {
    let mut context = Context::new();
    let module = module_in(&mut context);
    let metadata = MetadataIndex(Index::from_raw_parts(5, 1));
    let func = Function::new(
        &mut context,
        module,
        "f".to_string(),
        vec![
            ("x".to_string(), Type::Uint(8), true, Some(metadata)),
            ("y".to_string(), Type::String(4), false, None),
        ],
        Type::Unit,
        None,
        false,
        false,
        None,
    );
    let entry = func.get_entry_block(&context);
    let x = func.get_arg(&context, "x").unwrap();
    let y = func.get_arg(&context, "y").unwrap();
    let x_arg = argument_of(&context, x);
    assert_eq!(x_arg.block, entry);
    assert_eq!(x_arg.idx, 0);
    assert_eq!(x_arg.ty, Type::Uint(8));
    assert!(x_arg.by_ref);
    assert_eq!(x.get_metadata(&context), Some(metadata));
    let y_arg = argument_of(&context, y);
    assert_eq!(y_arg.block, entry);
    assert_eq!(y_arg.idx, 1);
    assert_eq!(y_arg.ty, Type::String(4));
    assert!(!y_arg.by_ref);
    assert_eq!(y.get_metadata(&context), None);
}

#[test]
fn args_iter_lists_the_arguments_in_order() {
    let mut context = Context::new();
    let module = module_in(&mut context);
    let func = Function::new(
        &mut context,
        module,
        "f".to_string(),
        vec![
            ("z".to_string(), Type::Bool, false, None),
            ("a".to_string(), Type::Bool, false, None),
        ],
        Type::Unit,
        None,
        false,
        false,
        None,
    );
    let entry = func.get_entry_block(&context);
    let listed = func.args_iter(&context);
    assert_eq!(listed.len(), 2);
    assert_eq!(listed[0].0, "z");
    assert_eq!(Some(listed[0].1), entry.get_arg(&context, 0));
    assert_eq!(listed[1].0, "a");
    assert_eq!(Some(listed[1].1), entry.get_arg(&context, 1));
}

#[test]
fn get_arg_misses_an_unknown_name() {
    let mut context = Context::new();
    let module = module_in(&mut context);
    let func = Function::new(
        &mut context,
        module,
        "f".to_string(),
        vec![("a".to_string(), Type::Bool, false, None)],
        Type::Unit,
        None,
        false,
        false,
        None,
    );
    assert_eq!(func.get_arg(&context, "b"), None);
    assert_eq!(func.get_arg(&context, ""), None);
    assert_eq!(func.get_arg(&context, "a0"), None);
}

#[test]
fn duplicate_argument_names_give_the_first() {
    let mut context = Context::new();
    let module = module_in(&mut context);
    let func = Function::new(
        &mut context,
        module,
        "f".to_string(),
        vec![
            ("a".to_string(), Type::Bool, false, None),
            ("a".to_string(), Type::Uint(8), false, None),
        ],
        Type::Unit,
        None,
        false,
        false,
        None,
    );
    let entry = func.get_entry_block(&context);
    assert_eq!(func.num_args(&context), 2);
    assert_eq!(func.get_arg(&context, "a"), entry.get_arg(&context, 0));
}

#[test]
fn lookup_arg_name_finds_the_name_of_a_value() {
    let mut context = Context::new();
    let module = module_in(&mut context);
    let func = Function::new(
        &mut context,
        module,
        "f".to_string(),
        vec![
            ("a".to_string(), Type::Bool, false, None),
            ("b".to_string(), Type::Bool, false, None),
        ],
        Type::Unit,
        None,
        false,
        false,
        None,
    );
    let b = func.get_arg(&context, "b").unwrap();
    assert_eq!(func.lookup_arg_name(&context, &b), Some(&"b".to_string()));
    let stranger = Value::new_constant(&mut context, sway_ir::Constant::new_bool(true));
    assert_eq!(func.lookup_arg_name(&context, &stranger), None);
}

#[test]
fn functions_are_registered_in_their_module_in_order() {
    let mut context = Context::new();
    let module = module_in(&mut context);
    let other_module = module_in(&mut context);
    let f = plain_function(&mut context, module, "f");
    let g = plain_function(&mut context, module, "g");
    let h = plain_function(&mut context, other_module, "h");
    assert_eq!(context.module(module).functions, vec![f, g]);
    assert_eq!(context.module(other_module).functions, vec![h]);
}

#[test]
fn function_iterator_is_a_snapshot() {
    let mut context = Context::new();
    let module = module_in(&mut context);
    let f = plain_function(&mut context, module, "f");
    let g = plain_function(&mut context, module, "g");
    let mut iterator = FunctionIterator::new(&context, &module);
    let late = plain_function(&mut context, module, "late");
    assert_eq!(iterator.next(), Some(f));
    assert_eq!(iterator.next(), Some(g));
    assert_eq!(iterator.next(), None);
    assert_eq!(iterator.next(), None);
    let mut again = FunctionIterator::new(&context, &module);
    assert_eq!(again.next(), Some(f));
    assert_eq!(again.next(), Some(g));
    assert_eq!(again.next(), Some(late));
    assert_eq!(again.next(), None);
}

#[test]
fn function_iterator_of_an_empty_module_ends_at_once() {
    let mut context = Context::new();
    let module = module_in(&mut context);
    let mut iterator = FunctionIterator::new(&context, &module);
    assert_eq!(iterator.next(), None);
}

#[test]
fn handles_are_equal_only_to_themselves() {
    let mut context = Context::new();
    let module = module_in(&mut context);
    let f = plain_function(&mut context, module, "f");
    let g = plain_function(&mut context, module, "g");
    assert!(f == f);
    assert!(f != g);
    let entry_f: Block = f.get_entry_block(&context);
    let entry_g: Block = g.get_entry_block(&context);
    assert!(entry_f == entry_f);
    assert!(entry_f != entry_g);
    assert_eq!(Function(f.0), f);
}

#[test]
fn store_tells_the_kind_of_a_handle() {
    let mut context = Context::new();
    let module = module_in(&mut context);
    let f = plain_function(&mut context, module, "f");
    let entry = f.get_entry_block(&context);
    assert!(context.is_module(module));
    assert!(context.is_function(f));
    assert!(context.is_block(entry));
    assert!(!context.is_function(Function(entry.0)));
    assert!(!context.is_block(Block(f.0)));
    assert!(!context.is_module(Module(f.0)));
    assert!(!context.is_value(Value(f.0)));
    assert!(!context.is_local_var(sway_ir::LocalVar(f.0)));
    let absent = Index::from_raw_parts(1000, 0);
    assert!(!context.is_function(Function(absent)));
    let empty = Context::new();
    assert!(!empty.is_module(module));
}

#[test]
fn entities_are_found_again_under_their_handles() {
    let mut context = Context::new();
    let module = module_in(&mut context);
    let f = plain_function(&mut context, module, "first");
    let g = plain_function(&mut context, module, "second");
    assert_eq!(context.function(f).name, "first");
    assert_eq!(context.function(g).name, "second");
    context.function_mut(f).is_public = true;
    assert!(context.function(f).is_public);
    assert!(!context.function(g).is_public);
}
