use sway_ir::{Block, Context, Function, IrError, Module, Type};

fn function_in(context: &mut Context, name: &str) -> Function {
    let module = Module::new(context);
    Function::new(
        context,
        module,
        name.to_string(),
        Vec::new(),
        Type::Unit,
        None,
        false,
        false,
        None,
    )
}

fn labels(context: &Context, func: Function) -> Vec<String> {
    func.block_iter(context)
        .iter()
        .map(|block| block.get_label(context))
        .collect()
}

#[test]
fn unhinted_labels_count_up_from_zero() {
    let mut context = Context::new();
    let func = function_in(&mut context, "f");
    assert_eq!(func.get_unique_label(&mut context, None), "block0");
    assert_eq!(func.get_unique_label(&mut context, None), "block1");
    assert_eq!(func.get_unique_label(&mut context, None), "block2");
    assert_eq!(func.get_unique_label(&mut context, None), "block3");
    assert_eq!(context.function(func).next_label_idx, 4);
}

#[test]
fn unhinted_labels_pass_ten() {
    let mut context = Context::new();
    let func = function_in(&mut context, "f");
    for n in 0..12 {
        assert_eq!(func.get_unique_label(&mut context, None), format!("block{}", n));
    }
}

#[test]
fn free_hint_is_returned_as_it_is() {
    let mut context = Context::new();
    let func = function_in(&mut context, "f");
    assert_eq!(func.get_unique_label(&mut context, Some("loop".to_string())), "loop");
    assert_eq!(context.function(func).next_label_idx, 0);
    assert_eq!(func.get_unique_label(&mut context, Some(String::new())), "");
}

#[test]
fn taken_hint_gets_the_counter_appended() {
    let mut context = Context::new();
    let func = function_in(&mut context, "f");
    assert_eq!(func.get_unique_label(&mut context, Some("entry".to_string())), "entry0");
    assert_eq!(context.function(func).next_label_idx, 1);
    assert_eq!(func.get_unique_label(&mut context, Some("entry".to_string())), "entry1");
    assert_eq!(func.get_unique_label(&mut context, None), "block2");
}

#[test]
fn candidate_that_is_taken_again_gets_another_number() {
    let mut context = Context::new();
    let func = function_in(&mut context, "f");
    func.create_block(&mut context, Some("entry0".to_string()));
    assert_eq!(func.get_unique_label(&mut context, Some("entry".to_string())), "entry01");
    assert_eq!(context.function(func).next_label_idx, 2);
}

#[test]
fn generated_label_that_is_taken_gets_a_number_appended() {
    let mut context = Context::new();
    let func = function_in(&mut context, "f");
    func.create_block(&mut context, Some("block0".to_string()));
    assert_eq!(func.get_unique_label(&mut context, None), "block01");
    assert_eq!(context.function(func).next_label_idx, 2);
}

#[test]
fn issued_label_is_never_a_present_label() {
    let mut context = Context::new();
    let func = function_in(&mut context, "f");
    for hint in [None, Some("entry"), Some("block0"), None, Some("entry0"), Some("x")] {
        let block = func.create_block(&mut context, hint.map(|h| h.to_string()));
        let label = block.get_label(&context);
        let same: Vec<Block> = func
            .block_iter(&context)
            .into_iter()
            .filter(|b| b.get_label(&context) == label)
            .collect();
        assert_eq!(same, vec![block]);
    }
}

#[test]
fn removed_label_is_not_issued_again() {
    let mut context = Context::new();
    let func = function_in(&mut context, "f");
    let zero = func.create_block(&mut context, None);
    let one = func.create_block(&mut context, None);
    assert_eq!(zero.get_label(&context), "block0");
    assert_eq!(one.get_label(&context), "block1");
    assert_eq!(func.remove_block(&mut context, &one), Ok(()));
    assert_eq!(func.remove_block(&mut context, &zero), Ok(()));
    let next = func.create_block(&mut context, None);
    assert_eq!(next.get_label(&context), "block2");
    let after = func.create_block(&mut context, None);
    assert_eq!(after.get_label(&context), "block3");
}

#[test]
fn labels_are_counted_for_each_function() {
    let mut context = Context::new();
    let f = function_in(&mut context, "f");
    let g = function_in(&mut context, "g");
    assert_eq!(f.get_unique_label(&mut context, None), "block0");
    assert_eq!(f.get_unique_label(&mut context, None), "block1");
    assert_eq!(g.get_unique_label(&mut context, None), "block0");
}

#[test]
fn create_block_appends() {
    let mut context = Context::new();
    let func = function_in(&mut context, "f");
    let entry = func.get_entry_block(&context);
    let a = func.create_block(&mut context, Some("a".to_string()));
    let b = func.create_block(&mut context, None);
    assert_eq!(func.num_blocks(&context), 3);
    assert_eq!(func.block_iter(&context), vec![entry, a, b]);
    assert_eq!(labels(&context, func), vec!["entry", "a", "block0"]);
    assert_eq!(func.get_entry_block(&context), entry);
    assert_eq!(a.get_function(&context), func);
    assert_eq!(a.num_instructions(&context), 0);
    assert_eq!(a.num_args(&context), 0);
}

#[test]
fn create_block_before_puts_the_block_in_front_of_the_anchor() {
    let mut context = Context::new();
    let func = function_in(&mut context, "f");
    let entry = func.get_entry_block(&context);
    let a = func.create_block(&mut context, Some("a".to_string()));
    let b = func.create_block(&mut context, Some("b".to_string()));
    let c = func
        .create_block_before(&mut context, &b, Some("c".to_string()))
        .unwrap();
    assert_eq!(func.block_iter(&context), vec![entry, a, c, b]);
    let d = func.create_block_before(&mut context, &a, None).unwrap();
    assert_eq!(func.block_iter(&context), vec![entry, d, a, c, b]);
    assert_eq!(d.get_label(&context), "block0");
    assert_eq!(func.get_entry_block(&context), entry);
}

#[test]
fn create_block_after_puts_the_block_behind_the_anchor() {
    let mut context = Context::new();
    let func = function_in(&mut context, "f");
    let entry = func.get_entry_block(&context);
    let a = func.create_block(&mut context, Some("a".to_string()));
    let b = func
        .create_block_after(&mut context, &entry, Some("b".to_string()))
        .unwrap();
    assert_eq!(func.block_iter(&context), vec![entry, b, a]);
    let c = func
        .create_block_after(&mut context, &a, Some("c".to_string()))
        .unwrap();
    assert_eq!(func.block_iter(&context), vec![entry, b, a, c]);
    assert_eq!(func.get_entry_block(&context), entry);
}

#[test]
fn create_block_before_a_foreign_anchor_fails() {
    let mut context = Context::new();
    let f = function_in(&mut context, "f");
    let g = function_in(&mut context, "g");
    let foreign = g.create_block(&mut context, Some("theirs".to_string()));
    let f_blocks = f.block_iter(&context);
    let g_blocks = g.block_iter(&context);
    let result = f.create_block_before(&mut context, &foreign, Some("mine".to_string()));
    assert_eq!(result, Err(IrError::MissingBlock("theirs".to_string())));
    assert_eq!(f.block_iter(&context), f_blocks);
    assert_eq!(g.block_iter(&context), g_blocks);
    assert_eq!(f.num_blocks(&context), 1);
    assert_eq!(g.num_blocks(&context), 2);
}

#[test]
fn create_block_after_a_foreign_anchor_fails() {
    let mut context = Context::new();
    let f = function_in(&mut context, "f");
    let g = function_in(&mut context, "g");
    let foreign = g.get_entry_block(&context);
    let result = f.create_block_after(&mut context, &foreign, None);
    assert_eq!(result, Err(IrError::MissingBlock("entry".to_string())));
    assert_eq!(f.num_blocks(&context), 1);
    assert_eq!(g.num_blocks(&context), 1);
    assert_eq!(context.function(f).next_label_idx, 1);
}

#[test]
fn create_block_before_a_removed_anchor_fails() {
    let mut context = Context::new();
    let func = function_in(&mut context, "f");
    let a = func.create_block(&mut context, Some("a".to_string()));
    assert_eq!(func.remove_block(&mut context, &a), Ok(()));
    let result = func.create_block_before(&mut context, &a, Some("b".to_string()));
    assert_eq!(result, Err(IrError::MissingBlock("a".to_string())));
    assert_eq!(func.num_blocks(&context), 1);
}

#[test]
fn remove_block_takes_the_block_out() {
    let mut context = Context::new();
    let func = function_in(&mut context, "f");
    let entry = func.get_entry_block(&context);
    let a = func.create_block(&mut context, Some("a".to_string()));
    let b = func.create_block(&mut context, Some("b".to_string()));
    let c = func.create_block(&mut context, Some("c".to_string()));
    assert_eq!(func.remove_block(&mut context, &b), Ok(()));
    assert_eq!(func.block_iter(&context), vec![entry, a, c]);
    assert_eq!(func.remove_block(&mut context, &c), Ok(()));
    assert_eq!(func.block_iter(&context), vec![entry, a]);
    assert_eq!(func.get_entry_block(&context), entry);
    assert_eq!(b.get_label(&context), "b");
}

#[test]
fn remove_block_twice_fails_the_second_time() {
    let mut context = Context::new();
    let func = function_in(&mut context, "f");
    let a = func.create_block(&mut context, Some("a".to_string()));
    assert_eq!(func.remove_block(&mut context, &a), Ok(()));
    assert_eq!(
        func.remove_block(&mut context, &a),
        Err(IrError::RemoveMissingBlock("a".to_string()))
    );
    assert_eq!(func.num_blocks(&context), 1);
}

#[test]
fn remove_block_of_another_function_fails() {
    let mut context = Context::new();
    let f = function_in(&mut context, "f");
    let g = function_in(&mut context, "g");
    let theirs = g.create_block(&mut context, Some("theirs".to_string()));
    assert_eq!(
        f.remove_block(&mut context, &theirs),
        Err(IrError::RemoveMissingBlock("theirs".to_string()))
    );
    assert_eq!(g.num_blocks(&context), 2);
    assert_eq!(f.num_blocks(&context), 1);
}

#[test]
fn label_of_a_removed_block_may_be_taken_as_a_hint() {
    let mut context = Context::new();
    let func = function_in(&mut context, "f");
    let a = func.create_block(&mut context, Some("a".to_string()));
    assert_eq!(func.remove_block(&mut context, &a), Ok(()));
    let again = func.create_block(&mut context, Some("a".to_string()));
    assert_eq!(again.get_label(&context), "a");
    assert_ne!(again, a);
}
