use rustc_hash::FxHashMap;
use sway_ir::{
    Block, BranchToWithArgs, Constant, Context, Function, Instruction, Module, Type, Value,
    ValueDatum,
};

fn function_in(context: &mut Context, name: &str) -> Function {
    let module = Module::new(context);
    Function::new(
        context,
        module,
        name.to_string(),
        Vec::new(),
        Type::Unit,
        None,
        false,
        false,
        None,
    )
}

fn constant(context: &mut Context, n: u64) -> Value {
    Value::new_constant(context, Constant::new_uint(64, n))
}

fn jump(block: Block) -> BranchToWithArgs {
    BranchToWithArgs {
        block,
        args: Vec::new(),
    }
}

fn returned(context: &Context, ins: Value) -> Value {
    match &context.value(ins).value {
        ValueDatum::Instruction(Instruction::Ret(v, _)) => *v,
        other => panic!("not a return: {:?}", other),
    }
}

fn loaded(context: &Context, ins: Value) -> Value {
    match &context.value(ins).value {
        ValueDatum::Instruction(Instruction::Load(v)) => *v,
        other => panic!("not a load: {:?}", other),
    }
}

#[test]
fn num_instructions_is_the_sum_over_the_blocks() {
    let mut context = Context::new();
    let func = function_in(&mut context, "f");
    let entry = func.get_entry_block(&context);
    let a = func.create_block(&mut context, None);
    let b = func.create_block(&mut context, None);
    let v = constant(&mut context, 1);
    entry.push_instruction(&mut context, Instruction::Load(v));
    entry.push_instruction(&mut context, Instruction::Load(v));
    entry.push_instruction(&mut context, Instruction::Branch(jump(a)));
    a.push_instruction(&mut context, Instruction::Branch(jump(b)));
    b.push_instruction(&mut context, Instruction::Load(v));
    b.push_instruction(&mut context, Instruction::Ret(v, Type::Uint(64)));
    assert_eq!(entry.num_instructions(&context), 3);
    assert_eq!(a.num_instructions(&context), 1);
    assert_eq!(b.num_instructions(&context), 2);
    assert_eq!(func.num_instructions(&context), 6);
    let sum: usize = func
        .block_iter(&context)
        .iter()
        .map(|block| block.num_instructions(&context))
        .sum();
    assert_eq!(func.num_instructions(&context), sum);
    assert_eq!(func.remove_block(&mut context, &a), Ok(()));
    assert_eq!(func.num_instructions(&context), 5);
}

#[test]
fn instruction_iter_pairs_each_instruction_with_its_block() {
    let mut context = Context::new();
    let func = function_in(&mut context, "f");
    let entry = func.get_entry_block(&context);
    let a = func.create_block(&mut context, None);
    let empty = func.create_block(&mut context, None);
    let v = constant(&mut context, 1);
    let i0 = entry.push_instruction(&mut context, Instruction::Load(v));
    let i1 = entry.push_instruction(&mut context, Instruction::Branch(jump(a)));
    let i2 = a.push_instruction(&mut context, Instruction::Ret(v, Type::Uint(64)));
    assert_eq!(
        func.instruction_iter(&context),
        vec![(entry, i0), (entry, i1), (a, i2)]
    );
    assert_eq!(empty.num_instructions(&context), 0);
}

#[test]
fn replace_value_rewrites_every_use() {
    let mut context = Context::new();
    let func = function_in(&mut context, "f");
    let entry = func.get_entry_block(&context);
    let next = func.create_block(&mut context, None);
    let old_val = constant(&mut context, 1);
    let new_val = constant(&mut context, 2);
    let other = constant(&mut context, 3);
    let load = entry.push_instruction(&mut context, Instruction::Load(old_val));
    let store = entry.push_instruction(
        &mut context,
        Instruction::Store {
            dst_val: old_val,
            stored_val: other,
        },
    );
    let branch = entry.push_instruction(
        &mut context,
        Instruction::ConditionalBranch {
            cond_value: old_val,
            true_block: BranchToWithArgs {
                block: next,
                args: vec![old_val, other, old_val],
            },
            false_block: BranchToWithArgs {
                block: next,
                args: vec![other],
            },
        },
    );
    let ret = next.push_instruction(&mut context, Instruction::Ret(old_val, Type::Uint(64)));
    func.replace_value(&mut context, old_val, new_val, None);
    assert_eq!(loaded(&context, load), new_val);
    match &context.value(store).value {
        ValueDatum::Instruction(Instruction::Store {
            dst_val,
            stored_val,
        }) => {
            assert_eq!(*dst_val, new_val);
            assert_eq!(*stored_val, other);
        }
        other => panic!("not a store: {:?}", other),
    }
    match &context.value(branch).value {
        ValueDatum::Instruction(Instruction::ConditionalBranch {
            cond_value,
            true_block,
            false_block,
        }) => {
            assert_eq!(*cond_value, new_val);
            assert_eq!(true_block.block, next);
            assert_eq!(true_block.args, vec![new_val, other, new_val]);
            assert_eq!(false_block.block, next);
            assert_eq!(false_block.args, vec![other]);
        }
        other => panic!("not a conditional branch: {:?}", other),
    }
    assert_eq!(returned(&context, ret), new_val);
    assert_eq!(func.block_iter(&context), vec![entry, next]);
    assert_eq!(func.num_instructions(&context), 4);
}

#[test]
fn replace_value_from_a_starting_block_leaves_earlier_blocks() {
    let mut context = Context::new();
    let func = function_in(&mut context, "f");
    let entry = func.get_entry_block(&context);
    let a = func.create_block(&mut context, None);
    let b = func.create_block(&mut context, None);
    let old_val = constant(&mut context, 1);
    let new_val = constant(&mut context, 2);
    let in_entry = entry.push_instruction(&mut context, Instruction::Load(old_val));
    let in_a = a.push_instruction(&mut context, Instruction::Load(old_val));
    let in_b = b.push_instruction(&mut context, Instruction::Load(old_val));
    func.replace_value(&mut context, old_val, new_val, Some(a));
    assert_eq!(loaded(&context, in_entry), old_val);
    assert_eq!(loaded(&context, in_a), new_val);
    assert_eq!(loaded(&context, in_b), new_val);
}

#[test]
fn replace_value_from_a_block_that_is_not_listed_does_nothing() {
    let mut context = Context::new();
    let f = function_in(&mut context, "f");
    let g = function_in(&mut context, "g");
    let entry = f.get_entry_block(&context);
    let foreign = g.get_entry_block(&context);
    let old_val = constant(&mut context, 1);
    let new_val = constant(&mut context, 2);
    let load = entry.push_instruction(&mut context, Instruction::Load(old_val));
    f.replace_value(&mut context, old_val, new_val, Some(foreign));
    assert_eq!(loaded(&context, load), old_val);
}

#[test]
fn replace_values_makes_one_step_for_each_use() {
    let mut context = Context::new();
    let func = function_in(&mut context, "f");
    let entry = func.get_entry_block(&context);
    let a = constant(&mut context, 1);
    let b = constant(&mut context, 2);
    let c = constant(&mut context, 3);
    let d = constant(&mut context, 4);
    let load_a = entry.push_instruction(&mut context, Instruction::Load(a));
    let load_b = entry.push_instruction(&mut context, Instruction::Load(b));
    let load_d = entry.push_instruction(&mut context, Instruction::Load(d));
    let mut map = FxHashMap::default();
    map.insert(a, b);
    map.insert(b, c);
    func.replace_values(&mut context, &map, None);
    assert_eq!(loaded(&context, load_a), b);
    assert_eq!(loaded(&context, load_b), c);
    assert_eq!(loaded(&context, load_d), d);
}

#[test]
fn replace_values_leaves_other_functions_alone() {
    let mut context = Context::new();
    let f = function_in(&mut context, "f");
    let g = function_in(&mut context, "g");
    let old_val = constant(&mut context, 1);
    let new_val = constant(&mut context, 2);
    let f_entry = f.get_entry_block(&context);
    let g_entry = g.get_entry_block(&context);
    let in_f = f_entry.push_instruction(&mut context, Instruction::Load(old_val));
    let in_g = g_entry.push_instruction(&mut context, Instruction::Load(old_val));
    f.replace_value(&mut context, old_val, new_val, None);
    assert_eq!(loaded(&context, in_f), new_val);
    assert_eq!(loaded(&context, in_g), old_val);
}

#[test]
fn successors_are_the_branches_of_the_last_instruction() {
    let mut context = Context::new();
    let func = function_in(&mut context, "f");
    let entry = func.get_entry_block(&context);
    let a = func.create_block(&mut context, None);
    let b = func.create_block(&mut context, None);
    let v = constant(&mut context, 1);
    assert!(entry.successors(&context).is_empty());
    entry.push_instruction(&mut context, Instruction::Branch(jump(a)));
    entry.push_instruction(
        &mut context,
        Instruction::ConditionalBranch {
            cond_value: v,
            true_block: BranchToWithArgs {
                block: b,
                args: vec![v],
            },
            false_block: jump(a),
        },
    );
    let targets = entry.successors(&context);
    assert_eq!(targets.len(), 2);
    assert_eq!(targets[0].block, b);
    assert_eq!(targets[0].args, vec![v]);
    assert_eq!(targets[1].block, a);
    assert!(targets[1].args.is_empty());
    a.push_instruction(&mut context, Instruction::Branch(jump(b)));
    let targets = a.successors(&context);
    assert_eq!(targets.len(), 1);
    assert_eq!(targets[0].block, b);
    b.push_instruction(&mut context, Instruction::Ret(v, Type::Uint(64)));
    assert!(b.successors(&context).is_empty());
}

#[test]
fn dot_cfg_of_a_single_block() {
    let mut context = Context::new();
    let func = function_in(&mut context, "lonely");
    assert_eq!(func.dot_cfg(&context), "digraph lonely {\n}\n");
}

#[test]
fn dot_cfg_walks_depth_first_from_the_entry() {
    let mut context = Context::new();
    let func = function_in(&mut context, "f");
    let entry = func.get_entry_block(&context);
    let a = func.create_block(&mut context, Some("a".to_string()));
    let b = func.create_block(&mut context, Some("b".to_string()));
    let c = func.create_block(&mut context, Some("c".to_string()));
    let unreachable = func.create_block(&mut context, Some("island".to_string()));
    let v = constant(&mut context, 1);
    entry.push_instruction(
        &mut context,
        Instruction::ConditionalBranch {
            cond_value: v,
            true_block: jump(a),
            false_block: jump(b),
        },
    );
    a.push_instruction(&mut context, Instruction::Branch(jump(c)));
    b.push_instruction(&mut context, Instruction::Branch(jump(c)));
    c.push_instruction(&mut context, Instruction::Ret(v, Type::Uint(64)));
    unreachable.push_instruction(&mut context, Instruction::Branch(jump(c)));
    assert_eq!(
        func.dot_cfg(&context),
        "digraph f {\n\tentry -> a\n\n\tentry -> b\n\n\tb -> c\n\n\ta -> c\n\n}\n"
    );
}

#[test]
fn dot_cfg_of_a_loop_ends() {
    let mut context = Context::new();
    let func = function_in(&mut context, "spin");
    let entry = func.get_entry_block(&context);
    let body = func.create_block(&mut context, Some("body".to_string()));
    entry.push_instruction(&mut context, Instruction::Branch(jump(body)));
    let v = constant(&mut context, 1);
    body.push_instruction(
        &mut context,
        Instruction::ConditionalBranch {
            cond_value: v,
            true_block: jump(body),
            false_block: jump(entry),
        },
    );
    assert_eq!(
        func.dot_cfg(&context),
        "digraph spin {\n\tentry -> body\n\n\tbody -> body\n\n\tbody -> entry\n\n}\n"
    );
}

#[test]
fn dot_cfg_repeats_the_edges_of_a_block_that_is_reached_twice() {
    let mut context = Context::new();
    let func = function_in(&mut context, "f");
    let entry = func.get_entry_block(&context);
    let a = func.create_block(&mut context, Some("a".to_string()));
    let b = func.create_block(&mut context, Some("b".to_string()));
    let v = constant(&mut context, 1);
    entry.push_instruction(
        &mut context,
        Instruction::ConditionalBranch {
            cond_value: v,
            true_block: jump(a),
            false_block: jump(a),
        },
    );
    a.push_instruction(&mut context, Instruction::Branch(jump(b)));
    b.push_instruction(&mut context, Instruction::Ret(v, Type::Uint(64)));
    assert_eq!(
        func.dot_cfg(&context),
        "digraph f {\n\tentry -> a\n\n\tentry -> a\n\n\ta -> b\n\n\ta -> b\n\n}\n"
    );
}

#[test]
fn add_metadatum_attaches_only_what_is_given() {
    let mut context = Context::new();
    let v = constant(&mut context, 1);
    assert_eq!(v.get_metadata(&context), None);
    let md = sway_ir::MetadataIndex(generational_arena::Index::from_raw_parts(1, 2));
    assert_eq!(v.add_metadatum(&mut context, Some(md)), v);
    assert_eq!(v.get_metadata(&context), Some(md));
    assert_eq!(v.add_metadatum(&mut context, None), v);
    assert_eq!(v.get_metadata(&context), Some(md));
}
