//! Functions: named routines with arguments, an ordered list of basic blocks
//! and a table of local variables, all held in a shared [`Context`].
//!
//! This file holds the handle, the stored form and its model, construction
//! and the plain queries. What a function does with its blocks, labels, local
//! variables and values is in the files of those names.

use crate::arena::index_eq;
use crate::block::{Block, BlockView};
use crate::context::{Context, ContextView, Entity, EntityView};
use crate::irtype::Type;
use crate::local_var::LocalVar;
use crate::metadata::MetadataIndex;
use crate::module::{Module, ModuleView};
use crate::text::{
    compare_names, first_name_of, first_named, label_candidate, label_seed,
    label_start, name_view, named_view, NameOrder,
};
use crate::value::{BlockArgument, Value, ValueDatumView, ValueView};
use generational_arena::Index;
use vstd::prelude::*;
use vstd::string::StringExecFns;

verus! {

/// A handle to a function.
#[derive(Clone, Copy, Debug, Hash)]
pub struct Function(pub Index);

impl PartialEq for Function {
    fn eq(&self, other: &Function) -> (same: bool) {
        index_eq(&self.0, &other.0)
    }
}

impl Eq for Function {

}

impl vstd::std_specs::cmp::PartialEqSpecImpl for Function {
    open spec fn obeys_eq_spec() -> bool {
        true
    }

    open spec fn eq_spec(&self, other: &Function) -> bool {
        self.0 == other.0
    }
}

/// The stored form of a function.
#[derive(Debug)]
pub struct FunctionContent {
    pub name: String,
    /// The arguments by position: each name with the entry block's parameter
    /// that carries it.
    pub arguments: Vec<(String, Value)>,
    pub return_type: Type,
    /// The blocks in insertion order; the first is the entry block.
    pub blocks: Vec<Block>,
    pub is_public: bool,
    pub is_entry: bool,
    pub selector: Option<[u8; 4]>,
    pub metadata: Option<MetadataIndex>,
    /// The local variables, by name in increasing order; no name twice.
    pub local_storage: Vec<(String, LocalVar)>,
    /// The next number to use in a generated block label. It only grows.
    pub next_label_idx: u64,
}

/// The model of a [`FunctionContent`].
pub struct FunctionView {
    pub name: Seq<char>,
    pub arguments: Seq<(Seq<char>, Value)>,
    pub return_type: Type,
    pub blocks: Seq<Block>,
    pub is_public: bool,
    pub is_entry: bool,
    pub selector: Option<[u8; 4]>,
    pub metadata: Option<MetadataIndex>,
    pub locals: Seq<(Seq<char>, LocalVar)>,
    pub next_label_idx: nat,
}

impl View for FunctionContent {
    type V = FunctionView;

    open spec fn view(&self) -> FunctionView {
        FunctionView {
            name: self.name@,
            arguments: named_view(self.arguments@),
            return_type: self.return_type,
            blocks: self.blocks@,
            is_public: self.is_public,
            is_entry: self.is_entry,
            selector: self.selector,
            metadata: self.metadata,
            locals: named_view(self.local_storage@),
            next_label_idx: self.next_label_idx as nat,
        }
    }
}

/// The model of the argument descriptions that a function is created from:
/// name, type, whether passed by reference, and metadata.
pub open spec fn arg_views(args: Seq<(String, Type, bool, Option<MetadataIndex>)>) -> Seq<
    (Seq<char>, Type, bool, Option<MetadataIndex>),
> {
    Seq::new(args.len(), |i: int| (args[i].0@, args[i].1, args[i].2, args[i].3))
}

/// What creating a function does to the store. The function, its entry block
/// and one value for each argument are stored under new handles; the module
/// lists the function after those it had; nothing else changes. The entry
/// block is labelled `"entry"` and has the argument values as its parameters,
/// in order; the function has the entry block as its only block, no local
/// variables, and a label counter of zero.
pub open spec fn function_created(
    before: ContextView,
    after: ContextView,
    module: Module,
    func: Function,
    name: Seq<char>,
    args: Seq<(Seq<char>, Type, bool, Option<MetadataIndex>)>,
    return_type: Type,
    selector: Option<[u8; 4]>,
    is_public: bool,
    is_entry: bool,
    metadata: Option<MetadataIndex>,
) -> bool {
    let entry = after.function(func).blocks[0];
    let values = after.block(entry).args;
    &&& !before.entities.contains_key(func.0)
    &&& !before.entities.contains_key(entry.0)
    &&& func.0 != entry.0
    &&& values.len() == args.len()
    &&& forall|i: int|
        0 <= i < values.len() ==> !before.entities.contains_key((#[trigger] values[i]).0)
            && values[i].0 != func.0 && values[i].0 != entry.0
    &&& forall|i: int, j: int|
        0 <= i < j < values.len() ==> (#[trigger] values[i]) != (#[trigger] values[j])
    &&& forall|at: Index| #[trigger]
        after.entities.contains_key(at) ==> before.entities.contains_key(at) || at == func.0 || at
            == entry.0 || exists|i: int| 0 <= i < values.len() && (#[trigger] values[i]).0 == at
    &&& forall|at: Index| #[trigger]
        before.entities.contains_key(at) ==> after.entities.contains_key(at) && (at != module.0
            ==> after.entities[at] == before.entities[at])
    &&& after.entities[module.0] == EntityView::Module(
        ModuleView { functions: before.module(module).functions.push(func) },
    )
    &&& after.entities.contains_key(func.0)
    &&& after.entities[func.0] == EntityView::Function(
        FunctionView {
            name,
            arguments: Seq::new(args.len(), |i: int| (args[i].0, values[i])),
            return_type,
            blocks: seq![entry],
            is_public,
            is_entry,
            selector,
            metadata,
            locals: Seq::empty(),
            next_label_idx: 0,
        },
    )
    &&& after.entities.contains_key(entry.0)
    &&& after.entities[entry.0] == EntityView::Block(
        BlockView { label: "entry"@, function: func, instructions: Seq::empty(), args: values },
    )
    &&& forall|i: int|
        0 <= i < values.len() ==> after.entities.contains_key((#[trigger] values[i]).0)
            && after.entities[values[i].0] == EntityView::Value(
            ValueView {
                datum: ValueDatumView::Argument(
                    BlockArgument { block: entry, idx: i as usize, ty: args[i].1, by_ref: args[i].2 },
                ),
                metadata: args[i].3,
            },
        )
}

/// The function's arguments are the parameters of its entry block, value by
/// value.
pub open spec fn arguments_are_entry_parameters(context: ContextView, function: Function) -> bool {
    let f = context.function(function);
    &&& f.blocks.len() > 0
    &&& context.has_block(f.blocks[0])
    &&& context.block(f.blocks[0]).args == Seq::new(f.arguments.len(), |i: int| f.arguments[i].1)
}

/// The number of instructions in all of `blocks` together.
pub open spec fn total_instructions(context: ContextView, blocks: Seq<Block>) -> nat
    decreases blocks.len(),
{
    if blocks.len() == 0 {
        0
    } else {
        total_instructions(context, blocks.drop_last()) + context.block(
            blocks.last(),
        ).instructions.len()
    }
}

/// Each instruction of each of `blocks`, in order, with its block.
pub open spec fn all_instructions(context: ContextView, blocks: Seq<Block>) -> Seq<(Block, Value)>
    decreases blocks.len(),
{
    if blocks.len() == 0 {
        Seq::empty()
    } else {
        all_instructions(context, blocks.drop_last()) + Seq::new(
            context.block(blocks.last()).instructions.len(),
            |k: int| (blocks.last(), context.block(blocks.last()).instructions[k]),
        )
    }
}

/// The instructions of a longer part of the list are at least those of a
/// shorter part.
pub proof fn lemma_total_instructions_grows(context: ContextView, blocks: Seq<Block>, k: int)
    requires
        0 <= k <= blocks.len(),
    ensures
        total_instructions(context, blocks.take(k)) <= total_instructions(context, blocks),
    decreases blocks.len() - k,
{
    if k < blocks.len() {
        lemma_total_instructions_grows(context, blocks, k + 1);
        assert(blocks.take(k + 1).drop_last() =~= blocks.take(k));
    } else {
        assert(blocks.take(k) =~= blocks);
    }
}

impl Function {
    /// Return a new [`Function`] handle.
    ///
    /// Creates a function in the `context` within `module`, with its entry
    /// block and with one parameter of the entry block for each argument.
    pub fn new(
        context: &mut Context,
        module: Module,
        name: String,
        args: Vec<(String, Type, bool, Option<MetadataIndex>)>,
        return_type: Type,
        selector: Option<[u8; 4]>,
        is_public: bool,
        is_entry: bool,
        metadata: Option<MetadataIndex>,
    ) -> (func: Function)
        requires
            old(context)@.wf(),
            old(context)@.has_module(module),
        ensures
            function_created(
                old(context)@,
                final(context)@,
                module,
                func,
                name@,
                arg_views(args@),
                return_type,
                selector,
                is_public,
                is_entry,
                metadata,
            ),
            final(context)@.wf(),
    {
        let content = FunctionContent {
            name,
            arguments: Vec::new(),
            return_type,
            blocks: Vec::new(),
            is_public,
            is_entry,
            selector,
            metadata,
            local_storage: Vec::new(),
            next_label_idx: 0,
        };
        proof {
            assert(content@.locals =~= Seq::empty());
        }
        let func = Function(context.insert(Entity::Function(content)));
        let registry = context.module_mut(module);
        registry.functions.push(func);
        let ghost listed = context@;
        let entry_block = Block::new(context, func, Some(String::from_str("entry")));
        proof {
            let issued = context@.function(func).next_label_idx;
            let start = listed.function(func).next_label_idx;
            if issued > 0 {
                assert(listed.labels(func).contains(
                    label_candidate(
                        label_seed(Some("entry"@), start),
                        label_start(Some("entry"@), start),
                        0nat,
                    ),
                ));
            }
        }
        let function = context.function_mut(func);
        function.blocks.push(entry_block);
        let ghost base = context@;
        proof {
            assert forall|at: Index| #[trigger]
                old(context)@.entities.contains_key(at) implies base.entities.contains_key(at) && (
            at != module.0 ==> base.entities[at] == old(context)@.entities[at]) by {}
        }
        let mut arguments: Vec<(String, Value)> = Vec::new();
        let mut arg_vals: Vec<Value> = Vec::new();
        let mut idx: usize = 0;
        while idx < args.len()
            invariant
                idx <= args.len(),
                arguments@.len() == idx,
                arg_vals@.len() == idx,
                context@.wf(),
                base.has_function(func),
                base.has_block(entry_block),
                forall|at: Index| #[trigger]
                    base.entities.contains_key(at) ==> context@.entities.contains_key(at)
                        && context@.entities[at] == base.entities[at],
                forall|at: Index| #[trigger]
                    context@.entities.contains_key(at) ==> base.entities.contains_key(at)
                        || exists|i: int| 0 <= i < idx && (#[trigger] arg_vals@[i]).0 == at,
                forall|i: int|
                    0 <= i < idx ==> !base.entities.contains_key((#[trigger] arg_vals@[i]).0),
                forall|i: int, j: int|
                    0 <= i < j < idx ==> (#[trigger] arg_vals@[i]) != (#[trigger] arg_vals@[j]),
                forall|i: int|
                    0 <= i < idx ==> context@.entities.contains_key((#[trigger] arg_vals@[i]).0)
                        && context@.entities[arg_vals@[i].0] == EntityView::Value(
                        ValueView {
                            datum: ValueDatumView::Argument(
                                BlockArgument {
                                    block: entry_block,
                                    idx: i as usize,
                                    ty: args@[i].1,
                                    by_ref: args@[i].2,
                                },
                            ),
                            metadata: args@[i].3,
                        },
                    ),
                forall|i: int|
                    0 <= i < idx ==> (#[trigger] arguments@[i]).0@ == args@[i].0@ && arguments@[i].1
                        == arg_vals@[i],
            decreases args.len() - idx,
        {
            let arg_name = args[idx].0.clone();
            let ty = args[idx].1;
            let by_ref = args[idx].2;
            let arg_metadata = args[idx].3;
            let ghost earlier = arg_vals@;
            let value = Value::new_argument(
                context,
                BlockArgument { block: entry_block, idx, ty, by_ref },
            ).add_metadatum(context, arg_metadata);
            arguments.push((arg_name, value));
            arg_vals.push(value);
            proof {
                assert forall|i: int| 0 <= i < idx implies arg_vals@[i] == earlier[i] by {}
                assert forall|at: Index| #[trigger]
                    context@.entities.contains_key(at) implies base.entities.contains_key(at)
                    || exists|i: int| 0 <= i < idx + 1 && (#[trigger] arg_vals@[i]).0 == at by {
                    if at == value.0 {
                        assert(arg_vals@[idx as int].0 == at);
                    } else if !base.entities.contains_key(at) {
                        let i = choose|i: int| 0 <= i < idx && (#[trigger] earlier[i]).0 == at;
                        assert(arg_vals@[i].0 == at);
                    }
                }
                assert forall|i: int, j: int| 0 <= i < j < idx + 1 implies (#[trigger] arg_vals@[i])
                    != (#[trigger] arg_vals@[j]) by {}
            }
            idx += 1;
        }
        let ghost filled = context@;
        let function = context.function_mut(func);
        function.arguments = arguments;
        let entry = context.block_mut(entry_block);
        entry.args = arg_vals;
        proof {
            let after = context@;
            let values = arg_vals@;
            assert(after.function(func).arguments =~= Seq::new(
                arg_views(args@).len(),
                |i: int| (arg_views(args@)[i].0, values[i]),
            ));
            assert forall|at: Index| #[trigger]
                old(context)@.entities.contains_key(at) implies after.entities.contains_key(at) && (
            at != module.0 ==> after.entities[at] == old(context)@.entities[at]) by {}
            assert forall|at: Index| #[trigger]
                after.entities.contains_key(at) implies old(context)@.entities.contains_key(at)
                || at == func.0 || at == entry_block.0 || exists|i: int|
                0 <= i < values.len() && (#[trigger] values[i]).0 == at by {}
        }
        func
    }

    /// Return the number of blocks in this function.
    pub fn num_blocks(&self, context: &Context) -> (n: usize)
        requires
            context@.has_function(*self),
        ensures
            n == context@.function(*self).blocks.len(),
    {
        context.function(*self).blocks.len()
    }

    /// Return the number of instructions in this function: the sum over its
    /// blocks.
    pub fn num_instructions(&self, context: &Context) -> (n: usize)
        requires
            context@.valid(),
            context@.has_function(*self),
            total_instructions(context@, context@.function(*self).blocks) <= usize::MAX,
        ensures
            n == total_instructions(context@, context@.function(*self).blocks),
    {
        let blocks = &context.function(*self).blocks;
        let mut n: usize = 0;
        let mut k: usize = 0;
        while k < blocks.len()
            invariant
                k <= blocks.len(),
                blocks@ == context@.function(*self).blocks,
                context@.valid(),
                context@.has_function(*self),
                n == total_instructions(context@, blocks@.take(k as int)),
                total_instructions(context@, blocks@) <= usize::MAX,
            decreases blocks.len() - k,
        {
            proof {
                assert(blocks@.take(k + 1).drop_last() =~= blocks@.take(k as int));
                lemma_total_instructions_grows(context@, blocks@, k + 1);
            }
            n = n + blocks[k].num_instructions(context);
            k += 1;
        }
        assert(blocks@.take(k as int) =~= blocks@);
        n
    }

    /// Return the function name.
    pub fn get_name<'a>(&self, context: &'a Context) -> (name: &'a str)
        requires
            context@.has_function(*self),
        ensures
            name@ == context@.function(*self).name,
    {
        context.function(*self).name.as_str()
    }

    /// Return the function entry (i.e., the first) block.
    pub fn get_entry_block(&self, context: &Context) -> (entry: Block)
        requires
            context@.wf(),
            context@.has_function(*self),
        ensures
            entry == context@.function(*self).blocks[0],
    {
        context.function(*self).blocks[0]
    }

    /// Return the attached metadata.
    pub fn get_metadata(&self, context: &Context) -> (metadata: Option<MetadataIndex>)
        requires
            context@.has_function(*self),
        ensures
            metadata == context@.function(*self).metadata,
    {
        context.function(*self).metadata
    }

    /// Whether this function has a valid selector.
    pub fn has_selector(&self, context: &Context) -> (has: bool)
        requires
            context@.has_function(*self),
        ensures
            has == context@.function(*self).selector is Some,
    {
        context.function(*self).selector.is_some()
    }

    /// Return the function selector, if it has one.
    pub fn get_selector(&self, context: &Context) -> (selector: Option<[u8; 4]>)
        requires
            context@.has_function(*self),
        ensures
            selector == context@.function(*self).selector,
    {
        context.function(*self).selector
    }

    /// Whether or not the function is a program entry point.
    pub fn is_entry(&self, context: &Context) -> (is_entry: bool)
        requires
            context@.has_function(*self),
        ensures
            is_entry == context@.function(*self).is_entry,
    {
        context.function(*self).is_entry
    }

    /// Get the function return type.
    pub fn get_return_type(&self, context: &Context) -> (return_type: Type)
        requires
            context@.has_function(*self),
        ensures
            return_type == context@.function(*self).return_type,
    {
        context.function(*self).return_type
    }

    /// Get the number of args.
    pub fn num_args(&self, context: &Context) -> (n: usize)
        requires
            context@.has_function(*self),
        ensures
            n == context@.function(*self).arguments.len(),
    {
        context.function(*self).arguments.len()
    }

    /// Get an arg value by name, if found: that of the first argument of
    /// that name.
    pub fn get_arg(&self, context: &Context, name: &str) -> (value: Option<Value>)
        requires
            context@.has_function(*self),
        ensures
            value == first_named(context@.function(*self).arguments, name@),
    {
        let arguments = &context.function(*self).arguments;
        let ghost entries = context@.function(*self).arguments;
        let mut k: usize = 0;
        assert(entries.skip(0) =~= entries);
        while k < arguments.len()
            invariant
                k <= arguments.len(),
                entries == named_view(arguments@),
                entries == context@.function(*self).arguments,
                first_named(entries, name@) == first_named(entries.skip(k as int), name@),
            decreases arguments.len() - k,
        {
            proof {
                assert(entries.skip(k as int).drop_first() =~= entries.skip(k + 1));
            }
            match compare_names(arguments[k].0.as_str(), name) {
                NameOrder::Same => {
                    return Some(arguments[k].1);
                },
                _ => {},
            }
            k += 1;
        }
        None
    }

    /// Find the name of an arg by value: that of the first argument that
    /// holds the value.
    pub fn lookup_arg_name<'a>(&self, context: &'a Context, value: &Value) -> (name: Option<
        &'a String,
    >)
        requires
            context@.has_function(*self),
        ensures
            name_view(name) == first_name_of(context@.function(*self).arguments, *value),
    {
        let arguments = &context.function(*self).arguments;
        let ghost entries = context@.function(*self).arguments;
        let mut k: usize = 0;
        assert(entries.skip(0) =~= entries);
        while k < arguments.len()
            invariant
                k <= arguments.len(),
                entries == named_view(arguments@),
                entries == context@.function(*self).arguments,
                first_name_of(entries, *value) == first_name_of(entries.skip(k as int), *value),
            decreases arguments.len() - k,
        {
            proof {
                assert(entries.skip(k as int).drop_first() =~= entries.skip(k + 1));
            }
            if arguments[k].1 == *value {
                return Some(&arguments[k].0);
            }
            k += 1;
        }
        None
    }

    /// The function arguments, in order: each name with its value.
    pub fn args_iter<'a>(&self, context: &'a Context) -> (arguments: &'a Vec<(String, Value)>)
        requires
            context@.has_function(*self),
        ensures
            named_view(arguments@) == context@.function(*self).arguments,
    {
        &context.function(*self).arguments
    }

    /// The blocks of this function, in order.
    pub fn block_iter(&self, context: &Context) -> (blocks: Vec<Block>)
        requires
            context@.has_function(*self),
        ensures
            blocks@ == context@.function(*self).blocks,
    {
        let list = &context.function(*self).blocks;
        let mut blocks: Vec<Block> = Vec::new();
        let mut k: usize = 0;
        while k < list.len()
            invariant
                k <= list.len(),
                list@ == context@.function(*self).blocks,
                blocks@ == list@.take(k as int),
            decreases list.len() - k,
        {
            blocks.push(list[k]);
            k += 1;
        }
        blocks
    }

    /// Each instruction in each block of this function, in order, with the
    /// block that it belongs to.
    pub fn instruction_iter(&self, context: &Context) -> (instructions: Vec<(Block, Value)>)
        requires
            context@.valid(),
            context@.has_function(*self),
        ensures
            instructions@ == all_instructions(context@, context@.function(*self).blocks),
    {
        let blocks = &context.function(*self).blocks;
        let mut instructions: Vec<(Block, Value)> = Vec::new();
        let mut k: usize = 0;
        while k < blocks.len()
            invariant
                k <= blocks.len(),
                blocks@ == context@.function(*self).blocks,
                context@.valid(),
                context@.has_function(*self),
                instructions@ == all_instructions(context@, blocks@.take(k as int)),
            decreases blocks.len() - k,
        {
            let block = blocks[k];
            let list = &context.block(block).instructions;
            let ghost before = instructions@;
            let mut i: usize = 0;
            while i < list.len()
                invariant
                    i <= list.len(),
                    list@ == context@.block(block).instructions,
                    instructions@ == before + Seq::new(i as nat, |j: int| (block, list@[j])),
                decreases list.len() - i,
            {
                instructions.push((block, list[i]));
                i += 1;
            }
            proof {
                assert(blocks@.take(k + 1).drop_last() =~= blocks@.take(k as int));
            }
            k += 1;
        }
        assert(blocks@.take(k as int) =~= blocks@);
        instructions
    }
}

/// An iterator over each [`Function`] in a [`Module`]: those that the module
/// had when the iterator was made, in order.
pub struct FunctionIterator {
    functions: Vec<Index>,
    next: usize,
}

impl View for FunctionIterator {
    type V = Seq<Function>;

    /// The functions that are still to come.
    closed spec fn view(&self) -> Seq<Function> {
        Seq::new(
            (self.functions@.len() - self.next) as nat,
            |k: int| Function(self.functions@[self.next + k]),
        )
    }
}

impl FunctionIterator {
    #[verifier::type_invariant]
    spec fn in_range(self) -> bool {
        self.next <= self.functions@.len()
    }

    /// Return a new iterator for the functions in `module`.
    pub fn new(context: &Context, module: &Module) -> (iterator: FunctionIterator)
        requires
            context@.has_module(*module),
        ensures
            iterator@ == context@.module(*module).functions,
    {
        let list = &context.module(*module).functions;
        let mut functions: Vec<Index> = Vec::new();
        let mut k: usize = 0;
        while k < list.len()
            invariant
                k <= list.len(),
                list@ == context@.module(*module).functions,
                functions@.len() == k,
                forall|j: int| 0 <= j < k ==> #[trigger] functions@[j] == list@[j].0,
            decreases list.len() - k,
        {
            functions.push(list[k].0);
            k += 1;
        }
        let iterator = FunctionIterator { functions, next: 0 };
        iterator
    }

    /// The next function, if one is left.
    pub fn next(&mut self) -> (function: Option<Function>)
        ensures
            function == (if old(self)@.len() > 0 {
                Some(old(self)@[0])
            } else {
                None
            }),
            final(self)@ == (if old(self)@.len() > 0 {
                old(self)@.drop_first()
            } else {
                old(self)@
            }),
    {
        proof {
            use_type_invariant(&*self);
        }
        if self.next < self.functions.len() {
            let idx = self.next;
            self.next += 1;
            Some(Function(self.functions[idx]))
        } else {
            None
        }
    }
}

} // verus!
