//! Values: block arguments, constants and instructions, each stored in the
//! context under a handle.

use crate::arena::index_eq;
use crate::block::Block;
use crate::constant::Constant;
use crate::context::{Context, ContextView, Entity};
use crate::instruction::{lemma_replaced_keeps_targets, Instruction, InstructionView};
use crate::irtype::Type;
use crate::metadata::MetadataIndex;
use generational_arena::Index;
use rustc_hash::FxHashMap;
use vstd::prelude::*;

verus! {

/// A handle to a value.
#[derive(Clone, Copy, Debug, Hash)]
pub struct Value(pub Index);

impl PartialEq for Value {
    fn eq(&self, other: &Value) -> (same: bool) {
        index_eq(&self.0, &other.0)
    }
}

impl Eq for Value {

}

impl vstd::std_specs::cmp::PartialEqSpecImpl for Value {
    open spec fn obeys_eq_spec() -> bool {
        true
    }

    open spec fn eq_spec(&self, other: &Value) -> bool {
        self.0 == other.0
    }
}

/// A parameter of a block, by position.
#[derive(Clone, Copy, Debug)]
pub struct BlockArgument {
    /// The block that takes the parameter.
    pub block: Block,
    /// Its position among the block's parameters.
    pub idx: usize,
    pub ty: Type,
    pub by_ref: bool,
}

/// What a value is.
#[derive(Debug)]
pub enum ValueDatum {
    Argument(BlockArgument),
    Constant(Constant),
    Instruction(Instruction),
}

/// The stored form of a value.
#[derive(Debug)]
pub struct ValueContent {
    pub value: ValueDatum,
    pub metadata: Option<MetadataIndex>,
}

/// The model of a [`ValueDatum`].
pub enum ValueDatumView {
    Argument(BlockArgument),
    Constant(Constant),
    Instruction(InstructionView),
}

/// The model of a [`ValueContent`].
pub struct ValueView {
    pub datum: ValueDatumView,
    pub metadata: Option<MetadataIndex>,
}

impl View for ValueDatum {
    type V = ValueDatumView;

    open spec fn view(&self) -> ValueDatumView {
        match *self {
            ValueDatum::Argument(a) => ValueDatumView::Argument(a),
            ValueDatum::Constant(c) => ValueDatumView::Constant(c),
            ValueDatum::Instruction(i) => ValueDatumView::Instruction(i@),
        }
    }
}

impl View for ValueContent {
    type V = ValueView;

    open spec fn view(&self) -> ValueView {
        ValueView { datum: self.value@, metadata: self.metadata }
    }
}

impl ValueView {
    /// The value with each value that it uses replaced. Only an instruction
    /// uses values.
    pub open spec fn replaced(self, map: Map<Value, Value>) -> ValueView {
        match self.datum {
            ValueDatumView::Instruction(ins) => ValueView {
                datum: ValueDatumView::Instruction(ins.replaced(map)),
                ..self
            },
            _ => self,
        }
    }
}

/// The store after the replacements were made in each of `values`, in order.
pub open spec fn replace_in_values(
    context: ContextView,
    values: Seq<Value>,
    map: Map<Value, Value>,
) -> ContextView
    decreases values.len(),
{
    if values.len() == 0 {
        context
    } else {
        let done = replace_in_values(context, values.drop_last(), map);
        done.with_value(values.last(), done.value(values.last()).replaced(map))
    }
}

impl Value {
    /// Store a new block parameter.
    pub fn new_argument(context: &mut Context, arg: BlockArgument) -> (value: Value)
        ensures
            !old(context)@.entities.contains_key(value.0),
            final(context)@ == old(context)@.with_value(
                value,
                ValueView { datum: ValueDatumView::Argument(arg), metadata: None },
            ),
            old(context)@.valid() ==> final(context)@.valid(),
            old(context)@.wf() ==> final(context)@.wf(),
    {
        let content = ValueContent { value: ValueDatum::Argument(arg), metadata: None };
        Value(context.insert(Entity::Value(content)))
    }

    /// Store a new constant.
    pub fn new_constant(context: &mut Context, constant: Constant) -> (value: Value)
        ensures
            !old(context)@.entities.contains_key(value.0),
            final(context)@ == old(context)@.with_value(
                value,
                ValueView { datum: ValueDatumView::Constant(constant), metadata: None },
            ),
            old(context)@.valid() ==> final(context)@.valid(),
            old(context)@.wf() ==> final(context)@.wf(),
    {
        let content = ValueContent { value: ValueDatum::Constant(constant), metadata: None };
        Value(context.insert(Entity::Value(content)))
    }

    /// Store a new instruction. It belongs to no block yet.
    pub fn new_instruction(context: &mut Context, instruction: Instruction) -> (value: Value)
        requires
            old(context)@.value_valid(
                ValueView { datum: ValueDatumView::Instruction(instruction@), metadata: None },
            ),
        ensures
            !old(context)@.entities.contains_key(value.0),
            final(context)@ == old(context)@.with_value(
                value,
                ValueView { datum: ValueDatumView::Instruction(instruction@), metadata: None },
            ),
            old(context)@.valid() ==> final(context)@.valid(),
            old(context)@.wf() ==> final(context)@.wf(),
    {
        let content = ValueContent { value: ValueDatum::Instruction(instruction), metadata: None };
        Value(context.insert(Entity::Value(content)))
    }

    /// Attach a metadatum, if one is given. Returns the value itself.
    pub fn add_metadatum(self, context: &mut Context, md_idx: Option<MetadataIndex>) -> (value:
        Value)
        requires
            old(context)@.has_value(self),
        ensures
            value == self,
            final(context)@ == (if md_idx is Some {
                old(context)@.with_value(
                    self,
                    ValueView { metadata: md_idx, ..old(context)@.value(self) },
                )
            } else {
                old(context)@
            }),
            old(context)@.valid() ==> final(context)@.valid(),
            old(context)@.wf() ==> final(context)@.wf(),
    {
        if md_idx.is_some() {
            let content = context.value_mut(self);
            content.metadata = md_idx;
        }
        self
    }

    /// The attached metadatum.
    pub fn get_metadata(&self, context: &Context) -> (md_idx: Option<MetadataIndex>)
        requires
            context@.has_value(*self),
        ensures
            md_idx == context@.value(*self).metadata,
    {
        context.value(*self).metadata
    }

    /// If the value is an instruction, replace each value that it uses and
    /// that the map has a replacement for.
    pub fn replace_instruction_values(
        &self,
        context: &mut Context,
        replace_map: &FxHashMap<Value, Value>,
    )
        requires
            old(context)@.has_value(*self),
        ensures
            final(context)@ == old(context)@.with_value(
                *self,
                old(context)@.value(*self).replaced(replace_map@),
            ),
            old(context)@.differs_in_values_only(final(context)@),
            old(context)@.valid() ==> final(context)@.valid(),
            old(context)@.wf() ==> final(context)@.wf(),
    {
        proof {
            if let ValueDatumView::Instruction(ins) = context@.value(*self).datum {
                lemma_replaced_keeps_targets(ins, replace_map@);
            }
        }
        let content = context.value_mut(*self);
        match &mut content.value {
            ValueDatum::Instruction(instruction) => {
                instruction.replace_values(replace_map);
            },
            _ => {},
        }
        assert(context@.entities.dom() =~= old(context)@.entities.dom());
    }
}

} // verus!
