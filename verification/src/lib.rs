//! The function-level part of an in-memory intermediate representation.
//!
//! A [`Function`] is a handle to a routine stored in a shared [`Context`]:
//! its arguments, its ordered basic blocks and its table of local variables.
//! Every operation takes the context explicitly, and its contract is stated
//! over the context's model: the model of each stored entity, by handle.
//!
//! The store is a generational arena, and sets and maps of handles are hash
//! collections; what is taken on trust about them is in [`arena`] and
//! [`hashing`]. What holds of the operations taken together is in [`laws`].

pub mod arena;
pub mod block;
pub mod block_list;
pub mod cfg;
pub mod constant;
pub mod context;
pub mod error;
pub mod function;
pub mod hashing;
pub mod instruction;
pub mod irtype;
pub mod label;
pub mod laws;
pub mod local_var;
pub mod locals;
pub mod metadata;
pub mod module;
pub mod replace;
pub mod text;
pub mod value;

pub use crate::block::{Block, BlockContent, Label};
pub use crate::constant::{Constant, ConstantValue};
pub use crate::context::{Context, Entity};
pub use crate::error::IrError;
pub use crate::function::{Function, FunctionContent, FunctionIterator};
pub use crate::instruction::{BranchToWithArgs, Instruction};
pub use crate::irtype::Type;
pub use crate::local_var::{LocalVar, LocalVarContent};
pub use crate::metadata::MetadataIndex;
pub use crate::module::{Module, ModuleContent};
pub use crate::value::{BlockArgument, Value, ValueContent, ValueDatum};
