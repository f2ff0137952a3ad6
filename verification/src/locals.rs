//! A function's table of local variables: lookup, insertion under a name
//! that must be new or is made new, and merging the table of another
//! function.

use crate::constant::Constant;
use crate::context::{names_increase, Context, ContextView};
use crate::error::IrError;
use crate::function::{Function, FunctionView};
use crate::hashing::local_map_insert;
use crate::irtype::Type;
use crate::local_var::{LocalVar, LocalVarContent};
use crate::text::{
    compare_names, first_name_of, first_named, has_name, insertion_point,
    lemma_first_free_suffix_unique, lemma_name_before_asymmetric, lemma_name_before_irreflexive,
    lemma_name_before_transitive, lemma_name_order_after, lemma_suffixes_need_room, name_before,
    name_view, named_view, suffixed, unique_name, with_decimal, NameOrder,
};
use generational_arena::Index;
use std::collections::HashMap;
use vstd::pervasive::unreached;
use vstd::prelude::*;

verus! {

/// The store with a local variable added to a function under `name`: the
/// variable's content under its handle, and in the function's table the
/// handle under that name, at the name's place in the order.
pub open spec fn with_local_added(
    before: ContextView,
    function: Function,
    name: Seq<char>,
    var: LocalVar,
    content: LocalVarContent,
) -> ContextView {
    before.with_local_var(var, content).with_function(
        function,
        FunctionView {
            locals: before.function(function).locals.insert(
                insertion_point(before.function(function).locals, name),
                (name, var),
            ),
            ..before.function(function)
        },
    )
}

/// What adding a local variable under `name` does to the store: the variable
/// is stored under a new handle, and the function's table has it under that
/// name, at the name's place in the order.
pub open spec fn local_added(
    before: ContextView,
    after: ContextView,
    function: Function,
    name: Seq<char>,
    var: LocalVar,
    content: LocalVarContent,
) -> bool {
    &&& !before.entities.contains_key(var.0)
    &&& after == with_local_added(before, function, name, var, content)
}

/// The store after the local variables `theirs` of another function were
/// merged into `function`, one after the other: each is added with the
/// content that it had in `before`, under the handle that `map` gives for
/// it, and under its own name made unique among the names present by then.
pub open spec fn locals_merged(
    before: ContextView,
    function: Function,
    theirs: Seq<(Seq<char>, LocalVar)>,
    map: Map<LocalVar, LocalVar>,
) -> ContextView
    decreases theirs.len(),
{
    if theirs.len() == 0 {
        before
    } else {
        let done = locals_merged(before, function, theirs.drop_last(), map);
        with_local_added(
            done,
            function,
            unique_name(done.function(function).locals, theirs.last().0),
            map[theirs.last().1],
            before.local_var(theirs.last().1),
        )
    }
}

/// The merged store depends on the map only through what it gives for the
/// merged variables.
pub proof fn lemma_locals_merged_agree(
    before: ContextView,
    function: Function,
    theirs: Seq<(Seq<char>, LocalVar)>,
    m1: Map<LocalVar, LocalVar>,
    m2: Map<LocalVar, LocalVar>,
)
    requires
        forall|i: int| 0 <= i < theirs.len() ==> m1[(#[trigger] theirs[i]).1] == m2[theirs[i].1],
    ensures
        locals_merged(before, function, theirs, m1) == locals_merged(before, function, theirs, m2),
    decreases theirs.len(),
{
    if theirs.len() > 0 {
        let rest = theirs.drop_last();
        assert forall|i: int| 0 <= i < rest.len() implies m1[(#[trigger] rest[i]).1]
            == m2[rest[i].1] by {}
        lemma_locals_merged_agree(before, function, rest, m1, m2);
    }
}

impl Function {
    /// Where `name` belongs in the function's table, and whether it is taken.
    fn local_slot(&self, context: &Context, name: &String) -> (slot: (usize, bool))
        requires
            context@.wf(),
            context@.has_function(*self),
        ensures
            slot.0 == insertion_point(context@.function(*self).locals, name@),
            slot.1 == has_name(context@.function(*self).locals, name@),
            slot.0 <= context@.function(*self).locals.len(),
            slot.1 ==> slot.0 < context@.function(*self).locals.len() && context@.function(
                *self,
            ).locals[slot.0 as int].0 == name@,
            forall|j: int|
                0 <= j < slot.0 ==> name_before(
                    (#[trigger] context@.function(*self).locals[j]).0,
                    name@,
                ),
            !slot.1 ==> forall|j: int|
                slot.0 <= j < context@.function(*self).locals.len() ==> name_before(
                    name@,
                    (#[trigger] context@.function(*self).locals[j]).0,
                ),
    {
        let table = &context.function(*self).local_storage;
        let ghost locals = context@.function(*self).locals;
        let mut k: usize = 0;
        assert(locals.skip(0) =~= locals);
        while k < table.len()
            invariant
                k <= table.len(),
                locals == named_view(table@),
                locals == context@.function(*self).locals,
                names_increase(locals),
                forall|j: int| 0 <= j < k ==> name_before((#[trigger] locals[j]).0, name@),
                insertion_point(locals, name@) == k + insertion_point(locals.skip(k as int), name@),
            decreases table.len() - k,
        {
            let order = compare_names(table[k].0.as_str(), name.as_str());
            proof {
                assert(locals.skip(k as int).drop_first() =~= locals.skip(k + 1));
            }
            match order {
                NameOrder::Before => {},
                NameOrder::Same => {
                    proof {
                        lemma_name_before_irreflexive(name@);
                    }
                    return (k, true);
                },
                NameOrder::After => {
                    proof {
                        let here = locals[k as int].0;
                        assert(name_before(name@, here)) by {
                            lemma_name_order_after(here, name@);
                        }
                        lemma_name_before_asymmetric(name@, here);
                        assert forall|j: int| k <= j < locals.len() implies name_before(
                            name@,
                            (#[trigger] locals[j]).0,
                        ) by {
                            if j > k {
                                lemma_name_before_transitive(name@, here, locals[j].0);
                            }
                        }
                        assert forall|j: int| 0 <= j < locals.len() implies (#[trigger] locals[j]).0
                            != name@ by {
                            if j < k {
                                lemma_name_before_asymmetric(locals[j].0, name@);
                            } else {
                                lemma_name_before_asymmetric(name@, locals[j].0);
                            }
                        }
                    }
                    return (k, false);
                },
            }
            k += 1;
        }
        proof {
            assert forall|j: int| 0 <= j < locals.len() implies (#[trigger] locals[j]).0
                != name@ by {
                lemma_name_before_asymmetric(locals[j].0, name@);
            }
        }
        (k, false)
    }

    /// Get a pointer to a local value by name, if found.
    pub fn get_local_var(&self, context: &Context, name: &str) -> (var: Option<LocalVar>)
        requires
            context@.has_function(*self),
        ensures
            var == first_named(context@.function(*self).locals, name@),
    {
        let table = &context.function(*self).local_storage;
        let ghost locals = context@.function(*self).locals;
        let mut k: usize = 0;
        assert(locals.skip(0) =~= locals);
        while k < table.len()
            invariant
                k <= table.len(),
                locals == named_view(table@),
                locals == context@.function(*self).locals,
                first_named(locals, name@) == first_named(locals.skip(k as int), name@),
            decreases table.len() - k,
        {
            proof {
                assert(locals.skip(k as int).drop_first() =~= locals.skip(k + 1));
            }
            match compare_names(table[k].0.as_str(), name) {
                NameOrder::Same => {
                    return Some(table[k].1);
                },
                _ => {},
            }
            k += 1;
        }
        None
    }

    /// Find the name of a local value by pointer.
    pub fn lookup_local_name<'a>(&self, context: &'a Context, var: &LocalVar) -> (name: Option<
        &'a String,
    >)
        requires
            context@.has_function(*self),
        ensures
            name_view(name) == first_name_of(context@.function(*self).locals, *var),
    {
        let table = &context.function(*self).local_storage;
        let ghost locals = context@.function(*self).locals;
        let mut k: usize = 0;
        assert(locals.skip(0) =~= locals);
        while k < table.len()
            invariant
                k <= table.len(),
                locals == named_view(table@),
                locals == context@.function(*self).locals,
                first_name_of(locals, *var) == first_name_of(locals.skip(k as int), *var),
            decreases table.len() - k,
        {
            proof {
                assert(locals.skip(k as int).drop_first() =~= locals.skip(k + 1));
            }
            if table[k].1 == *var {
                return Some(&table[k].0);
            }
            k += 1;
        }
        None
    }

    /// Add a value to the function local storage.
    ///
    /// The name must be unique to this function else an error is returned,
    /// and the table stays as it was.
    pub fn new_local_var(
        &self,
        context: &mut Context,
        name: String,
        local_type: Type,
        initializer: Option<Constant>,
    ) -> (result: Result<LocalVar, IrError>)
        requires
            old(context)@.wf(),
            old(context)@.has_function(*self),
        ensures
            match result {
                Ok(var) => !has_name(old(context)@.function(*self).locals, name@) && local_added(
                    old(context)@,
                    final(context)@,
                    *self,
                    name@,
                    var,
                    LocalVarContent { ty: local_type, initializer },
                ),
                Err(error) => has_name(old(context)@.function(*self).locals, name@)
                    && (exists|var: LocalVar|
                    !old(context)@.entities.contains_key(var.0) && final(context)@ == old(
                        context,
                    )@.with_local_var(var, LocalVarContent { ty: local_type, initializer }))
                    && (error matches IrError::FunctionLocalClobbered(f, n) && f@ == old(
                    context,
                )@.function(*self).name && n@ == name@),
            },
            final(context)@.wf(),
    {
        let var = LocalVar::new(context, local_type, initializer);
        let slot = self.local_slot(context, &name);
        if slot.1 {
            let function_name = context.function(*self).name.clone();
            Err(IrError::FunctionLocalClobbered(function_name, name))
        } else {
            let ghost locals = context@.function(*self).locals;
            let ghost name_chars = name@;
            let func = context.function_mut(*self);
            func.local_storage.insert(slot.0, (name, var));
            proof {
                let at = slot.0 as int;
                let grown = locals.insert(at, (name_chars, var));
                assert(context@.function(*self).locals =~= grown);
                assert forall|i: int, j: int| 0 <= i < j < grown.len() implies name_before(
                    (#[trigger] grown[i]).0,
                    (#[trigger] grown[j]).0,
                ) && grown[i].1 != grown[j].1 by {}
                assert forall|k: int| 0 <= k < grown.len() implies context@.has_local_var(
                    (#[trigger] grown[k]).1,
                ) by {}
            }
            Ok(var)
        }
    }

    /// Add a value to the function local storage, by forcing the name to be
    /// unique if needed.
    ///
    /// If the name is taken, the first of `name0`, `name1`, ... that is free
    /// is used in its place.
    pub fn new_unique_local_var(
        &self,
        context: &mut Context,
        name: String,
        local_type: Type,
        initializer: Option<Constant>,
    ) -> (var: LocalVar)
        requires
            old(context)@.wf(),
            old(context)@.has_function(*self),
        ensures
            local_added(
                old(context)@,
                final(context)@,
                *self,
                unique_name(old(context)@.function(*self).locals, name@),
                var,
                LocalVarContent { ty: local_type, initializer },
            ),
            final(context)@.wf(),
    {
        let ghost locals = context@.function(*self).locals;
        let mut new_name = name;
        if self.local_slot(context, &new_name).1 {
            let ghost stem = new_name@;
            let count = context.function(*self).local_storage.len();
            let mut n: u64 = 0;
            let mut candidate = with_decimal(new_name.as_str(), n);
            proof {
                lemma_suffixes_need_room(locals, stem, 0);
            }
            while self.local_slot(context, &candidate).1
                invariant
                    context@ == old(context)@,
                    context@.wf(),
                    context@.has_function(*self),
                    locals == context@.function(*self).locals,
                    stem == new_name@,
                    candidate@ == suffixed(stem, n as nat),
                    forall|m: nat| m < n ==> has_name(locals, #[trigger] suffixed(stem, m)),
                    n <= locals.len(),
                    locals.len() == count,
                decreases locals.len() - n,
            {
                proof {
                    assert forall|m: nat| m < n + 1 implies has_name(
                        locals,
                        #[trigger] suffixed(stem, m),
                    ) by {}
                    lemma_suffixes_need_room(locals, stem, (n + 1) as nat);
                }
                n += 1;
                candidate = with_decimal(new_name.as_str(), n);
            }
            proof {
                lemma_first_free_suffix_unique(locals, stem, n as nat);
            }
            new_name = candidate;
        }
        match self.new_local_var(context, new_name, local_type, initializer) {
            Ok(var) => var,
            Err(_) => unreached(),
        }
    }

    /// The function's local variables, by name in increasing order.
    pub fn locals_iter<'a>(&self, context: &'a Context) -> (locals: &'a Vec<(String, LocalVar)>)
        requires
            context@.has_function(*self),
        ensures
            named_view(locals@) == context@.function(*self).locals,
            context@.valid() ==> names_increase(named_view(locals@)),
    {
        &context.function(*self).local_storage
    }

    /// Merge values from another [`Function`] into this one.
    ///
    /// Each local variable of `other`, in the order of their names, is added
    /// to this function as a new variable of the same type and initializer,
    /// under its name made unique. Nothing that refers to the variables of
    /// `other` is rewritten.
    ///
    /// Returns a map from each pointer of `other` to the newly merged pointer.
    pub fn merge_locals_from(&self, context: &mut Context, other: Function) -> (var_map: HashMap<
        LocalVar,
        LocalVar,
    >)
        requires
            old(context)@.wf(),
            old(context)@.has_function(*self),
            old(context)@.has_function(other),
        ensures
            forall|v: LocalVar| #[trigger]
                var_map@.contains_key(v) <==> exists|k: int|
                    0 <= k < old(context)@.function(other).locals.len() && (#[trigger] old(
                        context,
                    )@.function(other).locals[k]).1 == v,
            forall|k: int|
                0 <= k < old(context)@.function(other).locals.len() ==> !old(
                    context,
                )@.entities.contains_key(
                    var_map@[(#[trigger] old(context)@.function(other).locals[k]).1].0,
                ),
            forall|j: int, k: int|
                0 <= j < k < old(context)@.function(other).locals.len() ==> var_map@[(
                #[trigger] old(context)@.function(other).locals[j]).1] != var_map@[(#[trigger] old(
                    context,
                )@.function(other).locals[k]).1],
            final(context)@ == locals_merged(
                old(context)@,
                *self,
                old(context)@.function(other).locals,
                var_map@,
            ),
            final(context)@.wf(),
    {
        let mut var_map: HashMap<LocalVar, LocalVar> = HashMap::new();
        let ghost theirs = context@.function(other).locals;
        let mut old_vars: Vec<(String, LocalVar, LocalVarContent)> = Vec::new();
        let table = &context.function(other).local_storage;
        let mut i: usize = 0;
        while i < table.len()
            invariant
                i <= table.len(),
                context@.wf(),
                context@.has_function(other),
                theirs == context@.function(other).locals,
                theirs == named_view(table@),
                old_vars@.len() == i,
                forall|j: int|
                    0 <= j < i ==> (#[trigger] old_vars@[j]).0@ == theirs[j].0 && old_vars@[j].1
                        == theirs[j].1 && old_vars@[j].2 == context@.local_var(theirs[j].1),
            decreases table.len() - i,
        {
            let var = table[i].1;
            assert(context@.has_local_var(theirs[i as int].1));
            let content = *context.local_var(var);
            old_vars.push((table[i].0.clone(), var, content));
            i += 1;
        }
        let mut k: usize = 0;
        while k < old_vars.len()
            invariant
                k <= old_vars.len(),
                old_vars@.len() == theirs.len(),
                theirs == old(context)@.function(other).locals,
                old(context)@.wf(),
                old(context)@.has_function(other),
                forall|j: int|
                    0 <= j < theirs.len() ==> (#[trigger] old_vars@[j]).0@ == theirs[j].0
                        && old_vars@[j].1 == theirs[j].1 && old_vars@[j].2 == old(
                        context,
                    )@.local_var(theirs[j].1),
                context@.wf(),
                context@.has_function(*self),
                forall|at: Index| #[trigger]
                    old(context)@.entities.contains_key(at) ==> context@.entities.contains_key(at),
                forall|v: LocalVar| #[trigger]
                    var_map@.contains_key(v) ==> exists|j: int|
                        0 <= j < k && (#[trigger] theirs[j]).1 == v,
                forall|j: int|
                    0 <= j < k ==> var_map@.contains_key((#[trigger] theirs[j]).1)
                        && context@.entities.contains_key(var_map@[theirs[j].1].0) && !old(
                        context,
                    )@.entities.contains_key(var_map@[theirs[j].1].0),
                forall|i: int, j: int|
                    0 <= i < j < k ==> var_map@[(#[trigger] theirs[i]).1] != var_map@[(
                    #[trigger] theirs[j]).1],
                context@ == locals_merged(old(context)@, *self, theirs.take(k as int), var_map@),
            decreases old_vars.len() - k,
        {
            let name = old_vars[k].0.clone();
            let old_var = old_vars[k].1;
            let content = old_vars[k].2;
            let ghost earlier = var_map@;
            let new_var = self.new_unique_local_var(
                context,
                name,
                content.ty,
                content.initializer,
            );
            local_map_insert(&mut var_map, old_var, new_var);
            proof {
                let part = theirs.take(k as int);
                let next = theirs.take(k + 1);
                assert(next.drop_last() =~= part);
                assert forall|j: int| 0 <= j < part.len() implies earlier[(#[trigger] part[j]).1]
                    == var_map@[part[j].1] by {}
                lemma_locals_merged_agree(old(context)@, *self, part, earlier, var_map@);
                assert forall|j: int| 0 <= j < k + 1 implies var_map@.contains_key(
                    (#[trigger] theirs[j]).1,
                ) && context@.entities.contains_key(var_map@[theirs[j].1].0) && !old(
                    context,
                )@.entities.contains_key(var_map@[theirs[j].1].0) by {}
                assert forall|i: int, j: int| 0 <= i < j < k + 1 implies var_map@[(
                #[trigger] theirs[i]).1] != var_map@[(#[trigger] theirs[j]).1] by {}
                assert forall|v: LocalVar| #[trigger] var_map@.contains_key(v) implies exists|
                    j: int,
                | 0 <= j < k + 1 && (#[trigger] theirs[j]).1 == v by {
                    if v != old_var {
                        let j = choose|j: int| 0 <= j < k && (#[trigger] theirs[j]).1 == v;
                        assert(theirs[j].1 == v);
                    }
                }
            }
            k += 1;
        }
        assert(theirs.take(k as int) =~= theirs);
        var_map
    }
}

} // verus!
