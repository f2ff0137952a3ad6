//! What holds of the operations taken together.

use crate::block::Block;
use crate::block_list::{block_inserted, first_position, lemma_first_position};
use crate::cfg::cfg_walk;
use crate::context::ContextView;
use crate::function::{arguments_are_entry_parameters, function_created, Function, FunctionView};
use crate::irtype::Type;
use crate::label::labels_differ;
use crate::local_var::{LocalVar, LocalVarContent};
use crate::locals::{local_added, locals_merged};
use crate::metadata::MetadataIndex;
use crate::module::Module;
use crate::text::{
    block_label, decimal, first_named, has_name, insertion_point, is_first_free_suffix,
    label_candidate, label_issued, label_seed, label_start, lemma_suffix_cancel,
    lemma_suffixes_need_room, suffixed, unique_name,
};
use vstd::prelude::*;

verus! {

/// A block that is put into a function's list behind the first position
/// leaves every function with the entry block that it had. (Put in at the
/// first position, the new block is the entry block from then on.)
pub proof fn law_entry_block_survives_insertion(
    before: ContextView,
    after: ContextView,
    function: Function,
    hint: Option<Seq<char>>,
    block: Block,
    at: int,
    observed: Function,
)
    requires
        before.wf(),
        before.has_function(function),
        before.has_function(observed),
        block_inserted(before, after, function, hint, block, at),
        0 <= at <= before.function(function).blocks.len(),
        observed == function ==> at > 0,
    ensures
        after.has_function(observed),
        after.function(observed).blocks.len() > 0,
        after.function(observed).blocks[0] == before.function(observed).blocks[0],
{
}

/// Removing a block that is not the entry block leaves every function with
/// the entry block that it had.
pub proof fn law_entry_block_survives_removal(
    before: ContextView,
    function: Function,
    block: Block,
    observed: Function,
)
    requires
        before.wf(),
        before.has_function(function),
        before.has_function(observed),
        before.function(function).blocks[0] != block,
    ensures
        ({
            let after = before.with_function(
                function,
                FunctionView {
                    blocks: before.function(function).blocks.remove(
                        first_position(before.function(function).blocks, block),
                    ),
                    ..before.function(function)
                },
            );
            &&& after.has_function(observed)
            &&& before.function(function).blocks.contains(block) ==> after.function(
                observed,
            ).blocks.len() > 0 && after.function(observed).blocks[0] == before.function(
                observed,
            ).blocks[0]
        }),
{
    lemma_first_position(before.function(function).blocks, block);
}

/// Without a hint, and with no block labelled as the counter would label
/// one, the label is the one generated from the counter, and the counter
/// moves on by one.
pub proof fn law_unhinted_label(labels: Seq<Seq<char>>, before: nat, after: nat, label: Seq<char>)
    requires
        label_issued(labels, None, before, after, label),
        !labels.contains(block_label(before)),
    ensures
        label == block_label(before),
        after == before + 1,
{
    let seed = label_seed(None, before);
    let start = label_start(None, before);
    if after > start {
        assert(labels.contains(label_candidate(seed, start, 0nat)));
    }
}

/// Unhinted calls on a function whose counter starts at zero, with no block
/// ever labelled as the counter would label one, give `block0`, `block1`,
/// and so on. `labels[i]` are the labels present at the call `i`, and
/// `counters[i]` is the counter then.
pub proof fn law_unhinted_labels_count_up(
    labels: Seq<Seq<Seq<char>>>,
    counters: Seq<nat>,
    issued: Seq<Seq<char>>,
)
    requires
        labels.len() == issued.len(),
        counters.len() == issued.len() + 1,
        counters[0] == 0,
        forall|i: int|
            0 <= i < issued.len() ==> #[trigger] label_issued(
                labels[i],
                None,
                counters[i],
                counters[i + 1],
                issued[i],
            ),
        forall|i: int|
            0 <= i < issued.len() ==> !(#[trigger] labels[i]).contains(block_label(i as nat)),
    ensures
        forall|i: int| 0 <= i < issued.len() ==> #[trigger] issued[i] == block_label(i as nat),
        forall|i: int| 0 <= i <= issued.len() ==> #[trigger] counters[i] == i,
    decreases issued.len(),
{
    if issued.len() > 0 {
        let n = issued.len() - 1;
        let fewer = issued.drop_last();
        let fewer_labels = labels.drop_last();
        let fewer_counters = counters.drop_last();
        assert forall|i: int| 0 <= i < fewer.len() implies #[trigger] label_issued(
            fewer_labels[i],
            None,
            fewer_counters[i],
            fewer_counters[i + 1],
            fewer[i],
        ) by {}
        assert forall|i: int| 0 <= i < fewer.len() implies !(#[trigger] fewer_labels[i]).contains(
            block_label(i as nat),
        ) by {}
        law_unhinted_labels_count_up(fewer_labels, fewer_counters, fewer);
        assert(fewer_counters[n] == n);
        law_unhinted_label(labels[n], counters[n], counters[n + 1], issued[n]);
        assert forall|i: int| 0 <= i < issued.len() implies #[trigger] issued[i] == block_label(
            i as nat,
        ) by {
            if i < n {
                assert(fewer[i] == issued[i]);
            }
        }
        assert forall|i: int| 0 <= i <= issued.len() implies #[trigger] counters[i] == i by {
            if i <= n {
                assert(fewer_counters[i] == counters[i]);
            }
        }
    }
}

/// The number that a character stands for as a decimal digit.
pub open spec fn digit_value(c: char) -> nat {
    if c == '1' {
        1
    } else if c == '2' {
        2
    } else if c == '3' {
        3
    } else if c == '4' {
        4
    } else if c == '5' {
        5
    } else if c == '6' {
        6
    } else if c == '7' {
        7
    } else if c == '8' {
        8
    } else if c == '9' {
        9
    } else {
        0
    }
}

/// The number that a string of decimal digits stands for.
pub open spec fn digits_value(digits: Seq<char>) -> nat
    decreases digits.len(),
{
    if digits.len() == 0 {
        0
    } else {
        digits_value(digits.drop_last()) * 10 + digit_value(digits.last())
    }
}

/// A numeral stands for its number.
pub proof fn lemma_decimal_value(n: nat)
    ensures
        digits_value(decimal(n)) == n,
    decreases n,
{
    if n < 10 {
        assert(digits_value(decimal(n).drop_last()) == 0);
    } else {
        lemma_decimal_value(n / 10);
        assert(decimal(n).drop_last() =~= decimal(n / 10));
    }
}

/// Digits that follow do not make the number smaller.
pub proof fn lemma_digits_value_grows(a: Seq<char>, b: Seq<char>)
    ensures
        digits_value(a + b) >= digits_value(a),
    decreases b.len(),
{
    if b.len() > 0 {
        lemma_digits_value_grows(a, b.drop_last());
        assert((a + b).drop_last() =~= a + b.drop_last());
    }
}

/// The numerals of `start`, `start + 1`, and so on, `k` of them, in a row.
pub open spec fn numerals(start: nat, k: nat) -> Seq<char>
    decreases k,
{
    if k == 0 {
        Seq::empty()
    } else {
        numerals(start, (k - 1) as nat) + decimal((start + k - 1) as nat)
    }
}

/// A candidate is its seed followed by numerals.
pub proof fn lemma_candidate_is_seed_and_numerals(seed: Seq<char>, start: nat, k: nat)
    ensures
        label_candidate(seed, start, k) == seed + numerals(start, k),
    decreases k,
{
    if k > 0 {
        lemma_candidate_is_seed_and_numerals(seed, start, (k - 1) as nat);
    }
}

/// A label that was generated from the counter is never issued again by an
/// unhinted call once the counter has passed it, whether or not a block
/// still has it: the label generated at `earlier` differs from every label
/// that an unhinted call issues at a counter of `before`.
pub proof fn law_generated_label_is_not_reissued(
    labels: Seq<Seq<char>>,
    earlier: nat,
    before: nat,
    after: nat,
    label: Seq<char>,
)
    requires
        earlier < before,
        label_issued(labels, None, before, after, label),
    ensures
        label != block_label(earlier),
{
    let k = (after - (before + 1)) as nat;
    let tail = numerals(before + 1, k);
    lemma_candidate_is_seed_and_numerals(block_label(before), before + 1, k);
    if label == block_label(earlier) {
        assert("block"@ + (decimal(before) + tail) =~= block_label(before) + tail);
        lemma_suffix_cancel("block"@, decimal(before) + tail, decimal(earlier));
        lemma_digits_value_grows(decimal(before), tail);
        lemma_decimal_value(before);
        lemma_decimal_value(earlier);
    }
}

/// The place of a name in a list is a position of the list, or its end.
pub proof fn lemma_insertion_point_bounds<T>(entries: Seq<(Seq<char>, T)>, name: Seq<char>)
    ensures
        0 <= insertion_point(entries, name) <= entries.len(),
    decreases entries.len(),
{
    if entries.len() > 0 {
        lemma_insertion_point_bounds(entries.drop_first(), name);
    }
}

/// The entry of a name that no entry before it has is the one that is found.
pub proof fn lemma_first_named_at<T>(entries: Seq<(Seq<char>, T)>, name: Seq<char>, at: int)
    requires
        0 <= at < entries.len(),
        entries[at].0 == name,
        forall|j: int| 0 <= j < at ==> (#[trigger] entries[j]).0 != name,
    ensures
        first_named(entries, name) == Some(entries[at].1),
    decreases entries.len(),
{
    if at > 0 {
        let rest = entries.drop_first();
        assert forall|j: int| 0 <= j < at - 1 implies (#[trigger] rest[j]).0 != name by {}
        lemma_first_named_at(rest, name, at - 1);
    }
}

/// After a local variable was added under a name, the name is taken, by that
/// variable: adding another under the same name is refused, and whatever is
/// stored then under a new handle leaves the function's table as it is.
pub proof fn law_added_local_takes_the_name(
    before: ContextView,
    after: ContextView,
    function: Function,
    name: Seq<char>,
    var: LocalVar,
    content: LocalVarContent,
    orphan: LocalVar,
    orphan_content: LocalVarContent,
)
    requires
        before.has_function(function),
        !has_name(before.function(function).locals, name),
        local_added(before, after, function, name, var, content),
        !after.entities.contains_key(orphan.0),
    ensures
        has_name(after.function(function).locals, name),
        first_named(after.function(function).locals, name) == Some(var),
        after.with_local_var(orphan, orphan_content).function(function) == after.function(
            function,
        ),
{
    let locals = before.function(function).locals;
    let at = insertion_point(locals, name);
    lemma_insertion_point_bounds(locals, name);
    let grown = locals.insert(at, (name, var));
    assert forall|j: int| 0 <= j < at implies (#[trigger] grown[j]).0 != name by {}
    lemma_first_named_at(grown, name, at);
}

/// From any number on whose predecessors' suffixed names are all taken,
/// there is a least number whose suffixed name is free.
proof fn lemma_free_suffix_from<T>(entries: Seq<(Seq<char>, T)>, name: Seq<char>, n: nat)
    requires
        forall|m: nat| m < n ==> has_name(entries, #[trigger] suffixed(name, m)),
    ensures
        exists|free: nat| is_first_free_suffix(entries, name, free),
    decreases entries.len() - n,
{
    lemma_suffixes_need_room(entries, name, n);
    if has_name(entries, suffixed(name, n)) {
        assert forall|m: nat| m < n + 1 implies has_name(entries, #[trigger] suffixed(name, m)) by {}
        lemma_suffixes_need_room(entries, name, n + 1);
        lemma_free_suffix_from(entries, name, n + 1);
    } else {
        assert(is_first_free_suffix(entries, name, n));
    }
}

/// The name that is made unique is new. Where the name itself is taken, it
/// is the name followed by the least number that makes it new.
pub proof fn law_unique_name_is_first_free<T>(entries: Seq<(Seq<char>, T)>, name: Seq<char>)
    ensures
        !has_name(entries, unique_name(entries, name)),
        !has_name(entries, name) ==> unique_name(entries, name) == name,
        has_name(entries, name) ==> exists|n: nat|
            unique_name(entries, name) == suffixed(name, n) && #[trigger] is_first_free_suffix(
                entries,
                name,
                n,
            ),
{
    if has_name(entries, name) {
        lemma_free_suffix_from(entries, name, 0);
    }
}

/// Merging keeps what the function had and adds one entry for each merged
/// variable: every entry that the table had is still there, under its name
/// and handle; every new handle is in the table; and nothing else is.
pub proof fn law_merge_keeps_and_adds(
    before: ContextView,
    function: Function,
    theirs: Seq<(Seq<char>, LocalVar)>,
    map: Map<LocalVar, LocalVar>,
)
    requires
        before.has_function(function),
    ensures
        ({
            let after = locals_merged(before, function, theirs, map);
            let locals = after.function(function).locals;
            &&& after.has_function(function)
            &&& after.function(function) == FunctionView { locals, ..before.function(function) }
            &&& locals.len() == before.function(function).locals.len() + theirs.len()
            &&& forall|j: int|
                0 <= j < before.function(function).locals.len() ==> locals.contains(
                    #[trigger] before.function(function).locals[j],
                )
            &&& forall|k: int|
                0 <= k < theirs.len() ==> exists|i: int|
                    0 <= i < locals.len() && (#[trigger] locals[i]).1 == map[(
                    #[trigger] theirs[k]).1]
        }),
    decreases theirs.len(),
{
    if theirs.len() > 0 {
        let rest = theirs.drop_last();
        law_merge_keeps_and_adds(before, function, rest, map);
        let done = locals_merged(before, function, rest, map);
        let had = done.function(function).locals;
        let name = unique_name(had, theirs.last().0);
        let at = insertion_point(had, name);
        lemma_insertion_point_bounds(had, name);
        let after = locals_merged(before, function, theirs, map);
        let locals = after.function(function).locals;
        assert forall|i: int| 0 <= i < had.len() implies locals.contains(#[trigger] had[i]) by {
            if i < at {
                assert(locals[i] == had[i]);
            } else {
                assert(locals[i + 1] == had[i]);
            }
        }
        assert forall|j: int|
            0 <= j < before.function(function).locals.len() implies locals.contains(
            #[trigger] before.function(function).locals[j],
        ) by {}
        assert forall|k: int| 0 <= k < theirs.len() implies exists|i: int|
            0 <= i < locals.len() && (#[trigger] locals[i]).1 == map[(#[trigger] theirs[k]).1] by {
            if k < rest.len() {
                let i = choose|i: int| 0 <= i < had.len() && (#[trigger] had[i]).1 == map[rest[k].1];
                assert(locals.contains(had[i]));
            } else {
                assert(locals[at].1 == map[theirs[k].1]);
            }
        }
    }
}

/// A name is looked up with success exactly when an entry has it.
pub proof fn law_lookup_finds_the_taken_names<T>(entries: Seq<(Seq<char>, T)>, name: Seq<char>)
    ensures
        first_named(entries, name) is Some <==> has_name(entries, name),
    decreases entries.len(),
{
    if entries.len() > 0 {
        let rest = entries.drop_first();
        law_lookup_finds_the_taken_names(rest, name);
        if entries.first().0 != name {
            if has_name(entries, name) {
                let k = choose|k: int| 0 <= k < entries.len() && (#[trigger] entries[k]).0 == name;
                assert(rest[k - 1].0 == name);
            }
        }
    }
}

/// The walk ends in one way only: whenever the worklist is empty, the walk
/// is what it was when the worklist was empty first.
pub proof fn law_cfg_walk_is_determined(context: ContextView, entry: Block, a: nat, b: nat)
    requires
        cfg_walk(context, entry, a).worklist.len() == 0,
        cfg_walk(context, entry, b).worklist.len() == 0,
    ensures
        cfg_walk(context, entry, a) == cfg_walk(context, entry, b),
{
    if a <= b {
        lemma_cfg_walk_stays_empty(context, entry, a, b);
    } else {
        lemma_cfg_walk_stays_empty(context, entry, b, a);
    }
}

/// Once the worklist is empty the walk stays as it is.
proof fn lemma_cfg_walk_stays_empty(context: ContextView, entry: Block, steps: nat, later: nat)
    requires
        cfg_walk(context, entry, steps).worklist.len() == 0,
        steps <= later,
    ensures
        cfg_walk(context, entry, later) == cfg_walk(context, entry, steps),
    decreases later,
{
    if steps < later {
        lemma_cfg_walk_stays_empty(context, entry, steps, (later - 1) as nat);
    }
}

/// A function is created with its arguments as the parameters of its entry
/// block.
pub proof fn law_created_arguments_are_entry_parameters(
    before: ContextView,
    after: ContextView,
    module: Module,
    func: Function,
    name: Seq<char>,
    args: Seq<(Seq<char>, Type, bool, Option<MetadataIndex>)>,
    return_type: Type,
    selector: Option<[u8; 4]>,
    is_public: bool,
    is_entry: bool,
    metadata: Option<MetadataIndex>,
)
    requires
        function_created(
            before,
            after,
            module,
            func,
            name,
            args,
            return_type,
            selector,
            is_public,
            is_entry,
            metadata,
        ),
    ensures
        after.function(func).arguments.len() == args.len(),
        arguments_are_entry_parameters(after, func),
{
    let f = after.function(func);
    assert(after.block(f.blocks[0]).args =~= Seq::new(
        f.arguments.len(),
        |i: int| f.arguments[i].1,
    ));
}

/// A block that is put into a function's list behind the first position
/// leaves the arguments of every function the parameters of its entry block.
pub proof fn law_arguments_survive_insertion(
    before: ContextView,
    after: ContextView,
    function: Function,
    hint: Option<Seq<char>>,
    block: Block,
    at: int,
    observed: Function,
)
    requires
        before.wf(),
        before.has_function(function),
        before.has_function(observed),
        block_inserted(before, after, function, hint, block, at),
        0 <= at <= before.function(function).blocks.len(),
        observed == function ==> at > 0,
        arguments_are_entry_parameters(before, observed),
    ensures
        arguments_are_entry_parameters(after, observed),
{
}

/// Removing a block that is not the entry block leaves the arguments of
/// every function the parameters of its entry block.
pub proof fn law_arguments_survive_removal(
    before: ContextView,
    function: Function,
    block: Block,
    observed: Function,
)
    requires
        before.wf(),
        before.has_function(function),
        before.has_function(observed),
        before.function(function).blocks[0] != block,
        before.function(function).blocks.contains(block),
        arguments_are_entry_parameters(before, observed),
    ensures
        arguments_are_entry_parameters(
            before.with_function(
                function,
                FunctionView {
                    blocks: before.function(function).blocks.remove(
                        first_position(before.function(function).blocks, block),
                    ),
                    ..before.function(function)
                },
            ),
            observed,
        ),
{
    lemma_first_position(before.function(function).blocks, block);
}

/// Adding a local variable leaves the arguments of every function the
/// parameters of its entry block.
pub proof fn law_arguments_survive_a_new_local(
    before: ContextView,
    after: ContextView,
    function: Function,
    name: Seq<char>,
    var: LocalVar,
    content: LocalVarContent,
    observed: Function,
)
    requires
        before.has_function(function),
        before.has_function(observed),
        local_added(before, after, function, name, var, content),
        arguments_are_entry_parameters(before, observed),
    ensures
        arguments_are_entry_parameters(after, observed),
{
}

/// Replacing values in instructions leaves the arguments of every function
/// the parameters of its entry block.
pub proof fn law_arguments_survive_replacement(
    before: ContextView,
    after: ContextView,
    observed: Function,
)
    requires
        before.has_function(observed),
        before.differs_in_values_only(after),
        arguments_are_entry_parameters(before, observed),
    ensures
        arguments_are_entry_parameters(after, observed),
{
}

/// A block that is put into a function whose blocks all have labels of
/// their own leaves it so: the new label is none of theirs.
pub proof fn law_insertion_keeps_labels_distinct(
    before: ContextView,
    after: ContextView,
    function: Function,
    hint: Option<Seq<char>>,
    block: Block,
    at: int,
)
    requires
        before.valid(),
        before.has_function(function),
        block_inserted(before, after, function, hint, block, at),
        0 <= at <= before.function(function).blocks.len(),
        labels_differ(before.labels(function)),
    ensures
        after.labels(function) == before.labels(function).insert(at, after.block(block).label),
        labels_differ(after.labels(function)),
{
    let had = before.labels(function);
    let label = after.block(block).label;
    let grown = had.insert(at, label);
    assert forall|k: int| 0 <= k < grown.len() implies after.labels(function)[k] == grown[k] by {}
    assert(after.labels(function) =~= grown);
    assert forall|i: int, j: int| 0 <= i < j < grown.len() implies grown[i] != grown[j] by {}
}

/// A new function has one block, so no label twice.
pub proof fn law_created_labels_distinct(
    before: ContextView,
    after: ContextView,
    module: Module,
    func: Function,
    name: Seq<char>,
    args: Seq<(Seq<char>, Type, bool, Option<MetadataIndex>)>,
    return_type: Type,
    selector: Option<[u8; 4]>,
    is_public: bool,
    is_entry: bool,
    metadata: Option<MetadataIndex>,
)
    requires
        function_created(
            before,
            after,
            module,
            func,
            name,
            args,
            return_type,
            selector,
            is_public,
            is_entry,
            metadata,
        ),
    ensures
        after.labels(func) == seq!["entry"@],
        labels_differ(after.labels(func)),
{
    assert(after.labels(func) =~= seq!["entry"@]);
}

/// Removing a block from a function whose blocks all have labels of their
/// own leaves it so.
pub proof fn law_removal_keeps_labels_distinct(before: ContextView, function: Function, at: int)
    requires
        before.valid(),
        before.has_function(function),
        0 <= at < before.function(function).blocks.len(),
        labels_differ(before.labels(function)),
    ensures
        ({
            let after = before.with_function(
                function,
                FunctionView {
                    blocks: before.function(function).blocks.remove(at),
                    ..before.function(function)
                },
            );
            &&& after.labels(function) == before.labels(function).remove(at)
            &&& labels_differ(after.labels(function))
        }),
{
    let after = before.with_function(
        function,
        FunctionView {
            blocks: before.function(function).blocks.remove(at),
            ..before.function(function)
        },
    );
    let had = before.labels(function);
    let blocks = before.function(function).blocks;
    assert(before.entity_valid(before.entities[function.0]));
    assert forall|k: int| 0 <= k < had.len() - 1 implies after.labels(function)[k] == had.remove(
        at,
    )[k] by {
        if k < at {
            assert(before.has_block(blocks[k]));
        } else {
            assert(before.has_block(blocks[k + 1]));
        }
    }
    assert(after.labels(function) =~= had.remove(at));
    assert forall|i: int, j: int| 0 <= i < j < had.len() - 1 implies had.remove(at)[i]
        != had.remove(at)[j] by {
        let a = if i < at {
            i
        } else {
            i + 1
        };
        let b = if j < at {
            j
        } else {
            j + 1
        };
        assert(had[a] != had[b]);
    }
}

} // verus!
