//! Block labels: a function gives each block that it creates a label that
//! none of its blocks has.

use crate::context::Context;
use crate::function::{Function, FunctionView};
use crate::text::{
    decimal, hint_view, label_candidate, label_issued, lemma_decimal_nonempty,
    lemma_long_labels_bound, lemma_long_labels_shrink, long_labels, push_decimal, with_decimal,
};
use vstd::prelude::*;

verus! {

/// No label twice.
pub open spec fn labels_differ(labels: Seq<Seq<char>>) -> bool {
    forall|i: int, j: int| 0 <= i < j < labels.len() ==> labels[i] != labels[j]
}

impl Function {
    /// Whether one of the function's blocks has this label.
    fn label_in_use(&self, context: &Context, candidate: &String) -> (used: bool)
        requires
            context@.valid(),
            context@.has_function(*self),
        ensures
            used == context@.labels(*self).contains(candidate@),
    {
        let blocks = &context.function(*self).blocks;
        let mut k: usize = 0;
        while k < blocks.len()
            invariant
                k <= blocks.len(),
                blocks@ == context@.function(*self).blocks,
                context@.valid(),
                context@.has_function(*self),
                forall|j: int| 0 <= j < k ==> context@.labels(*self)[j] != candidate@,
            decreases blocks.len() - k,
        {
            let content = context.block(blocks[k]);
            if content.label == *candidate {
                assert(context@.labels(*self)[k as int] == candidate@);
                return true;
            }
            k += 1;
        }
        false
    }

    /// Take the next number of the function's label counter.
    fn get_next_label_idx(&self, context: &mut Context) -> (idx: u64)
        requires
            old(context)@.has_function(*self),
            old(context)@.function(*self).next_label_idx < u64::MAX,
        ensures
            idx == old(context)@.function(*self).next_label_idx,
            final(context)@ == old(context)@.with_function(
                *self,
                FunctionView { next_label_idx: idx as nat + 1, ..old(context)@.function(*self) },
            ),
    {
        let func = context.function_mut(*self);
        let idx = func.next_label_idx;
        func.next_label_idx = idx + 1;
        idx
    }

    /// Get a new unique block label.
    ///
    /// Without a hint the label is `"blockN"`, where `N` is taken from the
    /// function's counter. A hint that no block of the function has as its
    /// label is returned as it is. Whenever the candidate is taken, the next
    /// number of the counter is appended to it, until it is free.
    pub fn get_unique_label(&self, context: &mut Context, hint: Option<String>) -> (label: String)
        requires
            old(context)@.valid(),
            old(context)@.has_function(*self),
            old(context)@.can_label(*self),
        ensures
            final(context)@ == old(context)@.with_function(
                *self,
                FunctionView {
                    next_label_idx: final(context)@.function(*self).next_label_idx,
                    ..old(context)@.function(*self)
                },
            ),
            label_issued(
                old(context)@.labels(*self),
                hint_view(hint),
                old(context)@.function(*self).next_label_idx,
                final(context)@.function(*self).next_label_idx,
                label@,
            ),
    {
        let ghost labels = context@.labels(*self);
        let ghost entry = context@.function(*self);
        proof {
            lemma_long_labels_bound(labels, 0);
        }
        let mut candidate = match hint {
            Some(h) => h,
            None => {
                let idx = self.get_next_label_idx(context);
                with_decimal("block", idx)
            },
        };
        let ghost seed = candidate@;
        let ghost start = context@.function(*self).next_label_idx;
        let ghost mut k: nat = 0;
        proof {
            lemma_long_labels_bound(labels, candidate@.len());
            assert(context@.entities =~= old(context)@.with_function(
                *self,
                FunctionView { next_label_idx: start, ..entry },
            ).entities);
        }
        while self.label_in_use(context, &candidate)
            invariant
                context@.valid(),
                context@.has_function(*self),
                context@ == old(context)@.with_function(
                    *self,
                    FunctionView { next_label_idx: start + k, ..entry },
                ),
                entry == old(context)@.function(*self),
                old(context)@.has_function(*self),
                context@.labels(*self) == labels,
                candidate@ == label_candidate(seed, start, k),
                forall|j: nat| j < k ==> labels.contains(#[trigger] label_candidate(seed, start, j)),
                start + k + long_labels(labels, candidate@.len()) <= u64::MAX,
            decreases long_labels(labels, candidate@.len()),
        {
            let ghost taken = candidate@;
            proof {
                lemma_decimal_nonempty(start + k);
                lemma_long_labels_shrink(
                    labels,
                    taken,
                    taken.len() + decimal(start + k).len(),
                );
            }
            let idx = self.get_next_label_idx(context);
            push_decimal(&mut candidate, idx);
            proof {
                k = k + 1;
                assert(context@.entities =~= old(context)@.with_function(
                    *self,
                    FunctionView { next_label_idx: start + k, ..entry },
                ).entities);
            }
        }
        candidate
    }
}

} // verus!
