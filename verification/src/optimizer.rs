//! Optimization planning: decides which analysis hints become optimizations.

use vstd::prelude::*;

use crate::analyzer::{hint_view, OptimizationHint, SemanticInfo};
use crate::ast::WhitehallFile;

verus! {

/// A file with the optimizations planned for it.
#[derive(Debug)]
pub struct OptimizedAST {
    pub ast: WhitehallFile,
    pub optimizations: Vec<Optimization>,
}

/// An optimization decision.
#[derive(Debug)]
pub enum Optimization {
    /// Render the loop over `collection_name` with a RecyclerView.
    UseRecyclerView { collection_name: String, confidence: u8 },
    /// Render several texts with a single TextView.
    UseSingleTextView { text_node_ids: Vec<usize> },
    /// Draw with the Canvas API directly.
    UseDirectCanvas { component_id: usize },
}

/// The confidence from which a static collection is rendered with a RecyclerView.
pub open spec fn recycler_threshold() -> int {
    80
}

/// The optimizations planned for hints `hs`: one RecyclerView per
/// static-collection hint of confidence at least 80, in order.
pub open spec fn planned(hs: Seq<(Seq<char>, int)>) -> Seq<(Seq<char>, int)>
    decreases hs.len(),
{
    if hs.len() == 0 {
        Seq::empty()
    } else if hs.last().1 >= recycler_threshold() {
        planned(hs.drop_last()).push(hs.last())
    } else {
        planned(hs.drop_last())
    }
}

/// The value of a RecyclerView decision: the collection and the confidence.
pub open spec fn optimization_view(o: Optimization) -> Option<(Seq<char>, int)> {
    match o {
        Optimization::UseRecyclerView { collection_name, confidence } => Some(
            (collection_name@, confidence as int),
        ),
        _ => None,
    }
}

/// Every decision is a RecyclerView decision, and their values are `vs`.
pub open spec fn recycler_decisions(os: Seq<Optimization>, vs: Seq<(Seq<char>, int)>) -> bool {
    &&& os.len() == vs.len()
    &&& forall|i: int| 0 <= i < os.len() ==> optimization_view(#[trigger] os[i]) == Some(vs[i])
}

/// Plans optimizations from the results of semantic analysis.
pub struct Optimizer {
    semantic_info: SemanticInfo,
    optimizations: Vec<Optimization>,
}

impl Optimizer {
    /// No optimization planned yet.
    pub closed spec fn no_plans(&self) -> bool {
        self.optimizations@.len() == 0
    }

    /// The analysis results being planned for.
    pub closed spec fn info(&self) -> SemanticInfo {
        self.semantic_info
    }

    pub fn new(semantic_info: SemanticInfo) -> (r: Self)
        ensures
            r.no_plans(),
            r.info() == semantic_info,
    {
        Optimizer { semantic_info, optimizations: Vec::new() }
    }

    /// Plans the optimizations for `semantic_info` and attaches them to `ast`,
    /// which is kept as it is.
    pub fn optimize(ast: WhitehallFile, semantic_info: SemanticInfo) -> (r: OptimizedAST)
        ensures
            r.ast == ast,
            recycler_decisions(
                r.optimizations@,
                planned(
                    semantic_info.optimization_hints@.map_values(
                        |h: OptimizationHint| hint_view(h),
                    ),
                ),
            ),
    {
        let mut optimizer = Optimizer::new(semantic_info);
        optimizer.plan_optimizations();
        OptimizedAST { ast, optimizations: optimizer.optimizations }
    }

    /// Appends a RecyclerView decision for each static-collection hint whose
    /// confidence is at least 80.
    fn plan_optimizations(&mut self)
        requires
            old(self).optimizations@.len() == 0,
        ensures
            final(self).semantic_info == old(self).semantic_info,
            recycler_decisions(
                final(self).optimizations@,
                planned(
                    old(self).semantic_info.optimization_hints@.map_values(
                        |h: OptimizationHint| hint_view(h),
                    ),
                ),
            ),
    {
        let ghost hs = self.semantic_info.optimization_hints@.map_values(
            |h: OptimizationHint| hint_view(h),
        );
        let mut i: usize = 0;
        while i < self.semantic_info.optimization_hints.len()
            invariant
                self.semantic_info == old(self).semantic_info,
                hs == self.semantic_info.optimization_hints@.map_values(
                    |h: OptimizationHint| hint_view(h),
                ),
                i <= hs.len(),
                recycler_decisions(self.optimizations@, planned(hs.take(i as int))),
            decreases self.semantic_info.optimization_hints.len() - i,
        {
            proof {
                assert(hs.take(i + 1).drop_last() == hs.take(i as int));
                assert(hs.take(i + 1).last() == hs[i as int]);
            }
            match &self.semantic_info.optimization_hints[i] {
                OptimizationHint::StaticCollection { name, confidence } => {
                    if *confidence >= 80 {
                        self.optimizations.push(
                            Optimization::UseRecyclerView {
                                collection_name: name.clone(),
                                confidence: *confidence,
                            },
                        );
                    }
                },
            }
            i = i + 1;
        }
        assert(hs.take(i as int) == hs);
    }

    /// Whether `optimization` is safe to apply (always, for now).
    fn is_safe_to_optimize(&self, optimization: &Optimization) -> (r: bool)
        ensures
            r,
    {
        true
    }
}

/// Planning keeps exactly the hints of confidence at least 80, in their order:
/// each planned value is a hint of at least that confidence.
pub proof fn lemma_planned_are_confident(hs: Seq<(Seq<char>, int)>)
    ensures
        forall|i: int|
            0 <= i < planned(hs).len() ==> planned(hs)[i].1 >= recycler_threshold()
                && hs.contains(#[trigger] planned(hs)[i]),
        planned(hs).len() <= hs.len(),
    decreases hs.len(),
{
    if hs.len() > 0 {
        lemma_planned_are_confident(hs.drop_last());
        let p = planned(hs.drop_last());
        assert forall|i: int| 0 <= i < planned(hs).len() implies planned(hs)[i].1
            >= recycler_threshold() && hs.contains(#[trigger] planned(hs)[i]) by {
            if i < p.len() {
                assert(planned(hs)[i] == p[i]);
                let j = choose|j: int| 0 <= j < hs.drop_last().len() && hs.drop_last()[j] == p[i];
                assert(hs[j] == p[i]);
            } else {
                assert(planned(hs)[i] == hs.last());
                assert(hs[hs.len() - 1] == hs.last());
            }
        }
    }
}

/// Every hint of confidence at least 80 is planned.
pub proof fn lemma_confident_are_planned(hs: Seq<(Seq<char>, int)>, i: int)
    requires
        0 <= i < hs.len(),
        hs[i].1 >= recycler_threshold(),
    ensures
        planned(hs).contains(hs[i]),
    decreases hs.len(),
{
    if i < hs.len() - 1 {
        lemma_confident_are_planned(hs.drop_last(), i);
        let p = planned(hs.drop_last());
        let j = choose|j: int| 0 <= j < p.len() && p[j] == hs[i];
        if hs.last().1 >= recycler_threshold() {
            assert(planned(hs)[j] == hs[i]);
        }
    } else {
        assert(planned(hs).last() == hs[i]);
        assert(planned(hs)[planned(hs).len() - 1] == hs[i]);
    }
}

} // verus!
