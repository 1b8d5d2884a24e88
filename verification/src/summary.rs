//! Totals per category: the counts from which the coverage of a category is
//! computed, summed over its records before any division.

use crate::text::same_text;
use crate::types::{
    implemented_among, lemma_implemented_at_most_tracked, AnalysisResult, CoverageRecord,
};
use vstd::prelude::*;

verus! {

/// The totals of one category.
#[derive(Debug, Clone, Copy, PartialEq, Eq)]
pub struct CategorySummary {
    /// How many records the category has.
    pub classes: usize,
    /// How many methods those records track.
    pub tracked_methods: usize,
    /// How many of these are implemented.
    pub implemented_methods: usize,
}

/// What a [`CategorySummary`] holds.
pub struct CategoryTotals {
    pub classes: nat,
    pub tracked_methods: nat,
    pub implemented_methods: nat,
}

impl View for CategorySummary {
    type V = CategoryTotals;

    open spec fn view(&self) -> CategoryTotals {
        CategoryTotals {
            classes: self.classes as nat,
            tracked_methods: self.tracked_methods as nat,
            implemented_methods: self.implemented_methods as nat,
        }
    }
}

/// The totals over the records of the given category.
pub open spec fn category_totals(records: Seq<CoverageRecord>, class_type: Seq<char>)
    -> CategoryTotals
    decreases records.len(),
{
    if records.len() == 0 {
        CategoryTotals { classes: 0, tracked_methods: 0, implemented_methods: 0 }
    } else {
        let rest = category_totals(records.drop_last(), class_type);
        if records.last().class_type == class_type {
            CategoryTotals {
                classes: rest.classes + 1,
                tracked_methods: rest.tracked_methods + records.last().methods.len(),
                implemented_methods: rest.implemented_methods + implemented_among(
                    records.last().methods,
                ),
            }
        } else {
            rest
        }
    }
}

/// A category has no more records than there are, and no more implemented
/// methods than tracked ones.
pub proof fn lemma_category_totals_bounds(records: Seq<CoverageRecord>, class_type: Seq<char>)
    ensures
        category_totals(records, class_type).classes <= records.len(),
        category_totals(records, class_type).implemented_methods <= category_totals(
            records,
            class_type,
        ).tracked_methods,
    decreases records.len(),
{
    if records.len() > 0 {
        lemma_category_totals_bounds(records.drop_last(), class_type);
        lemma_implemented_at_most_tracked(records.last().methods);
    }
}

/// The totals of a longer list of records are no smaller.
pub proof fn lemma_category_totals_grow(
    records: Seq<CoverageRecord>,
    class_type: Seq<char>,
    upto: int,
)
    requires
        0 <= upto <= records.len(),
    ensures
        category_totals(records.take(upto), class_type).tracked_methods <= category_totals(
            records,
            class_type,
        ).tracked_methods,
    decreases records.len() - upto,
{
    if upto < records.len() {
        assert(records.take(upto + 1).drop_last() =~= records.take(upto));
        lemma_category_totals_grow(records, class_type, upto + 1);
    } else {
        assert(records.take(upto) =~= records);
    }
}

impl AnalysisResult {
    /// The totals of one category, or `None` where the number of tracked
    /// methods does not fit the machine word.
    pub fn summarize(&self, class_type: &str) -> (summary: Option<CategorySummary>)
        ensures
            match summary {
                Some(totals) => totals@ == category_totals(self@, class_type@),
                None => category_totals(self@, class_type@).tracked_methods > usize::MAX,
            },
    {
        let mut totals = CategorySummary { classes: 0, tracked_methods: 0, implemented_methods: 0 };
        let mut i: usize = 0;
        assert(self@.take(0) =~= Seq::empty());
        while i < self.classes.len()
            invariant
                i <= self.classes@.len(),
                totals@ == category_totals(self@.take(i as int), class_type@),
            decreases self.classes@.len() - i,
        {
            let ghost seen = self@.take(i + 1);
            assert(seen.drop_last() =~= self@.take(i as int));
            assert(seen.last() == self.classes@[i as int]@);
            proof {
                lemma_category_totals_bounds(seen, class_type@);
                lemma_category_totals_bounds(seen.drop_last(), class_type@);
                lemma_category_totals_grow(self@, class_type@, i + 1);
            }
            let record = &self.classes[i];
            if same_text(record.class_type.as_str(), class_type) {
                let implemented = record.implemented_count();
                match totals.tracked_methods.checked_add(record.tracked_count()) {
                    Some(sum) => {
                        totals =
                        CategorySummary {
                            classes: totals.classes + 1,
                            tracked_methods: sum,
                            implemented_methods: totals.implemented_methods + implemented,
                        };
                    },
                    None => {
                        return None;
                    },
                }
            }
            i += 1;
        }
        assert(self@.take(i as int) =~= self@);
        Some(totals)
    }
}

} // verus!
