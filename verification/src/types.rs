//! The records that flow between extraction, analysis and reporting, each with
//! the mathematical value that contracts speak of.

use vstd::prelude::*;

verus! {

/// One extracted type as it is handed on to the analysis.
#[derive(Debug, Clone, PartialEq, Eq)]
pub struct ClassMethods {
    pub class_name: String,
    pub class_type: String,
    pub methods: Vec<String>,
    pub is_real_class: bool,
}

/// What a [`ClassMethods`] holds.
pub struct ClassSummary {
    pub class_name: Seq<char>,
    /// The category tag; empty until one is assigned.
    pub class_type: Seq<char>,
    pub methods: Seq<Seq<char>>,
    /// Concrete: no declaration of the same corpus names this type as an ancestor.
    pub is_real_class: bool,
}

impl View for ClassMethods {
    type V = ClassSummary;

    open spec fn view(&self) -> ClassSummary {
        ClassSummary {
            class_name: self.class_name@,
            class_type: self.class_type@,
            methods: self.methods.deep_view(),
            is_real_class: self.is_real_class,
        }
    }
}

impl DeepView for ClassMethods {
    type V = ClassSummary;

    open spec fn deep_view(&self) -> ClassSummary {
        self@
    }
}

/// One parsed type with the methods and ancestors seen for it so far.
#[derive(Debug, Clone, PartialEq, Eq)]
pub struct ClassInfo {
    pub name: String,
    pub methods: Vec<String>,
    pub extends: Option<String>,
    pub implements: Vec<String>,
}

/// What a [`ClassInfo`] holds.
pub struct Declaration {
    pub name: Seq<char>,
    /// Method names in the order in which they were first seen.
    pub methods: Seq<Seq<char>>,
    pub extends: Option<Seq<char>>,
    /// Interface names in the order in which they were first seen.
    pub implements: Seq<Seq<char>>,
}

impl View for ClassInfo {
    type V = Declaration;

    open spec fn view(&self) -> Declaration {
        Declaration {
            name: self.name@,
            methods: self.methods.deep_view(),
            extends: self.extends.deep_view(),
            implements: self.implements.deep_view(),
        }
    }
}

impl DeepView for ClassInfo {
    type V = Declaration;

    open spec fn deep_view(&self) -> Declaration {
        self@
    }
}

/// Whether a tracked method has a counterpart in the reimplementation.
#[derive(Debug, Clone, Copy, PartialEq, Eq, Structural)]
pub enum ImplementationStatus {
    Implemented,
    NotImplemented,
}

/// The status of one tracked method.
#[derive(Debug, Clone, PartialEq, Eq)]
pub struct MethodTracking {
    pub method_name: String,
    pub status: ImplementationStatus,
}

/// What a [`MethodTracking`] holds.
pub struct MethodRecord {
    pub method_name: Seq<char>,
    pub status: ImplementationStatus,
}

impl View for MethodTracking {
    type V = MethodRecord;

    open spec fn view(&self) -> MethodRecord {
        MethodRecord { method_name: self.method_name@, status: self.status }
    }
}

impl DeepView for MethodTracking {
    type V = MethodRecord;

    open spec fn deep_view(&self) -> MethodRecord {
        self@
    }
}

/// The coverage of one reference type: its tracked methods, each with a status.
#[derive(Debug, Clone, PartialEq, Eq)]
pub struct ClassTracking {
    pub class_name: String,
    pub class_type: String,
    pub methods: Vec<MethodTracking>,
}

/// What a [`ClassTracking`] holds.
pub struct CoverageRecord {
    pub class_name: Seq<char>,
    pub class_type: Seq<char>,
    pub methods: Seq<MethodRecord>,
}

impl View for ClassTracking {
    type V = CoverageRecord;

    open spec fn view(&self) -> CoverageRecord {
        CoverageRecord {
            class_name: self.class_name@,
            class_type: self.class_type@,
            methods: self.methods.deep_view(),
        }
    }
}

impl DeepView for ClassTracking {
    type V = CoverageRecord;

    open spec fn deep_view(&self) -> CoverageRecord {
        self@
    }
}

/// How many of `methods` are implemented.
pub open spec fn implemented_among(methods: Seq<MethodRecord>) -> nat
    decreases methods.len(),
{
    if methods.len() == 0 {
        0
    } else {
        implemented_among(methods.drop_last()) + if methods.last().status
            == ImplementationStatus::Implemented {
            1nat
        } else {
            0nat
        }
    }
}

/// No more methods are implemented than are tracked.
pub proof fn lemma_implemented_at_most_tracked(methods: Seq<MethodRecord>)
    ensures
        implemented_among(methods) <= methods.len(),
    decreases methods.len(),
{
    if methods.len() > 0 {
        lemma_implemented_at_most_tracked(methods.drop_last());
    }
}

impl ClassTracking {
    /// The number of tracked methods: the denominator of the coverage ratio.
    pub fn tracked_count(&self) -> (total: usize)
        ensures
            total == self@.methods.len(),
    {
        self.methods.len()
    }

    /// The number of tracked methods that are implemented: the numerator of the
    /// coverage ratio.
    pub fn implemented_count(&self) -> (done: usize)
        ensures
            done == implemented_among(self@.methods),
    {
        let mut done: usize = 0;
        let mut i: usize = 0;
        while i < self.methods.len()
            invariant
                i <= self.methods@.len(),
                done == implemented_among(self@.methods.take(i as int)),
                done <= i,
            decreases self.methods@.len() - i,
        {
            assert(self@.methods.take(i + 1).drop_last() =~= self@.methods.take(i as int));
            if self.methods[i].status == ImplementationStatus::Implemented {
                done += 1;
            }
            i += 1;
        }
        assert(self@.methods.take(i as int) =~= self@.methods);
        done
    }
}

/// The report: one record per covered type, ordered by type name.
#[derive(Debug, Clone, PartialEq, Eq)]
pub struct AnalysisResult {
    pub classes: Vec<ClassTracking>,
}

impl View for AnalysisResult {
    type V = Seq<CoverageRecord>;

    open spec fn view(&self) -> Seq<CoverageRecord> {
        self.classes.deep_view()
    }
}

} // verus!
