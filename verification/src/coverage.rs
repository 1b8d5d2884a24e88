//! The coverage analyzer: which tracked methods of each concrete reference
//! type the reimplementation has, reported in the order of the type names.

use crate::category::{AI_BRAIN, AI_GOAL, BLOCK, ITEM};
use crate::name_list::{clone_names, contains_name};
use crate::string_map::{listed, StringMap};
use crate::text::{
    lemma_bytes_precede_irreflexive, lemma_bytes_precede_total, lemma_bytes_precede_transitive,
    lowercase_of, name_precedes, precedes, same_text, to_lowercase,
};
use crate::types::{
    AnalysisResult, ClassMethods, ClassSummary, ClassTracking, CoverageRecord,
    ImplementationStatus, MethodRecord, MethodTracking,
};
use vstd::prelude::*;
use vstd::utf8::encode_utf8;

verus! {

/// What a method equivalence table says of a tracked method.
#[derive(Debug, Clone, PartialEq, Eq)]
pub enum CoverageTarget {
    /// The reimplementation has the capability, under this name.
    Mapped(String),
    /// A known gap: the reimplementation has no such method yet.
    KnownGap,
}

/// What a [`CoverageTarget`] holds.
pub enum Equivalent {
    Mapped(Seq<char>),
    KnownGap,
}

impl View for CoverageTarget {
    type V = Equivalent;

    open spec fn view(&self) -> Equivalent {
        match self {
            CoverageTarget::Mapped(name) => Equivalent::Mapped(name@),
            CoverageTarget::KnownGap => Equivalent::KnownGap,
        }
    }
}

impl DeepView for CoverageTarget {
    type V = Equivalent;

    open spec fn deep_view(&self) -> Equivalent {
        self@
    }
}

/// A method equivalence table: from reference method to what the
/// reimplementation offers for it. A method that the table lacks is not
/// tracked.
pub type MethodTable = StringMap<CoverageTarget>;

/// The method equivalence tables, one per group of categories.
pub struct MethodTables {
    pub block: MethodTable,
    pub item: MethodTable,
    pub entity: MethodTable,
    pub goal: MethodTable,
}

/// What a [`MethodTables`] holds.
pub struct Equivalences {
    pub block: Map<Seq<char>, Equivalent>,
    pub item: Map<Seq<char>, Equivalent>,
    pub entity: Map<Seq<char>, Equivalent>,
    pub goal: Map<Seq<char>, Equivalent>,
}

impl View for MethodTables {
    type V = Equivalences;

    open spec fn view(&self) -> Equivalences {
        Equivalences {
            block: self.block@,
            item: self.item@,
            entity: self.entity@,
            goal: self.goal@,
        }
    }
}

/// The table that applies to a category: blocks and items have their own,
/// goals and brain parts share one, and every other category goes by the
/// entity table.
pub open spec fn table_for(tables: Equivalences, class_type: Seq<char>) -> Map<
    Seq<char>,
    Equivalent,
> {
    if class_type == BLOCK@ {
        tables.block
    } else if class_type == ITEM@ {
        tables.item
    } else if class_type == AI_GOAL@ || class_type == AI_BRAIN@ {
        tables.goal
    } else {
        tables.entity
    }
}

impl MethodTables {
    /// The table that applies to a category.
    pub fn select(&self, class_type: &str) -> (table: &MethodTable)
        ensures
            table@ == table_for(self@, class_type@),
    {
        if same_text(class_type, BLOCK) {
            &self.block
        } else if same_text(class_type, ITEM) {
            &self.item
        } else if same_text(class_type, AI_GOAL) || same_text(class_type, AI_BRAIN) {
            &self.goal
        } else {
            &self.entity
        }
    }
}

/// The index of the reimplementation's types: from the lower-case form of each
/// type name to the methods of the type, a later type of the same key replacing
/// an earlier one.
pub open spec fn target_index(classes: Seq<ClassSummary>) -> Map<Seq<char>, Seq<Seq<char>>>
    decreases classes.len(),
{
    if classes.len() == 0 {
        Map::empty()
    } else {
        target_index(classes.drop_last()).insert(
            lowercase_of(classes.last().class_name),
            classes.last().methods,
        )
    }
}

/// Builds the index of the reimplementation's types.
pub fn index_targets(classes: &Vec<ClassMethods>) -> (index: StringMap<Vec<String>>)
    ensures
        index@ == target_index(classes.deep_view()),
{
    let mut index: StringMap<Vec<String>> = StringMap::new();
    let mut i: usize = 0;
    assert(classes.deep_view().take(0) =~= Seq::empty());
    while i < classes.len()
        invariant
            i <= classes@.len(),
            index@ == target_index(classes.deep_view().take(i as int)),
        decreases classes@.len() - i,
    {
        let ghost seen = classes.deep_view().take(i + 1);
        assert(seen.drop_last() =~= classes.deep_view().take(i as int));
        assert(seen.last() == classes@[i as int]@);
        let class = &classes[i];
        index.insert(to_lowercase(class.class_name.as_str()), clone_names(&class.methods));
        i += 1;
    }
    assert(classes.deep_view().take(i as int) =~= classes.deep_view());
    index
}

/// The method set reached from a reference class through a class mapping: the
/// methods of the type that the mapping names, looked up under the lower-case
/// form of that name. Empty where the mapping or the index has no entry.
pub open spec fn methods_via(
    mapping: Map<Seq<char>, Seq<char>>,
    class_name: Seq<char>,
    targets: Map<Seq<char>, Seq<Seq<char>>>,
) -> Seq<Seq<char>> {
    if mapping.contains_key(class_name) {
        listed(targets, lowercase_of(mapping[class_name]))
    } else {
        Seq::empty()
    }
}

/// What the analyzer works from.
pub struct Analyzer {
    pub tables: MethodTables,
    /// From reference class to reimplementing type, for the block family.
    pub block_mapping: StringMap<String>,
    /// From reference class to reimplementing type, for the item family.
    pub item_mapping: StringMap<String>,
    /// The reimplementation's types, as [`index_targets`] builds them.
    pub targets: StringMap<Vec<String>>,
}

/// What an [`Analyzer`] holds.
pub struct References {
    pub tables: Equivalences,
    pub block_mapping: Map<Seq<char>, Seq<char>>,
    pub item_mapping: Map<Seq<char>, Seq<char>>,
    pub targets: Map<Seq<char>, Seq<Seq<char>>>,
}

impl View for Analyzer {
    type V = References;

    open spec fn view(&self) -> References {
        References {
            tables: self.tables@,
            block_mapping: self.block_mapping@,
            item_mapping: self.item_mapping@,
            targets: self.targets@,
        }
    }
}

/// The methods of the reimplementation's counterpart of a reference class:
/// found through the class mapping of the family for blocks and items, and
/// under the lower-case form of the class's own name for every other category.
/// Empty where a step finds nothing.
pub open spec fn target_methods(refs: References, class: ClassSummary) -> Seq<Seq<char>> {
    if class.class_type == BLOCK@ {
        methods_via(refs.block_mapping, class.class_name, refs.targets)
    } else if class.class_type == ITEM@ {
        methods_via(refs.item_mapping, class.class_name, refs.targets)
    } else {
        listed(refs.targets, lowercase_of(class.class_name))
    }
}

/// The status of a tracked method: implemented when the table names an
/// equivalent and the counterpart has a method of that name.
pub open spec fn status_of(target: Equivalent, available: Seq<Seq<char>>) -> ImplementationStatus {
    match target {
        Equivalent::Mapped(name) => if available.contains(name) {
            ImplementationStatus::Implemented
        } else {
            ImplementationStatus::NotImplemented
        },
        Equivalent::KnownGap => ImplementationStatus::NotImplemented,
    }
}

/// The tracked ones among `methods`, in order, each with its status.
pub open spec fn tracked_methods(
    methods: Seq<Seq<char>>,
    table: Map<Seq<char>, Equivalent>,
    available: Seq<Seq<char>>,
) -> Seq<MethodRecord>
    decreases methods.len(),
{
    if methods.len() == 0 {
        Seq::empty()
    } else if table.contains_key(methods.last()) {
        tracked_methods(methods.drop_last(), table, available).push(
            MethodRecord {
                method_name: methods.last(),
                status: status_of(table[methods.last()], available),
            },
        )
    } else {
        tracked_methods(methods.drop_last(), table, available)
    }
}

/// The coverage record of a class, if it has one: an abstract base has none,
/// and neither has a class without a tracked method.
pub open spec fn coverage_of(refs: References, class: ClassSummary) -> Option<CoverageRecord> {
    let methods = tracked_methods(
        class.methods,
        table_for(refs.tables, class.class_type),
        target_methods(refs, class),
    );
    if class.is_real_class && methods.len() > 0 {
        Some(
            CoverageRecord {
                class_name: class.class_name,
                class_type: class.class_type,
                methods,
            },
        )
    } else {
        None
    }
}

/// The coverage records of the classes that have one, in the order of the classes.
pub open spec fn coverage_records(refs: References, classes: Seq<ClassSummary>) -> Seq<
    CoverageRecord,
>
    decreases classes.len(),
{
    if classes.len() == 0 {
        Seq::empty()
    } else {
        match coverage_of(refs, classes.last()) {
            Some(record) => coverage_records(refs, classes.drop_last()).push(record),
            None => coverage_records(refs, classes.drop_last()),
        }
    }
}

/// `sorted` with `record` put in before the run of records at the end whose
/// names come after its own: in an ordered list, after every record whose name
/// does not come after the record's.
pub open spec fn insert_by_name(sorted: Seq<CoverageRecord>, record: CoverageRecord) -> Seq<
    CoverageRecord,
>
    decreases sorted.len(),
{
    if sorted.len() == 0 || !name_precedes(record.class_name, sorted.last().class_name) {
        sorted.push(record)
    } else {
        insert_by_name(sorted.drop_last(), record).push(sorted.last())
    }
}

/// The records in ascending order of class name; records of the same name
/// stay in the order in which they came.
pub open spec fn sorted_by_name(records: Seq<CoverageRecord>) -> Seq<CoverageRecord>
    decreases records.len(),
{
    if records.len() == 0 {
        Seq::empty()
    } else {
        insert_by_name(sorted_by_name(records.drop_last()), records.last())
    }
}

/// No record comes before one whose name precedes its own.
pub open spec fn ordered_by_name(records: Seq<CoverageRecord>) -> bool {
    forall|i: int, j: int|
        0 <= i < j < records.len() ==> !name_precedes(
            (#[trigger] records[j]).class_name,
            (#[trigger] records[i]).class_name,
        )
}

/// The report: the coverage records of the classes, ordered by class name.
/// It is a function of what the analyzer holds and of the classes alone, so
/// that two runs on the same inputs report the same.
pub open spec fn report(refs: References, classes: Seq<ClassSummary>) -> Seq<CoverageRecord> {
    sorted_by_name(coverage_records(refs, classes))
}

/// Methods of which the table holds none yield no tracked method.
pub proof fn lemma_untracked_methods(
    methods: Seq<Seq<char>>,
    table: Map<Seq<char>, Equivalent>,
    available: Seq<Seq<char>>,
)
    requires
        forall|i: int| 0 <= i < methods.len() ==> !table.contains_key(#[trigger] methods[i]),
    ensures
        tracked_methods(methods, table, available) == Seq::<MethodRecord>::empty(),
    decreases methods.len(),
{
    if methods.len() > 0 {
        assert(!table.contains_key(methods[methods.len() - 1]));
        assert forall|i: int| 0 <= i < methods.drop_last().len() implies !table.contains_key(
            #[trigger] methods.drop_last()[i],
        ) by {
            assert(methods.drop_last()[i] == methods[i]);
        }
        lemma_untracked_methods(methods.drop_last(), table, available);
    }
}

/// A class none of whose methods is a key of the table of its category has no
/// coverage record.
pub proof fn lemma_untracked_class_has_no_record(refs: References, class: ClassSummary)
    requires
        forall|i: int|
            0 <= i < class.methods.len() ==> !table_for(
                refs.tables,
                class.class_type,
            ).contains_key(#[trigger] class.methods[i]),
    ensures
        coverage_of(refs, class) is None,
{
    lemma_untracked_methods(
        class.methods,
        table_for(refs.tables, class.class_type),
        target_methods(refs, class),
    );
}

/// Every tracked method is a method of the class and a key of the table, and
/// carries the status that the table and the counterpart give it.
pub proof fn lemma_tracked_methods(
    methods: Seq<Seq<char>>,
    table: Map<Seq<char>, Equivalent>,
    available: Seq<Seq<char>>,
    at: int,
)
    requires
        0 <= at < tracked_methods(methods, table, available).len(),
    ensures
        methods.contains(tracked_methods(methods, table, available)[at].method_name),
        table.contains_key(tracked_methods(methods, table, available)[at].method_name),
        tracked_methods(methods, table, available)[at].status == status_of(
            table[tracked_methods(methods, table, available)[at].method_name],
            available,
        ),
    decreases methods.len(),
{
    if methods.len() > 0 {
        let rest = tracked_methods(methods.drop_last(), table, available);
        if at < rest.len() {
            lemma_tracked_methods(methods.drop_last(), table, available, at);
            let name = rest[at].method_name;
            let front = methods.drop_last();
            let i = choose|i: int| 0 <= i < front.len() && front[i] == name;
            assert(methods[i] == name);
        } else {
            assert(methods[methods.len() - 1] == methods.last());
        }
    }
}

/// Every coverage record stems from one of the classes: a class without a
/// record leaves no trace.
pub proof fn lemma_record_origin(refs: References, classes: Seq<ClassSummary>, at: int)
    requires
        0 <= at < coverage_records(refs, classes).len(),
    ensures
        exists|i: int|
            0 <= i < classes.len() && coverage_of(refs, #[trigger] classes[i]) == Some(
                coverage_records(refs, classes)[at],
            ),
    decreases classes.len(),
{
    if classes.len() > 0 {
        let rest = coverage_records(refs, classes.drop_last());
        if at < rest.len() {
            lemma_record_origin(refs, classes.drop_last(), at);
            let i = choose|i: int|
                0 <= i < classes.drop_last().len() && coverage_of(
                    refs,
                    #[trigger] classes.drop_last()[i],
                ) == Some(rest[at]);
            assert(classes[i] == classes.drop_last()[i]);
        } else {
            assert(classes[classes.len() - 1] == classes.last());
        }
    }
}

/// Where a record goes when it is put into an ordered list: `at` is the place
/// when every record from there on has a name that comes after the record's
/// own and the one before has not.
proof fn lemma_insert_at(sorted: Seq<CoverageRecord>, record: CoverageRecord, at: int)
    requires
        0 <= at <= sorted.len(),
        forall|j: int|
            at <= j < sorted.len() ==> name_precedes(
                record.class_name,
                (#[trigger] sorted[j]).class_name,
            ),
        at > 0 ==> !name_precedes(record.class_name, sorted[at - 1].class_name),
    ensures
        insert_by_name(sorted, record) == sorted.insert(at, record),
    decreases sorted.len() - at,
{
    if at == sorted.len() {
        assert(sorted.insert(at, record) =~= sorted.push(record));
    } else {
        assert(name_precedes(record.class_name, sorted[sorted.len() - 1].class_name));
        let front = sorted.drop_last();
        assert forall|j: int| at <= j < front.len() implies name_precedes(
            record.class_name,
            (#[trigger] front[j]).class_name,
        ) by {
            assert(front[j] == sorted[j]);
        }
        lemma_insert_at(front, record, at);
        assert(front.insert(at, record).push(sorted.last()) =~= sorted.insert(at, record));
    }
}

/// Putting a record into an ordered list leaves the list ordered, and adds the
/// record to what the list holds.
pub proof fn lemma_insert_by_name(sorted: Seq<CoverageRecord>, record: CoverageRecord)
    requires
        ordered_by_name(sorted),
    ensures
        ordered_by_name(insert_by_name(sorted, record)),
        insert_by_name(sorted, record).to_multiset() == sorted.to_multiset().insert(record),
        insert_by_name(sorted, record).len() == sorted.len() + 1,
    decreases sorted.len(),
{
    let after = insert_by_name(sorted, record);
    broadcast use vstd::seq_lib::group_to_multiset_ensures;

    if sorted.len() == 0 || !name_precedes(record.class_name, sorted.last().class_name) {
        assert forall|i: int, j: int| 0 <= i < j < after.len() implies !name_precedes(
            (#[trigger] after[j]).class_name,
            (#[trigger] after[i]).class_name,
        ) by {
            if j == sorted.len() {
                // The new record is last; by the order of `sorted`, a name that
                // came before `after[i]` would come before the old last too.
                let last = sorted.last();
                if name_precedes(record.class_name, after[i].class_name) {
                    if i < sorted.len() - 1 {
                        assert(!name_precedes(last.class_name, sorted[i].class_name));
                        lemma_not_before_chain(
                            record.class_name,
                            sorted[i].class_name,
                            last.class_name,
                        );
                    }
                }
            } else {
                assert(after[i] == sorted[i] && after[j] == sorted[j]);
            }
        }
    } else {
        let front = sorted.drop_last();
        let last = sorted.last();
        assert forall|i: int, j: int| 0 <= i < j < front.len() implies !name_precedes(
            (#[trigger] front[j]).class_name,
            (#[trigger] front[i]).class_name,
        ) by {
            assert(front[i] == sorted[i] && front[j] == sorted[j]);
        }
        lemma_insert_by_name(front, record);
        let inner = insert_by_name(front, record);
        assert(sorted =~= front.push(last));
        assert forall|i: int, j: int| 0 <= i < j < after.len() implies !name_precedes(
            (#[trigger] after[j]).class_name,
            (#[trigger] after[i]).class_name,
        ) by {
            if j == inner.len() {
                // `after[i]` is the new record or one of `front`.
                assert(inner.to_multiset().count(inner[i]) > 0);
                if inner[i] != record {
                    assert(front.to_multiset().count(inner[i]) > 0);
                    let k = choose|k: int| 0 <= k < front.len() && front[k] == inner[i];
                    assert(sorted[k] == front[k]);
                    assert(sorted[sorted.len() - 1] == last);
                } else {
                    lemma_precedes_asymmetric(record.class_name, last.class_name);
                }
            } else {
                assert(after[i] == inner[i] && after[j] == inner[j]);
            }
        }
    }
}

/// Of two names at most one precedes the other.
pub proof fn lemma_precedes_asymmetric(a: Seq<char>, b: Seq<char>)
    requires
        name_precedes(a, b),
    ensures
        !name_precedes(b, a),
{
    if name_precedes(b, a) {
        lemma_bytes_precede_transitive(encode_utf8(a), encode_utf8(b), encode_utf8(a));
        lemma_bytes_precede_irreflexive(encode_utf8(a));
    }
}

/// A name that precedes `b` precedes every name that `b` does not come after.
proof fn lemma_not_before_chain(a: Seq<char>, b: Seq<char>, c: Seq<char>)
    requires
        name_precedes(a, b),
        !name_precedes(c, b),
    ensures
        name_precedes(a, c),
{
    lemma_bytes_precede_total(encode_utf8(b), encode_utf8(c));
    if encode_utf8(b) != encode_utf8(c) {
        lemma_bytes_precede_transitive(encode_utf8(a), encode_utf8(b), encode_utf8(c));
    }
}

/// The sorted records are in ascending order of name and are the records that
/// were given, each as often as it was given.
pub proof fn lemma_sorted_by_name(records: Seq<CoverageRecord>)
    ensures
        ordered_by_name(sorted_by_name(records)),
        sorted_by_name(records).to_multiset() == records.to_multiset(),
        sorted_by_name(records).len() == records.len(),
    decreases records.len(),
{
    broadcast use vstd::seq_lib::group_to_multiset_ensures;

    if records.len() > 0 {
        lemma_sorted_by_name(records.drop_last());
        lemma_insert_by_name(sorted_by_name(records.drop_last()), records.last());
        assert(records =~= records.drop_last().push(records.last()));
    }
}

/// Puts `record` into a list of records, before the run of records at the end
/// whose names come after its own; a list ordered by class name stays ordered.
pub fn place_by_name(sorted: &mut Vec<ClassTracking>, record: ClassTracking)
    ensures
        final(sorted).deep_view() == insert_by_name(old(sorted).deep_view(), record@),
        ordered_by_name(old(sorted).deep_view()) ==> ordered_by_name(final(sorted).deep_view()),
{
    let mut at: usize = sorted.len();
    while at > 0 && precedes(record.class_name.as_str(), sorted[at - 1].class_name.as_str())
        invariant
            at <= sorted@.len(),
            sorted == old(sorted),
            forall|j: int|
                at <= j < sorted@.len() ==> name_precedes(
                    record@.class_name,
                    (#[trigger] sorted.deep_view()[j]).class_name,
                ),
        decreases at,
    {
        at -= 1;
    }
    proof {
        lemma_insert_at(sorted.deep_view(), record@, at as int);
        if ordered_by_name(sorted.deep_view()) {
            lemma_insert_by_name(sorted.deep_view(), record@);
        }
    }
    sorted.insert(at, record);
    assert(sorted.deep_view() =~= old(sorted).deep_view().insert(at as int, record@));
}

impl Analyzer {
    /// The methods reached through a class mapping.
    fn methods_via(&self, mapping: &StringMap<String>, class_name: &str) -> (methods: Vec<String>)
        ensures
            methods.deep_view() == methods_via(mapping@, class_name@, self@.targets),
    {
        match mapping.get(class_name) {
            Some(implementing) => self.methods_named(implementing.as_str()),
            None => {
                let none: Vec<String> = Vec::new();
                assert(none.deep_view() =~= Seq::empty());
                none
            },
        }
    }

    /// The methods of the reimplementation's type of that name.
    fn methods_named(&self, target_name: &str) -> (methods: Vec<String>)
        ensures
            methods.deep_view() == listed(self@.targets, lowercase_of(target_name@)),
    {
        let key = to_lowercase(target_name);
        match self.targets.get(key.as_str()) {
            Some(found) => clone_names(found),
            None => {
                let none: Vec<String> = Vec::new();
                assert(none.deep_view() =~= Seq::empty());
                none
            },
        }
    }

    /// The methods of the reimplementation's counterpart of a reference class.
    pub fn resolve(&self, class: &ClassMethods) -> (methods: Vec<String>)
        ensures
            methods.deep_view() == target_methods(self@, class@),
    {
        if same_text(class.class_type.as_str(), BLOCK) {
            self.methods_via(&self.block_mapping, class.class_name.as_str())
        } else if same_text(class.class_type.as_str(), ITEM) {
            self.methods_via(&self.item_mapping, class.class_name.as_str())
        } else {
            self.methods_named(class.class_name.as_str())
        }
    }

    /// The coverage record of one class, if it has one.
    pub fn track(&self, class: &ClassMethods) -> (record: Option<ClassTracking>)
        ensures
            record.deep_view() == coverage_of(self@, class@),
    {
        if !class.is_real_class {
            return None;
        }
        let table = self.tables.select(class.class_type.as_str());
        let available = self.resolve(class);
        let mut methods: Vec<MethodTracking> = Vec::new();
        let mut i: usize = 0;
        assert(class@.methods.take(0) =~= Seq::empty());
        assert(methods.deep_view() =~= Seq::empty());
        while i < class.methods.len()
            invariant
                i <= class.methods@.len(),
                methods.deep_view() == tracked_methods(
                    class@.methods.take(i as int),
                    table@,
                    available.deep_view(),
                ),
            decreases class.methods@.len() - i,
        {
            let ghost seen = class@.methods.take(i + 1);
            let ghost kept = methods.deep_view();
            assert(seen.drop_last() =~= class@.methods.take(i as int));
            assert(seen.last() == class.methods@[i as int]@);
            let method = &class.methods[i];
            if let Some(target) = table.get(method.as_str()) {
                let status = match target {
                    CoverageTarget::Mapped(name) => if contains_name(&available, name.as_str()) {
                        ImplementationStatus::Implemented
                    } else {
                        ImplementationStatus::NotImplemented
                    },
                    CoverageTarget::KnownGap => ImplementationStatus::NotImplemented,
                };
                let one = MethodTracking { method_name: method.clone(), status };
                methods.push(one);
                assert(methods.deep_view() =~= kept.push(one@));
            }
            i += 1;
        }
        assert(class@.methods.take(i as int) =~= class@.methods);
        if methods.len() == 0 {
            return None;
        }
        Some(
            ClassTracking {
                class_name: class.class_name.clone(),
                class_type: class.class_type.clone(),
                methods,
            },
        )
    }

    /// The report on the given classes: the coverage record of each class that
    /// has one, in ascending order of class name, records of the same name in
    /// the order of the classes.
    pub fn analyze(&self, classes: &Vec<ClassMethods>) -> (result: AnalysisResult)
        ensures
            result@ == report(self@, classes.deep_view()),
            ordered_by_name(result@),
    {
        let mut sorted: Vec<ClassTracking> = Vec::new();
        let mut i: usize = 0;
        assert(classes.deep_view().take(0) =~= Seq::empty());
        assert(sorted.deep_view() =~= Seq::empty());
        while i < classes.len()
            invariant
                i <= classes@.len(),
                sorted.deep_view() == report(self@, classes.deep_view().take(i as int)),
                ordered_by_name(sorted.deep_view()),
            decreases classes@.len() - i,
        {
            let ghost seen = classes.deep_view().take(i + 1);
            assert(seen.drop_last() =~= classes.deep_view().take(i as int));
            assert(seen.last() == classes@[i as int]@);
            if let Some(record) = self.track(&classes[i]) {
                proof {
                    let prior = coverage_records(self@, seen.drop_last());
                    assert(prior.push(record@).drop_last() =~= prior);
                }
                place_by_name(&mut sorted, record);
            }
            i += 1;
        }
        assert(classes.deep_view().take(i as int) =~= classes.deep_view());
        AnalysisResult { classes: sorted }
    }
}

} // verus!
