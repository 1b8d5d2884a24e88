//! The type graph: declarations aggregated from extraction matches, the child
//! index derived from them, and the classification into concrete types and
//! abstract bases.

use crate::extractors::captures::{
    corpus_matches, extract_matches, ExtractionMatch, Grammar, MatchFacts,
};
use crate::name_list::{
    clone_names, contains_name, extend_new, lemma_extend_new, lemma_extend_new_idempotent,
    lemma_push_new, push_new, push_unique,
};
use crate::string_map::{listed, StringMap};
use crate::text::same_text;
use crate::types::{ClassInfo, ClassMethods, ClassSummary, Declaration};
use vstd::prelude::*;

verus! {

/// The declaration of a type of which nothing but the name is known.
pub open spec fn fresh(name: Seq<char>) -> Declaration {
    Declaration { name, methods: Seq::empty(), extends: None, implements: Seq::empty() }
}

/// `known` with the facts of one more match of the same type merged in: the
/// method joins the set unless the match has none, a supertype that the match
/// carries replaces the known one and an absent one changes nothing, and the
/// interfaces join the set.
pub open spec fn merge(known: Declaration, found: MatchFacts) -> Declaration {
    Declaration {
        name: known.name,
        methods: if found.method_name.len() == 0 {
            known.methods
        } else {
            push_new(known.methods, found.method_name)
        },
        extends: if found.supertype is Some {
            found.supertype
        } else {
            known.extends
        },
        implements: extend_new(known.implements, found.interfaces),
    }
}

/// Whether the graph holds a declaration of that name.
pub open spec fn knows(graph: Seq<Declaration>, name: Seq<char>) -> bool {
    exists|i: int| 0 <= i < graph.len() && (#[trigger] graph[i]).name == name
}

/// The graph after one more match: a match without a type name is discarded,
/// one for a known type is merged into its declaration, and one for a new type
/// adds a declaration at the end.
pub open spec fn absorb(graph: Seq<Declaration>, found: MatchFacts) -> Seq<Declaration> {
    if found.class_name.len() == 0 {
        graph
    } else if knows(graph, found.class_name) {
        Seq::new(
            graph.len(),
            |i: int|
                if graph[i].name == found.class_name {
                    merge(graph[i], found)
                } else {
                    graph[i]
                },
        )
    } else {
        graph.push(merge(fresh(found.class_name), found))
    }
}

/// The graph after a run of matches, absorbed in order.
pub open spec fn absorb_all(graph: Seq<Declaration>, matches: Seq<MatchFacts>) -> Seq<Declaration>
    decreases matches.len(),
{
    if matches.len() == 0 {
        graph
    } else {
        absorb(absorb_all(graph, matches.drop_last()), matches.last())
    }
}

/// The type graph of a stream of matches.
pub open spec fn aggregate(matches: Seq<MatchFacts>) -> Seq<Declaration> {
    absorb_all(Seq::empty(), matches)
}

/// A declaration as aggregation leaves it: named, and with its methods and
/// interfaces held as sets, no method of which is nameless.
pub open spec fn well_kept(decl: Declaration) -> bool {
    &&& decl.name.len() > 0
    &&& decl.methods.no_duplicates()
    &&& !decl.methods.contains(Seq::empty())
    &&& decl.implements.no_duplicates()
}

/// A graph as aggregation leaves it: every declaration well kept, and no name
/// declared twice.
pub open spec fn well_formed(graph: Seq<Declaration>) -> bool {
    &&& forall|i: int| 0 <= i < graph.len() ==> well_kept(#[trigger] graph[i])
    &&& forall|i: int, j: int|
        0 <= i < j < graph.len() ==> (#[trigger] graph[i]).name != (#[trigger] graph[j]).name
}

/// Whether the declaration names `name` as its supertype or as an interface.
pub open spec fn names_ancestor(decl: Declaration, name: Seq<char>) -> bool {
    decl.extends == Some(name) || decl.implements.contains(name)
}

/// A name is an abstract base of a graph when some declaration of the graph
/// names it as an ancestor; every other name is concrete.
pub open spec fn is_abstract(graph: Seq<Declaration>, name: Seq<char>) -> bool {
    exists|i: int| 0 <= i < graph.len() && names_ancestor(#[trigger] graph[i], name)
}

/// The names of the declarations that name `name` as an ancestor, in graph order.
pub open spec fn children(graph: Seq<Declaration>, name: Seq<char>) -> Seq<Seq<char>>
    decreases graph.len(),
{
    if graph.len() == 0 {
        Seq::empty()
    } else if names_ancestor(graph.last(), name) {
        children(graph.drop_last(), name).push(graph.last().name)
    } else {
        children(graph.drop_last(), name)
    }
}

/// The child index of a graph: each abstract base with its children.
pub open spec fn child_index_of(graph: Seq<Declaration>) -> Map<Seq<char>, Seq<Seq<char>>> {
    Map::new(|name: Seq<char>| is_abstract(graph, name), |name: Seq<char>| children(graph, name))
}

/// The summary of the declaration at `at`: untagged, and concrete unless the
/// graph names it as an ancestor.
pub open spec fn summary_at(graph: Seq<Declaration>, at: int) -> ClassSummary {
    ClassSummary {
        class_name: graph[at].name,
        class_type: Seq::empty(),
        methods: graph[at].methods,
        is_real_class: !is_abstract(graph, graph[at].name),
    }
}

/// The classified summaries of a graph, in graph order.
pub open spec fn classify(graph: Seq<Declaration>) -> Seq<ClassSummary> {
    Seq::new(graph.len(), |i: int| summary_at(graph, i))
}

/// The summaries of a graph under a grammar without inheritance: every type concrete.
pub open spec fn all_concrete(graph: Seq<Declaration>) -> Seq<ClassSummary> {
    Seq::new(
        graph.len(),
        |i: int|
            ClassSummary {
                class_name: graph[i].name,
                class_type: Seq::empty(),
                methods: graph[i].methods,
                is_real_class: true,
            },
    )
}

/// Merging the same match a second time changes nothing: the method set does
/// not grow and the supertype stays.
pub proof fn lemma_merge_idempotent(known: Declaration, found: MatchFacts)
    ensures
        merge(merge(known, found), found) == merge(known, found),
{
    lemma_push_new(known.methods, found.method_name);
    lemma_extend_new_idempotent(known.implements, found.interfaces);
}

/// A match without a supertype leaves the known supertype as it is.
pub proof fn lemma_merge_keeps_supertype(known: Declaration, found: MatchFacts)
    requires
        found.supertype is None,
    ensures
        merge(known, found).extends == known.extends,
{
}

/// Merging keeps a declaration well kept.
pub proof fn lemma_merge_well_kept(known: Declaration, found: MatchFacts)
    requires
        well_kept(known),
    ensures
        well_kept(merge(known, found)),
{
    lemma_push_new(known.methods, found.method_name);
    lemma_extend_new(known.implements, found.interfaces);
}

/// Absorbing keeps the length or adds one declaration, keeps every name in
/// place, and leaves the match's type known.
pub proof fn lemma_absorb_names(graph: Seq<Declaration>, found: MatchFacts)
    ensures
        graph.len() <= absorb(graph, found).len() <= graph.len() + 1,
        forall|i: int|
            0 <= i < graph.len() ==> (#[trigger] absorb(graph, found)[i]).name == graph[i].name,
        found.class_name.len() > 0 ==> knows(absorb(graph, found), found.class_name),
        forall|i: int|
            graph.len() <= i < absorb(graph, found).len() ==> (#[trigger] absorb(
                graph,
                found,
            )[i]).name == found.class_name && !knows(graph, found.class_name),
{
    let after = absorb(graph, found);
    if found.class_name.len() > 0 {
        if knows(graph, found.class_name) {
            let i = choose|i: int| 0 <= i < graph.len() && (#[trigger] graph[i]).name
                == found.class_name;
            assert(after[i].name == found.class_name);
        } else {
            assert(after[graph.len() as int].name == found.class_name);
        }
    }
}

/// Feeding the same match twice yields the same graph as feeding it once.
pub proof fn lemma_absorb_idempotent(graph: Seq<Declaration>, found: MatchFacts)
    ensures
        absorb(absorb(graph, found), found) == absorb(graph, found),
{
    let once = absorb(graph, found);
    let twice = absorb(once, found);
    lemma_absorb_names(graph, found);
    if found.class_name.len() > 0 {
        assert(knows(once, found.class_name));
        assert forall|i: int| 0 <= i < once.len() implies #[trigger] twice[i] == once[i] by {
            if once[i].name == found.class_name {
                if i < graph.len() {
                    assert(graph[i].name == found.class_name);
                    assert(knows(graph, found.class_name));
                    lemma_merge_idempotent(graph[i], found);
                } else {
                    lemma_merge_idempotent(fresh(found.class_name), found);
                }
            }
        }
        assert(twice =~= once);
    }
}

/// A match without a supertype leaves the supertype of every declaration of
/// the graph as it is.
pub proof fn lemma_absorb_keeps_supertype(graph: Seq<Declaration>, found: MatchFacts, at: int)
    requires
        found.supertype is None,
        0 <= at < graph.len(),
    ensures
        at < absorb(graph, found).len(),
        absorb(graph, found)[at].name == graph[at].name,
        absorb(graph, found)[at].extends == graph[at].extends,
{
}

/// Absorbing keeps a graph well formed.
pub proof fn lemma_absorb_well_formed(graph: Seq<Declaration>, found: MatchFacts)
    requires
        well_formed(graph),
    ensures
        well_formed(absorb(graph, found)),
{
    let after = absorb(graph, found);
    lemma_absorb_names(graph, found);
    if found.class_name.len() > 0 {
        assert forall|i: int| 0 <= i < after.len() implies well_kept(#[trigger] after[i]) by {
            if i < graph.len() {
                lemma_merge_well_kept(graph[i], found);
            } else {
                lemma_merge_well_kept(fresh(found.class_name), found);
            }
        }
        assert forall|i: int, j: int| 0 <= i < j < after.len() implies (#[trigger] after[i]).name
            != (#[trigger] after[j]).name by {
            if j >= graph.len() {
                assert(graph[i].name == after[i].name);
            } else {
                assert(graph[i].name == after[i].name);
                assert(graph[j].name == after[j].name);
            }
        }
    }
}

/// Every aggregated graph is well formed.
pub proof fn lemma_absorb_all_well_formed(graph: Seq<Declaration>, matches: Seq<MatchFacts>)
    requires
        well_formed(graph),
    ensures
        well_formed(absorb_all(graph, matches)),
    decreases matches.len(),
{
    if matches.len() > 0 {
        lemma_absorb_all_well_formed(graph, matches.drop_last());
        lemma_absorb_well_formed(absorb_all(graph, matches.drop_last()), matches.last());
    }
}

/// Every aggregated graph is as [`well_formed`] says.
pub proof fn lemma_aggregate_well_formed(matches: Seq<MatchFacts>)
    ensures
        well_formed(aggregate(matches)),
{
    lemma_absorb_all_well_formed(Seq::empty(), matches);
}

/// A type is classified abstract exactly when some declaration of the graph
/// names it as its supertype or as an interface, whatever the order of the
/// declarations; so a declared supertype is abstract, and a type that nothing
/// names is concrete.
pub proof fn lemma_classification(graph: Seq<Declaration>, at: int)
    requires
        0 <= at < graph.len(),
    ensures
        classify(graph)[at].class_name == graph[at].name,
        classify(graph)[at].methods == graph[at].methods,
        !classify(graph)[at].is_real_class <==> exists|i: int|
            0 <= i < graph.len() && names_ancestor(#[trigger] graph[i], graph[at].name),
        forall|child: int|
            0 <= child < graph.len() && (#[trigger] graph[child]).extends == Some(graph[at].name)
                ==> !classify(graph)[at].is_real_class,
{
    assert forall|child: int|
        0 <= child < graph.len() && (#[trigger] graph[child]).extends == Some(
            graph[at].name,
        ) implies !classify(graph)[at].is_real_class by {
        assert(names_ancestor(graph[child], graph[at].name));
    }
}

/// Whether a name is an abstract base depends on which declarations the graph
/// holds, never on the order in which they came.
pub proof fn lemma_abstract_ignores_order(
    first: Seq<Declaration>,
    second: Seq<Declaration>,
    name: Seq<char>,
)
    requires
        first.to_multiset() == second.to_multiset(),
    ensures
        is_abstract(first, name) == is_abstract(second, name),
{
    broadcast use vstd::seq_lib::group_to_multiset_ensures;

    if is_abstract(first, name) {
        let i = choose|i: int| 0 <= i < first.len() && names_ancestor(#[trigger] first[i], name);
        assert(first.to_multiset().count(first[i]) > 0);
        assert(second.to_multiset().count(first[i]) > 0);
        let j = choose|j: int| 0 <= j < second.len() && second[j] == first[i];
        assert(names_ancestor(second[j], name));
    }
    if is_abstract(second, name) {
        let i = choose|i: int| 0 <= i < second.len() && names_ancestor(#[trigger] second[i], name);
        assert(second.to_multiset().count(second[i]) > 0);
        assert(first.to_multiset().count(second[i]) > 0);
        let j = choose|j: int| 0 <= j < first.len() && first[j] == second[i];
        assert(names_ancestor(first[j], name));
    }
}

/// Absorbing two runs of matches one after the other is absorbing their
/// concatenation.
pub proof fn lemma_absorb_all_concat(
    graph: Seq<Declaration>,
    first: Seq<MatchFacts>,
    second: Seq<MatchFacts>,
)
    ensures
        absorb_all(graph, first + second) == absorb_all(absorb_all(graph, first), second),
    decreases second.len(),
{
    if second.len() == 0 {
        assert(first + second =~= first);
    } else {
        assert((first + second).drop_last() =~= first + second.drop_last());
        assert((first + second).last() == second.last());
        lemma_absorb_all_concat(graph, first, second.drop_last());
    }
}

/// A name that no declaration names as an ancestor has no children.
pub proof fn lemma_concrete_has_no_children(graph: Seq<Declaration>, name: Seq<char>)
    requires
        !is_abstract(graph, name),
    ensures
        children(graph, name) == Seq::<Seq<char>>::empty(),
    decreases graph.len(),
{
    if graph.len() > 0 {
        assert(!names_ancestor(graph[graph.len() - 1], name));
        assert forall|i: int| 0 <= i < graph.drop_last().len() implies !names_ancestor(
            #[trigger] graph.drop_last()[i],
            name,
        ) by {
            assert(graph.drop_last()[i] == graph[i]);
        }
        lemma_concrete_has_no_children(graph.drop_last(), name);
    }
}

/// An index in which `child` has joined the list of each of `parents`.
spec fn with_child(
    index: Map<Seq<char>, Seq<Seq<char>>>,
    parents: Set<Seq<char>>,
    child: Seq<char>,
) -> Map<Seq<char>, Seq<Seq<char>>> {
    Map::new(
        |name: Seq<char>| index.contains_key(name) || parents.contains(name),
        |name: Seq<char>|
            if parents.contains(name) {
                listed(index, name).push(child)
            } else {
                index[name]
            },
    )
}

/// The child index of the first `upto + 1` declarations is that of the first
/// `upto` with the next declaration filed under each ancestor that it names.
proof fn lemma_child_index_step(graph: Seq<Declaration>, upto: int)
    requires
        0 <= upto < graph.len(),
    ensures
        child_index_of(graph.take(upto + 1)) == with_child(
            child_index_of(graph.take(upto)),
            Set::new(|name: Seq<char>| names_ancestor(graph[upto], name)),
            graph[upto].name,
        ),
{
    let before = graph.take(upto);
    let after = graph.take(upto + 1);
    let decl = graph[upto];
    let parents = Set::new(|name: Seq<char>| names_ancestor(decl, name));
    let stepped = with_child(child_index_of(before), parents, decl.name);
    assert(after.drop_last() =~= before);
    assert(after.last() == decl);
    assert forall|name: Seq<char>| is_abstract(after, name) == (is_abstract(before, name)
        || names_ancestor(decl, name)) by {
        if is_abstract(after, name) {
            let i = choose|i: int|
                0 <= i < after.len() && names_ancestor(#[trigger] after[i], name);
            if i < upto {
                assert(before[i] == after[i]);
            }
        }
        if is_abstract(before, name) {
            let i = choose|i: int|
                0 <= i < before.len() && names_ancestor(#[trigger] before[i], name);
            assert(after[i] == before[i]);
        }
        if names_ancestor(decl, name) {
            assert(after[upto] == decl);
        }
    }
    assert forall|name: Seq<char>| is_abstract(after, name) implies #[trigger] child_index_of(
        after,
    )[name] == stepped[name] by {
        if !is_abstract(before, name) {
            lemma_concrete_has_no_children(before, name);
        }
    }
    assert(child_index_of(after) =~= stepped);
}

impl ClassInfo {
    /// Merges the facts of one more match of this type into the declaration.
    pub fn merge(&mut self, found: &ExtractionMatch)
        ensures
            final(self)@ == merge(old(self)@, found@),
    {
        if let Some(parent) = &found.supertype {
            self.extends = Some(parent.clone());
        }
        let mut k: usize = 0;
        assert(found@.interfaces.take(0) =~= Seq::empty());
        while k < found.interfaces.len()
            invariant
                k <= found.interfaces@.len(),
                self.name == old(self).name,
                self.methods == old(self).methods,
                self.extends.deep_view() == merge(old(self)@, found@).extends,
                self.implements.deep_view() == extend_new(
                    old(self)@.implements,
                    found@.interfaces.take(k as int),
                ),
            decreases found.interfaces@.len() - k,
        {
            assert(found@.interfaces.take(k + 1).drop_last() =~= found@.interfaces.take(k as int));
            push_unique(&mut self.implements, found.interfaces[k].clone());
            k += 1;
        }
        assert(found@.interfaces.take(k as int) =~= found@.interfaces);
        if !found.method_name.as_str().is_empty() {
            push_unique(&mut self.methods, found.method_name.clone());
        }
    }
}

/// The declarations of one corpus, in the order in which their types were
/// first seen.
pub struct TypeGraph {
    decls: Vec<ClassInfo>,
}

impl View for TypeGraph {
    type V = Seq<Declaration>;

    closed spec fn view(&self) -> Seq<Declaration> {
        self.decls.deep_view()
    }
}

impl TypeGraph {
    /// The graph is as aggregation leaves it. This holds of every graph.
    #[verifier::type_invariant]
    pub open spec fn wf(&self) -> bool {
        well_formed(self@)
    }

    /// The graph without declarations.
    pub fn new() -> (graph: Self)
        ensures
            graph.wf(),
            graph@ == Seq::<Declaration>::empty(),
    {
        let graph = TypeGraph { decls: Vec::new() };
        assert(graph@ =~= Seq::<Declaration>::empty());
        graph
    }

    /// The number of declarations.
    pub fn len(&self) -> (count: usize)
        ensures
            count == self@.len(),
    {
        self.decls.len()
    }

    /// The declaration at `at`, if the graph has that many.
    pub fn get(&self, at: usize) -> (found: Option<&ClassInfo>)
        ensures
            match found {
                Some(decl) => at < self@.len() && decl@ == self@[at as int],
                None => at >= self@.len(),
            },
    {
        if at < self.decls.len() {
            Some(&self.decls[at])
        } else {
            None
        }
    }

    /// Where the declaration of `name` stands.
    pub fn position(&self, name: &str) -> (at: Option<usize>)
        ensures
            match at {
                Some(i) => i < self@.len() && self@[i as int].name == name@,
                None => !knows(self@, name@),
            },
    {
        let mut i: usize = 0;
        while i < self.decls.len()
            invariant
                i <= self.decls@.len(),
                forall|j: int| 0 <= j < i ==> (#[trigger] self@[j]).name != name@,
            decreases self.decls@.len() - i,
        {
            if same_text(self.decls[i].name.as_str(), name) {
                return Some(i);
            }
            i += 1;
        }
        None
    }

    /// Takes in one match.
    pub fn absorb(&mut self, found: &ExtractionMatch)
        ensures
            final(self).wf(),
            final(self)@ == absorb(old(self)@, found@),
    {
        proof {
            use_type_invariant(&*self);
            lemma_absorb_well_formed(self@, found@);
        }
        if found.class_name.as_str().is_empty() {
            return ;
        }
        let place = self.position(found.class_name.as_str());
        let mut decls: Vec<ClassInfo> = Vec::new();
        core::mem::swap(&mut self.decls, &mut decls);
        match place {
            Some(at) => {
                decls[at].merge(found);
            },
            None => {
                let mut decl = ClassInfo {
                    name: found.class_name.clone(),
                    methods: Vec::new(),
                    extends: None,
                    implements: Vec::new(),
                };
                assert(decl@.methods =~= Seq::empty());
                assert(decl@.implements =~= Seq::empty());
                decl.merge(found);
                decls.push(decl);
            },
        }
        assert(decls.deep_view() =~= absorb(old(self)@, found@));
        core::mem::swap(&mut self.decls, &mut decls);
    }

    /// Takes in a run of matches, in order.
    pub fn absorb_all(&mut self, matches: &Vec<ExtractionMatch>)
        ensures
            final(self).wf(),
            final(self)@ == absorb_all(old(self)@, matches.deep_view()),
    {
        let mut i: usize = 0;
        proof {
            use_type_invariant(&*self);
        }
        assert(matches.deep_view().take(0) =~= Seq::empty());
        while i < matches.len()
            invariant
                i <= matches@.len(),
                self.wf(),
                self@ == absorb_all(old(self)@, matches.deep_view().take(i as int)),
            decreases matches@.len() - i,
        {
            assert(matches.deep_view().take(i + 1).drop_last() =~= matches.deep_view().take(
                i as int,
            ));
            self.absorb(&matches[i]);
            i += 1;
        }
        assert(matches.deep_view().take(i as int) =~= matches.deep_view());
    }

    /// The type graph of a stream of matches.
    pub fn aggregate(matches: &Vec<ExtractionMatch>) -> (graph: Self)
        ensures
            graph.wf(),
            graph@ == aggregate(matches.deep_view()),
    {
        let mut graph = TypeGraph::new();
        graph.absorb_all(matches);
        graph
    }

    /// The child index: each name that some declaration names as an ancestor,
    /// with the names of the declarations that do.
    pub fn child_index(&self) -> (index: StringMap<Vec<String>>)
        ensures
            index@ == child_index_of(self@),
    {
        proof {
            use_type_invariant(self);
        }
        let mut index: StringMap<Vec<String>> = StringMap::new();
        let mut i: usize = 0;
        assert(index@ =~= child_index_of(self@.take(0)));
        while i < self.decls.len()
            invariant
                i <= self.decls@.len(),
                self.wf(),
                index@ == child_index_of(self@.take(i as int)),
            decreases self.decls@.len() - i,
        {
            let decl = &self.decls[i];
            let ghost base = index@;
            let ghost facts = self@[i as int];
            assert(well_kept(facts));
            let mut k: usize = 0;
            assert(index@ =~= with_child(
                base,
                Set::new(|name: Seq<char>| facts.implements.take(0).contains(name)),
                facts.name,
            ));
            while k < decl.implements.len()
                invariant
                    k <= decl.implements@.len(),
                    decl@ == facts,
                    facts.implements.no_duplicates(),
                    index@ == with_child(
                        base,
                        Set::new(|name: Seq<char>| facts.implements.take(k as int).contains(name)),
                        facts.name,
                    ),
                decreases decl.implements@.len() - k,
            {
                let ghost parent = facts.implements[k as int];
                assert(!facts.implements.take(k as int).contains(parent));
                assert forall|name: Seq<char>|
                    facts.implements.take(k + 1).contains(name) == (facts.implements.take(
                        k as int,
                    ).contains(name) || name == parent) by {
                    let longer = facts.implements.take(k + 1);
                    let shorter = facts.implements.take(k as int);
                    if longer.contains(name) {
                        let j = choose|j: int| 0 <= j < longer.len() && longer[j] == name;
                        if j < k {
                            assert(shorter[j] == name);
                        }
                    }
                    if shorter.contains(name) {
                        let j = choose|j: int| 0 <= j < shorter.len() && shorter[j] == name;
                        assert(longer[j] == name);
                    }
                    assert(longer[k as int] == parent);
                }
                index.append(decl.implements[k].as_str(), decl.name.clone());
                assert(index@ =~= with_child(
                    base,
                    Set::new(
                        |name: Seq<char>| facts.implements.take(k + 1).contains(name),
                    ),
                    facts.name,
                ));
                k += 1;
            }
            assert(facts.implements.take(k as int) =~= facts.implements);
            if let Some(parent) = &decl.extends {
                if !contains_name(&decl.implements, parent.as_str()) {
                    index.append(parent.as_str(), decl.name.clone());
                }
            }
            proof {
                lemma_child_index_step(self@, i as int);
                assert(index@ =~= with_child(
                    base,
                    Set::new(|name: Seq<char>| names_ancestor(facts, name)),
                    facts.name,
                ));
            }
            i += 1;
        }
        assert(self@.take(i as int) =~= self@);
        index
    }

    /// The type graph of a corpus: the matches of each source text, absorbed
    /// in the order of the texts.
    pub fn of_corpus(grammar: Grammar, sources: &Vec<String>) -> (graph: Self)
        ensures
            graph.wf(),
            graph@ == aggregate(corpus_matches(grammar, sources.deep_view())),
    {
        let mut graph = TypeGraph::new();
        let mut i: usize = 0;
        assert(sources.deep_view().take(0) =~= Seq::empty());
        while i < sources.len()
            invariant
                i <= sources@.len(),
                graph.wf(),
                graph@ == aggregate(corpus_matches(grammar, sources.deep_view().take(i as int))),
            decreases sources@.len() - i,
        {
            let ghost seen = sources.deep_view().take(i + 1);
            assert(seen.drop_last() =~= sources.deep_view().take(i as int));
            assert(seen.last() == sources@[i as int]@);
            let matches = extract_matches(grammar, sources[i].as_str());
            proof {
                lemma_absorb_all_concat(
                    Seq::empty(),
                    corpus_matches(grammar, seen.drop_last()),
                    matches.deep_view(),
                );
            }
            graph.absorb_all(&matches);
            i += 1;
        }
        assert(sources.deep_view().take(i as int) =~= sources.deep_view());
        graph
    }

    /// The declarations as summaries, every one marked concrete.
    pub fn all_concrete(&self) -> (classes: Vec<ClassMethods>)
        ensures
            classes.deep_view() == all_concrete(self@),
    {
        let mut classes: Vec<ClassMethods> = Vec::new();
        let mut i: usize = 0;
        while i < self.decls.len()
            invariant
                i <= self.decls@.len(),
                classes@.len() == i,
                forall|j: int| 0 <= j < i ==> (#[trigger] classes@[j])@ == all_concrete(self@)[j],
            decreases self.decls@.len() - i,
        {
            let decl = &self.decls[i];
            classes.push(
                ClassMethods {
                    class_name: decl.name.clone(),
                    class_type: String::new(),
                    methods: clone_names(&decl.methods),
                    is_real_class: true,
                },
            );
            i += 1;
        }
        assert(classes.deep_view() =~= all_concrete(self@));
        classes
    }

    /// The declarations as summaries, each marked concrete unless the child
    /// index holds its name.
    pub fn classify(&self) -> (classes: Vec<ClassMethods>)
        ensures
            classes.deep_view() == classify(self@),
    {
        let index = self.child_index();
        let mut classes: Vec<ClassMethods> = Vec::new();
        let mut i: usize = 0;
        while i < self.decls.len()
            invariant
                i <= self.decls@.len(),
                classes@.len() == i,
                index@ == child_index_of(self@),
                forall|j: int| 0 <= j < i ==> (#[trigger] classes@[j])@ == summary_at(self@, j),
            decreases self.decls@.len() - i,
        {
            let decl = &self.decls[i];
            let named = index.contains_key(decl.name.as_str());
            classes.push(
                ClassMethods {
                    class_name: decl.name.clone(),
                    class_type: String::new(),
                    methods: clone_names(&decl.methods),
                    is_real_class: !named,
                },
            );
            i += 1;
        }
        assert(classes.deep_view() =~= classify(self@));
        classes
    }
}

} // verus!
