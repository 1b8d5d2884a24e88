//! Lists of names that behave as sets: a name enters once, at the place where
//! it was first seen.

use crate::text::same_text;
use vstd::prelude::*;

verus! {

/// `names` with `name` added at the end unless it is there already.
pub open spec fn push_new(names: Seq<Seq<char>>, name: Seq<char>) -> Seq<Seq<char>> {
    if names.contains(name) {
        names
    } else {
        names.push(name)
    }
}

/// `names` with each of `more` added in turn unless it is there already.
pub open spec fn extend_new(names: Seq<Seq<char>>, more: Seq<Seq<char>>) -> Seq<Seq<char>>
    decreases more.len(),
{
    if more.len() == 0 {
        names
    } else {
        push_new(extend_new(names, more.drop_last()), more.last())
    }
}

/// Adding a name keeps what was there, in place, and leaves the name present.
pub proof fn lemma_push_new(names: Seq<Seq<char>>, name: Seq<char>)
    ensures
        push_new(names, name).contains(name),
        names.len() <= push_new(names, name).len(),
        forall|i: int| 0 <= i < names.len() ==> push_new(names, name)[i] == names[i],
        forall|other: Seq<char>|
            push_new(names, name).contains(other) <==> (names.contains(other) || other == name),
        names.no_duplicates() ==> push_new(names, name).no_duplicates(),
{
    let after = push_new(names, name);
    if !names.contains(name) {
        assert(after[names.len() as int] == name);
        assert forall|other: Seq<char>| after.contains(other) <==> (names.contains(other) || other
            == name) by {
            if names.contains(other) {
                let i = choose|i: int| 0 <= i < names.len() && names[i] == other;
                assert(after[i] == other);
            }
        }
    }
}

/// Adding several names keeps what was there, in place, and leaves each of them present.
pub proof fn lemma_extend_new(names: Seq<Seq<char>>, more: Seq<Seq<char>>)
    ensures
        names.len() <= extend_new(names, more).len(),
        forall|i: int| 0 <= i < names.len() ==> extend_new(names, more)[i] == names[i],
        forall|other: Seq<char>|
            extend_new(names, more).contains(other) <==> (names.contains(other) || more.contains(
                other,
            )),
        names.no_duplicates() ==> extend_new(names, more).no_duplicates(),
    decreases more.len(),
{
    if more.len() > 0 {
        let inner = extend_new(names, more.drop_last());
        lemma_extend_new(names, more.drop_last());
        lemma_push_new(inner, more.last());
        assert forall|other: Seq<char>|
            extend_new(names, more).contains(other) <==> (names.contains(other) || more.contains(
                other,
            )) by {
            if more.contains(other) {
                let i = choose|i: int| 0 <= i < more.len() && more[i] == other;
                if i < more.len() - 1 {
                    assert(more.drop_last()[i] == other);
                }
            }
            if more.drop_last().contains(other) {
                let i = choose|i: int| 0 <= i < more.len() - 1 && more.drop_last()[i] == other;
                assert(more[i] == other);
            }
            assert(more[more.len() - 1] == more.last());
        }
    }
}

/// Names that are all present already add nothing.
pub proof fn lemma_extend_new_present(names: Seq<Seq<char>>, more: Seq<Seq<char>>)
    requires
        forall|i: int| 0 <= i < more.len() ==> names.contains(#[trigger] more[i]),
    ensures
        extend_new(names, more) == names,
    decreases more.len(),
{
    if more.len() > 0 {
        assert forall|i: int| 0 <= i < more.drop_last().len() implies names.contains(
            #[trigger] more.drop_last()[i],
        ) by {
            assert(more.drop_last()[i] == more[i]);
        }
        lemma_extend_new_present(names, more.drop_last());
        assert(names.contains(more[more.len() - 1]));
    }
}

/// Adding the same names a second time changes nothing.
pub proof fn lemma_extend_new_idempotent(names: Seq<Seq<char>>, more: Seq<Seq<char>>)
    ensures
        extend_new(extend_new(names, more), more) == extend_new(names, more),
{
    lemma_extend_new(names, more);
    assert forall|i: int| 0 <= i < more.len() implies extend_new(names, more).contains(
        #[trigger] more[i],
    ) by {
        assert(more.contains(more[i]));
    }
    lemma_extend_new_present(extend_new(names, more), more);
}

/// Whether `name` is one of `names`.
pub fn contains_name(names: &Vec<String>, name: &str) -> (present: bool)
    ensures
        present == names.deep_view().contains(name@),
{
    let mut i: usize = 0;
    while i < names.len()
        invariant
            i <= names@.len(),
            forall|j: int| 0 <= j < i ==> names.deep_view()[j] != name@,
        decreases names@.len() - i,
    {
        if same_text(names[i].as_str(), name) {
            assert(names.deep_view()[i as int] == name@);
            return true;
        }
        i += 1;
    }
    false
}

/// Adds `name` to `names` unless it is there already.
pub fn push_unique(names: &mut Vec<String>, name: String)
    ensures
        final(names).deep_view() == push_new(old(names).deep_view(), name@),
{
    if !contains_name(names, name.as_str()) {
        names.push(name);
        assert(names.deep_view() =~= old(names).deep_view().push(name@));
    }
}

/// A copy of `names`.
pub fn clone_names(names: &Vec<String>) -> (copy: Vec<String>)
    ensures
        copy.deep_view() == names.deep_view(),
{
    let mut copy: Vec<String> = Vec::new();
    let mut i: usize = 0;
    while i < names.len()
        invariant
            i <= names@.len(),
            copy@.len() == i,
            forall|j: int| 0 <= j < i ==> copy@[j]@ == names@[j]@,
        decreases names@.len() - i,
    {
        copy.push(names[i].clone());
        i += 1;
    }
    assert(copy.deep_view() =~= names.deep_view());
    copy
}

} // verus!
