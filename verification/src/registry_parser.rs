//! The registry resolver: from a declarative registry and generated
//! registration code to a mapping from reference classes to the classes that
//! reimplement them.

use crate::string_map::StringMap;
use crate::text::{lowercase_of, to_lowercase};
use vstd::prelude::*;

verus! {

/// The declarative registry: one table per registry family.
#[derive(Debug, Clone, PartialEq, Eq)]
pub struct ClassesJson {
    pub blocks: Vec<BlockEntry>,
    pub items: Vec<ItemEntry>,
}

/// One entry of the block family: a logical id and the reference class behind it.
#[derive(Debug, Clone, PartialEq, Eq)]
pub struct BlockEntry {
    pub name: String,
    pub class: String,
}

/// One entry of the item family: a logical id and the reference class behind it.
#[derive(Debug, Clone, PartialEq, Eq)]
pub struct ItemEntry {
    pub name: String,
    pub class: String,
}

/// What a registry entry of either family holds.
pub struct RegistryEntry {
    pub logical_id: Seq<char>,
    pub class_name: Seq<char>,
}

/// What a [`ClassesJson`] holds.
pub struct Registry {
    pub blocks: Seq<RegistryEntry>,
    pub items: Seq<RegistryEntry>,
}

impl View for BlockEntry {
    type V = RegistryEntry;

    open spec fn view(&self) -> RegistryEntry {
        RegistryEntry { logical_id: self.name@, class_name: self.class@ }
    }
}

impl DeepView for BlockEntry {
    type V = RegistryEntry;

    open spec fn deep_view(&self) -> RegistryEntry {
        self@
    }
}

impl View for ItemEntry {
    type V = RegistryEntry;

    open spec fn view(&self) -> RegistryEntry {
        RegistryEntry { logical_id: self.name@, class_name: self.class@ }
    }
}

impl DeepView for ItemEntry {
    type V = RegistryEntry;

    open spec fn deep_view(&self) -> RegistryEntry {
        self@
    }
}

impl View for ClassesJson {
    type V = Registry;

    open spec fn view(&self) -> Registry {
        Registry { blocks: self.blocks.deep_view(), items: self.items.deep_view() }
    }
}

/// The shape of one block registration in generated code: the registry
/// namespace, the id in upper case, and the constructor call that names the
/// implementing type.
pub const BLOCK_REGISTRATION: &'static str =
    r"vanilla_blocks\s*::\s*(\w+)\s*,\s*Box\s*::\s*new\s*\(\s*(\w+)\s*::";

/// The shape of one item registration in generated code: the registry
/// namespace, the id as the registry spells it, and the constructor call that
/// names the implementing type.
pub const ITEM_REGISTRATION: &'static str =
    r"vanilla_items\s*::\s*ITEMS\s*\.\s*(\w+)\s*,\s*Box\s*::\s*new\s*\(\s*(\w+)";

/// Whether the logical ids of the block family are folded to lower case
/// before they are compared: generated code spells them in upper case.
pub const BLOCK_IDS_FOLDED: bool = true;

/// Whether the logical ids of the item family are folded to lower case before
/// they are compared: generated code spells them as the registry does.
pub const ITEM_IDS_FOLDED: bool = false;

/// What the pattern engine finds for `pattern` in `text`: the successive
/// matches, each as the texts of its groups, the whole match first, with no
/// text for a group that took no part. `None` where the engine refuses the
/// pattern.
pub uninterp spec fn pattern_captures(pattern: Seq<char>, text: Seq<char>) -> Option<
    Seq<Seq<Option<Seq<char>>>>,
>;

/// Compiles `pattern` with `regex::Regex::new` and walks
/// `regex::Regex::captures_iter` over `text`, reading each group of each match
/// through `regex::Captures::iter`. The result is named, not described.
#[verifier::external_body]
pub(crate) fn find_captures(pattern: &str, text: &str) -> (found: Option<
    Vec<Vec<Option<String>>>,
>)
    ensures
        found.deep_view() == pattern_captures(pattern@, text@),
{
    let compiled = regex::Regex::new(pattern).ok()?;
    let groups = |c: regex::Captures| c.iter().map(|g| g.map(|m| m.as_str().to_string())).collect();
    Some(compiled.captures_iter(text).map(groups).collect())
}

/// A logical id as it is compared.
pub open spec fn normalized(logical_id: Seq<char>, folded: bool) -> Seq<char> {
    if folded {
        lowercase_of(logical_id)
    } else {
        logical_id
    }
}

/// The registration that one match of a registration pattern carries: its
/// first group is the logical id, its second the implementing type.
pub open spec fn registration_of(groups: Seq<Option<Seq<char>>>, folded: bool) -> Option<
    (Seq<char>, Seq<char>),
> {
    if groups.len() >= 3 && groups[1] is Some && groups[2] is Some {
        Some((normalized(groups[1]->0, folded), groups[2]->0))
    } else {
        None
    }
}

/// The table of registrations that a run of matches carries: from normalized
/// logical id to implementing type, a later registration of an id replacing an
/// earlier one.
pub open spec fn registrations(found: Seq<Seq<Option<Seq<char>>>>, folded: bool) -> Map<
    Seq<char>,
    Seq<char>,
>
    decreases found.len(),
{
    if found.len() == 0 {
        Map::empty()
    } else {
        match registration_of(found.last(), folded) {
            Some((id, implementing)) => registrations(found.drop_last(), folded).insert(
                id,
                implementing,
            ),
            None => registrations(found.drop_last(), folded),
        }
    }
}

/// The registrations found in generated code by the given pattern; none where
/// the engine refuses the pattern.
pub open spec fn generated_registrations(pattern: Seq<char>, content: Seq<char>, folded: bool)
    -> Map<Seq<char>, Seq<char>> {
    match pattern_captures(pattern, content) {
        Some(found) => registrations(found, folded),
        None => Map::empty(),
    }
}

/// Collects the registrations of a run of pattern matches into a table.
pub fn collect_registrations(found: &Vec<Vec<Option<String>>>, folded: bool) -> (table: StringMap<
    String,
>)
    ensures
        table@ == registrations(found.deep_view(), folded),
{
    let mut table: StringMap<String> = StringMap::new();
    let mut i: usize = 0;
    assert(found.deep_view().take(0) =~= Seq::empty());
    while i < found.len()
        invariant
            i <= found@.len(),
            table@ == registrations(found.deep_view().take(i as int), folded),
        decreases found@.len() - i,
    {
        let ghost seen = found.deep_view().take(i + 1);
        assert(seen.drop_last() =~= found.deep_view().take(i as int));
        assert(seen.last() == found@[i as int].deep_view());
        let groups = &found[i];
        if groups.len() >= 3 {
            assert(groups.deep_view()[1] == groups@[1].deep_view());
            assert(groups.deep_view()[2] == groups@[2].deep_view());
            if let Some(id) = &groups[1] {
                if let Some(implementing) = &groups[2] {
                    let key = if folded {
                        to_lowercase(id.as_str())
                    } else {
                        id.clone()
                    };
                    table.insert(key, implementing.clone());
                }
            }
        }
        i += 1;
    }
    assert(found.deep_view().take(i as int) =~= found.deep_view());
    table
}

/// Reads the block registrations out of generated code: from the logical id,
/// folded to lower case, to the implementing type.
pub fn parse_generated_blocks(content: &str) -> (table: StringMap<String>)
    ensures
        table@ == generated_registrations(BLOCK_REGISTRATION@, content@, BLOCK_IDS_FOLDED),
{
    match find_captures(BLOCK_REGISTRATION, content) {
        Some(found) => collect_registrations(&found, BLOCK_IDS_FOLDED),
        None => StringMap::new(),
    }
}

/// Reads the item registrations out of generated code: from the logical id as
/// it is spelled to the implementing type.
pub fn parse_generated_items(content: &str) -> (table: StringMap<String>)
    ensures
        table@ == generated_registrations(ITEM_REGISTRATION@, content@, ITEM_IDS_FOLDED),
{
    match find_captures(ITEM_REGISTRATION, content) {
        Some(found) => collect_registrations(&found, ITEM_IDS_FOLDED),
        None => StringMap::new(),
    }
}

/// The mapping after one more registry entry: where the generated table knows
/// the entry's normalized id, the entry's class leads to the implementing
/// type; otherwise nothing changes.
pub open spec fn join_one(
    mapping: Map<Seq<char>, Seq<char>>,
    entry: RegistryEntry,
    generated: Map<Seq<char>, Seq<char>>,
    folded: bool,
) -> Map<Seq<char>, Seq<char>> {
    let id = normalized(entry.logical_id, folded);
    if generated.contains_key(id) {
        mapping.insert(entry.class_name, generated[id])
    } else {
        mapping
    }
}

/// The class mapping of one registry family: the registry entries joined with
/// the generated table on the normalized logical id, a later entry of a class
/// replacing an earlier one.
pub open spec fn join(
    entries: Seq<RegistryEntry>,
    generated: Map<Seq<char>, Seq<char>>,
    folded: bool,
) -> Map<Seq<char>, Seq<char>>
    decreases entries.len(),
{
    if entries.len() == 0 {
        Map::empty()
    } else {
        join_one(join(entries.drop_last(), generated, folded), entries.last(), generated, folded)
    }
}

/// Whether the entry finds its id in the generated table.
pub open spec fn resolves(entry: RegistryEntry, generated: Map<Seq<char>, Seq<char>>, folded: bool)
    -> bool {
    generated.contains_key(normalized(entry.logical_id, folded))
}

/// A class is mapped exactly when some registry entry of that class resolves;
/// an entry whose id the generated table lacks contributes no key. What a
/// mapped class leads to is an implementing type of the generated table.
pub proof fn lemma_join_keys(
    entries: Seq<RegistryEntry>,
    generated: Map<Seq<char>, Seq<char>>,
    folded: bool,
    class_name: Seq<char>,
)
    ensures
        join(entries, generated, folded).contains_key(class_name) <==> exists|i: int|
            0 <= i < entries.len() && (#[trigger] entries[i]).class_name == class_name && resolves(
                entries[i],
                generated,
                folded,
            ),
        join(entries, generated, folded).contains_key(class_name) ==> generated.contains_value(
            join(entries, generated, folded)[class_name],
        ),
    decreases entries.len(),
{
    if entries.len() > 0 {
        let rest = entries.drop_last();
        let last = entries.last();
        lemma_join_keys(rest, generated, folded, class_name);
        if join(rest, generated, folded).contains_key(class_name) {
            let i = choose|i: int|
                0 <= i < rest.len() && (#[trigger] rest[i]).class_name == class_name && resolves(
                    rest[i],
                    generated,
                    folded,
                );
            assert(entries[i] == rest[i]);
        }
        if exists|i: int|
            0 <= i < entries.len() && (#[trigger] entries[i]).class_name == class_name && resolves(
                entries[i],
                generated,
                folded,
            ) {
            let i = choose|i: int|
                0 <= i < entries.len() && (#[trigger] entries[i]).class_name == class_name
                    && resolves(entries[i], generated, folded);
            if i < rest.len() {
                assert(rest[i] == entries[i]);
            }
        }
        assert(entries[entries.len() - 1] == last);
    }
}

/// Joins one registry entry into a class mapping.
pub fn join_entry(
    mapping: &mut StringMap<String>,
    logical_id: &str,
    class_name: &str,
    generated: &StringMap<String>,
    folded: bool,
)
    ensures
        final(mapping)@ == join_one(
            old(mapping)@,
            (RegistryEntry { logical_id: logical_id@, class_name: class_name@ }),
            generated@,
            folded,
        ),
{
    let found = if folded {
        let id = to_lowercase(logical_id);
        generated.get(id.as_str())
    } else {
        generated.get(logical_id)
    };
    if let Some(implementing) = found {
        mapping.insert(class_name.to_owned(), implementing.clone());
    }
}

/// Derives, per registry family, the mapping from reference class to the type
/// that reimplements it: the registry joined with the generated table of the
/// family on the logical id. An id that either side lacks yields no entry.
pub fn build_class_mapping(
    classes_json: &ClassesJson,
    steel_blocks: &StringMap<String>,
    steel_items: &StringMap<String>,
) -> (mappings: (StringMap<String>, StringMap<String>))
    ensures
        mappings.0@ == join(classes_json@.blocks, steel_blocks@, BLOCK_IDS_FOLDED),
        mappings.1@ == join(classes_json@.items, steel_items@, ITEM_IDS_FOLDED),
{
    let mut block_mapping: StringMap<String> = StringMap::new();
    let mut item_mapping: StringMap<String> = StringMap::new();
    let mut i: usize = 0;
    assert(classes_json@.blocks.take(0) =~= Seq::empty());
    while i < classes_json.blocks.len()
        invariant
            i <= classes_json.blocks@.len(),
            block_mapping@ == join(
                classes_json@.blocks.take(i as int),
                steel_blocks@,
                BLOCK_IDS_FOLDED,
            ),
        decreases classes_json.blocks@.len() - i,
    {
        let block = &classes_json.blocks[i];
        assert(classes_json@.blocks.take(i + 1).drop_last() =~= classes_json@.blocks.take(
            i as int,
        ));
        assert(classes_json@.blocks.take(i + 1).last() == block@);
        join_entry(
            &mut block_mapping,
            block.name.as_str(),
            block.class.as_str(),
            steel_blocks,
            BLOCK_IDS_FOLDED,
        );
        i += 1;
    }
    assert(classes_json@.blocks.take(i as int) =~= classes_json@.blocks);
    let mut k: usize = 0;
    assert(classes_json@.items.take(0) =~= Seq::empty());
    while k < classes_json.items.len()
        invariant
            k <= classes_json.items@.len(),
            item_mapping@ == join(
                classes_json@.items.take(k as int),
                steel_items@,
                ITEM_IDS_FOLDED,
            ),
        decreases classes_json.items@.len() - k,
    {
        let item = &classes_json.items[k];
        assert(classes_json@.items.take(k + 1).drop_last() =~= classes_json@.items.take(k as int));
        assert(classes_json@.items.take(k + 1).last() == item@);
        join_entry(
            &mut item_mapping,
            item.name.as_str(),
            item.class.as_str(),
            steel_items,
            ITEM_IDS_FOLDED,
        );
        k += 1;
    }
    assert(classes_json@.items.take(k as int) =~= classes_json@.items);
    (block_mapping, item_mapping)
}

} // verus!
