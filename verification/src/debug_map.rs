//! The debug information of a program: where in the sources each instruction comes from.
use indexmap::IndexMap;
use vstd::prelude::*;

verus! {

/// `IndexMap`, a map that keeps its entries in the order of their insertion.
#[verifier::external_type_specification]
#[verifier::external_body]
#[verifier::reject_recursive_types(K)]
#[verifier::reject_recursive_types(V)]
#[verifier::reject_recursive_types(S)]
pub struct ExIndexMap<K, V, S>(IndexMap<K, V, S>);

/// `IndexMap::clone` copies the map. Nothing is claimed of the copy, since it is made of clones of
/// the keys and the values.
pub assume_specification<K: Clone, V: Clone, S: Clone>[ <IndexMap<K, V, S> as Clone>::clone ](
    map: &IndexMap<K, V, S>,
) -> IndexMap<K, V, S>
;

/// A place in the sources: the file's index, the line and the column, both counted from one.
#[derive(Clone, Copy, Debug, PartialEq, Eq, Structural)]
pub struct DebugLoc {
    pub file: usize,
    pub line: u32,
    pub col: u32,
}

/// The source location of each instruction of one function, where it has one.
#[derive(Clone, Debug)]
pub struct DebugInstructions {
    pub instructions: Vec<Option<DebugLoc>>,
}

/// The debug information of one program.
#[derive(Clone, Debug)]
pub struct ProgramDebugMap {
    pub source_files: Vec<String>,
    pub functions: IndexMap<String, DebugInstructions>,
    pub closures: IndexMap<String, DebugInstructions>,
    pub finalizes: IndexMap<String, DebugInstructions>,
    pub views: IndexMap<String, DebugInstructions>,
    pub constructor: Option<DebugInstructions>,
}

/// The entries of one section of a debug map, in the map's order.
pub uninterp spec fn section_entries(section: IndexMap<String, DebugInstructions>) -> Seq<
    (Seq<char>, DebugInstructions),
>;

/// The entries of a collection of debug maps, in the map's order.
pub uninterp spec fn debug_map_entries(maps: IndexMap<String, ProgramDebugMap>) -> Seq<
    (Seq<char>, ProgramDebugMap),
>;

/// The value that stands under `name`.
pub open spec fn lookup<V>(entries: Seq<(Seq<char>, V)>, name: Seq<char>) -> Option<V>
    decreases entries.len(),
{
    if entries.len() == 0 {
        None
    } else if entries[0].0 == name {
        Some(entries[0].1)
    } else {
        lookup(entries.skip(1), name)
    }
}

/// The entries after `value` was put under `name`: in the place of the entry that stood there, or
/// else at the end.
pub open spec fn put<V>(entries: Seq<(Seq<char>, V)>, name: Seq<char>, value: V) -> Seq<
    (Seq<char>, V),
>
    decreases entries.len(),
{
    if entries.len() == 0 {
        seq![(name, value)]
    } else if entries[0].0 == name {
        entries.update(0, (name, value))
    } else {
        seq![entries[0]] + put(entries.skip(1), name, value)
    }
}

/// No name stands twice in a map.
pub open spec fn unique_names<V>(entries: Seq<(Seq<char>, V)>) -> bool {
    forall|i: int, j: int| 0 <= i < j < entries.len() ==> entries[i].0 != entries[j].0
}

/// Whether the name stands in no other place of a map.
pub open spec fn is_only_place<V>(
    entries: Seq<(Seq<char>, V)>,
    name: Seq<char>,
    index: int,
) -> bool {
    forall|i: int| 0 <= i < entries.len() && i != index ==> (#[trigger] entries[i]).0 != name
}

/// Whether no other value stands under the name in a map.
pub open spec fn is_only_value<V>(
    entries: Seq<(Seq<char>, V)>,
    name: Seq<char>,
    value: V,
) -> bool {
    forall|i: int|
        0 <= i < entries.len() && (#[trigger] entries[i]).0 == name ==> entries[i].1 == value
}

/// No section of the debug map holds a name twice.
pub open spec fn sections_unique(map: ProgramDebugMap) -> bool {
    &&& unique_names(section_entries(map.functions))
    &&& unique_names(section_entries(map.closures))
    &&& unique_names(section_entries(map.views))
    &&& unique_names(section_entries(map.finalizes))
}

/// A name that stands in a map is found there.
pub proof fn lemma_name_is_found<V>(entries: Seq<(Seq<char>, V)>, i: int)
    requires
        0 <= i < entries.len(),
    ensures
        lookup(entries, entries[i].0) is Some,
    decreases entries.len(),
{
    if i > 0 && entries[0].0 != entries[i].0 {
        let rest = entries.skip(1);
        assert(rest[i - 1] == entries[i]);
        lemma_name_is_found(rest, i - 1);
    }
}

/// What `put` puts under a name is what `lookup` finds there, and it changes nothing that stands
/// under another name.
pub proof fn lemma_lookup_put<V>(
    entries: Seq<(Seq<char>, V)>,
    name: Seq<char>,
    value: V,
    other: Seq<char>,
)
    ensures
        lookup(put(entries, name, value), other) == if other == name {
            Some(value)
        } else {
            lookup(entries, other)
        },
    decreases entries.len(),
{
    let after = put(entries, name, value);
    if entries.len() == 0 {
        assert(after.skip(1).len() == 0);
        assert(lookup(after.skip(1), other) is None);
    } else if entries[0].0 == name {
        assert(after.skip(1) =~= entries.skip(1));
    } else {
        lemma_lookup_put(entries.skip(1), name, value, other);
        assert(after.skip(1) =~= put(entries.skip(1), name, value));
    }
}

/// `IndexMap::get`, on a section: the value whose key is `name`. A map holds no key twice, so the
/// entry with that key is the only one.
#[verifier::external_body]
pub(crate) fn section_get<'a>(
    section: &'a IndexMap<String, DebugInstructions>,
    name: &str,
) -> (found: Option<&'a DebugInstructions>)
    ensures
        match found {
            Some(value) => lookup(section_entries(*section), name@) == Some(*value)
                && is_only_value(section_entries(*section), name@, *value),
            None => lookup(section_entries(*section), name@) is None,
        },
{
    section.get(name)
}

/// `IndexMap::len`, on a section: the number of its entries.
#[verifier::external_body]
pub(crate) fn section_len(section: &IndexMap<String, DebugInstructions>) -> (n: usize)
    ensures
        n == section_entries(*section).len(),
{
    section.len()
}

/// `IndexMap::get_index`, on a section: the key and the value of the entry at `index`, counted in
/// the map's order. A map holds no key twice, so no other entry has that key.
#[verifier::external_body]
pub(crate) fn section_entry<'a>(
    section: &'a IndexMap<String, DebugInstructions>,
    index: usize,
) -> (entry: Option<(&'a String, &'a DebugInstructions)>)
    ensures
        match entry {
            Some((name, value)) => index < section_entries(*section).len() && section_entries(
                *section,
            )[index as int] == (name@, *value) && is_only_place(
                section_entries(*section),
                name@,
                index as int,
            ),
            None => index >= section_entries(*section).len(),
        },
{
    section.get_index(index)
}

/// `IndexMap::new`: a map without entries.
#[verifier::external_body]
pub(crate) fn no_debug_maps() -> (maps: IndexMap<String, ProgramDebugMap>)
    ensures
        debug_map_entries(maps) == Seq::<(Seq<char>, ProgramDebugMap)>::empty(),
{
    IndexMap::new()
}

/// `IndexMap::insert`: an entry whose key is in the map keeps its place and gets the new value, any
/// other comes last.
#[verifier::external_body]
pub(crate) fn debug_map_insert(
    maps: &mut IndexMap<String, ProgramDebugMap>,
    name: String,
    value: ProgramDebugMap,
)
    ensures
        debug_map_entries(*final(maps)) == put(debug_map_entries(*old(maps)), name@, value),
{
    maps.insert(name, value);
}

/// `IndexMap::get`, on a collection of debug maps: the value whose key is `name`.
#[verifier::external_body]
pub(crate) fn debug_map_get<'a>(maps: &'a IndexMap<String, ProgramDebugMap>, name: &str) -> (found:
    Option<&'a ProgramDebugMap>)
    ensures
        match found {
            Some(value) => lookup(debug_map_entries(*maps), name@) == Some(*value),
            None => lookup(debug_map_entries(*maps), name@) is None,
        },
{
    maps.get(name)
}

} // verus!
