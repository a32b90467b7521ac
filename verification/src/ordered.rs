//! Insertion-ordered collections, taken from `indexmap`.
//!
//! The collections themselves are not verified. Each function here states what
//! the corresponding `indexmap` method does to the ordered contents, and the
//! rest of the crate reasons about those contents only.

use vstd::prelude::*;
use indexmap::IndexMap;
use indexmap::IndexSet;
use crate::text::ascending;
use crate::value::{SectionEntry, Value};

verus! {

/// `indexmap::IndexMap`, taken as it is: nothing is known of what is inside
/// a map but what the functions below state.
#[verifier::external_type_specification]
#[verifier::external_body]
#[verifier::reject_recursive_types(K)]
#[verifier::reject_recursive_types(V)]
#[verifier::reject_recursive_types(S)]
pub struct ExIndexMap<K, V, S>(IndexMap<K, V, S>);

/// `indexmap::IndexSet`, taken as it is: nothing is known of what is inside
/// a set but what the functions below state.
#[verifier::external_type_specification]
#[verifier::external_body]
#[verifier::reject_recursive_types(T)]
#[verifier::reject_recursive_types(S)]
pub struct ExIndexSet<T, S>(IndexSet<T, S>);

/// Flat configuration: dotted key to value and the index of the file it came from.
pub type ConfigValues = IndexMap<String, (Value, usize)>;

/// The key/value pairs of a map, in iteration order.
pub uninterp spec fn map_entries(m: IndexMap<String, (Value, usize)>) -> Seq<(Seq<char>, (Value, usize))>;

/// The members of a set, in iteration order.
pub uninterp spec fn set_items(s: IndexSet<String>) -> Seq<Seq<char>>;

/// The sections of a configuration: the name of each with its entries.
pub type SectionMap = IndexMap<String, Vec<SectionEntry>>;

/// The name/entries pairs of a map of sections, in iteration order.
pub uninterp spec fn section_entries(m: IndexMap<String, Vec<SectionEntry>>) -> Seq<
    (Seq<char>, Vec<SectionEntry>),
>;

/// The names of `sections`, in order.
pub open spec fn section_names(sections: Seq<(Seq<char>, Vec<SectionEntry>)>) -> Seq<Seq<char>> {
    Seq::new(sections.len(), |i: int| sections[i].0)
}

/// The keys of `entries`, in order.
pub open spec fn entry_keys(entries: Seq<(Seq<char>, (Value, usize))>) -> Seq<Seq<char>> {
    Seq::new(entries.len(), |i: int| entries[i].0)
}

/// The position of the entry of `entries` with key `key`, or `-1`.
pub open spec fn key_position(entries: Seq<(Seq<char>, (Value, usize))>, key: Seq<char>) -> int {
    item_position(entry_keys(entries), key)
}

/// The position of the first member of `items` equal to `item`, or `-1`.
pub open spec fn item_position(items: Seq<Seq<char>>, item: Seq<char>) -> int
    decreases items.len(),
{
    if items.len() == 0 {
        -1
    } else if item_position(items.drop_last(), item) >= 0 {
        item_position(items.drop_last(), item)
    } else if items.last() == item {
        items.len() - 1
    } else {
        -1
    }
}

/// No key occurs at two positions.
pub open spec fn keys_distinct(entries: Seq<(Seq<char>, (Value, usize))>) -> bool {
    forall|i: int, j: int|
        0 <= i < entries.len() && 0 <= j < entries.len() && i != j ==> entries[i].0 != entries[j].0
}

/// No member occurs at two positions.
pub open spec fn items_distinct(items: Seq<Seq<char>>) -> bool {
    forall|i: int, j: int| 0 <= i < items.len() && 0 <= j < items.len() && i != j ==> items[i] != items[j]
}

/// `IndexMap::new`: a map with no entries.
#[verifier::external_body]
pub(crate) fn map_new() -> (m: ConfigValues)
    ensures
        map_entries(m) == Seq::<(Seq<char>, (Value, usize))>::empty(),
{
    IndexMap::new()
}

/// `IndexMap::len`: the number of entries.
#[verifier::external_body]
pub(crate) fn map_len(m: &ConfigValues) -> (n: usize)
    ensures
        n == map_entries(*m).len(),
{
    m.len()
}

/// `IndexMap::get_index`: the entry at position `index`, if there is one.
#[verifier::external_body]
pub(crate) fn map_get_index(m: &ConfigValues, index: usize) -> (e: Option<(&String, &(Value, usize))>)
    ensures
        match e {
            Some((key, value)) => index < map_entries(*m).len() && key@ == map_entries(
                *m,
            )[index as int].0 && *value == map_entries(*m)[index as int].1,
            None => index >= map_entries(*m).len(),
        },
{
    m.get_index(index)
}

/// `IndexMap::get_index_of`: the position of `key`, if the map holds it. A map
/// holds a key at one position at most.
#[verifier::external_body]
pub(crate) fn map_get_index_of(m: &ConfigValues, key: &str) -> (r: Option<usize>)
    ensures
        r is Some <==> key_position(map_entries(*m), key@) >= 0,
        r is Some ==> r->0 == key_position(map_entries(*m), key@),
        forall|j: int|
            0 <= j < map_entries(*m).len() && #[trigger] map_entries(*m)[j].0 == key@ ==> r == Some(
                j as usize,
            ),
{
    m.get_index_of(key)
}

/// `IndexMap::insert`: a present key keeps its place and takes the new value,
/// the old value being returned; an absent key is appended with the value.
#[verifier::external_body]
pub(crate) fn map_insert(m: &mut ConfigValues, key: String, value: (Value, usize)) -> (prev: Option<(Value, usize)>)
    ensures
        key_position(map_entries(*old(m)), key@) >= 0 ==> prev == Some(
            map_entries(*old(m))[key_position(map_entries(*old(m)), key@)].1,
        ) && map_entries(*final(m)) == map_entries(*old(m)).update(
            key_position(map_entries(*old(m)), key@),
            (key@, value),
        ),
        key_position(map_entries(*old(m)), key@) < 0 ==> prev is None && map_entries(*final(m))
            == map_entries(*old(m)).push((key@, value)),
        keys_distinct(map_entries(*final(m))),
{
    m.insert(key, value)
}

/// `IndexMap::get`: the value stored for `key`, if the map holds the key.
#[verifier::external_body]
pub(crate) fn map_get<'a>(m: &'a ConfigValues, key: &str) -> (r: Option<&'a (Value, usize)>)
    ensures
        match r {
            Some(stored) => key_position(map_entries(*m), key@) >= 0 && *stored == map_entries(
                *m,
            )[key_position(map_entries(*m), key@)].1,
            None => key_position(map_entries(*m), key@) < 0,
        },
{
    m.get(key)
}

/// `IndexMap::sort_keys`: the same entries, ordered by key, strings being
/// ordered by their code points.
#[verifier::external_body]
pub(crate) fn map_sort_keys(m: &mut ConfigValues)
    ensures
        map_entries(*final(m)).to_multiset() == map_entries(*old(m)).to_multiset(),
        ascending(entry_keys(map_entries(*final(m)))),
{
    m.sort_keys()
}

/// `IndexMap::new`: a map with no sections.
#[verifier::external_body]
pub(crate) fn sections_new() -> (m: SectionMap)
    ensures
        section_entries(m) == Seq::<(Seq<char>, Vec<SectionEntry>)>::empty(),
{
    IndexMap::new()
}

/// `IndexMap::get`: the entries of the section `name`, if the map holds it.
#[verifier::external_body]
pub(crate) fn sections_get<'a>(m: &'a SectionMap, name: &str) -> (r: Option<&'a Vec<SectionEntry>>)
    ensures
        match r {
            Some(entries) => item_position(section_names(section_entries(*m)), name@) >= 0 && *entries
                == section_entries(*m)[item_position(section_names(section_entries(*m)), name@)].1,
            None => item_position(section_names(section_entries(*m)), name@) < 0,
        },
{
    m.get(name)
}

/// `IndexMap::insert`: a present section keeps its place and takes the new
/// entries; an absent one is appended with them.
#[verifier::external_body]
pub(crate) fn sections_insert(m: &mut SectionMap, name: String, entries: Vec<SectionEntry>)
    ensures
        item_position(section_names(section_entries(*old(m))), name@) >= 0 ==> section_entries(*final(m))
            == section_entries(*old(m)).update(
            item_position(section_names(section_entries(*old(m))), name@),
            (name@, entries),
        ),
        item_position(section_names(section_entries(*old(m))), name@) < 0 ==> section_entries(*final(m))
            == section_entries(*old(m)).push((name@, entries)),
{
    m.insert(name, entries);
}

/// `IndexMap::sort_keys`: the same sections, ordered by name, strings being
/// ordered by their code points.
#[verifier::external_body]
pub(crate) fn sections_sort_keys(m: &mut SectionMap)
    ensures
        section_entries(*final(m)).to_multiset() == section_entries(*old(m)).to_multiset(),
        ascending(section_names(section_entries(*final(m)))),
{
    m.sort_keys()
}

/// `IndexSet::new`: a set with no members.
#[verifier::external_body]
pub(crate) fn set_new() -> (s: IndexSet<String>)
    ensures
        set_items(s) == Seq::<Seq<char>>::empty(),
{
    IndexSet::new()
}

/// `IndexSet::get_index_of`: the position of `item`, if the set holds it. A
/// set holds a member at one position at most.
#[verifier::external_body]
pub(crate) fn set_get_index_of(s: &IndexSet<String>, item: &str) -> (r: Option<usize>)
    ensures
        r is Some <==> item_position(set_items(*s), item@) >= 0,
        r is Some ==> r->0 == item_position(set_items(*s), item@),
        forall|j: int|
            0 <= j < set_items(*s).len() && #[trigger] set_items(*s)[j] == item@ ==> r == Some(
                j as usize,
            ),
{
    s.get_index_of(item)
}

/// `IndexSet::insert_full`: a present member is left where it is and its
/// position returned with `false`; an absent one is appended and its new
/// position returned with `true`.
#[verifier::external_body]
pub(crate) fn set_insert_full(s: &mut IndexSet<String>, item: String) -> (r: (usize, bool))
    ensures
        item_position(set_items(*old(s)), item@) >= 0 ==> r.0 == item_position(
            set_items(*old(s)),
            item@,
        ) && !r.1 && set_items(*final(s)) == set_items(*old(s)),
        item_position(set_items(*old(s)), item@) < 0 ==> r.0 == set_items(*old(s)).len() && r.1
            && set_items(*final(s)) == set_items(*old(s)).push(item@),
        items_distinct(set_items(*final(s))),
{
    s.insert_full(item)
}

/// Where `item_position` is not negative it is a position of `item`, the
/// first one; where it is negative `item` does not occur.
pub proof fn lemma_item_position(items: Seq<Seq<char>>, item: Seq<char>)
    ensures
        -1 <= item_position(items, item) < items.len(),
        item_position(items, item) >= 0 ==> items[item_position(items, item)] == item,
        forall|j: int| 0 <= j < items.len() && items[j] == item ==> 0 <= item_position(items, item) <= j,
    decreases items.len(),
{
    if items.len() > 0 {
        let front = items.drop_last();
        lemma_item_position(front, item);
        assert forall|j: int| 0 <= j < items.len() && items[j] == item implies 0 <= item_position(
            items,
            item,
        ) <= j by {
            if j < front.len() {
                assert(front[j] == item);
            }
        }
    }
}

/// Appending to, or replacing within, a sequence leaves the position of
/// every member that was found where it was.
pub proof fn lemma_item_position_push(items: Seq<Seq<char>>, added: Seq<char>, item: Seq<char>)
    ensures
        item_position(items, item) >= 0 ==> item_position(items.push(added), item) == item_position(
            items,
            item,
        ),
        item_position(items, item) < 0 && added == item ==> item_position(items.push(added), item)
            == items.len(),
        item_position(items, item) < 0 && added != item ==> item_position(items.push(added), item) < 0,
{
    assert(items.push(added).drop_last() =~= items);
}

} // verus!
