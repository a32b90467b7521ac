//! Flat configuration entries and the ordered map that holds them.

use vstd::prelude::*;
use crate::ordered::{entry_keys, item_position, lemma_item_position, map_entries, map_insert, ConfigValues};
use crate::value::{well_formed, Value, ValueView};

verus! {

/// One flat entry: a dotted key, its value, and the index of its file.
pub ghost struct FlatEntry {
    pub key: Seq<char>,
    pub value: ValueView,
    pub file: usize,
}

/// The content of one stored entry.
pub open spec fn flat_entry(e: (Seq<char>, (Value, usize))) -> FlatEntry {
    let pair = e.1;
    FlatEntry { key: e.0, value: pair.0@, file: pair.1 }
}

/// The content of stored entries, in order.
pub open spec fn flat_entries(entries: Seq<(Seq<char>, (Value, usize))>) -> Seq<FlatEntry> {
    Seq::new(entries.len(), |i: int| flat_entry(entries[i]))
}

/// The content of a map.
pub open spec fn flat_view(m: ConfigValues) -> Seq<FlatEntry> {
    flat_entries(map_entries(m))
}

/// The keys of `values`, in order.
pub open spec fn flat_keys(values: Seq<FlatEntry>) -> Seq<Seq<char>> {
    Seq::new(values.len(), |i: int| values[i].key)
}

/// Ordered-map insertion: a present key takes the new entry in place, an
/// absent one is appended.
pub open spec fn put(values: Seq<FlatEntry>, e: FlatEntry) -> Seq<FlatEntry> {
    let at = item_position(flat_keys(values), e.key);
    if at < 0 {
        values.push(e)
    } else {
        values.update(at, e)
    }
}

/// Stores `value` under `key` for file `file_idx`: in place where the key is
/// present, at the end where it is not.
pub fn store(values: &mut ConfigValues, key: String, value: Value, file_idx: usize)
    ensures
        flat_view(*final(values)) == put(
            flat_view(*old(values)),
            FlatEntry { key: key@, value: value@, file: file_idx },
        ),
{
    let ghost before = flat_view(*values);
    let ghost entry = FlatEntry { key: key@, value: value@, file: file_idx };
    proof {
        assert(flat_keys(before) =~= entry_keys(map_entries(*values)));
        lemma_item_position(entry_keys(map_entries(*values)), key@);
    }
    map_insert(values, key, (value, file_idx));
    proof {
        assert(flat_view(*values) =~= put(before, entry));
    }
}

/// Whether `values` is a sound map: no key occurs twice and every value is
/// well formed.
pub open spec fn sound(values: Seq<FlatEntry>) -> bool {
    &&& forall|i: int, j: int|
        0 <= i < values.len() && 0 <= j < values.len() && i != j ==> (#[trigger] values[i]).key
            != (#[trigger] values[j]).key
    &&& forall|i: int| 0 <= i < values.len() ==> well_formed((#[trigger] values[i]).value)
}

/// Storing a well-formed value in a sound map leaves the map sound.
pub proof fn lemma_put_keeps_sound(values: Seq<FlatEntry>, e: FlatEntry)
    requires
        sound(values),
        well_formed(e.value),
    ensures
        sound(put(values, e)),
{
    lemma_item_position(flat_keys(values), e.key);
    let at = item_position(flat_keys(values), e.key);
    let after = put(values, e);
    if at < 0 {
        assert forall|i: int, j: int|
            0 <= i < after.len() && 0 <= j < after.len() && i != j implies (#[trigger] after[i]).key
            != (#[trigger] after[j]).key by {
            if i < values.len() {
                assert(flat_keys(values)[i] == values[i].key);
            }
            if j < values.len() {
                assert(flat_keys(values)[j] == values[j].key);
            }
        }
    } else {
        assert(flat_keys(values)[at] == e.key);
        assert forall|i: int, j: int|
            0 <= i < after.len() && 0 <= j < after.len() && i != j implies (#[trigger] after[i]).key
            != (#[trigger] after[j]).key by {
            assert(after[i].key == values[i].key);
            assert(after[j].key == values[j].key);
        }
    }
}

} // verus!
