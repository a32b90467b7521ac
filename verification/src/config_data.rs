//! A configuration with its sections: the keys in order, and for every
//! dotted prefix of a key the values and sections directly below it.

use vstd::prelude::*;
use vstd::string::StringExecFns;
use crate::config::get_value;
use crate::flat::flat_entry;
use crate::ordered::{
    entry_keys, item_position, key_position, lemma_item_position, lemma_item_position_push, map_entries,
    map_get_index, map_len, map_sort_keys, section_entries, section_names, sections_get, sections_insert,
    sections_new, sections_sort_keys, ConfigValues, SectionMap,
};
use crate::spec::child_key;
use crate::text::{ascending, split_at_dots, split_dots, texts};
use crate::value::{SectionEntry, Value, ValueView};

verus! {

/// The mathematical content of a [`SectionEntry`].
pub ghost enum SectionEntryView {
    ValueKey(usize),
    SubSection(Seq<char>),
}

impl View for SectionEntry {
    type V = SectionEntryView;

    open spec fn view(&self) -> SectionEntryView {
        match self {
            SectionEntry::ValueKey(i) => SectionEntryView::ValueKey(*i),
            SectionEntry::SubSection(name) => SectionEntryView::SubSection(name@),
        }
    }
}

/// The content of each entry of `entries`, in order.
pub open spec fn entries_content(entries: Seq<SectionEntry>) -> Seq<SectionEntryView> {
    Seq::new(entries.len(), |i: int| entries[i]@)
}

/// The content of stored sections: each name with the content of its
/// entries.
pub open spec fn sections_view(sections: Seq<(Seq<char>, Vec<SectionEntry>)>) -> Seq<
    (Seq<char>, Seq<SectionEntryView>),
> {
    Seq::new(sections.len(), |i: int| (sections[i].0, entries_content(sections[i].1@)))
}

/// The names of `sections`, in order.
pub open spec fn names_of(sections: Seq<(Seq<char>, Seq<SectionEntryView>)>) -> Seq<Seq<char>> {
    Seq::new(sections.len(), |i: int| sections[i].0)
}

/// `sections` with a section named `name`: as they are where there is one,
/// with an empty one at the end where there is none.
pub open spec fn touch(sections: Seq<(Seq<char>, Seq<SectionEntryView>)>, name: Seq<char>) -> Seq<
    (Seq<char>, Seq<SectionEntryView>),
> {
    if item_position(names_of(sections), name) < 0 {
        sections.push((name, Seq::empty()))
    } else {
        sections
    }
}

/// `sections` with `entry` at the end of the section `name`, which is made
/// if it is not there; where `unique` is set an entry that the section
/// holds is not added again.
pub open spec fn add_entry(
    sections: Seq<(Seq<char>, Seq<SectionEntryView>)>,
    name: Seq<char>,
    entry: SectionEntryView,
    unique: bool,
) -> Seq<(Seq<char>, Seq<SectionEntryView>)> {
    let touched = touch(sections, name);
    let at = item_position(names_of(touched), name);
    if unique && touched[at].1.contains(entry) {
        touched
    } else {
        touched.update(at, (name, touched[at].1.push(entry)))
    }
}

/// The section that the first `upto` pieces of a key name: each piece below
/// the ones before it, with a dot between them unless nothing came before.
pub open spec fn path_at(parts: Seq<Seq<char>>, upto: int) -> Seq<char>
    decreases upto,
{
    if upto <= 0 {
        Seq::empty()
    } else {
        child_key(path_at(parts, upto - 1), parts[upto - 1])
    }
}

/// What the first `upto` pieces of the key at position `index` add to
/// `sections`: the last piece of the key enters the value's position into
/// the section above it; every other piece enters its own section into the
/// section above it, once, and makes its own section.
pub open spec fn key_sections(
    sections: Seq<(Seq<char>, Seq<SectionEntryView>)>,
    parts: Seq<Seq<char>>,
    upto: int,
    index: usize,
) -> Seq<(Seq<char>, Seq<SectionEntryView>)>
    decreases upto,
{
    if upto <= 0 {
        sections
    } else {
        let before = key_sections(sections, parts, upto - 1, index);
        let above = path_at(parts, upto - 1);
        let own = path_at(parts, upto);
        if upto == parts.len() {
            add_entry(before, above, SectionEntryView::ValueKey(index), false)
        } else {
            touch(add_entry(before, above, SectionEntryView::SubSection(own), true), own)
        }
    }
}

/// The sections that the first `upto` of `keys` make, in the order in
/// which they are made.
pub open spec fn all_sections(keys: Seq<Seq<char>>, upto: int) -> Seq<(Seq<char>, Seq<SectionEntryView>)>
    decreases upto,
{
    if upto <= 0 {
        Seq::empty()
    } else {
        key_sections(
            all_sections(keys, upto - 1),
            split_at_dots(keys[upto - 1]),
            split_at_dots(keys[upto - 1]).len() as int,
            (upto - 1) as usize,
        )
    }
}

/// The entries of the section `name` among `sections`, if it is there.
pub open spec fn section_at(sections: Seq<(Seq<char>, Seq<SectionEntryView>)>, name: Seq<char>) -> Option<
    Seq<SectionEntryView>,
> {
    let at = item_position(names_of(sections), name);
    if at < 0 {
        None
    } else {
        Some(sections[at].1)
    }
}

/// No name occurs at two positions.
pub open spec fn names_distinct(names: Seq<Seq<char>>) -> bool {
    forall|i: int, j: int| 0 <= i < names.len() && 0 <= j < names.len() && i != j ==> names[i] != names[j]
}

/// Making a section keeps the names distinct.
pub proof fn lemma_touch_keeps_names_distinct(sections: Seq<(Seq<char>, Seq<SectionEntryView>)>, name: Seq<char>)
    requires
        names_distinct(names_of(sections)),
    ensures
        names_distinct(names_of(touch(sections, name))),
        item_position(names_of(touch(sections, name)), name) >= 0,
{
    lemma_item_position(names_of(sections), name);
    lemma_item_position_push(names_of(sections), name, name);
    assert(names_of(sections.push((name, Seq::empty()))) =~= names_of(sections).push(name));
}

/// Adding an entry keeps the names distinct.
pub proof fn lemma_add_entry_keeps_names_distinct(
    sections: Seq<(Seq<char>, Seq<SectionEntryView>)>,
    name: Seq<char>,
    entry: SectionEntryView,
    unique: bool,
)
    requires
        names_distinct(names_of(sections)),
    ensures
        names_distinct(names_of(add_entry(sections, name, entry, unique))),
{
    lemma_touch_keeps_names_distinct(sections, name);
    let touched = touch(sections, name);
    lemma_item_position(names_of(touched), name);
    let at = item_position(names_of(touched), name);
    assert(names_of(touched.update(at, (name, touched[at].1.push(entry)))) =~= names_of(touched));
}

/// The sections made by the pieces of a key have distinct names.
pub proof fn lemma_key_sections_names_distinct(
    sections: Seq<(Seq<char>, Seq<SectionEntryView>)>,
    parts: Seq<Seq<char>>,
    upto: int,
    index: usize,
)
    requires
        names_distinct(names_of(sections)),
    ensures
        names_distinct(names_of(key_sections(sections, parts, upto, index))),
    decreases upto,
{
    if upto > 0 {
        lemma_key_sections_names_distinct(sections, parts, upto - 1, index);
        let before = key_sections(sections, parts, upto - 1, index);
        let above = path_at(parts, upto - 1);
        let own = path_at(parts, upto);
        if upto == parts.len() {
            lemma_add_entry_keeps_names_distinct(before, above, SectionEntryView::ValueKey(index), false);
        } else {
            lemma_add_entry_keeps_names_distinct(before, above, SectionEntryView::SubSection(own), true);
            lemma_touch_keeps_names_distinct(
                add_entry(before, above, SectionEntryView::SubSection(own), true),
                own,
            );
        }
    }
}

/// The sections made by keys have distinct names.
pub proof fn lemma_all_sections_names_distinct(keys: Seq<Seq<char>>, upto: int)
    ensures
        names_distinct(names_of(all_sections(keys, upto))),
    decreases upto,
{
    if upto > 0 {
        lemma_all_sections_names_distinct(keys, upto - 1);
        lemma_key_sections_names_distinct(
            all_sections(keys, upto - 1),
            split_at_dots(keys[upto - 1]),
            split_at_dots(keys[upto - 1]).len() as int,
            (upto - 1) as usize,
        );
    }
}

/// A copy of `entries`.
fn copy_entries(entries: &Vec<SectionEntry>) -> (r: Vec<SectionEntry>)
    ensures
        entries_content(r@) == entries_content(entries@),
{
    let mut out: Vec<SectionEntry> = Vec::new();
    let mut i: usize = 0;
    while i < entries.len()
        invariant
            i <= entries.len(),
            out@.len() == i,
            forall|j: int| 0 <= j < i ==> out@[j]@ == entries@[j]@,
        decreases entries.len() - i,
    {
        let copy = match &entries[i] {
            SectionEntry::ValueKey(index) => SectionEntry::ValueKey(*index),
            SectionEntry::SubSection(name) => SectionEntry::SubSection(name.clone()),
        };
        out.push(copy);
        i += 1;
    }
    proof {
        assert(entries_content(out@) =~= entries_content(entries@));
    }
    out
}

/// Whether `entries` holds an entry equal to `entry`.
fn contains_entry(entries: &Vec<SectionEntry>, entry: &SectionEntry) -> (r: bool)
    ensures
        r == entries_content(entries@).contains(entry@),
{
    let mut i: usize = 0;
    while i < entries.len()
        invariant
            i <= entries.len(),
            forall|j: int| 0 <= j < i ==> entries_content(entries@)[j] != entry@,
        decreases entries.len() - i,
    {
        let same = match (&entries[i], entry) {
            (SectionEntry::ValueKey(a), SectionEntry::ValueKey(b)) => *a == *b,
            (SectionEntry::SubSection(a), SectionEntry::SubSection(b)) => *a == *b,
            _ => false,
        };
        if same {
            assert(entries_content(entries@)[i as int] == entry@);
            return true;
        }
        i += 1;
    }
    false
}

/// Makes the section `name` if it is not there.
fn touch_section(sections: &mut SectionMap, name: &String)
    ensures
        sections_view(section_entries(*final(sections))) == touch(
            sections_view(section_entries(*old(sections))),
            name@,
        ),
{
    let ghost before = sections_view(section_entries(*sections));
    proof {
        assert(names_of(before) =~= section_names(section_entries(*sections)));
    }
    let present = sections_get(sections, name.as_str()).is_some();
    if !present {
        let empty: Vec<SectionEntry> = Vec::new();
        sections_insert(sections, name.clone(), empty);
        proof {
            assert(entries_content(empty@) =~= Seq::<SectionEntryView>::empty());
            assert(sections_view(section_entries(*sections)) =~= before.push((name@, Seq::empty())));
        }
    }
}

/// Adds `entry` at the end of the section `name`, which is made if it is
/// not there; where `unique` is set an entry that the section holds is not
/// added again.
fn add_section_entry(sections: &mut SectionMap, name: &String, entry: SectionEntry, unique: bool)
    ensures
        sections_view(section_entries(*final(sections))) == add_entry(
            sections_view(section_entries(*old(sections))),
            name@,
            entry@,
            unique,
        ),
{
    let ghost before = sections_view(section_entries(*sections));
    touch_section(sections, name);
    let ghost touched = sections_view(section_entries(*sections));
    proof {
        assert(names_of(touched) =~= section_names(section_entries(*sections)));
        lemma_item_position(names_of(before), name@);
        lemma_item_position_push(names_of(before), name@, name@);
        assert(names_of(before.push((name@, Seq::empty()))) =~= names_of(before).push(name@));
        lemma_item_position(names_of(touched), name@);
    }
    let mut entries = match sections_get(sections, name.as_str()) {
        Some(held) => {
            if unique && contains_entry(held, &entry) {
                return ;
            }
            copy_entries(held)
        },
        None => Vec::new(),
    };
    let ghost at = item_position(names_of(touched), name@);
    let ghost held = touched[at].1;
    entries.push(entry);
    proof {
        assert(entries_content(entries@) =~= held.push(entry@));
    }
    sections_insert(sections, name.clone(), entries);
    proof {
        assert(sections_view(section_entries(*sections)) =~= touched.update(at, (name@, held.push(entry@))));
    }
}

/// A key has at least one piece.
pub proof fn lemma_split_is_not_empty(s: Seq<char>)
    ensures
        split_at_dots(s).len() >= 1,
    decreases s.len(),
{
    if s.len() > 0 {
        lemma_split_is_not_empty(s.drop_last());
    }
}

/// Putting sections in another order changes no section: where two lists
/// hold the same sections and the names of one are distinct, a name finds
/// the same entries in both.
pub proof fn lemma_reordered_sections_hold_the_same(
    before: Seq<(Seq<char>, Vec<SectionEntry>)>,
    after: Seq<(Seq<char>, Vec<SectionEntry>)>,
    name: Seq<char>,
)
    requires
        before.to_multiset() == after.to_multiset(),
        names_distinct(section_names(before)),
    ensures
        section_at(sections_view(after), name) == section_at(sections_view(before), name),
{
    before.to_multiset_ensures();
    after.to_multiset_ensures();
    assert(names_of(sections_view(before)) =~= section_names(before));
    assert(names_of(sections_view(after)) =~= section_names(after));
    lemma_item_position(section_names(before), name);
    lemma_item_position(section_names(after), name);
    let at_before = item_position(section_names(before), name);
    let at_after = item_position(section_names(after), name);
    if at_before >= 0 {
        let found = before[at_before];
        assert(before.contains(found));
        assert(after.to_multiset().count(found) > 0);
        assert(after.contains(found));
        let k = choose|k: int| 0 <= k < after.len() && after[k] == found;
        assert(section_names(after)[k] == name);
    }
    if at_after >= 0 {
        let found = after[at_after];
        assert(after.contains(found));
        assert(before.to_multiset().count(found) > 0);
        assert(before.contains(found));
        let p = choose|p: int| 0 <= p < before.len() && before[p] == found;
        assert(section_names(before)[p] == name);
        assert(p == at_before);
    }
}

/// A configuration with its sections.
#[derive(Debug)]
pub struct ConfigData {
    /// Every key with its value and the file it came from, ordered by key.
    pub values: ConfigValues,
    /// Every section with its entries, ordered by name. The section above a
    /// key's last piece holds the position of the key's value; the section
    /// above any other piece holds the section of that piece.
    pub sections: SectionMap,
}

/// The positions of values among `entries`, in order.
pub open spec fn value_keys(entries: Seq<SectionEntryView>) -> Seq<usize>
    decreases entries.len(),
{
    if entries.len() == 0 {
        Seq::empty()
    } else {
        match entries.last() {
            SectionEntryView::ValueKey(index) => value_keys(entries.drop_last()).push(index),
            _ => value_keys(entries.drop_last()),
        }
    }
}

/// The names of sections among `entries`, in order.
pub open spec fn subsection_names(entries: Seq<SectionEntryView>) -> Seq<Seq<char>>
    decreases entries.len(),
{
    if entries.len() == 0 {
        Seq::empty()
    } else {
        match entries.last() {
            SectionEntryView::SubSection(name) => subsection_names(entries.drop_last()).push(name),
            _ => subsection_names(entries.drop_last()),
        }
    }
}

/// The keys and values at the positions `positions` among `entries`, in
/// order; a position at which nothing stands is passed over.
pub open spec fn values_at(entries: Seq<(Seq<char>, (Value, usize))>, positions: Seq<usize>) -> Seq<
    (Seq<char>, ValueView),
>
    decreases positions.len(),
{
    if positions.len() == 0 {
        Seq::empty()
    } else if positions.last() < entries.len() {
        values_at(entries, positions.drop_last()).push(
            (entries[positions.last() as int].0, flat_entry(entries[positions.last() as int]).value),
        )
    } else {
        values_at(entries, positions.drop_last())
    }
}

/// What a list of keys with borrowed values holds.
pub open spec fn data_view(data: Seq<(String, &Value)>) -> Seq<(Seq<char>, ValueView)> {
    Seq::new(data.len(), |i: int| (data[i].0@, data[i].1@))
}

impl ConfigData {
    /// The sections of this configuration, by name and content.
    pub open spec fn sections_content(&self) -> Seq<(Seq<char>, Seq<SectionEntryView>)> {
        sections_view(section_entries(self.sections))
    }

    /// The keys of this configuration, in order.
    pub open spec fn keys(&self) -> Seq<Seq<char>> {
        entry_keys(map_entries(self.values))
    }

    /// Orders a configuration by its keys and finds its sections.
    ///
    /// The values are those given, in the order of their keys. Every dotted
    /// prefix of a key names a section, and so does the empty prefix. The
    /// section above the last piece of a key holds the position of the
    /// key's value; the section above any other piece holds the section
    /// that the piece names, once. Within a section the entries stand in
    /// the order in which the keys bring them. The sections are ordered by
    /// name.
    pub fn new(values: ConfigValues) -> (r: ConfigData)
        ensures
            map_entries(r.values).to_multiset() == map_entries(values).to_multiset(),
            ascending(r.keys()),
            ascending(section_names(section_entries(r.sections))),
            forall|name: Seq<char>|
                section_at(r.sections_content(), name) == section_at(
                    all_sections(r.keys(), r.keys().len() as int),
                    name,
                ),
    {
        let mut sorted_values = values;
        map_sort_keys(&mut sorted_values);
        let ghost keys = entry_keys(map_entries(sorted_values));
        let mut sections = sections_new();
        let count = map_len(&sorted_values);
        let mut i: usize = 0;
        proof {
            assert(sections_view(section_entries(sections)) =~= all_sections(keys, 0));
        }
        while i < count
            invariant
                i <= count,
                count == map_entries(sorted_values).len(),
                keys == entry_keys(map_entries(sorted_values)),
                sections_view(section_entries(sections)) == all_sections(keys, i as int),
            decreases count - i,
        {
            match map_get_index(&sorted_values, i) {
                Some((key, _)) => {
                    let parts = split_dots(key.as_str());
                    let ghost pieces = texts(parts@);
                    let ghost start = all_sections(keys, i as int);
                    proof {
                        lemma_split_is_not_empty(key@);
                        assert(pieces == split_at_dots(keys[i as int]));
                    }
                    let mut current_path = String::new();
                    let mut j: usize = 0;
                    while j < parts.len()
                        invariant
                            j <= parts.len(),
                            parts.len() >= 1,
                            pieces == texts(parts@),
                            current_path@ == path_at(pieces, j as int),
                            sections_view(section_entries(sections)) == key_sections(start, pieces, j as int, i),
                        decreases parts.len() - j,
                    {
                        let above = current_path.clone();
                        if current_path.as_str().unicode_len() > 0 {
                            current_path.append(".");
                        }
                        current_path.append(parts[j].as_str());
                        proof {
                            reveal_strlit(".");
                            assert("."@ =~= seq!['.']);
                            assert(pieces[j as int] == parts@[j as int]@);
                            assert(current_path@ =~= child_key(above@, pieces[j as int]));
                            assert(current_path@ == path_at(pieces, j + 1));
                        }
                        if j == parts.len() - 1 {
                            add_section_entry(&mut sections, &above, SectionEntry::ValueKey(i), false);
                        } else {
                            add_section_entry(&mut sections, &above, SectionEntry::SubSection(current_path.clone()), true);
                            touch_section(&mut sections, &current_path);
                        }
                        j += 1;
                    }
                },
                None => {
                    assert(false);
                },
            }
            i += 1;
        }
        let ghost built = section_entries(sections);
        sections_sort_keys(&mut sections);
        proof {
            lemma_all_sections_names_distinct(keys, count as int);
            assert(names_of(sections_view(built)) =~= section_names(built));
            assert(names_distinct(section_names(built))) by {
                assert forall|a: int, b: int|
                    0 <= a < section_names(built).len() && 0 <= b < section_names(built).len() && a
                        != b implies section_names(built)[a] != section_names(built)[b] by {
                    assert(names_of(sections_view(built))[a] == section_names(built)[a]);
                    assert(names_of(sections_view(built))[b] == section_names(built)[b]);
                }
            }
            assert(keys.len() == count);
            assert forall|name: Seq<char>|
                section_at(sections_view(section_entries(sections)), name) == section_at(
                    all_sections(keys, keys.len() as int),
                    name,
                ) by {
                lemma_reordered_sections_hold_the_same(built, section_entries(sections), name);
            }
        }
        ConfigData { values: sorted_values, sections }
    }

    /// The value stored under `key`, if one is stored there.
    pub fn get(&self, key: &str) -> (r: Option<&Value>)
        ensures
            match r {
                Some(value) => key_position(map_entries(self.values), key@) >= 0 && value@ == flat_entry(
                    map_entries(self.values)[key_position(map_entries(self.values), key@)],
                ).value,
                None => key_position(map_entries(self.values), key@) < 0,
            },
    {
        get_value(&self.values, key)
    }

    /// The positions of the values that stand directly in `section`, in
    /// order; nothing where there is no such section.
    pub fn get_section_keys(&self, section: &str) -> (r: Option<Vec<usize>>)
        ensures
            match section_at(self.sections_content(), section@) {
                Some(entries) => r is Some && r->0@ == value_keys(entries),
                None => r is None,
            },
    {
        proof {
            assert(names_of(self.sections_content()) =~= section_names(section_entries(self.sections)));
            lemma_item_position(section_names(section_entries(self.sections)), section@);
        }
        let entries = match sections_get(&self.sections, section) {
            Some(entries) => entries,
            None => {
                return None;
            },
        };
        let ghost content = entries_content(entries@);
        let mut found: Vec<usize> = Vec::new();
        let mut i: usize = 0;
        proof {
            assert(content.subrange(0, 0) =~= Seq::<SectionEntryView>::empty());
        }
        while i < entries.len()
            invariant
                i <= entries.len(),
                content == entries_content(entries@),
                found@ == value_keys(content.subrange(0, i as int)),
            decreases entries.len() - i,
        {
            proof {
                let upto = content.subrange(0, i + 1);
                assert(upto.drop_last() =~= content.subrange(0, i as int));
                assert(upto.last() == entries@[i as int]@);
            }
            match &entries[i] {
                SectionEntry::ValueKey(index) => {
                    found.push(*index);
                },
                SectionEntry::SubSection(_) => {},
            }
            i += 1;
        }
        proof {
            assert(content.subrange(0, entries.len() as int) =~= content);
        }
        Some(found)
    }

    /// The names of the sections that stand directly in `section`, in
    /// order; nothing where there is no such section.
    pub fn get_subsection_names(&self, section: &str) -> (r: Option<Vec<String>>)
        ensures
            match section_at(self.sections_content(), section@) {
                Some(entries) => r is Some && texts(r->0@) == subsection_names(entries),
                None => r is None,
            },
    {
        proof {
            assert(names_of(self.sections_content()) =~= section_names(section_entries(self.sections)));
            lemma_item_position(section_names(section_entries(self.sections)), section@);
        }
        let entries = match sections_get(&self.sections, section) {
            Some(entries) => entries,
            None => {
                return None;
            },
        };
        let ghost content = entries_content(entries@);
        let mut found: Vec<String> = Vec::new();
        let mut i: usize = 0;
        proof {
            assert(content.subrange(0, 0) =~= Seq::<SectionEntryView>::empty());
            assert(texts(found@) =~= Seq::<Seq<char>>::empty());
        }
        while i < entries.len()
            invariant
                i <= entries.len(),
                content == entries_content(entries@),
                texts(found@) == subsection_names(content.subrange(0, i as int)),
            decreases entries.len() - i,
        {
            proof {
                let upto = content.subrange(0, i + 1);
                assert(upto.drop_last() =~= content.subrange(0, i as int));
                assert(upto.last() == entries@[i as int]@);
            }
            match &entries[i] {
                SectionEntry::ValueKey(_) => {},
                SectionEntry::SubSection(name) => {
                    let ghost before = texts(found@);
                    found.push(name.clone());
                    assert(texts(found@) =~= before.push(name@));
                },
            }
            i += 1;
        }
        proof {
            assert(content.subrange(0, entries.len() as int) =~= content);
        }
        Some(found)
    }

    /// The keys and values that stand directly in `section`, in order;
    /// nothing where there is no such section.
    pub fn get_section_data(&self, section: &str) -> (r: Option<Vec<(String, &Value)>>)
        ensures
            match section_at(self.sections_content(), section@) {
                Some(entries) => r is Some && data_view(r->0@) == values_at(
                    map_entries(self.values),
                    value_keys(entries),
                ),
                None => r is None,
            },
    {
        let indices = match self.get_section_keys(section) {
            Some(indices) => indices,
            None => {
                return None;
            },
        };
        let mut section_data: Vec<(String, &Value)> = Vec::new();
        let mut i: usize = 0;
        proof {
            assert(indices@.subrange(0, 0) =~= Seq::<usize>::empty());
            assert(data_view(section_data@) =~= Seq::<(Seq<char>, ValueView)>::empty());
        }
        while i < indices.len()
            invariant
                i <= indices.len(),
                data_view(section_data@) == values_at(map_entries(self.values), indices@.subrange(0, i as int)),
            decreases indices.len() - i,
        {
            proof {
                let upto = indices@.subrange(0, i + 1);
                assert(upto.drop_last() =~= indices@.subrange(0, i as int));
                assert(upto.last() == indices@[i as int]);
            }
            match map_get_index(&self.values, indices[i]) {
                Some((key, stored)) => {
                    let ghost before = data_view(section_data@);
                    section_data.push((key.clone(), &stored.0));
                    assert(data_view(section_data@) =~= before.push((key@, stored.0@)));
                },
                None => {},
            }
            i += 1;
        }
        proof {
            assert(indices@.subrange(0, indices.len() as int) =~= indices@);
        }
        Some(section_data)
    }
}

} // verus!
