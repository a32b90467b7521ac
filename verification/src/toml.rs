//! Flattening of a parsed document into dotted keys and `includes` entries.
//!
//! A table's entries become dotted keys below the table's own path. A key
//! named `includes` is a directive at every level: its strings are gathered
//! and it is never stored. A repeated table is stored whole, as an array of
//! tables whose keys are relative to each element. Tables nested deeper than
//! [`MAX_TOML_DEPTH`] are left out and the walk is reported as pruned.

use vstd::prelude::*;
use vstd::string::StringExecFns;
use crate::flat::{flat_view, lemma_put_keeps_sound, put, sound, store, FlatEntry};
use crate::document::{
    entries_view, lemma_entries_view, lemma_nodes_view, lemma_tables_view, nodes_view, parse_tree,
    parsed_toml, tables_view, TomlNode, TomlNodeView,
};
use crate::error::ArcellaUtilsError;
use crate::ordered::{map_entries, map_get_index, map_len, map_new, ConfigValues};
use crate::text::{dotted, join_dotted, texts};
use crate::types::{TomlFileData, TraversalResult, MAX_TOML_DEPTH};
use crate::value::{
    canonical_float, canonical_float_bits, lemma_items_of_well_formed_array, lemma_pairs_view, pairs_view,
    values_view, well_formed, Value, ValueView,
};

verus! {

/// The key that names files to load instead of a value.
pub const INCLUDES_KEY: &'static str = "includes";

/// What a walk has gathered, and whether it was cut short or failed.
pub ghost struct Walk {
    /// The `includes` entries met, in order.
    pub includes: Seq<Seq<char>>,
    /// The values stored, in order of first appearance of their keys.
    pub values: Seq<FlatEntry>,
    /// Whether a subtree was left out at the depth limit.
    pub pruned: bool,
    /// The message of the failure that stopped the walk, if one did.
    pub error: Option<Seq<char>>,
}

/// What the conversion of repeated tables has gathered.
pub ghost struct TableArray {
    /// One table value per repetition converted so far.
    pub items: Seq<ValueView>,
    /// The `includes` entries met, in order.
    pub includes: Seq<Seq<char>>,
    /// Whether a subtree was left out at the depth limit.
    pub pruned: bool,
    /// The message of the failure that stopped the conversion, if one did.
    pub error: Option<Seq<char>>,
}

/// How a node that has no value is named in a message.
pub open spec fn kind_name(node: TomlNodeView) -> Seq<char> {
    match node {
        TomlNodeView::Datetime(text) => "datetime "@ + text,
        TomlNodeView::InlineTable(_) => "inline table"@,
        TomlNodeView::Table(_) => "table"@,
        TomlNodeView::ArrayOfTables(_) => "array of tables"@,
        _ => "none"@,
    }
}

/// The message for a node that has no value.
pub open spec fn unsupported_message(node: TomlNodeView) -> Seq<char> {
    "Unsupported TOML value type: "@ + kind_name(node)
}

/// The value of a scalar or an array of values; a message for anything else.
pub open spec fn converted(node: TomlNodeView) -> Result<ValueView, Seq<char>>
    decreases node, 0nat,
{
    match node {
        TomlNodeView::String(s) => Ok(ValueView::String(s)),
        TomlNodeView::Integer(n) => Ok(ValueView::Integer(n)),
        TomlNodeView::Float(bits) => Ok(ValueView::Float(canonical_float(bits))),
        TomlNodeView::Boolean(b) => Ok(ValueView::Boolean(b)),
        TomlNodeView::Array(items) => match converted_items(items) {
            Ok(values) => Ok(ValueView::Array(values)),
            Err(message) => Err(message),
        },
        _ => Err(unsupported_message(node)),
    }
}

/// The values of `items`, or the message of the first that has none.
pub open spec fn converted_items(items: Seq<TomlNodeView>) -> Result<Seq<ValueView>, Seq<char>>
    decreases items, 1nat,
{
    if items.len() == 0 {
        Ok(Seq::empty())
    } else {
        match converted_items(items.drop_last()) {
            Err(message) => Err(message),
            Ok(values) => match converted(items.last()) {
                Ok(value) => Ok(values.push(value)),
                Err(message) => Err(message),
            },
        }
    }
}

/// The strings among `items`, in order.
pub open spec fn strings_among(items: Seq<TomlNodeView>) -> Seq<Seq<char>>
    decreases items.len(),
{
    if items.len() == 0 {
        Seq::empty()
    } else {
        match items.last() {
            TomlNodeView::String(s) => strings_among(items.drop_last()).push(s),
            _ => strings_among(items.drop_last()),
        }
    }
}

/// What an `includes` entry names: a string itself, the strings of an array,
/// nothing for anything else.
pub open spec fn include_targets(node: TomlNodeView) -> Seq<Seq<char>> {
    match node {
        TomlNodeView::String(s) => seq![s],
        TomlNodeView::Array(items) => strings_among(items),
        _ => Seq::empty(),
    }
}

/// The entries of a table value: the keys and values of `values`, in order.
pub open spec fn table_value(values: Seq<FlatEntry>) -> ValueView {
    ValueView::Table(Seq::new(values.len(), |i: int| (values[i].key, values[i].value)))
}

/// The walk of `node`, which stands at `path` and at nesting depth `depth`,
/// continuing from `includes` and `values`.
pub open spec fn collect_item(
    node: TomlNodeView,
    path: Seq<Seq<char>>,
    file: usize,
    depth: nat,
    includes: Seq<Seq<char>>,
    values: Seq<FlatEntry>,
) -> Walk
    decreases node, 0nat,
{
    if depth > MAX_TOML_DEPTH {
        Walk { includes, values, pruned: true, error: None }
    } else {
        match node {
            TomlNodeView::InlineTable(entries) => collect_table(entries, path, file, depth, includes, values),
            TomlNodeView::Table(entries) => collect_table(entries, path, file, depth, includes, values),
            TomlNodeView::ArrayOfTables(tables) => {
                let array = convert_tables(tables, file, depth, includes);
                match array.error {
                    Some(message) => Walk {
                        includes: array.includes,
                        values,
                        pruned: array.pruned,
                        error: Some(message),
                    },
                    None => Walk {
                        includes: array.includes,
                        values: put(
                            values,
                            FlatEntry { key: dotted(path), value: ValueView::Array(array.items), file },
                        ),
                        pruned: array.pruned,
                        error: None,
                    },
                }
            },
            TomlNodeView::Absent => Walk {
                includes,
                values: put(values, FlatEntry { key: dotted(path), value: ValueView::Null, file }),
                pruned: false,
                error: None,
            },
            _ => match converted(node) {
                Ok(value) => Walk {
                    includes,
                    values: put(values, FlatEntry { key: dotted(path), value, file }),
                    pruned: false,
                    error: None,
                },
                Err(message) => Walk { includes, values, pruned: false, error: Some(message) },
            },
        }
    }
}

/// The walk of a table with entries `entries`.
pub open spec fn collect_table(
    entries: Seq<(Seq<char>, TomlNodeView)>,
    path: Seq<Seq<char>>,
    file: usize,
    depth: nat,
    includes: Seq<Seq<char>>,
    values: Seq<FlatEntry>,
) -> Walk
    decreases entries, 1nat,
{
    if depth > MAX_TOML_DEPTH {
        Walk { includes, values, pruned: true, error: None }
    } else {
        collect_entries(entries, path, file, depth, includes, values)
    }
}

/// The walk of the entries of a table, first to last; it stops at the first
/// failure.
pub open spec fn collect_entries(
    entries: Seq<(Seq<char>, TomlNodeView)>,
    path: Seq<Seq<char>>,
    file: usize,
    depth: nat,
    includes: Seq<Seq<char>>,
    values: Seq<FlatEntry>,
) -> Walk
    decreases entries, 0nat,
{
    if entries.len() == 0 {
        Walk { includes, values, pruned: false, error: None }
    } else {
        let before = collect_entries(entries.drop_last(), path, file, depth, includes, values);
        let key = entries.last().0;
        let child = entries.last().1;
        if before.error is Some {
            before
        } else if key == INCLUDES_KEY@ {
            Walk {
                includes: before.includes + include_targets(child),
                values: before.values,
                pruned: before.pruned,
                error: None,
            }
        } else {
            let walk = collect_item(child, path.push(key), file, depth + 1, before.includes, before.values);
            Walk {
                includes: walk.includes,
                values: walk.values,
                pruned: before.pruned || walk.pruned,
                error: walk.error,
            }
        }
    }
}

/// The conversion of repeated tables met at depth `depth` into one table
/// value each, keys relative to the element.
pub open spec fn convert_tables(
    tables: Seq<Seq<(Seq<char>, TomlNodeView)>>,
    file: usize,
    depth: nat,
    includes: Seq<Seq<char>>,
) -> TableArray
    decreases tables, 1nat,
{
    if depth > MAX_TOML_DEPTH {
        TableArray { items: Seq::empty(), includes, pruned: true, error: None }
    } else {
        convert_each(tables, file, depth, includes)
    }
}

/// The conversion of `tables`, first to last; it stops at the first failure.
pub open spec fn convert_each(
    tables: Seq<Seq<(Seq<char>, TomlNodeView)>>,
    file: usize,
    depth: nat,
    includes: Seq<Seq<char>>,
) -> TableArray
    decreases tables, 0nat,
{
    if tables.len() == 0 {
        TableArray { items: Seq::empty(), includes, pruned: false, error: None }
    } else {
        let before = convert_each(tables.drop_last(), file, depth, includes);
        if before.error is Some {
            before
        } else {
            let walk = collect_table(
                tables.last(),
                Seq::empty(),
                file,
                depth + 1,
                Seq::empty(),
                Seq::empty(),
            );
            match walk.error {
                Some(message) => TableArray {
                    items: before.items,
                    includes: before.includes,
                    pruned: before.pruned,
                    error: Some(message),
                },
                None => TableArray {
                    items: before.items.push(table_value(walk.values)),
                    includes: before.includes + walk.includes,
                    pruned: before.pruned || walk.pruned,
                    error: None,
                },
            }
        }
    }
}

/// Appending one string appends its characters.
pub proof fn lemma_texts_push(parts: Seq<String>, part: String)
    ensures
        texts(parts.push(part)) == texts(parts).push(part@),
{
    assert(texts(parts.push(part)) =~= texts(parts).push(part@));
}

/// A copy of `parts`.
pub fn clone_strings(parts: &Vec<String>) -> (r: Vec<String>)
    ensures
        texts(r@) == texts(parts@),
{
    let mut out: Vec<String> = Vec::new();
    let mut i: usize = 0;
    while i < parts.len()
        invariant
            i <= parts.len(),
            out@.len() == i,
            forall|j: int| 0 <= j < i ==> out@[j]@ == parts@[j]@,
        decreases parts.len() - i,
    {
        out.push(parts[i].clone());
        i += 1;
    }
    proof {
        assert(texts(out@) =~= texts(parts@));
    }
    out
}

/// The message for a node that has no value.
fn unsupported(node: &TomlNode) -> (r: String)
    ensures
        r@ == unsupported_message(node@),
{
    let mut message = String::from_str("Unsupported TOML value type: ");
    match node {
        TomlNode::Datetime(text) => {
            message.append("datetime ");
            message.append(text.as_str());
            assert(message@ =~= unsupported_message(node@));
        },
        TomlNode::InlineTable(_) => {
            message.append("inline table");
        },
        TomlNode::Table(_) => {
            message.append("table");
        },
        TomlNode::ArrayOfTables(_) => {
            message.append("array of tables");
        },
        _ => {
            message.append("none");
        },
    }
    message
}

impl Value {
    /// Converts a scalar or an array of them into a value.
    ///
    /// A string, an integer, a float and a boolean become the value of the
    /// same kind, an array the array of its converted elements. Anything
    /// else, at any depth of an array, has no value: the first such node in
    /// document order fails the conversion with its message.
    pub fn from_toml_value(node: &TomlNode) -> (r: Result<Value, ArcellaUtilsError>)
        ensures
            match r {
                Ok(value) => converted(node@) == Ok::<ValueView, Seq<char>>(value@),
                Err(ArcellaUtilsError::TOML(message)) => converted(node@) == Err::<ValueView, Seq<char>>(
                    message@,
                ),
                Err(_) => false,
            },
        decreases node,
    {
        match node {
            TomlNode::String(s) => Ok(Value::String(s.clone())),
            TomlNode::Integer(n) => Ok(Value::Integer(*n)),
            TomlNode::Float(bits) => Ok(Value::Float(canonical_float_bits(*bits))),
            TomlNode::Boolean(b) => Ok(Value::Boolean(*b)),
            TomlNode::Array(items) => {
                let ghost views = nodes_view(items@);
                let mut out: Vec<Value> = Vec::new();
                let mut i: usize = 0;
                proof {
                    lemma_nodes_view(items@);
                    assert(views.subrange(0, 0) =~= Seq::<TomlNodeView>::empty());
                }
                while i < items.len()
                    invariant
                        i <= items.len(),
                        *node == TomlNode::Array(*items),
                        views == nodes_view(items@),
                        views.len() == items.len(),
                        forall|j: int| 0 <= j < items.len() ==> #[trigger] views[j] == items@[j]@,
                        converted_items(views.subrange(0, i as int)) == Ok::<Seq<ValueView>, Seq<char>>(
                            values_view(out@),
                        ),
                    decreases items.len() - i,
                {
                    proof {
                        vstd::std_specs::vec::axiom_vec_index_decreases(*items, i as int);
                        assert(decreases_to!(*node => node->Array_0));
                        let upto = views.subrange(0, i + 1);
                        assert(upto.drop_last() =~= views.subrange(0, i as int));
                        assert(upto.last() == views[i as int]);
                    }
                    let ghost so_far = out@;
                    match Value::from_toml_value(&items[i]) {
                        Ok(value) => {
                            out.push(value);
                            proof {
                                assert(out@.drop_last() =~= so_far);
                            }
                        },
                        Err(e) => {
                            proof {
                                lemma_converted_items_error(views, i + 1);
                            }
                            return Err(e);
                        },
                    }
                    i += 1;
                }
                proof {
                    assert(views.subrange(0, items.len() as int) =~= views);
                }
                Ok(Value::Array(out))
            },
            _ => Err(ArcellaUtilsError::TOML(unsupported(node))),
        }
    }
}

/// A failure among the first `upto` items is the failure of the whole.
pub proof fn lemma_converted_items_error(items: Seq<TomlNodeView>, upto: int)
    requires
        0 <= upto <= items.len(),
        converted_items(items.subrange(0, upto)) is Err,
    ensures
        converted_items(items) == converted_items(items.subrange(0, upto)),
    decreases items.len() - upto,
{
    if upto < items.len() {
        let next = items.subrange(0, upto + 1);
        assert(next.drop_last() =~= items.subrange(0, upto));
        lemma_converted_items_error(items, upto + 1);
    } else {
        assert(items.subrange(0, upto) =~= items);
    }
}

/// Gathers what an `includes` entry names.
fn gather_includes(node: &TomlNode, includes: &mut Vec<String>)
    ensures
        texts(final(includes)@) == texts(old(includes)@) + include_targets(node@),
{
    match node {
        TomlNode::String(s) => {
            proof {
                lemma_texts_push(includes@, *s);
            }
            includes.push(s.clone());
            assert(texts(includes@) =~= texts(old(includes)@) + include_targets(node@));
        },
        TomlNode::Array(items) => {
            let ghost views = nodes_view(items@);
            let mut i: usize = 0;
            proof {
                lemma_nodes_view(items@);
                assert(views.subrange(0, 0) =~= Seq::<TomlNodeView>::empty());
                assert(texts(includes@) =~= texts(old(includes)@) + strings_among(views.subrange(0, 0)));
            }
            while i < items.len()
                invariant
                    i <= items.len(),
                    views == nodes_view(items@),
                    *node == TomlNode::Array(*items),
                    views.len() == items.len(),
                    forall|j: int| 0 <= j < items.len() ==> #[trigger] views[j] == items@[j]@,
                    texts(includes@) == texts(old(includes)@) + strings_among(views.subrange(0, i as int)),
                decreases items.len() - i,
            {
                proof {
                    let upto = views.subrange(0, i + 1);
                    assert(upto.drop_last() =~= views.subrange(0, i as int));
                    assert(upto.last() == views[i as int]);
                }
                match &items[i] {
                    TomlNode::String(s) => {
                        proof {
                            lemma_texts_push(includes@, *s);
                        }
                        includes.push(s.clone());
                        assert(texts(includes@) =~= texts(old(includes)@) + strings_among(
                            views.subrange(0, i + 1),
                        ));
                    },
                    _ => {},
                }
                i += 1;
            }
            proof {
                assert(views.subrange(0, items.len() as int) =~= views);
            }
        },
        _ => {
            assert(texts(includes@) =~= texts(old(includes)@) + include_targets(node@));
        },
    }
}

/// The strings of two lists, one after the other.
pub proof fn lemma_texts_add(first: Seq<String>, second: Seq<String>)
    ensures
        texts(first + second) == texts(first) + texts(second),
{
    assert(texts(first + second) =~= texts(first) + texts(second));
}

/// A failure among the first `upto` entries is the outcome of the whole walk.
pub proof fn lemma_collect_entries_error(
    entries: Seq<(Seq<char>, TomlNodeView)>,
    upto: int,
    path: Seq<Seq<char>>,
    file: usize,
    depth: nat,
    includes: Seq<Seq<char>>,
    values: Seq<FlatEntry>,
)
    requires
        0 <= upto <= entries.len(),
        collect_entries(entries.subrange(0, upto), path, file, depth, includes, values).error is Some,
    ensures
        collect_entries(entries, path, file, depth, includes, values) == collect_entries(
            entries.subrange(0, upto),
            path,
            file,
            depth,
            includes,
            values,
        ),
    decreases entries.len() - upto,
{
    if upto < entries.len() {
        let next = entries.subrange(0, upto + 1);
        assert(next.drop_last() =~= entries.subrange(0, upto));
        lemma_collect_entries_error(entries, upto + 1, path, file, depth, includes, values);
    } else {
        assert(entries.subrange(0, upto) =~= entries);
    }
}

/// A failure among the first `upto` tables is the outcome of the whole
/// conversion.
pub proof fn lemma_convert_each_error(
    tables: Seq<Seq<(Seq<char>, TomlNodeView)>>,
    upto: int,
    file: usize,
    depth: nat,
    includes: Seq<Seq<char>>,
)
    requires
        0 <= upto <= tables.len(),
        convert_each(tables.subrange(0, upto), file, depth, includes).error is Some,
    ensures
        convert_each(tables, file, depth, includes) == convert_each(
            tables.subrange(0, upto),
            file,
            depth,
            includes,
        ),
    decreases tables.len() - upto,
{
    if upto < tables.len() {
        let next = tables.subrange(0, upto + 1);
        assert(next.drop_last() =~= tables.subrange(0, upto));
        lemma_convert_each_error(tables, upto + 1, file, depth, includes);
    } else {
        assert(tables.subrange(0, upto) =~= tables);
    }
}

/// The report of a walk: its failure, or whether it was cut short.
pub open spec fn walk_report(pruned: bool, error: Option<Seq<char>>) -> Result<TraversalResult, Seq<char>> {
    match error {
        Some(message) => Err(message),
        None => Ok(
            if pruned {
                TraversalResult::Pruned
            } else {
                TraversalResult::Full
            },
        ),
    }
}

/// What a result says, with the message of a failure as characters.
pub open spec fn reported(r: Result<TraversalResult, ArcellaUtilsError>) -> Result<TraversalResult, Seq<char>> {
    match r {
        Ok(t) => Ok(t),
        Err(ArcellaUtilsError::TOML(message)) => Err(message@),
        Err(_) => Err(Seq::empty()),
    }
}

/// The entries of a table value made of what a map holds.
fn table_value_of(values: &ConfigValues) -> (r: Value)
    ensures
        r@ == table_value(flat_view(*values)),
{
    let count = map_len(values);
    let mut out: Vec<(String, Value)> = Vec::new();
    let mut i: usize = 0;
    while i < count
        invariant
            i <= count,
            count == map_entries(*values).len(),
            out@.len() == i,
            forall|j: int|
                0 <= j < i ==> out@[j].0@ == flat_view(*values)[j].key && out@[j].1@ == flat_view(
                    *values,
                )[j].value,
        decreases count - i,
    {
        match map_get_index(values, i) {
            Some((key, stored)) => {
                out.push((key.clone(), stored.0.clone()));
            },
            None => {},
        }
        i += 1;
    }
    proof {
        lemma_pairs_view(out@);
        assert(pairs_view(out@) =~= table_value(flat_view(*values))->Table_0);
    }
    Value::Table(out)
}

/// Converts a repeated table into one array value: each repetition becomes
/// a table value whose keys are relative to the repetition.
///
/// The `includes` entries found inside the repetitions are gathered into
/// `includes`. Past the depth limit nothing is converted: the array is empty
/// and the walk is reported as pruned. The first node without a value fails
/// the conversion; `includes` then holds what the repetitions before it
/// gave.
pub fn convert_array_of_tables_to_value(
    tables: &Vec<Vec<(String, TomlNode)>>,
    depth: usize,
    file_idx: usize,
    includes: &mut Vec<String>,
) -> (r: Result<(Value, TraversalResult), ArcellaUtilsError>)
    ensures
        ({
            let array = convert_tables(tables_view(tables@), file_idx, depth as nat, texts(old(includes)@));
            &&& texts(final(includes)@) == array.includes
            &&& match r {
                Ok((value, result)) => value@ == ValueView::Array(array.items) && walk_report(
                    array.pruned,
                    array.error,
                ) == Ok::<TraversalResult, Seq<char>>(result),
                Err(ArcellaUtilsError::TOML(message)) => array.error == Some(message@),
                Err(_) => false,
            }
        }),
    decreases tables,
{
    if depth > MAX_TOML_DEPTH {
        let empty: Vec<Value> = Vec::new();
        return Ok((Value::Array(empty), TraversalResult::Pruned));
    }
    let ghost views = tables_view(tables@);
    let ghost start = texts(includes@);
    let mut items: Vec<Value> = Vec::new();
    let mut overall = TraversalResult::Full;
    let mut i: usize = 0;
    proof {
        lemma_tables_view(tables@);
        assert(views.subrange(0, 0) =~= Seq::<Seq<(Seq<char>, TomlNodeView)>>::empty());
    }
    while i < tables.len()
        invariant
            i <= tables.len(),
            depth <= MAX_TOML_DEPTH,
            views == tables_view(tables@),
            views.len() == tables.len(),
            forall|j: int| 0 <= j < tables.len() ==> #[trigger] views[j] == entries_view(tables@[j]@),
            start == texts(old(includes)@),
            ({
                let array = convert_each(views.subrange(0, i as int), file_idx, depth as nat, start);
                &&& array.error is None
                &&& texts(includes@) == array.includes
                &&& values_view(items@) == array.items
                &&& (overall == TraversalResult::Pruned) == array.pruned
            }),
        decreases tables.len() - i,
    {
        proof {
            vstd::std_specs::vec::axiom_vec_index_decreases(*tables, i as int);
            let upto = views.subrange(0, i + 1);
            assert(upto.drop_last() =~= views.subrange(0, i as int));
            assert(upto.last() == views[i as int]);
        }
        let mut temp_values = map_new();
        let mut temp_includes: Vec<String> = Vec::new();
        let root: Vec<String> = Vec::new();
        proof {
            assert(texts(root@) =~= Seq::<Seq<char>>::empty());
            assert(texts(temp_includes@) =~= Seq::<Seq<char>>::empty());
            assert(flat_view(temp_values) =~= Seq::<FlatEntry>::empty());
        }
        let walked = table_to_value_map_recursive(
            &tables[i],
            &root,
            file_idx,
            &mut temp_includes,
            &mut temp_values,
            depth + 1,
        );
        match walked {
            Err(e) => {
                proof {
                    lemma_convert_each_error(views, i + 1, file_idx, depth as nat, start);
                }
                return Err(e);
            },
            Ok(child_result) => {
                proof {
                    lemma_texts_add(includes@, temp_includes@);
                }
                includes.append(&mut temp_includes);
                let ghost so_far = items@;
                let item = table_value_of(&temp_values);
                items.push(item);
                proof {
                    assert(items@.drop_last() =~= so_far);
                }
                if child_result == TraversalResult::Pruned {
                    overall = TraversalResult::Pruned;
                }
            },
        }
        i += 1;
    }
    proof {
        assert(views.subrange(0, tables.len() as int) =~= views);
    }
    Ok((Value::Array(items), overall))
}

/// Walks the entries of a table that stands at `current_path`.
///
/// Each entry is walked below the path extended by its key, except an entry
/// named `includes`, whose strings are gathered instead. Past the depth
/// limit nothing is walked and the table is reported as pruned. The walk
/// stops at the first failure, with `includes` and `values` as they were
/// then.
pub fn table_to_value_map_recursive(
    entries: &Vec<(String, TomlNode)>,
    current_path: &Vec<String>,
    file_idx: usize,
    includes: &mut Vec<String>,
    values: &mut ConfigValues,
    depth: usize,
) -> (r: Result<TraversalResult, ArcellaUtilsError>)
    ensures
        ({
            let walk = collect_table(
                entries_view(entries@),
                texts(current_path@),
                file_idx,
                depth as nat,
                texts(old(includes)@),
                flat_view(*old(values)),
            );
            &&& texts(final(includes)@) == walk.includes
            &&& flat_view(*final(values)) == walk.values
            &&& r is Err ==> r->Err_0 is TOML
            &&& reported(r) == walk_report(walk.pruned, walk.error)
        }),
    decreases entries,
{
    if depth > MAX_TOML_DEPTH {
        return Ok(TraversalResult::Pruned);
    }
    let includes_key = String::from_str(INCLUDES_KEY);
    let ghost views = entries_view(entries@);
    let ghost path = texts(current_path@);
    let ghost start_includes = texts(includes@);
    let ghost start_values = flat_view(*values);
    let mut result = TraversalResult::Full;
    let mut i: usize = 0;
    proof {
        lemma_entries_view(entries@);
        assert(views.subrange(0, 0) =~= Seq::<(Seq<char>, TomlNodeView)>::empty());
    }
    while i < entries.len()
        invariant
            i <= entries.len(),
            depth <= MAX_TOML_DEPTH,
            views == entries_view(entries@),
            views.len() == entries.len(),
            forall|j: int|
                0 <= j < entries.len() ==> #[trigger] views[j] == (entries@[j].0@, entries@[j].1@),
            includes_key@ == INCLUDES_KEY@,
            path == texts(current_path@),
            start_includes == texts(old(includes)@),
            start_values == flat_view(*old(values)),
            ({
                let walk = collect_entries(
                    views.subrange(0, i as int),
                    path,
                    file_idx,
                    depth as nat,
                    start_includes,
                    start_values,
                );
                &&& walk.error is None
                &&& texts(includes@) == walk.includes
                &&& flat_view(*values) == walk.values
                &&& (result == TraversalResult::Pruned) == walk.pruned
            }),
        decreases entries.len() - i,
    {
        proof {
            vstd::std_specs::vec::axiom_vec_index_decreases(*entries, i as int);
            let upto = views.subrange(0, i + 1);
            assert(upto.drop_last() =~= views.subrange(0, i as int));
            assert(upto.last() == views[i as int]);
        }
        let key = &entries[i].0;
        let child = &entries[i].1;
        if *key == includes_key {
            gather_includes(child, includes);
        } else {
            let mut key_path = clone_strings(current_path);
            proof {
                lemma_texts_push(key_path@, *key);
            }
            key_path.push(key.clone());
            match collect_paths_recursive(child, &key_path, file_idx, includes, values, depth + 1) {
                Ok(child_result) => {
                    if child_result == TraversalResult::Pruned {
                        result = TraversalResult::Pruned;
                    }
                },
                Err(e) => {
                    proof {
                        lemma_collect_entries_error(
                            views,
                            i + 1,
                            path,
                            file_idx,
                            depth as nat,
                            start_includes,
                            start_values,
                        );
                    }
                    return Err(e);
                },
            }
        }
        i += 1;
    }
    proof {
        assert(views.subrange(0, entries.len() as int) =~= views);
    }
    Ok(result)
}

/// Walks `node`, which stands at `current_path` and at nesting depth
/// `depth`, gathering `includes` entries and storing values for `file_idx`.
///
/// A table, inline or not, is walked entry by entry. A repeated table is
/// stored whole under the dotted path, as an array of tables. A scalar or an
/// array is stored under the dotted path, and so is `Null` for a node that
/// is absent. Past the depth limit nothing is walked or stored and the node
/// is reported as pruned. A node without a value fails the walk.
pub fn collect_paths_recursive(
    node: &TomlNode,
    current_path: &Vec<String>,
    file_idx: usize,
    includes: &mut Vec<String>,
    values: &mut ConfigValues,
    depth: usize,
) -> (r: Result<TraversalResult, ArcellaUtilsError>)
    ensures
        ({
            let walk = collect_item(
                node@,
                texts(current_path@),
                file_idx,
                depth as nat,
                texts(old(includes)@),
                flat_view(*old(values)),
            );
            &&& texts(final(includes)@) == walk.includes
            &&& flat_view(*final(values)) == walk.values
            &&& r is Err ==> r->Err_0 is TOML
            &&& reported(r) == walk_report(walk.pruned, walk.error)
        }),
    decreases node,
{
    if depth > MAX_TOML_DEPTH {
        return Ok(TraversalResult::Pruned);
    }
    match node {
        TomlNode::InlineTable(entries) => {
            proof {
                assert(decreases_to!(*node => node->InlineTable_0));
            }
            table_to_value_map_recursive(entries, current_path, file_idx, includes, values, depth)
        },
        TomlNode::Table(entries) => {
            proof {
                assert(decreases_to!(*node => node->Table_0));
            }
            table_to_value_map_recursive(entries, current_path, file_idx, includes, values, depth)
        },
        TomlNode::ArrayOfTables(tables) => {
            proof {
                assert(decreases_to!(*node => node->ArrayOfTables_0));
            }
            match convert_array_of_tables_to_value(tables, depth, file_idx, includes) {
                Ok((array_value, child_result)) => {
                    store(values, join_dotted(current_path), array_value, file_idx);
                    Ok(child_result)
                },
                Err(e) => Err(e),
            }
        },
        TomlNode::Absent => {
            store(values, join_dotted(current_path), Value::Null, file_idx);
            Ok(TraversalResult::Full)
        },
        _ => {
            match Value::from_toml_value(node) {
                Ok(value) => {
                    store(values, join_dotted(current_path), value, file_idx);
                    Ok(TraversalResult::Full)
                },
                Err(e) => Err(e),
            }
        },
    }
}

/// Parses TOML text into a document tree.
///
/// The tree is what the parser makes of `content`; text that is not TOML is
/// refused with the parser's message.
pub fn parse(content: &str) -> (r: Result<TomlNode, ArcellaUtilsError>)
    ensures
        match r {
            Ok(tree) => parsed_toml(content@) == Ok::<TomlNodeView, Seq<char>>(tree@),
            Err(ArcellaUtilsError::TOML(message)) => parsed_toml(content@) == Err::<TomlNodeView, Seq<char>>(
                message@,
            ),
            Err(_) => false,
        },
{
    match parse_tree(content) {
        Ok(tree) => Ok(tree),
        Err(message) => Err(ArcellaUtilsError::TOML(message)),
    }
}

/// The walk of a whole document for file `file`, keys below `prefix`.
pub open spec fn collected(doc: TomlNodeView, prefix: Seq<Seq<char>>, file: usize) -> Walk {
    collect_item(doc, prefix, file, 0, Seq::empty(), Seq::empty())
}

/// Whether `r` is what the walk `walk` yields: the gathered data and the
/// report where it succeeded, its message where it failed.
pub open spec fn yields(walk: Walk, r: Result<(TomlFileData, TraversalResult), ArcellaUtilsError>) -> bool {
    match r {
        Ok((data, result)) => {
            &&& texts(data.includes@) == walk.includes
            &&& flat_view(data.values) == walk.values
            &&& walk_report(walk.pruned, walk.error) == Ok::<TraversalResult, Seq<char>>(result)
        },
        Err(ArcellaUtilsError::TOML(message)) => walk.error == Some(message@),
        Err(_) => false,
    }
}

/// A copy of `parts` as a vector.
fn strings_of(parts: &[String]) -> (r: Vec<String>)
    ensures
        texts(r@) == texts(parts@),
{
    let mut out: Vec<String> = Vec::new();
    let mut i: usize = 0;
    while i < parts.len()
        invariant
            i <= parts.len(),
            out@.len() == i,
            forall|j: int| 0 <= j < i ==> out@[j]@ == parts@[j]@,
        decreases parts.len() - i,
    {
        out.push(parts[i].clone());
        i += 1;
    }
    proof {
        assert(texts(out@) =~= texts(parts@));
    }
    out
}

/// Flattens a parsed document into the data of one file.
///
/// Every stored key lies below `prefix` and carries `file_idx`. The result
/// says whether the walk was complete or pruned; a node without a value
/// fails it.
pub fn collect_paths(doc: &TomlNode, prefix: &[String], file_idx: usize) -> (r: Result<
    (TomlFileData, TraversalResult),
    ArcellaUtilsError,
>)
    ensures
        yields(collected(doc@, texts(prefix@), file_idx), r),
{
    let mut values = map_new();
    let mut includes: Vec<String> = Vec::new();
    let path = strings_of(prefix);
    proof {
        assert(texts(includes@) =~= Seq::<Seq<char>>::empty());
        assert(flat_view(values) =~= Seq::<FlatEntry>::empty());
    }
    match collect_paths_recursive(doc, &path, file_idx, &mut includes, &mut values, 0) {
        Ok(result) => Ok((TomlFileData { includes, values }, result)),
        Err(e) => Err(e),
    }
}

/// Parses TOML text and flattens it in one step.
///
/// Text that is not TOML fails with the parser's message; otherwise the
/// result is that of [`collect_paths`] on the parsed document.
pub fn parse_and_collect(content: &str, prefix: &[String], file_idx: usize) -> (r: Result<
    (TomlFileData, TraversalResult),
    ArcellaUtilsError,
>)
    ensures
        match parsed_toml(content@) {
            Ok(doc) => yields(collected(doc, texts(prefix@), file_idx), r),
            Err(message) => match r {
                Err(ArcellaUtilsError::TOML(text)) => text@ == message,
                _ => false,
            },
        },
{
    match parse(content) {
        Ok(doc) => collect_paths(&doc, prefix, file_idx),
        Err(e) => Err(e),
    }
}

/// A child that lies past the depth limit changes nothing but the report:
/// what its siblings gave stays as it was.
pub proof fn lemma_pruned_child_keeps_siblings(
    entries: Seq<(Seq<char>, TomlNodeView)>,
    key: Seq<char>,
    child: TomlNodeView,
    path: Seq<Seq<char>>,
    file: usize,
    includes: Seq<Seq<char>>,
    values: Seq<FlatEntry>,
)
    requires
        key != INCLUDES_KEY@,
        collect_entries(entries, path, file, MAX_TOML_DEPTH as nat, includes, values).error is None,
    ensures
        ({
            let siblings = collect_entries(entries, path, file, MAX_TOML_DEPTH as nat, includes, values);
            let all = collect_entries(
                entries.push((key, child)),
                path,
                file,
                MAX_TOML_DEPTH as nat,
                includes,
                values,
            );
            &&& all.values == siblings.values
            &&& all.includes == siblings.includes
            &&& all.error is None
            &&& all.pruned
        }),
{
    let extended = entries.push((key, child));
    let siblings = collect_entries(entries, path, file, MAX_TOML_DEPTH as nat, includes, values);
    assert(extended.drop_last() =~= entries);
    assert(extended.last() == (key, child));
    let deeper = collect_item(
        child,
        path.push(key),
        file,
        (MAX_TOML_DEPTH + 1) as nat,
        siblings.includes,
        siblings.values,
    );
    assert(deeper == Walk {
        includes: siblings.includes,
        values: siblings.values,
        pruned: true,
        error: None,
    });
}

/// A conversion that did not fail gives one table value for each
/// repetition, made of the repetition's own walk from the empty path.
pub proof fn lemma_convert_each_is_elementwise(
    tables: Seq<Seq<(Seq<char>, TomlNodeView)>>,
    file: usize,
    depth: nat,
    includes: Seq<Seq<char>>,
)
    requires
        convert_each(tables, file, depth, includes).error is None,
    ensures
        convert_each(tables, file, depth, includes).items.len() == tables.len(),
        forall|i: int|
            0 <= i < tables.len() ==> #[trigger] convert_each(tables, file, depth, includes).items[i]
                == table_value(
                collect_table(tables[i], Seq::empty(), file, depth + 1, Seq::empty(), Seq::empty()).values,
            ),
    decreases tables.len(),
{
    if tables.len() > 0 {
        let before = convert_each(tables.drop_last(), file, depth, includes);
        lemma_convert_each_is_elementwise(tables.drop_last(), file, depth, includes);
    }
}

/// A repeated table is stored whole: it gives one entry, under its own path,
/// whose value is an array with one table for each repetition, and the keys
/// inside each table are relative to the repetition.
pub proof fn lemma_array_of_tables_is_stored_whole(
    tables: Seq<Seq<(Seq<char>, TomlNodeView)>>,
    path: Seq<Seq<char>>,
    file: usize,
    depth: nat,
    includes: Seq<Seq<char>>,
    values: Seq<FlatEntry>,
)
    requires
        depth <= MAX_TOML_DEPTH,
        collect_item(TomlNodeView::ArrayOfTables(tables), path, file, depth, includes, values).error is None,
    ensures
        ({
            let walk = collect_item(TomlNodeView::ArrayOfTables(tables), path, file, depth, includes, values);
            let items = convert_each(tables, file, depth, includes).items;
            &&& walk.values == put(values, FlatEntry { key: dotted(path), value: ValueView::Array(items), file })
            &&& items.len() == tables.len()
            &&& forall|i: int|
                0 <= i < tables.len() ==> #[trigger] items[i] == table_value(
                    collect_table(tables[i], Seq::empty(), file, depth + 1, Seq::empty(), Seq::empty()).values,
                )
        }),
{
    lemma_convert_each_is_elementwise(tables, file, depth, includes);
}

/// The value of a scalar or an array is well formed.
pub proof fn lemma_converted_is_well_formed(node: TomlNodeView)
    ensures
        converted(node) is Ok ==> well_formed(converted(node)->Ok_0),
    decreases node, 0nat,
{
    match node {
        TomlNodeView::Array(items) => {
            lemma_converted_items_are_well_formed(items);
        },
        _ => {},
    }
}

/// The values of scalars and arrays are well formed.
pub proof fn lemma_converted_items_are_well_formed(items: Seq<TomlNodeView>)
    ensures
        converted_items(items) is Ok ==> forall|i: int|
            0 <= i < converted_items(items)->Ok_0.len() ==> well_formed(
                #[trigger] converted_items(items)->Ok_0[i],
            ),
    decreases items, 1nat,
{
    if items.len() > 0 {
        lemma_converted_items_are_well_formed(items.drop_last());
        lemma_converted_is_well_formed(items.last());
    }
}

/// A table value made of a sound map is well formed.
pub proof fn lemma_table_value_is_well_formed(values: Seq<FlatEntry>)
    requires
        sound(values),
    ensures
        well_formed(table_value(values)),
{
    let entries = table_value(values)->Table_0;
    assert forall|i: int, j: int|
        0 <= i < entries.len() && 0 <= j < entries.len() && i != j implies (#[trigger] entries[i]).0
        != (#[trigger] entries[j]).0 by {
        assert(values[i].key != values[j].key);
    }
    assert forall|i: int| 0 <= i < entries.len() implies well_formed((#[trigger] entries[i]).1) by {
        assert(well_formed(values[i].value));
    }
}

/// Every value that a walk stores is well formed, and the walk stores no
/// key twice: a walk that starts from a sound map ends with one.
pub proof fn lemma_collect_item_keeps_sound(
    node: TomlNodeView,
    path: Seq<Seq<char>>,
    file: usize,
    depth: nat,
    includes: Seq<Seq<char>>,
    values: Seq<FlatEntry>,
)
    requires
        sound(values),
    ensures
        sound(collect_item(node, path, file, depth, includes, values).values),
    decreases node, 0nat,
{
    if depth <= MAX_TOML_DEPTH {
        match node {
            TomlNodeView::InlineTable(entries) => {
                lemma_collect_table_keeps_sound(entries, path, file, depth, includes, values);
            },
            TomlNodeView::Table(entries) => {
                lemma_collect_table_keeps_sound(entries, path, file, depth, includes, values);
            },
            TomlNodeView::ArrayOfTables(tables) => {
                lemma_convert_tables_is_well_formed(tables, file, depth, includes);
                let array = convert_tables(tables, file, depth, includes);
                if array.error is None {
                    lemma_put_keeps_sound(
                        values,
                        FlatEntry { key: dotted(path), value: ValueView::Array(array.items), file },
                    );
                }
            },
            TomlNodeView::Absent => {
                lemma_put_keeps_sound(values, FlatEntry { key: dotted(path), value: ValueView::Null, file });
            },
            _ => {
                lemma_converted_is_well_formed(node);
                match converted(node) {
                    Ok(value) => {
                        lemma_put_keeps_sound(values, FlatEntry { key: dotted(path), value, file });
                    },
                    Err(_) => {},
                }
            },
        }
    }
}

/// The walk of a table that starts from a sound map ends with one.
pub proof fn lemma_collect_table_keeps_sound(
    entries: Seq<(Seq<char>, TomlNodeView)>,
    path: Seq<Seq<char>>,
    file: usize,
    depth: nat,
    includes: Seq<Seq<char>>,
    values: Seq<FlatEntry>,
)
    requires
        sound(values),
    ensures
        sound(collect_table(entries, path, file, depth, includes, values).values),
        sound(collect_entries(entries, path, file, depth, includes, values).values),
    decreases entries, 1nat,
{
    lemma_collect_entries_keeps_sound(entries, path, file, depth, includes, values);
}

/// The walk of the entries of a table that starts from a sound map ends
/// with one.
pub proof fn lemma_collect_entries_keeps_sound(
    entries: Seq<(Seq<char>, TomlNodeView)>,
    path: Seq<Seq<char>>,
    file: usize,
    depth: nat,
    includes: Seq<Seq<char>>,
    values: Seq<FlatEntry>,
)
    requires
        sound(values),
    ensures
        sound(collect_entries(entries, path, file, depth, includes, values).values),
    decreases entries, 0nat,
{
    if entries.len() > 0 {
        lemma_collect_entries_keeps_sound(entries.drop_last(), path, file, depth, includes, values);
        let before = collect_entries(entries.drop_last(), path, file, depth, includes, values);
        let key = entries.last().0;
        let child = entries.last().1;
        if before.error is None && key != INCLUDES_KEY@ {
            lemma_collect_item_keeps_sound(
                child,
                path.push(key),
                file,
                depth + 1,
                before.includes,
                before.values,
            );
        }
    }
}

/// The tables that repeated tables are converted into are well formed.
pub proof fn lemma_convert_tables_is_well_formed(
    tables: Seq<Seq<(Seq<char>, TomlNodeView)>>,
    file: usize,
    depth: nat,
    includes: Seq<Seq<char>>,
)
    ensures
        well_formed(ValueView::Array(convert_tables(tables, file, depth, includes).items)),
        well_formed(ValueView::Array(convert_each(tables, file, depth, includes).items)),
    decreases tables, 1nat,
{
    lemma_convert_each_is_well_formed(tables, file, depth, includes);
}

/// The tables that repeated tables are converted into, one by one, are well
/// formed.
pub proof fn lemma_convert_each_is_well_formed(
    tables: Seq<Seq<(Seq<char>, TomlNodeView)>>,
    file: usize,
    depth: nat,
    includes: Seq<Seq<char>>,
)
    ensures
        well_formed(ValueView::Array(convert_each(tables, file, depth, includes).items)),
    decreases tables, 0nat,
{
    if tables.len() > 0 {
        lemma_convert_each_is_well_formed(tables.drop_last(), file, depth, includes);
        let before = convert_each(tables.drop_last(), file, depth, includes);
        if before.error is None {
            let empty = Seq::<FlatEntry>::empty();
            lemma_collect_table_keeps_sound(tables.last(), Seq::empty(), file, depth + 1, Seq::empty(), empty);
            let walk = collect_table(tables.last(), Seq::empty(), file, depth + 1, Seq::empty(), empty);
            if walk.error is None {
                lemma_table_value_is_well_formed(walk.values);
                let after = before.items.push(table_value(walk.values));
                assert forall|i: int| 0 <= i < after.len() implies well_formed(#[trigger] after[i]) by {
                    if i < before.items.len() {
                        lemma_items_of_well_formed_array(before.items, i);
                        assert(after[i] == before.items[i]);
                    } else {
                        assert(after[i] == table_value(walk.values));
                    }
                }
                assert(convert_each(tables, file, depth, includes).items == after);
            }
        }
    }
}

/// What a document is flattened into is a sound map: no key occurs twice,
/// and no table value, at any depth, holds a name twice.
pub proof fn lemma_collected_is_sound(doc: TomlNodeView, prefix: Seq<Seq<char>>, file: usize)
    ensures
        sound(collected(doc, prefix, file).values),
{
    lemma_collect_item_keeps_sound(doc, prefix, file, 0, Seq::empty(), Seq::empty());
}

} // verus!
