//! A parsed TOML document as a plain tree, and the parser that yields it.
//!
//! Parsing is left to `toml_edit`. What it produces is copied, node for node,
//! into [`TomlNode`], on which the rest of the crate works.

use vstd::prelude::*;
use toml_edit::Value as TomlEditValue;

verus! {

/// One node of a parsed document.
#[derive(Debug, PartialEq)]
pub enum TomlNode {
    /// No value at all; a parser never yields it inside a document.
    Absent,
    String(String),
    Integer(i64),
    /// A float, as its IEEE-754 bit pattern.
    Float(u64),
    Boolean(bool),
    /// A date-time, as it is written.
    Datetime(String),
    Array(Vec<TomlNode>),
    /// A table written inline, `{ a = 1 }`.
    InlineTable(Vec<(String, TomlNode)>),
    /// A table written with a header, `[a]`, or the document itself.
    Table(Vec<(String, TomlNode)>),
    /// A repeated table, `[[a]]`: one list of entries per repetition.
    ArrayOfTables(Vec<Vec<(String, TomlNode)>>),
}

/// The mathematical content of a [`TomlNode`].
pub ghost enum TomlNodeView {
    Absent,
    String(Seq<char>),
    Integer(i64),
    Float(u64),
    Boolean(bool),
    Datetime(Seq<char>),
    Array(Seq<TomlNodeView>),
    InlineTable(Seq<(Seq<char>, TomlNodeView)>),
    Table(Seq<(Seq<char>, TomlNodeView)>),
    ArrayOfTables(Seq<Seq<(Seq<char>, TomlNodeView)>>),
}

/// The content of a node.
pub open spec fn node_view(node: TomlNode) -> TomlNodeView
    decreases node,
{
    match node {
        TomlNode::Absent => TomlNodeView::Absent,
        TomlNode::String(s) => TomlNodeView::String(s@),
        TomlNode::Integer(n) => TomlNodeView::Integer(n),
        TomlNode::Float(bits) => TomlNodeView::Float(bits),
        TomlNode::Boolean(b) => TomlNodeView::Boolean(b),
        TomlNode::Datetime(text) => TomlNodeView::Datetime(text@),
        TomlNode::Array(items) => TomlNodeView::Array(nodes_view(items@)),
        TomlNode::InlineTable(entries) => TomlNodeView::InlineTable(entries_view(entries@)),
        TomlNode::Table(entries) => TomlNodeView::Table(entries_view(entries@)),
        TomlNode::ArrayOfTables(tables) => TomlNodeView::ArrayOfTables(tables_view(tables@)),
    }
}

/// The content of each node of `items`, in order.
pub open spec fn nodes_view(items: Seq<TomlNode>) -> Seq<TomlNodeView>
    decreases items,
{
    if items.len() == 0 {
        Seq::empty()
    } else {
        nodes_view(items.drop_last()).push(node_view(items.last()))
    }
}

/// The content of the entries of a table, in order.
pub open spec fn entries_view(entries: Seq<(String, TomlNode)>) -> Seq<(Seq<char>, TomlNodeView)>
    decreases entries,
{
    if entries.len() == 0 {
        Seq::empty()
    } else {
        entries_view(entries.drop_last()).push((entries.last().0@, node_view(entries.last().1)))
    }
}

/// The content of each table of `tables`, in order.
pub open spec fn tables_view(tables: Seq<Vec<(String, TomlNode)>>) -> Seq<Seq<(Seq<char>, TomlNodeView)>>
    decreases tables,
{
    if tables.len() == 0 {
        Seq::empty()
    } else {
        tables_view(tables.drop_last()).push(entries_view(tables.last()@))
    }
}

impl View for TomlNode {
    type V = TomlNodeView;

    open spec fn view(&self) -> TomlNodeView {
        node_view(*self)
    }
}

/// `nodes_view` works item by item.
pub proof fn lemma_nodes_view(items: Seq<TomlNode>)
    ensures
        nodes_view(items).len() == items.len(),
        forall|i: int| 0 <= i < items.len() ==> #[trigger] nodes_view(items)[i] == items[i]@,
    decreases items.len(),
{
    if items.len() > 0 {
        lemma_nodes_view(items.drop_last());
    }
}

/// `entries_view` works entry by entry.
pub proof fn lemma_entries_view(entries: Seq<(String, TomlNode)>)
    ensures
        entries_view(entries).len() == entries.len(),
        forall|i: int|
            0 <= i < entries.len() ==> #[trigger] entries_view(entries)[i] == (
                entries[i].0@,
                entries[i].1@,
            ),
    decreases entries.len(),
{
    if entries.len() > 0 {
        lemma_entries_view(entries.drop_last());
    }
}

/// `tables_view` works table by table.
pub proof fn lemma_tables_view(tables: Seq<Vec<(String, TomlNode)>>)
    ensures
        tables_view(tables).len() == tables.len(),
        forall|i: int| 0 <= i < tables.len() ==> #[trigger] tables_view(tables)[i] == entries_view(tables[i]@),
    decreases tables.len(),
{
    if tables.len() > 0 {
        lemma_tables_view(tables.drop_last());
    }
}

/// `toml_edit::Item`, taken as it is; it is only handed on to be copied.
#[verifier::external_type_specification]
#[verifier::external_body]
pub struct ExItem(toml_edit::Item);

/// `toml_edit::Value`, taken as it is; it is only handed on to be copied.
#[verifier::external_type_specification]
#[verifier::external_body]
pub struct ExValue(TomlEditValue);

/// `toml_edit::Table`, taken as it is; it is only handed on to be copied.
#[verifier::external_type_specification]
#[verifier::external_body]
pub struct ExTable(toml_edit::Table);

/// What `toml_edit` makes of `content`: the document as a tree, or the
/// message of the syntax error.
pub uninterp spec fn parsed_toml(content: Seq<char>) -> Result<TomlNodeView, Seq<char>>;

/// Copies a `toml_edit::Value`. Each variant becomes the node of the same
/// kind: a scalar with what `Formatted::value` gives, a date-time as
/// `Datetime::to_string` writes it, a float as `f64::to_bits` gives its bits,
/// an array with the values that `Array::iter` yields, an inline table with
/// the keys and values that `InlineTable::iter` yields.
#[verifier::external_body]
fn value_tree(value: &TomlEditValue) -> (node: TomlNode) {
    match value {
        TomlEditValue::String(s) => TomlNode::String(s.value().clone()),
        TomlEditValue::Integer(n) => TomlNode::Integer(*n.value()),
        TomlEditValue::Float(x) => TomlNode::Float(x.value().to_bits()),
        TomlEditValue::Boolean(b) => TomlNode::Boolean(*b.value()),
        TomlEditValue::Datetime(d) => TomlNode::Datetime(d.value().to_string()),
        TomlEditValue::Array(a) => TomlNode::Array(a.iter().map(value_tree).collect()),
        TomlEditValue::InlineTable(t) => TomlNode::InlineTable(
            t.iter().map(|(k, v)| (k.to_string(), value_tree(v))).collect(),
        ),
    }
}

/// Copies the entries of a `toml_edit::Table`: the keys and items that
/// `Table::iter` yields, in its order.
#[verifier::external_body]
fn table_tree(table: &toml_edit::Table) -> (entries: Vec<(String, TomlNode)>) {
    table.iter().map(|(k, v)| (k.to_string(), item_tree(v))).collect()
}

/// Copies a `toml_edit::Item`. Each variant becomes the node of the same
/// kind; a repeated table holds the tables that `ArrayOfTables::iter` yields.
#[verifier::external_body]
fn item_tree(item: &toml_edit::Item) -> (node: TomlNode) {
    match item {
        toml_edit::Item::None => TomlNode::Absent,
        toml_edit::Item::Value(v) => value_tree(v),
        toml_edit::Item::Table(t) => TomlNode::Table(table_tree(t)),
        toml_edit::Item::ArrayOfTables(a) => TomlNode::ArrayOfTables(a.iter().map(table_tree).collect()),
    }
}

/// `str::parse::<toml_edit::DocumentMut>`: the document that `content`
/// holds, copied into a tree from `DocumentMut::as_item`, or the message of
/// the parser's error as its `to_string` gives it.
#[verifier::external_body]
pub(crate) fn parse_tree(content: &str) -> (r: Result<TomlNode, String>)
    ensures
        match r {
            Ok(tree) => parsed_toml(content@) == Ok::<TomlNodeView, Seq<char>>(tree@),
            Err(message) => parsed_toml(content@) == Err::<TomlNodeView, Seq<char>>(message@),
        },
{
    match content.parse::<toml_edit::DocumentMut>() {
        Ok(doc) => Ok(item_tree(doc.as_item())),
        Err(e) => Err(e.to_string()),
    }
}

} // verus!
