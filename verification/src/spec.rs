//! A plain description of what a WebAssembly component imports and exports.

use vstd::prelude::*;
use vstd::string::StringExecFns;
use crate::ordered::{item_position, lemma_item_position};
use crate::text::{join_with, joined, texts};

verus! {

/// One item of a component's interface.
#[derive(Debug, PartialEq, Eq)]
pub enum ComponentItemSpec {
    /// A component function: its parameters, each a name and a type name,
    /// and the type names of its results.
    ComponentFunc { params: Vec<(String, String)>, results: Vec<String> },
    /// A core function.
    CoreFunc(String),
    /// A core module.
    Module(String),
    /// A nested component with what it imports and exports.
    Component { imports: Vec<(String, ComponentItemSpec)>, exports: Vec<(String, ComponentItemSpec)> },
    /// An instance with what it exports.
    ComponentInstance { exports: Vec<(String, ComponentItemSpec)> },
    /// A type.
    Type(String),
    /// A resource.
    Resource(String),
    /// An item that could not be described.
    Unknown { debug: Option<String> },
}

/// The keys of `entries`, in order.
pub open spec fn tree_keys(entries: Seq<(String, &ComponentItemSpec)>) -> Seq<Seq<char>> {
    Seq::new(entries.len(), |i: int| entries[i].0@)
}

/// `key` below `prefix`: the key itself at the top, else both with a dot
/// between them.
pub open spec fn child_key(prefix: Seq<char>, key: Seq<char>) -> Seq<char> {
    if prefix.len() == 0 {
        key
    } else {
        prefix + seq!['.'] + key
    }
}

/// Map insertion on a list of entries: a present key takes the new item, an
/// absent one is appended.
pub open spec fn tree_put(
    entries: Seq<(Seq<char>, ComponentItemSpec)>,
    key: Seq<char>,
    item: ComponentItemSpec,
) -> Seq<(Seq<char>, ComponentItemSpec)> {
    let at = item_position(Seq::new(entries.len(), |i: int| entries[i].0), key);
    if at < 0 {
        entries.push((key, item))
    } else {
        entries.update(at, (key, item))
    }
}

/// The nested items in which flattening descends: the exports of an
/// instance and of a component.
pub open spec fn nested_exports(item: ComponentItemSpec) -> Seq<(String, ComponentItemSpec)> {
    match item {
        ComponentItemSpec::ComponentInstance { exports } => exports@,
        ComponentItemSpec::Component { imports, exports } => exports@,
        _ => Seq::empty(),
    }
}

/// The entries of `tree` and, below each, those of its nested exports, with
/// dotted keys below `prefix`, added to `out` in that order.
pub open spec fn flat_tree(
    tree: Seq<(String, ComponentItemSpec)>,
    prefix: Seq<char>,
    out: Seq<(Seq<char>, ComponentItemSpec)>,
) -> Seq<(Seq<char>, ComponentItemSpec)>
    decreases tree,
{
    if tree.len() == 0 {
        out
    } else {
        let before = flat_tree(tree.drop_last(), prefix, out);
        let key = child_key(prefix, tree.last().0@);
        let item = tree.last().1;
        match item {
            ComponentItemSpec::ComponentInstance { exports } => flat_tree(
                exports@,
                key,
                tree_put(before, key, item),
            ),
            ComponentItemSpec::Component { imports, exports } => flat_tree(
                exports@,
                key,
                tree_put(before, key, item),
            ),
            _ => tree_put(before, key, item),
        }
    }
}

/// What a list of borrowed entries holds.
pub open spec fn borrowed_view(entries: Seq<(String, &ComponentItemSpec)>) -> Seq<(Seq<char>, ComponentItemSpec)> {
    Seq::new(entries.len(), |i: int| (entries[i].0@, *entries[i].1))
}

/// The position of `key` among `entries`, if it is there.
fn find_key(entries: &Vec<(String, &ComponentItemSpec)>, key: &String) -> (r: Option<usize>)
    ensures
        match r {
            Some(at) => at == item_position(tree_keys(entries@), key@),
            None => item_position(tree_keys(entries@), key@) < 0,
        },
{
    let mut i: usize = 0;
    proof {
        assert(tree_keys(entries@).subrange(0, 0) =~= Seq::<Seq<char>>::empty());
    }
    while i < entries.len()
        invariant
            i <= entries.len(),
            item_position(tree_keys(entries@).subrange(0, i as int), key@) < 0,
        decreases entries.len() - i,
    {
        proof {
            let upto = tree_keys(entries@).subrange(0, i + 1);
            assert(upto.drop_last() =~= tree_keys(entries@).subrange(0, i as int));
            assert(upto.last() == entries@[i as int].0@);
        }
        if entries[i].0 == *key {
            proof {
                lemma_position_of_prefix(tree_keys(entries@), i + 1, key@);
            }
            return Some(i);
        }
        i += 1;
    }
    proof {
        assert(tree_keys(entries@).subrange(0, entries.len() as int) =~= tree_keys(entries@));
    }
    None
}

/// An item found among the first `upto` items is found at the same place
/// among all.
pub proof fn lemma_position_of_prefix(items: Seq<Seq<char>>, upto: int, item: Seq<char>)
    requires
        0 <= upto <= items.len(),
        item_position(items.subrange(0, upto), item) >= 0,
    ensures
        item_position(items, item) == item_position(items.subrange(0, upto), item),
    decreases items.len() - upto,
{
    if upto < items.len() {
        let next = items.subrange(0, upto + 1);
        assert(next.drop_last() =~= items.subrange(0, upto));
        lemma_position_of_prefix(items, upto + 1, item);
    } else {
        assert(items.subrange(0, upto) =~= items);
    }
}

/// Recursive helper of [`flatten_component_tree`]: adds the entries of
/// `tree` to `output`, keys below `prefix`.
pub fn flatten_component_tree_recursive<'a>(
    tree: &'a Vec<(String, ComponentItemSpec)>,
    prefix: &str,
    output: &mut Vec<(String, &'a ComponentItemSpec)>,
)
    ensures
        borrowed_view(final(output)@) == flat_tree(tree@, prefix@, borrowed_view(old(output)@)),
    decreases tree,
{
    let ghost start = borrowed_view(output@);
    let mut i: usize = 0;
    proof {
        assert(tree@.subrange(0, 0) =~= Seq::<(String, ComponentItemSpec)>::empty());
    }
    while i < tree.len()
        invariant
            i <= tree.len(),
            start == borrowed_view(old(output)@),
            borrowed_view(output@) == flat_tree(tree@.subrange(0, i as int), prefix@, start),
        decreases tree.len() - i,
    {
        proof {
            vstd::std_specs::vec::axiom_vec_index_decreases(*tree, i as int);
            let upto = tree@.subrange(0, i + 1);
            assert(upto.drop_last() =~= tree@.subrange(0, i as int));
            assert(upto.last() == tree@[i as int]);
        }
        let name = &tree[i].0;
        let item = &tree[i].1;
        let key = if prefix.unicode_len() == 0 {
            name.clone()
        } else {
            let mut key = String::from_str(prefix);
            key.append(".");
            key.append(name.as_str());
            proof {
                reveal_strlit(".");
                assert("."@ =~= seq!['.']);
            }
            key
        };
        let ghost before = borrowed_view(output@);
        proof {
            assert(Seq::new(before.len(), |k: int| before[k].0) =~= tree_keys(output@));
            lemma_item_position(tree_keys(output@), key@);
        }
        match find_key(output, &key) {
            Some(at) => {
                output.set(at, (key.clone(), item));
            },
            None => {
                output.push((key.clone(), item));
            },
        }
        proof {
            assert(borrowed_view(output@) =~= tree_put(before, key@, *item));
        }
        match item {
            ComponentItemSpec::ComponentInstance { exports } => {
                flatten_component_tree_recursive(exports, key.as_str(), output);
            },
            ComponentItemSpec::Component { imports: _, exports } => {
                flatten_component_tree_recursive(exports, key.as_str(), output);
            },
            _ => {},
        }
        i += 1;
    }
    proof {
        assert(tree@.subrange(0, tree.len() as int) =~= tree@);
    }
}

/// Flattens a tree of component items into one list with dotted keys.
///
/// Every item of the tree is listed under its own key, and so is every item
/// among the exports of an instance or of a component, under the key of its
/// parent, a dot, and its own name. The items are borrowed from the tree. A
/// key that occurs again takes the later item.
pub fn flatten_component_tree<'a>(tree: &'a Vec<(String, ComponentItemSpec)>) -> (flat: Vec<
    (String, &'a ComponentItemSpec),
>)
    ensures
        borrowed_view(flat@) == flat_tree(tree@, Seq::<char>::empty(), Seq::empty()),
{
    let mut flat: Vec<(String, &'a ComponentItemSpec)> = Vec::new();
    proof {
        assert(borrowed_view(flat@) =~= Seq::<(Seq<char>, ComponentItemSpec)>::empty());
        reveal_strlit("");
        assert(""@ =~= Seq::<char>::empty());
    }
    flatten_component_tree_recursive(tree, "", &mut flat);
    flat
}

/// The mathematical content of a [`ComponentItemSpec`].
pub ghost enum ItemSpecView {
    ComponentFunc { params: Seq<(Seq<char>, Seq<char>)>, results: Seq<Seq<char>> },
    CoreFunc(Seq<char>),
    Module(Seq<char>),
    Component { imports: Seq<(Seq<char>, ItemSpecView)>, exports: Seq<(Seq<char>, ItemSpecView)> },
    ComponentInstance { exports: Seq<(Seq<char>, ItemSpecView)> },
    Type(Seq<char>),
    Resource(Seq<char>),
    Unknown { debug: Option<Seq<char>> },
}

/// The content of each pair of strings of `pairs`, in order.
pub open spec fn pairs_text(pairs: Seq<(String, String)>) -> Seq<(Seq<char>, Seq<char>)> {
    Seq::new(pairs.len(), |i: int| (pairs[i].0@, pairs[i].1@))
}

/// The content of an item's description.
pub open spec fn item_spec_view(item: ComponentItemSpec) -> ItemSpecView
    decreases item,
{
    match item {
        ComponentItemSpec::ComponentFunc { params, results } => ItemSpecView::ComponentFunc {
            params: pairs_text(params@),
            results: texts(results@),
        },
        ComponentItemSpec::CoreFunc(s) => ItemSpecView::CoreFunc(s@),
        ComponentItemSpec::Module(s) => ItemSpecView::Module(s@),
        ComponentItemSpec::Component { imports, exports } => ItemSpecView::Component {
            imports: named_specs_view(imports@),
            exports: named_specs_view(exports@),
        },
        ComponentItemSpec::ComponentInstance { exports } => ItemSpecView::ComponentInstance {
            exports: named_specs_view(exports@),
        },
        ComponentItemSpec::Type(s) => ItemSpecView::Type(s@),
        ComponentItemSpec::Resource(s) => ItemSpecView::Resource(s@),
        ComponentItemSpec::Unknown { debug } => ItemSpecView::Unknown {
            debug: match debug {
                Some(text) => Some(text@),
                None => None,
            },
        },
    }
}

/// The content of each named description of `entries`, in order.
pub open spec fn named_specs_view(entries: Seq<(String, ComponentItemSpec)>) -> Seq<(Seq<char>, ItemSpecView)>
    decreases entries,
{
    if entries.len() == 0 {
        Seq::empty()
    } else {
        named_specs_view(entries.drop_last()).push((entries.last().0@, item_spec_view(entries.last().1)))
    }
}

impl View for ComponentItemSpec {
    type V = ItemSpecView;

    open spec fn view(&self) -> ItemSpecView {
        item_spec_view(*self)
    }
}

/// `named_specs_view` works entry by entry.
pub proof fn lemma_named_specs_view(entries: Seq<(String, ComponentItemSpec)>)
    ensures
        named_specs_view(entries).len() == entries.len(),
        forall|i: int|
            0 <= i < entries.len() ==> #[trigger] named_specs_view(entries)[i] == (
                entries[i].0@,
                entries[i].1@,
            ),
    decreases entries.len(),
{
    if entries.len() > 0 {
        lemma_named_specs_view(entries.drop_last());
    }
}

/// A value type of the component model, as far as it has a name.
#[derive(Debug, Clone, PartialEq, Eq)]
pub enum WitType {
    Bool,
    S8,
    U8,
    S16,
    U16,
    S32,
    U32,
    S64,
    U64,
    Float32,
    Float64,
    Char,
    String,
    /// Any other type, as the engine shows it.
    Other(String),
}

/// One item of a component's interface as the engine reports it.
#[derive(Debug, PartialEq, Eq)]
pub enum ComponentItem {
    /// A component function with its parameters and results.
    ComponentFunc { params: Vec<(String, WitType)>, results: Vec<WitType> },
    /// A core function, as the engine shows it.
    CoreFunc(String),
    /// A core module, as the engine shows it.
    Module(String),
    /// A nested component with what it imports and exports.
    Component { imports: Vec<(String, ComponentItem)>, exports: Vec<(String, ComponentItem)> },
    /// An instance with what it exports.
    ComponentInstance { exports: Vec<(String, ComponentItem)> },
    /// A type, as the engine shows it.
    Type(String),
    /// A resource, as the engine shows it.
    Resource(String),
}

/// Deepest nesting of components and instances that is described.
pub const MAX_RECURSION_DEPTH: usize = 32;

/// The name of a value type.
pub open spec fn wit_name(ty: WitType) -> Seq<char> {
    match ty {
        WitType::Bool => "bool"@,
        WitType::S8 => "s8"@,
        WitType::U8 => "u8"@,
        WitType::S16 => "s16"@,
        WitType::U16 => "u16"@,
        WitType::S32 => "s32"@,
        WitType::U32 => "u32"@,
        WitType::S64 => "s64"@,
        WitType::U64 => "u64"@,
        WitType::Float32 => "f32"@,
        WitType::Float64 => "f64"@,
        WitType::Char => "char"@,
        WitType::String => "string"@,
        WitType::Other(shown) => "unknown("@ + shown@ + ")"@,
    }
}

/// The name of a value type.
pub fn type_to_string(ty: &WitType) -> (r: String)
    ensures
        r@ == wit_name(*ty),
{
    match ty {
        WitType::Bool => String::from_str("bool"),
        WitType::S8 => String::from_str("s8"),
        WitType::U8 => String::from_str("u8"),
        WitType::S16 => String::from_str("s16"),
        WitType::U16 => String::from_str("u16"),
        WitType::S32 => String::from_str("s32"),
        WitType::U32 => String::from_str("u32"),
        WitType::S64 => String::from_str("s64"),
        WitType::U64 => String::from_str("u64"),
        WitType::Float32 => String::from_str("f32"),
        WitType::Float64 => String::from_str("f64"),
        WitType::Char => String::from_str("char"),
        WitType::String => String::from_str("string"),
        WitType::Other(shown) => {
            let mut name = String::from_str("unknown(");
            name.append(shown.as_str());
            name.append(")");
            name
        },
    }
}

/// The names of parameters with the names of their types.
pub open spec fn params_of(params: Seq<(String, WitType)>) -> Seq<(Seq<char>, Seq<char>)> {
    Seq::new(params.len(), |i: int| (params[i].0@, wit_name(params[i].1)))
}

/// The names of the types of results.
pub open spec fn results_of(results: Seq<WitType>) -> Seq<Seq<char>> {
    Seq::new(results.len(), |i: int| wit_name(results[i]))
}

/// The description of an item that is met at nesting depth `depth`, where
/// nothing deeper than `max_depth` is described.
pub open spec fn spec_of(item: ComponentItem, depth: nat, max_depth: nat) -> ItemSpecView
    decreases item,
{
    if depth > max_depth {
        ItemSpecView::Unknown { debug: Some("Exceeded maximum recursion depth"@) }
    } else {
        match item {
            ComponentItem::ComponentFunc { params, results } => ItemSpecView::ComponentFunc {
                params: params_of(params@),
                results: results_of(results@),
            },
            ComponentItem::CoreFunc(shown) => ItemSpecView::CoreFunc(shown@),
            ComponentItem::Module(shown) => ItemSpecView::Module(shown@),
            ComponentItem::Component { imports, exports } => ItemSpecView::Component {
                imports: named_specs_of(imports@, depth + 1, max_depth),
                exports: named_specs_of(exports@, depth + 1, max_depth),
            },
            ComponentItem::ComponentInstance { exports } => ItemSpecView::ComponentInstance {
                exports: named_specs_of(exports@, depth + 1, max_depth),
            },
            ComponentItem::Type(shown) => ItemSpecView::Type(shown@),
            ComponentItem::Resource(shown) => ItemSpecView::Resource(shown@),
        }
    }
}

/// The descriptions of named items that are met at nesting depth `depth`.
pub open spec fn named_specs_of(entries: Seq<(String, ComponentItem)>, depth: nat, max_depth: nat) -> Seq<
    (Seq<char>, ItemSpecView),
>
    decreases entries,
{
    if entries.len() == 0 {
        Seq::empty()
    } else {
        named_specs_of(entries.drop_last(), depth, max_depth).push(
            (entries.last().0@, spec_of(entries.last().1, depth, max_depth)),
        )
    }
}

/// `named_specs_of` works entry by entry.
pub proof fn lemma_named_specs_of(entries: Seq<(String, ComponentItem)>, depth: nat, max_depth: nat)
    ensures
        named_specs_of(entries, depth, max_depth).len() == entries.len(),
        forall|i: int|
            0 <= i < entries.len() ==> #[trigger] named_specs_of(entries, depth, max_depth)[i] == (
                entries[i].0@,
                spec_of(entries[i].1, depth, max_depth),
            ),
    decreases entries.len(),
{
    if entries.len() > 0 {
        lemma_named_specs_of(entries.drop_last(), depth, max_depth);
    }
}

/// Describes each of the named items `entries`, which are met at nesting
/// depth `depth`.
pub fn named_to_spec(entries: &Vec<(String, ComponentItem)>, depth: usize, max_depth: usize) -> (r: Vec<
    (String, ComponentItemSpec),
>)
    requires
        max_depth < usize::MAX,
    ensures
        named_specs_view(r@) == named_specs_of(entries@, depth as nat, max_depth as nat),
    decreases entries,
{
    let mut out: Vec<(String, ComponentItemSpec)> = Vec::new();
    let mut i: usize = 0;
    while i < entries.len()
        invariant
            i <= entries.len(),
            max_depth < usize::MAX,
            out@.len() == i,
            forall|j: int|
                0 <= j < i ==> out@[j].0@ == entries@[j].0@ && out@[j].1@ == spec_of(
                    entries@[j].1,
                    depth as nat,
                    max_depth as nat,
                ),
        decreases entries.len() - i,
    {
        proof {
            vstd::std_specs::vec::axiom_vec_index_decreases(*entries, i as int);
        }
        let described = ComponentItemSpec::to_spec_with_depth(&entries[i].1, depth, max_depth);
        out.push((entries[i].0.clone(), described));
        i += 1;
    }
    proof {
        lemma_named_specs_view(out@);
        lemma_named_specs_of(entries@, depth as nat, max_depth as nat);
        assert(named_specs_view(out@) =~= named_specs_of(entries@, depth as nat, max_depth as nat));
    }
    out
}

impl ComponentItemSpec {
    /// Describes an item of a component's interface.
    ///
    /// Nesting is followed down to [`MAX_RECURSION_DEPTH`]; what lies deeper
    /// is described as unknown.
    pub fn from_component_item(item: &ComponentItem) -> (r: ComponentItemSpec)
        ensures
            r@ == spec_of(*item, 0, MAX_RECURSION_DEPTH as nat),
    {
        ComponentItemSpec::to_spec_with_depth(item, 0, MAX_RECURSION_DEPTH)
    }

    /// Describes an item that is met at nesting depth `depth`.
    ///
    /// A function is described by the names of its parameters and of the
    /// types of its parameters and results. A component and an instance are
    /// described by what they import and export, one level deeper. An item
    /// deeper than `max_depth` is described as unknown.
    pub fn to_spec_with_depth(item: &ComponentItem, depth: usize, max_depth: usize) -> (r: ComponentItemSpec)
        requires
            max_depth < usize::MAX,
        ensures
            r@ == spec_of(*item, depth as nat, max_depth as nat),
        decreases item,
    {
        if depth > max_depth {
            return ComponentItemSpec::Unknown { debug: Some(String::from_str("Exceeded maximum recursion depth")) };
        }
        match item {
            ComponentItem::ComponentFunc { params, results } => {
                let mut names: Vec<(String, String)> = Vec::new();
                let mut i: usize = 0;
                while i < params.len()
                    invariant
                        i <= params.len(),
                        names@.len() == i,
                        forall|j: int|
                            0 <= j < i ==> names@[j].0@ == params@[j].0@ && names@[j].1@ == wit_name(
                                params@[j].1,
                            ),
                    decreases params.len() - i,
                {
                    names.push((params[i].0.clone(), type_to_string(&params[i].1)));
                    i += 1;
                }
                let mut types: Vec<String> = Vec::new();
                let mut k: usize = 0;
                while k < results.len()
                    invariant
                        k <= results.len(),
                        types@.len() == k,
                        forall|j: int| 0 <= j < k ==> types@[j]@ == wit_name(results@[j]),
                    decreases results.len() - k,
                {
                    types.push(type_to_string(&results[k]));
                    k += 1;
                }
                proof {
                    assert(pairs_text(names@) =~= params_of(params@));
                    assert(texts(types@) =~= results_of(results@));
                }
                ComponentItemSpec::ComponentFunc { params: names, results: types }
            },
            ComponentItem::CoreFunc(shown) => ComponentItemSpec::CoreFunc(shown.clone()),
            ComponentItem::Module(shown) => ComponentItemSpec::Module(shown.clone()),
            ComponentItem::Component { imports, exports } => {
                proof {
                    assert(decreases_to!(*item => item->Component_imports));
                    assert(decreases_to!(*item => item->Component_exports));
                }
                let imports = named_to_spec(imports, depth + 1, max_depth);
                let exports = named_to_spec(exports, depth + 1, max_depth);
                ComponentItemSpec::Component { imports, exports }
            },
            ComponentItem::ComponentInstance { exports } => {
                proof {
                    assert(decreases_to!(*item => item->ComponentInstance_exports));
                }
                let exports = named_to_spec(exports, depth + 1, max_depth);
                ComponentItemSpec::ComponentInstance { exports }
            },
            ComponentItem::Type(shown) => ComponentItemSpec::Type(shown.clone()),
            ComponentItem::Resource(shown) => ComponentItemSpec::Resource(shown.clone()),
        }
    }
}

/// Each parameter as its name, a colon, and the name of its type.
pub open spec fn param_texts(params: Seq<(Seq<char>, Seq<char>)>) -> Seq<Seq<char>> {
    Seq::new(params.len(), |i: int| params[i].0 + ": "@ + params[i].1)
}

/// How an item's description is shown.
pub open spec fn shown(item: ItemSpecView) -> Seq<char> {
    match item {
        ItemSpecView::ComponentFunc { params, results } => {
            let head = "func("@ + joined(param_texts(params), ", "@) + ")"@;
            if results.len() == 0 {
                head
            } else {
                head + " -> "@ + joined(results, ", "@)
            }
        },
        ItemSpecView::ComponentInstance { exports } => "instance"@,
        ItemSpecView::Component { imports, exports } => "component"@,
        ItemSpecView::Module(_) => "module"@,
        ItemSpecView::CoreFunc(_) => "core-func"@,
        ItemSpecView::Type(t) => "type("@ + t + ")"@,
        ItemSpecView::Resource(r) => "resource("@ + r + ")"@,
        ItemSpecView::Unknown { debug: Some(d) } => "unknown("@ + d + ")"@,
        ItemSpecView::Unknown { debug: None } => "unknown"@,
    }
}

impl ComponentItemSpec {
    /// Shows the description in one line: a function with its parameters and
    /// results, anything else by its kind.
    pub fn describe(&self) -> (r: String)
        ensures
            r@ == shown(self@),
    {
        match self {
            ComponentItemSpec::ComponentFunc { params, results } => {
                let mut parts: Vec<String> = Vec::new();
                let mut i: usize = 0;
                while i < params.len()
                    invariant
                        i <= params.len(),
                        parts@.len() == i,
                        forall|j: int|
                            0 <= j < i ==> parts@[j]@ == params@[j].0@ + ": "@ + params@[j].1@,
                    decreases params.len() - i,
                {
                    let mut part = params[i].0.clone();
                    part.append(": ");
                    part.append(params[i].1.as_str());
                    parts.push(part);
                    i += 1;
                }
                proof {
                    assert(texts(parts@) =~= param_texts(pairs_text(params@)));
                }
                let mut text = String::from_str("func(");
                text.append(join_with(&parts, ", ").as_str());
                text.append(")");
                if results.len() > 0 {
                    text.append(" -> ");
                    text.append(join_with(results, ", ").as_str());
                }
                text
            },
            ComponentItemSpec::ComponentInstance { .. } => String::from_str("instance"),
            ComponentItemSpec::Component { .. } => String::from_str("component"),
            ComponentItemSpec::Module(_) => String::from_str("module"),
            ComponentItemSpec::CoreFunc(_) => String::from_str("core-func"),
            ComponentItemSpec::Type(t) => {
                let mut text = String::from_str("type(");
                text.append(t.as_str());
                text.append(")");
                text
            },
            ComponentItemSpec::Resource(r) => {
                let mut text = String::from_str("resource(");
                text.append(r.as_str());
                text.append(")");
                text
            },
            ComponentItemSpec::Unknown { debug: Some(d) } => {
                let mut text = String::from_str("unknown(");
                text.append(d.as_str());
                text.append(")");
                text
            },
            ComponentItemSpec::Unknown { debug: None } => String::from_str("unknown"),
        }
    }
}

} // verus!
