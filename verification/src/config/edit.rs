//! Format-preserving reads and writes.
//!
//! The config file belongs to the user. Writes go through the document the user wrote, so that
//! comments, key order and blank lines survive an edit, and a file that was only read is never
//! written back.

use crate::config::error::{Error, ErrorView};
use crate::config::value::{said, to_edit_value, value_data, Said, Setting};
use crate::text::{decimal, number, owned};
use vstd::prelude::*;
use vstd::string::*;

verus! {

/// The editable document of `toml_edit`.
#[verifier::external_type_specification]
#[verifier::external_body]
pub struct ExDocumentMut(toml_edit::DocumentMut);

/// A node of a `toml_edit` document: a value, a table or an array of tables.
#[verifier::external_type_specification]
#[verifier::external_body]
pub struct ExItem(toml_edit::Item);

/// The white space and comments around something in a `toml_edit` document.
#[verifier::external_type_specification]
#[verifier::external_body]
pub struct ExDecor(toml_edit::Decor);

/// What `toml_edit` says is wrong with a text, if anything.
pub uninterp spec fn toml_error(text: Seq<char>) -> Option<Seq<char>>;

/// The text that `toml_edit` writes for a text that it has read and not changed.
pub uninterp spec fn toml_reprint(text: Seq<char>) -> Seq<char>;

/// The root of a document.
pub uninterp spec fn document_root(doc: toml_edit::DocumentMut) -> toml_edit::Item;

/// The white space and comments behind the last element of a document.
pub uninterp spec fn document_trailing(doc: toml_edit::DocumentMut) -> Seq<char>;

/// The text that `toml_edit` writes for a document of that root and that trailing text.
pub uninterp spec fn printed(root: toml_edit::Item, trailing: Seq<char>) -> Seq<char>;

/// The text of a document: it depends on the root and on what trails it, and on nothing else.
pub open spec fn document_text(doc: toml_edit::DocumentMut) -> Seq<char> {
    printed(document_root(doc), document_trailing(doc))
}

/// The entries of a table, standard or inline, by key.
pub uninterp spec fn entries(item: toml_edit::Item) -> Map<Seq<char>, toml_edit::Item>;

/// The keys of a table, standard or inline, in the order in which it holds them.
pub uninterp spec fn key_order(item: toml_edit::Item) -> Seq<Seq<char>>;

/// The white space and comments around a key of a table.
pub uninterp spec fn key_decor(item: toml_edit::Item, key: Seq<char>) -> toml_edit::Decor;

/// The white space and comments around a table: above its header, where it has one.
pub uninterp spec fn table_decor(item: toml_edit::Item) -> toml_edit::Decor;

/// An empty table's entries.
pub open spec fn no_entries() -> Map<Seq<char>, toml_edit::Item> {
    Map::empty()
}

/// What an array of tables holds, in order.
pub uninterp spec fn tables(item: toml_edit::Item) -> Seq<toml_edit::Item>;

/// Whether a node is a table, standard or inline.
pub uninterp spec fn is_table(item: toml_edit::Item) -> bool;

/// Whether a node is a standard table, one that is not inline.
pub uninterp spec fn is_block(item: toml_edit::Item) -> bool;

/// Whether a node is a standard table that prints a header even where it holds tables alone.
pub uninterp spec fn has_header(item: toml_edit::Item) -> bool;

/// Whether a node is an array of tables.
pub uninterp spec fn is_tables(item: toml_edit::Item) -> bool;

/// Whether a node is a value.
pub uninterp spec fn is_value(item: toml_edit::Item) -> bool;

/// The value of a node that is one.
pub uninterp spec fn node_value(item: toml_edit::Item) -> toml_edit::Value;

/// The white space and comments around a value.
pub uninterp spec fn value_decor(value: toml_edit::Value) -> toml_edit::Decor;

/// What a value node says, apart from the white space and comments around it.
pub open spec fn node_data(item: toml_edit::Item) -> Said {
    value_data(node_value(item))
}

/// The white space and comments around a value node.
pub open spec fn node_decor(item: toml_edit::Item) -> toml_edit::Decor {
    value_decor(node_value(item))
}

/// `<toml_edit::DocumentMut as FromStr>::from_str`: reads a document, or says what is wrong with
/// the text. The root of a document is a standard table.
#[verifier::external_body]
fn parse_document(text: &str) -> (r: Result<toml_edit::DocumentMut, String>)
    ensures
        match r {
            Ok(doc) => {
                &&& toml_error(text@) is None
                &&& document_text(doc) == toml_reprint(text@)
                &&& is_block(document_root(doc))
            },
            Err(message) => toml_error(text@) == Some(message@),
        },
{
    text.parse::<toml_edit::DocumentMut>().map_err(|e| e.to_string())
}

/// `toml_edit::DocumentMut::new`: an empty document, whose root is a standard table.
#[verifier::external_body]
fn empty_document() -> (r: toml_edit::DocumentMut)
    ensures
        is_block(document_root(r)),
{
    toml_edit::DocumentMut::new()
}

/// `toml_edit::DocumentMut`'s `to_string`: the text of a document, whose root it takes to be a
/// standard table.
#[verifier::external_body]
fn render(doc: &toml_edit::DocumentMut) -> (s: String)
    requires
        is_block(document_root(*doc)),
    ensures
        s@ == printed(document_root(*doc), document_trailing(*doc)),
{
    doc.to_string()
}

/// `toml_edit::DocumentMut::as_item`: the root of a document.
#[verifier::external_body]
fn root_of(doc: &toml_edit::DocumentMut) -> (r: &toml_edit::Item)
    ensures
        *r == document_root(*doc),
{
    doc.as_item()
}

/// `toml_edit::DocumentMut::as_item_mut`: the root of a document, for editing. What trails the
/// document does not change.
#[verifier::external_body]
fn root_mut(doc: &mut toml_edit::DocumentMut) -> (r: &mut toml_edit::Item)
    ensures
        *r == document_root(*old(doc)),
        document_root(*final(doc)) == *final(r),
        document_trailing(*final(doc)) == document_trailing(*old(doc)),
{
    doc.as_item_mut()
}

/// `toml_edit::Item::is_table_like`: whether a node is a table, standard or inline.
#[verifier::external_body]
fn is_table_like(item: &toml_edit::Item) -> (b: bool)
    ensures
        b == is_table(*item),
{
    item.is_table_like()
}

/// `toml_edit::TableLike::get`: an entry of a table.
#[verifier::external_body]
fn entry_of<'a>(item: &'a toml_edit::Item, key: &str) -> (r: Option<&'a toml_edit::Item>)
    requires
        is_table(*item),
    ensures
        r is Some <==> entries(*item).contains_key(key@),
        r matches Some(e) ==> *e == entries(*item)[key@],
{
    item.as_table_like().and_then(|t| t.get(key))
}

/// Whether a node is anything at all: a value, a table or an array of tables.
pub open spec fn is_something(item: toml_edit::Item) -> bool {
    is_table(item) || is_value(item) || is_tables(item)
}

/// Whether two tables have the same shape around their entries: standard or inline, with a header
/// or without one, and the same white space and comments.
pub open spec fn same_shape(a: toml_edit::Item, b: toml_edit::Item) -> bool {
    &&& is_block(a) == is_block(b)
    &&& has_header(a) == has_header(b)
    &&& table_decor(a) == table_decor(b)
}

/// `toml_edit::TableLike::get_mut`: an entry of a table, for editing. Nothing else changes: no
/// other entry, no key, and nothing around the keys or the table. What becomes of the table is
/// said where the entry stays as it was, and where it ends as something.
#[verifier::external_body]
fn entry_mut<'a>(item: &'a mut toml_edit::Item, key: &str) -> (r: &'a mut toml_edit::Item)
    requires
        is_table(*old(item)),
        entries(*old(item)).contains_key(key@),
    ensures
        *r == entries(*old(item))[key@],
        *final(r) == *r ==> *final(item) == *old(item),
        is_something(*final(r)) ==> {
            &&& is_table(*final(item))
            &&& entries(*final(item)) == entries(*old(item)).insert(key@, *final(r))
            &&& key_order(*final(item)) == key_order(*old(item))
            &&& forall|k: Seq<char>|
                #[trigger] key_decor(*final(item), k) == key_decor(*old(item), k)
            &&& is_block(*final(item)) == is_block(*old(item))
            &&& has_header(*final(item)) == has_header(*old(item))
            &&& table_decor(*final(item)) == table_decor(*old(item))
        },
{
    item.as_table_like_mut().and_then(|t| t.get_mut(key)).expect("the entry is there")
}

/// `toml_edit::table`: an empty standard table, with a header.
#[verifier::external_body]
fn new_table() -> (r: toml_edit::Item)
    ensures
        is_block(r),
        is_table(r),
        has_header(r),
        entries(r) == no_entries(),
        key_order(r).len() == 0,
{
    toml_edit::table()
}

/// `toml_edit::Table::set_implicit`: whether a standard table does without a header where it
/// holds tables alone. Its entries and their order stay.
#[verifier::external_body]
fn set_implicit(item: &mut toml_edit::Item, implicit: bool)
    requires
        is_block(*old(item)),
    ensures
        is_block(*final(item)),
        is_table(*final(item)),
        has_header(*final(item)) == !implicit,
        entries(*final(item)) == entries(*old(item)),
        key_order(*final(item)) == key_order(*old(item)),
{
    if let Some(table) = item.as_table_mut() {
        table.set_implicit(implicit);
    }
}

/// `toml_edit::Item::Value`: the node of a value.
#[verifier::external_body]
fn value_node(value: toml_edit::Value) -> (r: toml_edit::Item)
    ensures
        is_value(r),
        node_value(r) == value,
{
    toml_edit::Item::Value(value)
}

/// The keys of a table in order, but for one.
pub open spec fn other_keys(item: toml_edit::Item, key: Seq<char>) -> Seq<Seq<char>> {
    key_order(item).filter(|k: Seq<char>| k != key)
}

/// `toml_edit::TableLike::insert`: puts a value or an empty table under a key. No other entry
/// changes, nor what is around its key, nor the order of the others; a key that was there keeps
/// its place, and a new one comes last. A standard table takes a table in as it is, an inline one
/// as an inline table, which has no header.
#[verifier::external_body]
fn insert_node(item: &mut toml_edit::Item, key: &str, node: toml_edit::Item)
    requires
        is_table(*old(item)),
        is_value(node) || (is_block(node) && key_order(node).len() == 0),
    ensures
        is_table(*final(item)),
        is_block(*final(item)) == is_block(*old(item)),
        has_header(*final(item)) == has_header(*old(item)),
        table_decor(*final(item)) == table_decor(*old(item)),
        entries(*final(item)).contains_key(key@),
        entries(*final(item)).remove(key@) == entries(*old(item)).remove(key@),
        forall|k: Seq<char>|
            k != key@ ==> #[trigger] key_decor(*final(item), k) == key_decor(*old(item), k),
        other_keys(*final(item), key@) == other_keys(*old(item), key@),
        entries(*old(item)).contains_key(key@) ==> key_order(*final(item)) == key_order(
            *old(item),
        ),
        !key_order(*old(item)).contains(key@) ==> key_order(*final(item)) == key_order(
            *old(item),
        ).push(key@),
        is_value(node) ==> entries(*final(item))[key@] == node,
        is_block(node) ==> is_table(entries(*final(item))[key@]),
        is_block(node) ==> is_block(entries(*final(item))[key@]) == is_block(*old(item)),
        is_block(node) ==> entries(entries(*final(item))[key@]) == no_entries(),
        is_block(node) ==> key_order(entries(*final(item))[key@]).len() == 0,
        is_block(node) && has_header(entries(*final(item))[key@]) ==> has_header(node),
{
    if let Some(table) = item.as_table_like_mut() {
        table.insert(key, node);
    }
}

/// `toml_edit::Item::is_value`: whether a node is a value.
#[verifier::external_body]
fn is_value_node(item: &toml_edit::Item) -> (b: bool)
    ensures
        b == is_value(*item),
{
    item.is_value()
}

/// `toml_edit::Item::as_value_mut`: the value of a node, for editing.
#[verifier::external_body]
fn value_mut(item: &mut toml_edit::Item) -> (r: &mut toml_edit::Value)
    requires
        is_value(*old(item)),
    ensures
        *r == node_value(*old(item)),
        is_value(*final(item)),
        node_value(*final(item)) == *final(r),
{
    item.as_value_mut().expect("the node is a value")
}

/// `toml_edit::Value::decor`: the white space and comments around a value.
#[verifier::external_body]
fn decor_of(value: &toml_edit::Value) -> (r: toml_edit::Decor)
    ensures
        r == value_decor(*value),
{
    value.decor().clone()
}

/// `toml_edit::Value::decor_mut`: replaces the white space and comments around a value, which
/// says what it said.
#[verifier::external_body]
fn set_decor(value: &mut toml_edit::Value, decor: toml_edit::Decor)
    ensures
        value_decor(*final(value)) == decor,
        value_data(*final(value)) == value_data(*old(value)),
{
    *value.decor_mut() = decor;
}

/// `toml_edit::Item::as_array_of_tables` and its `len`: how many tables an array of tables
/// holds, or that a node is no such array.
#[verifier::external_body]
fn table_count(item: &toml_edit::Item) -> (r: Option<usize>)
    ensures
        r is Some <==> is_tables(*item),
        r matches Some(n) ==> n == tables(*item).len(),
{
    item.as_array_of_tables().map(|a| a.len())
}

/// `toml_edit::Item::is_table`: whether a node is a standard table, one that is not inline.
#[verifier::external_body]
fn is_standard_table(item: &toml_edit::Item) -> (b: bool)
    ensures
        b == is_block(*item),
        b ==> is_table(*item),
{
    item.is_table()
}

/// `toml_edit::Item::get` with a position: what an array of tables holds there.
#[verifier::external_body]
fn table_of(item: &toml_edit::Item, index: usize) -> (r: &toml_edit::Item)
    requires
        is_tables(*item),
        index < tables(*item).len(),
    ensures
        *r == tables(*item)[index as int],
{
    item.get(index).expect("the table is there")
}

/// `toml_edit::Item::get_mut` with a position: what an array of tables holds there, for editing.
/// Nothing else changes.
#[verifier::external_body]
fn table_mut(item: &mut toml_edit::Item, index: usize) -> (r: &mut toml_edit::Item)
    requires
        is_tables(*old(item)),
        index < tables(*old(item)).len(),
    ensures
        *r == tables(*old(item))[index as int],
        is_tables(*final(item)),
        tables(*final(item)) == tables(*old(item)).update(index as int, *final(r)),
{
    item.get_mut(index).expect("the table is there")
}

/// Why a key cannot be set below a node: something on the way is no table.
pub open spec fn obstacle(item: toml_edit::Item, path: Seq<Seq<char>>) -> Option<Seq<char>>
    decreases path.len(),
{
    if path.len() == 0 {
        None
    } else if !is_table(item) {
        if path.len() == 1 {
            Some("cannot set '"@ + path[0] + "': parent is not a table"@)
        } else {
            Some("cannot descend into '"@ + path[0] + "': not a table"@)
        }
    } else if path.len() == 1 || !entries(item).contains_key(path[0]) {
        None
    } else {
        obstacle(entries(item)[path[0]], path.skip(1))
    }
}

/// Whether `after` is the table `before` but for what stands under `key`: every other entry, the
/// order of the others, what is around their keys and what is around the table are as they were.
/// A key that was there keeps its place, and a new one comes last.
pub open spec fn same_but(before: toml_edit::Item, after: toml_edit::Item, key: Seq<char>) -> bool {
    &&& is_table(after)
    &&& same_shape(before, after)
    &&& entries(after).contains_key(key)
    &&& entries(after).remove(key) == entries(before).remove(key)
    &&& forall|k: Seq<char>|
        k != key ==> #[trigger] key_decor(after, k) == key_decor(before, k)
    &&& other_keys(after, key) == other_keys(before, key)
    &&& entries(before).contains_key(key) ==> key_order(after) == key_order(before)
    &&& !entries(before).contains_key(key) && !key_order(before).contains(key) ==> key_order(after)
        == key_order(before).push(key)
}

/// Whether `after` is a table without a header that holds one key, down to the end of `path`, with
/// a value there that says `data`. The tables below it are standard or inline as it is itself.
pub open spec fn is_new(after: toml_edit::Item, path: Seq<Seq<char>>, data: Said) -> bool
    decreases path.len(),
{
    if path.len() == 0 {
        false
    } else {
        &&& is_table(after)
        &&& !has_header(after)
        &&& entries(after).contains_key(path[0])
        &&& entries(after).remove(path[0]) == no_entries()
        &&& key_order(after) == seq![path[0]]
        &&& if path.len() == 1 {
            is_value(entries(after)[path[0]]) && node_data(entries(after)[path[0]]) == data
        } else {
            &&& is_block(entries(after)[path[0]]) == is_block(after)
            &&& is_new(entries(after)[path[0]], path.skip(1), data)
        }
    }
}

/// Whether `after` is the table `before` with a value that says `data` at the end of `path`, and
/// nothing else changed. Where a value stood there, its key and the white space and comments
/// around both are as they were. A table that had to be created has no header of its own, and is
/// standard or inline as its parent is.
pub open spec fn is_set(
    before: toml_edit::Item,
    after: toml_edit::Item,
    path: Seq<Seq<char>>,
    data: Said,
) -> bool
    decreases path.len(),
{
    if path.len() == 0 {
        false
    } else {
        let known = entries(before).contains_key(path[0]);
        let was = entries(before)[path[0]];
        let now = entries(after)[path[0]];
        &&& same_but(before, after, path[0])
        &&& if path.len() == 1 {
            &&& is_value(now)
            &&& node_data(now) == data
            &&& known && is_value(was) ==> {
                &&& node_decor(now) == node_decor(was)
                &&& key_decor(after, path[0]) == key_decor(before, path[0])
            }
        } else if known {
            &&& is_set(was, now, path.skip(1), data)
            &&& key_decor(after, path[0]) == key_decor(before, path[0])
        } else {
            &&& is_block(now) == is_block(after)
            &&& is_new(now, path.skip(1), data)
        }
    }
}

/// Replace a value, keeping the white space and comments around it.
fn replace_value(item: &mut toml_edit::Item, value: toml_edit::Value)
    requires
        is_value(*old(item)),
    ensures
        is_value(*final(item)),
        node_data(*final(item)) == value_data(value),
        node_decor(*final(item)) == node_decor(*old(item)),
{
    let existing = value_mut(item);
    let decor = decor_of(existing);
    *existing = value;
    set_decor(existing, decor);
}

/// Put an empty table under a key that is missing. It prints no header of its own.
fn insert_table(item: &mut toml_edit::Item, key: &str)
    requires
        is_table(*old(item)),
    ensures
        same_but(*old(item), *final(item), key@),
        is_table(entries(*final(item))[key@]),
        is_block(entries(*final(item))[key@]) == is_block(*old(item)),
        !has_header(entries(*final(item))[key@]),
        entries(entries(*final(item))[key@]) == no_entries(),
        key_order(entries(*final(item))[key@]).len() == 0,
{
    let mut new = new_table();
    set_implicit(&mut new, true);
    insert_node(item, key, new);
}

/// Set `key` to `value` without disturbing any formatting around it.
///
/// Inserting replaces the whole entry, key included, and a key's leading comment belongs to it.
/// So where there is a value already it is changed in place, and keeps its own surroundings too.
fn assign(table: &mut toml_edit::Item, key: &str, value: toml_edit::Value)
    requires
        is_table(*old(table)),
    ensures
        is_set(*old(table), *final(table), seq![key@], value_data(value)),
{
    let ghost before = *table;
    if entry_of(table, key).is_some() {
        let entry = entry_mut(table, key);
        if is_value_node(entry) {
            replace_value(entry, value);
            assert(entries(before).insert(key@, *final(entry)).remove(key@) =~= entries(
                before,
            ).remove(key@));
            return;
        }
    }
    insert_node(table, key, value_node(value));
}

/// The keys of a path.
pub open spec fn path_view(path: Seq<String>) -> Seq<Seq<char>> {
    path.map_values(|k: String| k@)
}

/// What stands in the way of setting `path`, from its `at`th key on.
fn find_obstacle(item: &toml_edit::Item, path: &Vec<String>, at: usize) -> (r: Option<String>)
    requires
        at < path.len(),
    ensures
        r is Some <==> obstacle(*item, path_view(path@).skip(at as int)) is Some,
        r matches Some(m) ==> obstacle(*item, path_view(path@).skip(at as int)) == Some(m@),
    decreases path.len() - at,
{
    let ghost rest = path_view(path@).skip(at as int);
    assert(rest[0] == path@[at as int]@);
    assert(rest.skip(1) =~= path_view(path@).skip(at + 1));
    let key = path[at].as_str();
    let last = at == path.len() - 1;
    if !is_table_like(item) {
        return Some(
            if last {
                owned("cannot set '").concat(key).concat("': parent is not a table")
            } else {
                owned("cannot descend into '").concat(key).concat("': not a table")
            },
        );
    }
    if last {
        return None;
    }
    match entry_of(item, key) {
        Some(entry) => find_obstacle(entry, path, at + 1),
        None => None,
    }
}

/// Set the value at the end of `path`, from its `at`th key on, in a table that holds nothing yet.
fn fill_new(item: &mut toml_edit::Item, path: &Vec<String>, at: usize, value: toml_edit::Value)
    requires
        at < path.len(),
        is_table(*old(item)),
        !has_header(*old(item)),
        entries(*old(item)) == no_entries(),
        key_order(*old(item)).len() == 0,
    ensures
        is_block(*final(item)) == is_block(*old(item)),
        is_new(*final(item), path_view(path@).skip(at as int), value_data(value)),
    decreases path.len() - at,
{
    let ghost rest = path_view(path@).skip(at as int);
    proof {
        assert(rest[0] == path@[at as int]@);
        assert(rest.skip(1) =~= path_view(path@).skip(at + 1));
        assert(no_entries().remove(rest[0]) =~= no_entries());
        assert(key_order(*item).push(rest[0]) =~= seq![rest[0]]);
    }
    let key = path[at].as_str();
    if at == path.len() - 1 {
        insert_node(item, key, value_node(value));
        return;
    }
    insert_table(item, key);
    let ghost middle = entries(*item);
    let entry = entry_mut(item, key);
    fill_new(entry, path, at + 1, value);
    assert(middle.insert(key@, *final(entry)).remove(key@) =~= middle.remove(key@));
}

/// Set the value at the end of `path`, from its `at`th key on. Tables are created as needed.
fn set_below(item: &mut toml_edit::Item, path: &Vec<String>, at: usize, value: toml_edit::Value)
    requires
        at < path.len(),
        obstacle(*old(item), path_view(path@).skip(at as int)) is None,
    ensures
        is_set(*old(item), *final(item), path_view(path@).skip(at as int), value_data(value)),
    decreases path.len() - at,
{
    let ghost rest = path_view(path@).skip(at as int);
    proof {
        assert(rest[0] == path@[at as int]@);
        assert(rest.skip(1) =~= path_view(path@).skip(at + 1));
    }
    let key = path[at].as_str();
    if at == path.len() - 1 {
        assert(rest =~= seq![key@]);
        assign(item, key, value);
        return;
    }
    if entry_of(item, key).is_some() {
        let ghost before = entries(*item);
        let entry = entry_mut(item, key);
        set_below(entry, path, at + 1, value);
        assert(before.insert(key@, *final(entry)).remove(key@) =~= before.remove(key@));
    } else {
        insert_table(item, key);
        let ghost middle = entries(*item);
        let entry = entry_mut(item, key);
        fill_new(entry, path, at + 1, value);
        assert(middle.insert(key@, *final(entry)).remove(key@) =~= middle.remove(key@));
    }
}

/// A config file as both typed data and the document the user wrote.
pub struct Document<T> {
    parsed: T,
    doc: toml_edit::DocumentMut,
    path: String,
    dirty: bool,
}

/// Whether a reader takes every text, if only to say what is wrong with it.
pub open spec fn reads_any_text<T, R: Fn(&str) -> Result<T, String>>(read: R) -> bool {
    forall|s: &str| #[trigger] call_requires(read, (s,))
}

/// Whether a reader, given a text, may say `said`.
pub open spec fn may_read<T, R: Fn(&str) -> Result<T, String>>(
    read: R,
    text: Seq<char>,
    said: Result<T, String>,
) -> bool {
    exists|s: &str| s@ == text && #[trigger] call_ensures(read, (s,), said)
}

/// Whether `after` holds what the reader said of its text, or, where the reader could make
/// nothing of it, what `before` held, and reports that.
pub open spec fn is_reread<T, R: Fn(&str) -> Result<T, String>>(
    before: Document<T>,
    after: Document<T>,
    r: Result<(), Error>,
    read: R,
) -> bool {
    exists|said: Result<T, String>|
        #[trigger] may_read(read, document_text(after.document()), said) && match said {
            Ok(t) => r is Ok && after.typed() == t,
            Err(m) => {
                &&& after.typed() == before.typed()
                &&& r matches Err(e)
                &&& e@ == (ErrorView::Parse { path: before.file(), message: m@ })
            },
        }
}

impl<T> Document<T> {
    /// The root of a document is a standard table.
    #[verifier::type_invariant]
    spec fn has_block_root(self) -> bool {
        is_block(document_root(self.doc))
    }

    pub closed spec fn typed(&self) -> T {
        self.parsed
    }

    pub closed spec fn document(&self) -> toml_edit::DocumentMut {
        self.doc
    }

    pub closed spec fn file(&self) -> Seq<char> {
        self.path@
    }

    pub closed spec fn changed(&self) -> bool {
        self.dirty
    }

    /// A document from its text and the typed reading of that text, or the first of their two
    /// complaints.
    pub fn from_str(path: &str, text: &str, parsed: Result<T, String>) -> (r: Result<Self, Error>)
        ensures
            r is Ok <==> toml_error(text@) is None && parsed is Ok,
            r matches Ok(d) ==> {
                &&& d.typed() == parsed->Ok_0
                &&& document_text(d.document()) == toml_reprint(text@)
                &&& d.file() == path@
                &&& !d.changed()
            },
            r matches Err(e) ==> e@ == (ErrorView::Parse {
                path: path@,
                message: match toml_error(text@) {
                    Some(m) => m,
                    None => parsed->Err_0@,
                },
            }),
    {
        let doc = match parse_document(text) {
            Ok(doc) => doc,
            Err(message) => {
                return Err(Error::Parse { path: owned(path), message });
            },
        };
        match parsed {
            Ok(parsed) => Ok(Document { parsed, doc, path: owned(path), dirty: false }),
            Err(message) => Err(Error::Parse { path: owned(path), message }),
        }
    }

    /// A document from what reading its file gave.
    pub fn load(
        path: &str,
        text: Result<String, String>,
        parsed: Result<T, String>,
    ) -> (r: Result<Self, Error>)
        ensures
            r is Ok <==> text is Ok && toml_error(text->Ok_0@) is None && parsed is Ok,
            r matches Ok(d) ==> {
                &&& d.typed() == parsed->Ok_0
                &&& document_text(d.document()) == toml_reprint(text->Ok_0@)
                &&& d.file() == path@
                &&& !d.changed()
            },
            r matches Err(e) ==> e@ == (match text {
                Err(source) => ErrorView::Read { path: path@, source: source@ },
                Ok(text) => ErrorView::Parse {
                    path: path@,
                    message: match toml_error(text@) {
                        Some(m) => m,
                        None => parsed->Err_0@,
                    },
                },
            }),
    {
        match text {
            Err(source) => Err(Error::Read { path: owned(path), source }),
            Ok(text) => Self::from_str(path, text.as_str(), parsed),
        }
    }

    pub fn data(&self) -> (r: &T)
        ensures
            *r == self.typed(),
    {
        &self.parsed
    }

    pub fn path(&self) -> (r: &str)
        ensures
            r@ == self.file(),
    {
        self.path.as_str()
    }

    /// True once something has been changed in memory but not written.
    pub fn is_dirty(&self) -> (r: bool)
        ensures
            r == self.changed(),
    {
        self.dirty
    }

    /// The document as text.
    pub fn to_text(&self) -> (s: String)
        ensures
            s@ == document_text(self.document()),
    {
        proof {
            use_type_invariant(self);
        }
        render(&self.doc)
    }

    /// The text to write to the file, or `None` where nothing changed.
    ///
    /// Refusing to write an unchanged file is not an optimisation: it is what keeps a mere
    /// *read* from touching the file.
    pub fn text_to_save(&self) -> (r: Option<String>)
        ensures
            r is Some <==> self.changed(),
            r matches Some(s) ==> s@ == document_text(self.document()),
    {
        proof {
            use_type_invariant(self);
        }
        if self.dirty {
            Some(render(&self.doc))
        } else {
            None
        }
    }

    /// Whether the file was written, given what writing it gave. `written` is only looked at
    /// where something changed.
    pub fn save_if_dirty(&mut self, written: Result<(), String>) -> (r: Result<bool, Error>)
        ensures
            is_saved(r, *old(self), *final(self), written),
    {
        proof {
            use_type_invariant(&*self);
        }
        if !self.dirty {
            return Ok(false);
        }
        match written {
            Ok(_) => {
                self.dirty = false;
                Ok(true)
            },
            Err(source) => Err(Error::Write { path: owned(self.path.as_str()), source }),
        }
    }

    /// Read the document anew after an edit. Where that fails the earlier reading stays.
    fn reparse<R: Fn(&str) -> Result<T, String>>(&mut self, read: R) -> (r: Result<(), Error>)
        requires
            reads_any_text(read),
        ensures
            final(self).document() == old(self).document(),
            final(self).file() == old(self).file(),
            final(self).changed() == old(self).changed(),
            is_reread(*old(self), *final(self), r, read),
    {
        proof {
            use_type_invariant(&*self);
        }
        let text = render(&self.doc);
        let said = read(text.as_str());
        let ghost told = said;
        assert(may_read(read, document_text(self.document()), told));
        let r = match said {
            Ok(t) => {
                self.parsed = t;
                Ok(())
            },
            Err(message) => Err(Error::Parse { path: owned(self.path.as_str()), message }),
        };
        assert(may_read(read, document_text(self.document()), told));
        r
    }

    /// Set a dotted key, such as `["defaults", "profile"]`, and read the document anew with
    /// `read`.
    ///
    /// Intermediate tables are created as needed. Surrounding formatting and comments are
    /// untouched, including any comment attached to the key being changed.
    pub fn set<R: Fn(&str) -> Result<T, String>>(
        &mut self,
        path: &Vec<String>,
        value: &Setting,
        read: R,
    ) -> (r: Result<(), Error>)
        requires
            reads_any_text(read),
        ensures
            final(self).file() == old(self).file(),
            path@.len() > 0 && obstacle(document_root(old(self).document()), path_view(path@))
                is None ==> {
                &&& final(self).changed()
                &&& is_set(
                    document_root(old(self).document()),
                    document_root(final(self).document()),
                    path_view(path@),
                    said(*value),
                )
                &&& document_trailing(final(self).document()) == document_trailing(
                    old(self).document(),
                )
                &&& is_reread(*old(self), *final(self), r, read)
            },
            path@.len() == 0 ==> *final(self) == *old(self) && (r matches Err(e) && e@
                == ErrorView::BadOverrideKey { key: ""@ }),
            path@.len() > 0 && obstacle(document_root(old(self).document()), path_view(path@))
                is Some ==> *final(self) == *old(self) && (r matches Err(e) && e@
                == ErrorView::Parse {
                path: old(self).file(),
                message: obstacle(document_root(old(self).document()), path_view(path@))->0,
            }),
    {
        if path.len() == 0 {
            return Err(Error::BadOverrideKey { key: owned("") });
        }
        assert(path_view(path@).skip(0) =~= path_view(path@));
        if let Some(message) = find_obstacle(root_of(&self.doc), path, 0) {
            return Err(Error::Parse { path: owned(self.path.as_str()), message });
        }
        proof {
            use_type_invariant(&*self);
        }
        let value = to_edit_value(value);
        let mut doc = empty_document();
        core::mem::swap(&mut self.doc, &mut doc);
        set_below(root_mut(&mut doc), path, 0, value);
        self.doc = doc;
        self.dirty = true;
        self.reparse(read)
    }
}

/// What keeps the `index`th stage from being changed.
pub open spec fn stage_obstacle(root: toml_edit::Item, index: int) -> Option<Seq<char>> {
    if !is_table(root) || !entries(root).contains_key("stage"@) || !is_tables(
        entries(root)["stage"@],
    ) {
        Some("no [[stage]] entries"@)
    } else if index >= tables(entries(root)["stage"@]).len() || !is_block(
        tables(entries(root)["stage"@])[index],
    ) {
        Some("stage index "@ + decimal(index as nat) + " out of range"@)
    } else {
        None
    }
}

impl<T> Document<T> {
    /// Set a parameter on one of the `[[stage]]` entries of a preset file, and read the document
    /// anew with `read`.
    pub fn set_stage_param<R: Fn(&str) -> Result<T, String>>(
        &mut self,
        index: usize,
        param: &str,
        value: &Setting,
        read: R,
    ) -> (r: Result<(), Error>)
        requires
            reads_any_text(read),
        ensures
            final(self).file() == old(self).file(),
            stage_obstacle(document_root(old(self).document()), index as int) is None ==> {
                let before = document_root(old(self).document());
                let after = document_root(final(self).document());
                let was = tables(entries(before)["stage"@]);
                let now = tables(entries(after)["stage"@]);
                &&& final(self).changed()
                &&& document_trailing(final(self).document()) == document_trailing(
                    old(self).document(),
                )
                &&& same_but(before, after, "stage"@)
                &&& key_decor(after, "stage"@) == key_decor(before, "stage"@)
                &&& is_tables(entries(after)["stage"@])
                &&& now == was.update(index as int, now[index as int])
                &&& is_set(was[index as int], now[index as int], seq![param@], said(*value))
                &&& is_reread(*old(self), *final(self), r, read)
            },
            stage_obstacle(document_root(old(self).document()), index as int) matches Some(why)
                ==> *final(self) == *old(self) && (r matches Err(e) && e@ == ErrorView::Parse {
                path: old(self).file(),
                message: why,
            }),
    {
        let root = root_of(&self.doc);
        let stages = if is_table_like(root) {
            entry_of(root, "stage")
        } else {
            None
        };
        let there: Option<bool> = match stages {
            Some(stages) => match table_count(stages) {
                Some(count) => Some(index < count && is_standard_table(table_of(stages, index))),
                None => None,
            },
            None => None,
        };
        let there = match there {
            Some(there) => there,
            None => {
                return Err(
                    Error::Parse {
                        path: owned(self.path.as_str()),
                        message: owned("no [[stage]] entries"),
                    },
                );
            },
        };
        if !there {
            return Err(
                Error::Parse {
                    path: owned(self.path.as_str()),
                    message: owned("stage index ").concat(number(index as u64).as_str()).concat(
                        " out of range",
                    ),
                },
            );
        }
        proof {
            use_type_invariant(&*self);
        }
        let ghost before = entries(document_root(self.doc));
        let mut doc = empty_document();
        core::mem::swap(&mut self.doc, &mut doc);
        let stages = entry_mut(root_mut(&mut doc), "stage");
        assign(table_mut(stages, index), param, to_edit_value(value));
        assert(before.insert("stage"@, *final(stages)).remove("stage"@) =~= before.remove(
            "stage"@,
        ));
        self.doc = doc;
        self.dirty = true;
        self.reparse(read)
    }
}

/// The node at the end of a path.
pub open spec fn node_at(item: toml_edit::Item, path: Seq<Seq<char>>) -> Option<toml_edit::Item>
    decreases path.len(),
{
    if path.len() == 0 {
        Some(item)
    } else if is_table(item) && entries(item).contains_key(path[0]) {
        node_at(entries(item)[path[0]], path.skip(1))
    } else {
        None
    }
}

/// Reading the key that was set gives back what was written.
pub proof fn law_a_set_value_reads_back(
    before: toml_edit::Item,
    after: toml_edit::Item,
    path: Seq<Seq<char>>,
    data: Said,
)
    requires
        is_set(before, after, path, data),
    ensures
        node_at(after, path) matches Some(node) && is_value(node) && node_data(node) == data,
    decreases path.len(),
{
    if path.len() == 1 {
        assert(node_at(entries(after)[path[0]], path.skip(1)) == Some(entries(after)[path[0]]));
    } else if entries(before).contains_key(path[0]) {
        law_a_set_value_reads_back(
            entries(before)[path[0]],
            entries(after)[path[0]],
            path.skip(1),
            data,
        );
    } else {
        lemma_new_reads_back(entries(after)[path[0]], path.skip(1), data);
    }
}

proof fn lemma_new_reads_back(after: toml_edit::Item, path: Seq<Seq<char>>, data: Said)
    requires
        is_new(after, path, data),
    ensures
        node_at(after, path) matches Some(node) && is_value(node) && node_data(node) == data,
    decreases path.len(),
{
    if path.len() == 1 {
        assert(node_at(entries(after)[path[0]], path.skip(1)) == Some(entries(after)[path[0]]));
    } else {
        lemma_new_reads_back(entries(after)[path[0]], path.skip(1), data);
    }
}

/// Changing a value keeps the comments and the spacing around it, and those around its key.
pub proof fn law_a_changed_value_keeps_its_surroundings(
    before: toml_edit::Item,
    after: toml_edit::Item,
    path: Seq<Seq<char>>,
    data: Said,
)
    requires
        is_table(before),
        obstacle(before, path) is None,
        is_set(before, after, path, data),
        node_at(before, path) matches Some(was) && is_value(was),
    ensures
        node_decor(node_at(after, path)->0) == node_decor(node_at(before, path)->0),
        ({
            let parent = path.drop_last();
            let key = path.last();
            &&& node_at(before, parent) is Some
            &&& node_at(after, parent) is Some
            &&& key_decor(node_at(after, parent)->0, key) == key_decor(
                node_at(before, parent)->0,
                key,
            )
            &&& key_order(node_at(after, parent)->0) == key_order(node_at(before, parent)->0)
        }),
    decreases path.len(),
{
    let (b, a) = (entries(before)[path[0]], entries(after)[path[0]]);
    if path.len() == 1 {
        assert(node_at(b, path.skip(1)) == Some(b));
        assert(node_at(a, path.skip(1)) == Some(a));
        assert(path.drop_last() =~= Seq::<Seq<char>>::empty());
    } else {
        law_a_changed_value_keeps_its_surroundings(b, a, path.skip(1), data);
        assert(path.drop_last().skip(1) =~= path.skip(1).drop_last());
        assert(path.drop_last()[0] == path[0]);
        assert(path.skip(1).last() == path.last());
    }
}

/// Setting one key leaves every key beside it, and beside each table on the way to it, as it
/// was.
pub proof fn law_setting_one_key_leaves_the_others(
    before: toml_edit::Item,
    after: toml_edit::Item,
    path: Seq<Seq<char>>,
    data: Said,
    other: Seq<Seq<char>>,
    fork: int,
)
    requires
        is_table(before),
        is_set(before, after, path, data),
        obstacle(before, path) is None,
        0 <= fork < path.len(),
        fork < other.len(),
        forall|i: int| 0 <= i < fork ==> path[i] == other[i],
        path[fork] != other[fork],
    ensures
        node_at(after, other) == node_at(before, other),
    decreases path.len(),
{
    let k = other[0];
    if fork == 0 {
        assert(entries(after).remove(path[0]).contains_key(k) == entries(after).contains_key(k));
        assert(entries(before).remove(path[0]).contains_key(k) == entries(before).contains_key(k));
        if entries(after).contains_key(k) {
            assert(entries(after).remove(path[0])[k] == entries(after)[k]);
            assert(entries(before).remove(path[0])[k] == entries(before)[k]);
        }
    } else {
        assert(path[0] == other[0]);
        assert(path.len() > 1);
        assert(path.skip(1)[fork - 1] == path[fork]);
        assert(other.skip(1)[fork - 1] == other[fork]);
        assert forall|i: int| 0 <= i < fork - 1 implies path.skip(1)[i] == other.skip(1)[i] by {
            assert(path[i + 1] == other[i + 1]);
        }
        if entries(before).contains_key(k) {
            let child = entries(before)[k];
            assert(obstacle(child, path.skip(1)) is None);
            law_setting_one_key_leaves_the_others(
                child,
                entries(after)[k],
                path.skip(1),
                data,
                other.skip(1),
                fork - 1,
            );
        } else {
            lemma_nothing_beside(
                entries(after)[k],
                path.skip(1),
                data,
                other.skip(1),
                fork - 1,
            );
        }
    }
}

/// A table that was created to hold one key holds nothing beside it.
proof fn lemma_nothing_beside(
    after: toml_edit::Item,
    path: Seq<Seq<char>>,
    data: Said,
    other: Seq<Seq<char>>,
    fork: int,
)
    requires
        is_new(after, path, data),
        0 <= fork < path.len(),
        fork < other.len(),
        forall|i: int| 0 <= i < fork ==> path[i] == other[i],
        path[fork] != other[fork],
    ensures
        node_at(after, other) is None,
    decreases path.len(),
{
    let k = other[0];
    if fork == 0 {
        assert(entries(after).remove(path[0]).contains_key(k) == entries(after).contains_key(k));
        assert(!no_entries().contains_key(k));
    } else {
        assert(path[0] == other[0]);
        assert(path.skip(1)[fork - 1] == path[fork]);
        assert(other.skip(1)[fork - 1] == other[fork]);
        assert forall|i: int| 0 <= i < fork - 1 implies path.skip(1)[i] == other.skip(1)[i] by {
            assert(path[i + 1] == other[i + 1]);
        }
        lemma_nothing_beside(
            entries(after)[k],
            path.skip(1),
            data,
            other.skip(1),
            fork - 1,
        );
    }
}

/// A key can be set exactly where everything on the way to it that is there is a table; what stands
/// in the way is named by the key that could not be reached.
pub proof fn law_only_a_value_stands_in_the_way(item: toml_edit::Item, path: Seq<Seq<char>>)
    requires
        path.len() > 0,
    ensures
        obstacle(item, path) is None <==> forall|n: int|
            0 <= n < path.len() ==> (#[trigger] node_at(item, path.take(n)) matches Some(node)
                ==> is_table(node)),
        !is_table(item) && path.len() == 1 ==> obstacle(item, path) == Some(
            "cannot set '"@ + path[0] + "': parent is not a table"@,
        ),
        !is_table(item) && path.len() > 1 ==> obstacle(item, path) == Some(
            "cannot descend into '"@ + path[0] + "': not a table"@,
        ),
    decreases path.len(),
{
    assert(path.take(0) =~= Seq::<Seq<char>>::empty());
    assert(node_at(item, path.take(0)) == Some(item));
    if is_table(item) {
        if path.len() == 1 || !entries(item).contains_key(path[0]) {
            assert forall|n: int| 0 <= n < path.len() implies (#[trigger] node_at(
                item,
                path.take(n),
            ) matches Some(node) ==> is_table(node)) by {
                if n > 0 {
                    assert(path.take(n)[0] == path[0]);
                }
            }
        } else {
            let below = entries(item)[path[0]];
            let rest = path.skip(1);
            law_only_a_value_stands_in_the_way(below, rest);
            assert forall|n: int| 0 < n < path.len() implies node_at(item, #[trigger] path.take(n))
                == node_at(below, rest.take(n - 1)) by {
                assert(path.take(n)[0] == path[0]);
                assert(path.take(n).skip(1) =~= rest.take(n - 1));
            }
            if obstacle(item, path) is None {
                assert forall|n: int| 0 <= n < path.len() implies (#[trigger] node_at(
                    item,
                    path.take(n),
                ) matches Some(node) ==> is_table(node)) by {
                    if n > 0 {
                        assert(node_at(item, path.take(n)) == node_at(below, rest.take(n - 1)));
                    }
                }
            }
            if forall|n: int|
                0 <= n < path.len() ==> (#[trigger] node_at(item, path.take(n)) matches Some(node)
                    ==> is_table(node)) {
                assert forall|m: int| 0 <= m < rest.len() implies (#[trigger] node_at(
                    below,
                    rest.take(m),
                ) matches Some(node) ==> is_table(node)) by {
                    assert(node_at(item, path.take(m + 1)) == node_at(below, rest.take(m)));
                }
            }
        }
    } else {
        assert(node_at(item, path.take(0)) is Some);
    }
}

/// A stage can be changed exactly where the document has an array of tables for its stages and one
/// at that place.
pub proof fn law_only_a_stage_that_is_there_can_be_changed(root: toml_edit::Item, index: int)
    requires
        index >= 0,
    ensures
        stage_obstacle(root, index) is None <==> is_table(root) && entries(root).contains_key(
            "stage"@,
        ) && is_tables(entries(root)["stage"@]) && index < tables(entries(root)["stage"@]).len()
            && is_block(tables(entries(root)["stage"@])[index]),
{
}

/// Whether `r` is what saving a document comes to, given what writing it gave.
pub open spec fn is_saved<T>(
    r: Result<bool, Error>,
    before: Document<T>,
    after: Document<T>,
    written: Result<(), String>,
) -> bool {
    &&& after.typed() == before.typed()
    &&& after.document() == before.document()
    &&& after.file() == before.file()
    &&& match r {
        Ok(wrote) => wrote == before.changed() && (wrote ==> written is Ok) && !after.changed(),
        Err(e) => before.changed() && written is Err && after.changed() && e@ == (
        ErrorView::Write { path: before.file(), source: written->Err_0@ }),
    }
    &&& r is Err <==> before.changed() && written is Err
}

/// A document that was not changed is not written. One that was is clean once it is written, stays
/// changed where writing failed, so that it can be written again, and loses nothing either way.
pub proof fn law_a_failed_save_can_be_tried_again<T>(
    r: Result<bool, Error>,
    before: Document<T>,
    after: Document<T>,
    written: Result<(), String>,
)
    requires
        is_saved(r, before, after, written),
    ensures
        !before.changed() ==> r == Ok::<bool, Error>(false) && !after.changed(),
        before.changed() && written is Ok ==> r == Ok::<bool, Error>(true) && !after.changed(),
        before.changed() && written is Err ==> r is Err && after.changed(),
        document_text(after.document()) == document_text(before.document()),
        after.typed() == before.typed(),
{
}

/// A document that was read anew holds what the reader makes of its text as it is now, and where
/// the reader can make nothing of it, what it held before, with the reader's complaint.
pub proof fn law_an_edit_shows_at_once<T, R: Fn(&str) -> Result<T, String>>(
    before: Document<T>,
    after: Document<T>,
    r: Result<(), Error>,
    read: R,
    reading: T,
)
    requires
        is_reread(before, after, r, read),
    ensures
        (forall|said: Result<T, String>| #[trigger]
            may_read(read, document_text(after.document()), said) ==> said == Ok::<T, String>(
                reading,
            )) ==> r is Ok && after.typed() == reading,
        (forall|said: Result<T, String>| #[trigger]
            may_read(read, document_text(after.document()), said) ==> said is Err) ==> r is Err
            && after.typed() == before.typed(),
{
}

/// A table that had to be created on the way to a key prints no header of its own, and is as its
/// parent is, standard or inline.
pub proof fn law_a_created_table_prints_no_header(
    before: toml_edit::Item,
    after: toml_edit::Item,
    path: Seq<Seq<char>>,
    data: Said,
    n: int,
)
    requires
        is_table(before),
        obstacle(before, path) is None,
        is_set(before, after, path, data),
        0 < n < path.len(),
        node_at(before, path.take(n)) is None,
    ensures
        node_at(after, path.take(n)) matches Some(t) && is_table(t) && !has_header(t),
    decreases path.len(),
{
    let was = entries(before)[path[0]];
    let now = entries(after)[path[0]];
    let rest = path.skip(1);
    assert(path.take(n)[0] == path[0]);
    assert(path.take(n).skip(1) =~= rest.take(n - 1));
    if entries(before).contains_key(path[0]) {
        if n == 1 {
            assert(rest.take(0) =~= Seq::<Seq<char>>::empty());
        } else {
            law_a_created_table_prints_no_header(was, now, rest, data, n - 1);
        }
    } else {
        lemma_new_has_no_header(now, rest, data, n - 1);
    }
}

proof fn lemma_new_has_no_header(after: toml_edit::Item, path: Seq<Seq<char>>, data: Said, n: int)
    requires
        is_new(after, path, data),
        0 <= n < path.len(),
    ensures
        node_at(after, path.take(n)) matches Some(t) && is_table(t) && !has_header(t),
    decreases path.len(),
{
    if n == 0 {
        assert(path.take(0) =~= Seq::<Seq<char>>::empty());
    } else {
        assert(path.take(n)[0] == path[0]);
        assert(path.take(n).skip(1) =~= path.skip(1).take(n - 1));
        lemma_new_has_no_header(entries(after)[path[0]], path.skip(1), data, n - 1);
    }
}

/// Setting a key leaves the table around it as it was: the order of the other keys, what stands
/// around them and around the table, and whether it prints a header. A key that was there keeps
/// its place, and a new one comes last.
pub proof fn law_a_table_keeps_its_order(
    before: toml_edit::Item,
    after: toml_edit::Item,
    path: Seq<Seq<char>>,
    data: Said,
    k: Seq<char>,
)
    requires
        is_set(before, after, path, data),
    ensures
        key_order(after).filter(|x: Seq<char>| x != path[0]) == key_order(before).filter(
            |x: Seq<char>| x != path[0],
        ),
        entries(before).contains_key(path[0]) ==> key_order(after) == key_order(before),
        !entries(before).contains_key(path[0]) && !key_order(before).contains(path[0])
            ==> key_order(after) == key_order(before).push(path[0]),
        k != path[0] ==> key_decor(after, k) == key_decor(before, k),
        table_decor(after) == table_decor(before),
        has_header(after) == has_header(before),
        is_block(after) == is_block(before),
{
}

} // verus!
