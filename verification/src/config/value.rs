//! Values to write into a document.
//!
//! What a document is asked to hold and what it holds are different types: the second carries the
//! white space and comments around a value.

use vstd::prelude::*;

verus! {

/// A value of a `toml_edit` document, with the white space and comments around it.
#[verifier::external_type_specification]
#[verifier::external_body]
pub struct ExEditValue(toml_edit::Value);

/// What a value says, apart from how it is written.
pub enum Said {
    Text(Seq<char>),
    Integer(i64),
    Boolean(bool),
    Array(Seq<Said>),
    Table(Map<Seq<char>, Said>),
    /// A number with a fraction, or a date.
    Other(Seq<char>),
}

/// What a value says, apart from the white space and comments around it.
pub uninterp spec fn value_data(value: toml_edit::Value) -> Said;

/// A value to write. A number with a fraction comes as the document's own.
pub enum Setting {
    Text(String),
    Integer(i64),
    Boolean(bool),
    /// Written as a text.
    Datetime(String),
    Array(Vec<Setting>),
    Table(Vec<(String, Setting)>),
    Ready(toml_edit::Value),
}

/// `<toml_edit::Value as From<&str>>::from`: a value that says a text.
#[verifier::external_body]
fn text_value(s: &str) -> (r: toml_edit::Value)
    ensures
        value_data(r) == Said::Text(s@),
{
    toml_edit::Value::from(s)
}

/// `<toml_edit::Value as From<i64>>::from`: a value that says a whole number.
#[verifier::external_body]
fn integer_value(i: i64) -> (r: toml_edit::Value)
    ensures
        value_data(r) == Said::Integer(i),
{
    toml_edit::Value::from(i)
}

/// `<toml_edit::Value as From<bool>>::from`: a value that says yes or no.
#[verifier::external_body]
fn boolean_value(b: bool) -> (r: toml_edit::Value)
    ensures
        value_data(r) == Said::Boolean(b),
{
    toml_edit::Value::from(b)
}

/// `<toml_edit::Array as FromIterator<Value>>::from_iter`: a value that says what each of its
/// items says, in order.
#[verifier::external_body]
fn array_value(items: Vec<toml_edit::Value>) -> (r: toml_edit::Value)
    ensures
        value_data(r) == Said::Array(data_of_each(items@)),
{
    toml_edit::Value::Array(toml_edit::Array::from_iter(items))
}

/// `<toml_edit::InlineTable as FromIterator<(String, Value)>>::from_iter`: a value that says what
/// each of its entries says, by key. The last one of a key counts.
#[verifier::external_body]
fn table_value(entries: Vec<(String, toml_edit::Value)>) -> (r: toml_edit::Value)
    ensures
        value_data(r) == Said::Table(data_by_key(entries@)),
{
    toml_edit::Value::InlineTable(toml_edit::InlineTable::from_iter(entries))
}

/// `<toml_edit::Value as Clone>::clone`: a value that says the same.
#[verifier::external_body]
fn copy_of(v: &toml_edit::Value) -> (r: toml_edit::Value)
    ensures
        value_data(r) == value_data(*v),
{
    v.clone()
}

pub open spec fn data_of_each(items: Seq<toml_edit::Value>) -> Seq<Said> {
    items.map_values(|v: toml_edit::Value| value_data(v))
}

pub open spec fn data_by_key(entries: Seq<(String, toml_edit::Value)>) -> Map<Seq<char>, Said>
    decreases entries.len(),
{
    if entries.len() == 0 {
        Map::empty()
    } else {
        data_by_key(entries.drop_last()).insert(entries.last().0@, value_data(entries.last().1))
    }
}

/// What a setting says.
pub open spec fn said(s: Setting) -> Said
    decreases s,
{
    match s {
        Setting::Text(t) => Said::Text(t@),
        Setting::Integer(i) => Said::Integer(i),
        Setting::Boolean(b) => Said::Boolean(b),
        Setting::Datetime(t) => Said::Text(t@),
        Setting::Array(items) => Said::Array(said_each(items@)),
        Setting::Table(entries) => Said::Table(said_by_key(entries@)),
        Setting::Ready(v) => value_data(v),
    }
}

/// What settings say, in order.
pub open spec fn said_each(items: Seq<Setting>) -> Seq<Said>
    decreases items,
{
    if items.len() == 0 {
        seq![]
    } else {
        said_each(items.drop_last()).push(said(items.last()))
    }
}

/// What settings say, by key. The last one of a key counts.
pub open spec fn said_by_key(entries: Seq<(String, Setting)>) -> Map<Seq<char>, Said>
    decreases entries,
{
    if entries.len() == 0 {
        Map::empty()
    } else {
        said_by_key(entries.drop_last()).insert(entries.last().0@, said(entries.last().1))
    }
}

/// The document's own form of a value.
pub fn to_edit_value(v: &Setting) -> (r: toml_edit::Value)
    ensures
        value_data(r) == said(*v),
    decreases v,
{
    match v {
        Setting::Text(t) => text_value(t.as_str()),
        Setting::Integer(i) => integer_value(*i),
        Setting::Boolean(b) => boolean_value(*b),
        Setting::Datetime(t) => text_value(t.as_str()),
        Setting::Array(items) => {
            let mut out: Vec<toml_edit::Value> = Vec::new();
            let mut i: usize = 0;
            assert(items@.take(0) =~= Seq::<Setting>::empty());
            while i < items.len()
                invariant
                    i <= items.len(),
                    decreases_to!(v => items@),
                    data_of_each(out@) == said_each(items@.take(i as int)),
                decreases items.len() - i,
            {
                let ghost before = out@;
                out.push(to_edit_value(&items[i]));
                proof {
                    assert(data_of_each(out@) =~= data_of_each(before).push(
                        value_data(out@.last()),
                    ));
                    assert(items@.take(i + 1).drop_last() =~= items@.take(i as int));
                    assert(items@.take(i + 1).last() == items@[i as int]);
                }
                i += 1;
            }
            assert(items@.take(i as int) =~= items@);
            array_value(out)
        },
        Setting::Table(entries) => {
            let mut out: Vec<(String, toml_edit::Value)> = Vec::new();
            let mut i: usize = 0;
            assert(entries@.take(0) =~= Seq::<(String, Setting)>::empty());
            while i < entries.len()
                invariant
                    i <= entries.len(),
                    decreases_to!(v => entries@),
                    data_by_key(out@) == said_by_key(entries@.take(i as int)),
                decreases entries.len() - i,
            {
                let ghost before = out@;
                out.push((crate::text::owned(entries[i].0.as_str()), to_edit_value(&entries[i].1)));
                proof {
                    assert(out@.drop_last() =~= before);
                    assert(entries@.take(i + 1).drop_last() =~= entries@.take(i as int));
                    assert(entries@.take(i + 1).last() == entries@[i as int]);
                }
                i += 1;
            }
            assert(entries@.take(i as int) =~= entries@);
            table_value(out)
        },
        Setting::Ready(v) => copy_of(v),
    }
}

/// A setting says what it holds: a text or a date its text, a number, a yes or no, a list what each
/// of its items says, in order, and a table what each of its entries says, the last one of a key
/// counting.
pub proof fn law_a_setting_says_what_it_holds(
    t: String,
    i: i64,
    b: bool,
    items: Vec<Setting>,
    entries: Vec<(String, Setting)>,
    k: int,
)
    ensures
        said(Setting::Text(t)) == Said::Text(t@),
        said(Setting::Datetime(t)) == Said::Text(t@),
        said(Setting::Integer(i)) == Said::Integer(i),
        said(Setting::Boolean(b)) == Said::Boolean(b),
        said(Setting::Array(items)) matches Said::Array(list) && list.len() == items@.len() && (0
            <= k < items@.len() ==> list[k] == said(items@[k])),
        said(Setting::Table(entries)) matches Said::Table(table) && (0 <= k < entries@.len()
            && (forall|j: int| k < j < entries@.len() ==> (#[trigger] entries@[j]).0@
            != entries@[k].0@) ==> table.contains_pair(entries@[k].0@, said(entries@[k].1))),
{
    lemma_said_each(items@, k);
    lemma_said_by_key(entries@, k);
}

proof fn lemma_said_each(items: Seq<Setting>, k: int)
    ensures
        said_each(items).len() == items.len(),
        0 <= k < items.len() ==> said_each(items)[k] == said(items[k]),
    decreases items.len(),
{
    if items.len() > 0 {
        lemma_said_each(items.drop_last(), k);
    }
}

proof fn lemma_said_by_key(entries: Seq<(String, Setting)>, k: int)
    ensures
        0 <= k < entries.len() && (forall|j: int|
            k < j < entries.len() ==> (#[trigger] entries[j]).0@ != entries[k].0@) ==> said_by_key(
            entries,
        ).contains_pair(entries[k].0@, said(entries[k].1)),
    decreases entries.len(),
{
    if entries.len() > 0 && 0 <= k < entries.len() && forall|j: int|
        k < j < entries.len() ==> (#[trigger] entries[j]).0@ != entries[k].0@ {
        let rest = entries.drop_last();
        if k < rest.len() {
            assert forall|j: int| k < j < rest.len() implies (#[trigger] rest[j]).0@ != rest[k].0@ by {
                assert(rest[j] == entries[j]);
            }
            lemma_said_by_key(rest, k);
            assert(entries[entries.len() - 1].0@ != entries[k].0@);
        }
    }
}

} // verus!
