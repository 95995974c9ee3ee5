//! The boundary to the `toml_edit` crate.  The catalog's passthrough
//! settings live in `toml_edit::Table` values; the core carries them
//! opaquely and reads or renders them only through the trusted items
//! declared here.

use vstd::prelude::*;

verus! {

#[verifier::external_type_specification]
#[verifier::external_body]
pub struct ExTable(toml_edit::Table);

/// Relies on `toml_edit::Table::clone`: the clone is an equal table.
pub assume_specification[ <toml_edit::Table as Clone>::clone ](t: &toml_edit::Table) -> (r:
    toml_edit::Table)
    ensures
        r == *t,
;

} // verus!

verus! {

/// The key-union of two tables: every entry of the overlay written over
/// the base, the overlay winning per key.  A name for what
/// `table_merge_into` computes, which is a function of the two tables
/// alone.
pub uninterp spec fn table_union(base: toml_edit::Table, overlay: toml_edit::Table) -> toml_edit::Table;

/// Relies on `toml_edit::Table`'s `IntoIterator` and `insert`: every entry
/// of `src` is written into `dst`, replacing an entry under the same key.
/// The merged table is named `table_union`.
#[verifier::external_body]
pub fn table_merge_into(dst: &mut toml_edit::Table, src: toml_edit::Table)
    ensures
        *final(dst) == table_union(*old(dst), src),
{
    for (k, v) in src {
        dst.insert(k.as_str(), v);
    }
}

} // verus!

verus! {

use crate::model::{FileType, FileTypeV, fts_view};

#[verifier::external_type_specification]
#[verifier::external_body]
pub struct ExValue(toml_edit::Value);

/// What the core reads of one catalog `[[language]]` table: the name, the
/// file patterns (`Some(None)` when present but malformed), the indent
/// block's width and unit text (again `Some(None)` when malformed), and
/// whether a language server or formatter is configured.
pub ghost struct CatalogFields {
    pub name: Option<Seq<char>>,
    pub file_types: Option<Option<Seq<FileTypeV>>>,
    pub indent: Option<Option<(int, Seq<char>)>>,
    pub formatter_hint: bool,
}

/// The contents of a catalog table, as far as the core reads them.  The
/// read wrappers below each return one field of this value.
pub uninterp spec fn catalog_fields(t: toml_edit::Table) -> CatalogFields;

pub open spec fn opt_str_view(r: Option<String>) -> Option<Seq<char>> {
    match r {
        Some(s) => Some(s@),
        None => None,
    }
}

/// Relies on `Table::get` and `Item::as_str`: the `name` entry of the
/// catalog table, when it is a string.
#[verifier::external_body]
pub fn read_name(t: &toml_edit::Table) -> (r: Option<String>)
    ensures
        opt_str_view(r) == catalog_fields(*t).name,
{
    t.get("name").and_then(|i| i.as_str()).map(|s| s.to_string())
}

/// Relies on `Table::get`, `Item::as_array` and the array's items: the
/// `file-types` entry, each item either a bare string or an inline table
/// binding `glob`; anything else makes the entry malformed.
#[verifier::external_body]
pub fn read_file_types(t: &toml_edit::Table) -> (r: Option<Option<Vec<FileType>>>)
    ensures
        (match r {
            None => catalog_fields(*t).file_types is None,
            Some(None) => catalog_fields(*t).file_types == Some(None::<Seq<FileTypeV>>),
            Some(Some(v)) => catalog_fields(*t).file_types == Some(Some(fts_view(v@))),
        }),
{
    let arr = match t.get("file-types") {
        Some(i) => match i.as_array() { Some(a) => a, None => return Some(None) },
        None => return None,
    };
    let mut out: Vec<FileType> = Vec::new();
    for v in arr.iter() {
        match (v.as_str(), v.as_inline_table().and_then(|m| m.get("glob")).and_then(|x| x.as_str())) {
            (Some(s), _) => out.push(FileType::Extension(s.to_string())),
            (None, Some(g)) => out.push(FileType::Glob(g.to_string())),
            _ => return Some(None),
        }
    }
    Some(Some(out))
}

/// Relies on `Table::get`, `Item::get`, `Item::as_integer` and
/// `Item::as_str`: the `indent` entry's `tab-width` and `unit`; an indent
/// block missing either is malformed.
#[verifier::external_body]
pub fn read_indent(t: &toml_edit::Table) -> (r: Option<Option<(i64, String)>>)
    ensures
        (match r {
            None => catalog_fields(*t).indent is None,
            Some(None) => catalog_fields(*t).indent == Some(None::<(int, Seq<char>)>),
            Some(Some((w, u))) => catalog_fields(*t).indent == Some(Some((w as int, u@))),
        }),
{
    let item = match t.get("indent") { Some(i) => i, None => return None };
    let w = item.get("tab-width").and_then(|x| x.as_integer());
    let u = item.get("unit").and_then(|x| x.as_str());
    match (w, u) {
        (Some(w), Some(u)) => Some(Some((w, u.to_string()))),
        _ => Some(None),
    }
}

/// Relies on `Table::get`: whether the catalog entry configures a language
/// server or a formatter, the hint that a formatter already handles the
/// file type.
#[verifier::external_body]
pub fn read_formatter_hint(t: &toml_edit::Table) -> (r: bool)
    ensures
        r == catalog_fields(*t).formatter_hint,
{
    t.get("language-servers").is_some() || t.get("formatter").is_some()
}

/// The `[[language]]` tables the catalog document holds, in document
/// order, or nothing when the document does not parse as a catalog.  A
/// name for what `parse_catalog_tables` returns, which is a function of
/// the input text alone.
pub uninterp spec fn catalog_tables(s: Seq<char>) -> Option<Seq<toml_edit::Table>>;

/// Relies on `toml_edit::DocumentMut::from_str` and
/// `Item::as_array_of_tables`: the `[[language]]` tables of the catalog
/// document, in order, or nothing when the document does not parse as a
/// catalog.
#[verifier::external_body]
pub fn parse_catalog_tables(input: &str) -> (r: Option<Vec<toml_edit::Table>>)
    ensures
        (match r {
            Some(v) => catalog_tables(input@) == Some(v@),
            None => catalog_tables(input@) is None,
        }),
{
    let doc = match <toml_edit::DocumentMut as core::str::FromStr>::from_str(input) {
        Ok(d) => d,
        Err(_) => return None,
    };
    let arr = doc.get("language")?.as_array_of_tables()?;
    Some(arr.iter().cloned().collect())
}

} // verus!

verus! {

/// An element of an emitted TOML array: a string, an integer, or an inline
/// table binding one key to one string.
pub enum TomlAtom {
    S(String),
    I(i64),
    KV(String, String),
}

pub ghost enum TomlAtomV {
    S(Seq<char>),
    I(int),
    KV(Seq<char>, Seq<char>),
}

impl View for TomlAtom {
    type V = TomlAtomV;

    open spec fn view(&self) -> TomlAtomV {
        match self {
            TomlAtom::S(s) => TomlAtomV::S(s@),
            TomlAtom::I(i) => TomlAtomV::I(*i as int),
            TomlAtom::KV(k, v) => TomlAtomV::KV(k@, v@),
        }
    }
}

/// A value of an emitted inline table: a string, an integer, or an array
/// of strings.
pub enum TomlInner {
    S(String),
    I(i64),
    SArr(Vec<String>),
}

pub ghost enum TomlInnerV {
    S(Seq<char>),
    I(int),
    SArr(Seq<Seq<char>>),
}

impl View for TomlInner {
    type V = TomlInnerV;

    open spec fn view(&self) -> TomlInnerV {
        match self {
            TomlInner::S(s) => TomlInnerV::S(s@),
            TomlInner::I(i) => TomlInnerV::I(*i as int),
            TomlInner::SArr(xs) => TomlInnerV::SArr(crate::text::views_of(xs@)),
        }
    }
}

/// A value written into an emitted language block.
pub enum TomlVal {
    S(String),
    I(i64),
    B(bool),
    Arr(Vec<TomlAtom>),
    Inline(Vec<(String, TomlInner)>),
}

pub ghost enum TomlValV {
    S(Seq<char>),
    I(int),
    B(bool),
    Arr(Seq<TomlAtomV>),
    Inline(Seq<(Seq<char>, TomlInnerV)>),
}

impl View for TomlVal {
    type V = TomlValV;

    open spec fn view(&self) -> TomlValV {
        match self {
            TomlVal::S(s) => TomlValV::S(s@),
            TomlVal::I(i) => TomlValV::I(*i as int),
            TomlVal::B(b) => TomlValV::B(*b),
            TomlVal::Arr(xs) => TomlValV::Arr(Seq::new(xs@.len(), |i: int| xs@[i]@)),
            TomlVal::Inline(ps) => TomlValV::Inline(
                Seq::new(ps@.len(), |i: int| (ps@[i].0@, ps@[i].1@)),
            ),
        }
    }
}

/// The key/value views of an entry list.
pub open spec fn entries_view(es: Seq<(String, TomlVal)>) -> Seq<(Seq<char>, TomlValV)> {
    Seq::new(es.len(), |i: int| (es[i].0@, es[i].1@))
}

/// The text `toml_edit` renders for a base catalog table with the given
/// keys removed and the given entries written over it, under the given
/// block header line.
pub uninterp spec fn block_text(
    base: toml_edit::Table,
    header: Seq<char>,
    removals: Seq<Seq<char>>,
    entries: Seq<(Seq<char>, TomlValV)>,
) -> Seq<char>;

/// The text `toml_edit` renders for a fresh table holding the given
/// entries, under the given block header line.
pub uninterp spec fn plain_block_text(
    header: Seq<char>,
    entries: Seq<(Seq<char>, TomlValV)>,
) -> Seq<char>;

/// Part of the rendering boundary: convert one array element into the
/// outside crate's value, variant for variant.
#[verifier::external_body]
fn to_toml_atom(a: &TomlAtom) -> toml_edit::Value {
    match a {
        TomlAtom::S(s) => s.as_str().into(),
        TomlAtom::I(i) => (*i).into(),
        TomlAtom::KV(k, v) => {
            let mut m = toml_edit::InlineTable::new();
            m.insert(k.as_str(), v.as_str().into());
            m.into()
        },
    }
}

/// Part of the rendering boundary: convert one inline-table value into the
/// outside crate's value, variant for variant.
#[verifier::external_body]
fn to_toml_inner(x: &TomlInner) -> toml_edit::Value {
    match x {
        TomlInner::S(s) => s.as_str().into(),
        TomlInner::I(i) => (*i).into(),
        TomlInner::SArr(xs) => toml_edit::Value::Array(
            xs.iter().map(|s| toml_edit::Value::from(s.as_str())).collect(),
        ),
    }
}

/// Part of the rendering boundary: convert one entry value into the
/// outside crate's value, variant for variant.
#[verifier::external_body]
fn to_toml_value(v: &TomlVal) -> toml_edit::Value {
    match v {
        TomlVal::S(s) => s.as_str().into(),
        TomlVal::I(i) => (*i).into(),
        TomlVal::B(b) => (*b).into(),
        TomlVal::Arr(xs) => toml_edit::Value::Array(xs.iter().map(to_toml_atom).collect()),
        TomlVal::Inline(ps) => {
            let mut m = toml_edit::InlineTable::new();
            for (k, x) in ps.iter() { m.insert(k.as_str(), to_toml_inner(x)); }
            m.into()
        },
    }
}

/// Relies on `Table::clone`, `Table::remove`, `Table::insert` and the
/// `Display` of `toml_edit::Table`: render one language block.  The base
/// table (the catalog entry being carried through, or a fresh one) loses
/// the removed keys, takes the entries in order, has any sub-table written
/// inline, and is printed under the header line.
#[verifier::external_body]
pub fn render_block(
    base: Option<&toml_edit::Table>,
    header: &str,
    removals: &Vec<String>,
    entries: &Vec<(String, TomlVal)>,
) -> (r: String)
    ensures
        (match base {
            Some(b) => r@ == block_text(
                *b,
                header@,
                crate::text::views_of(removals@),
                entries_view(entries@),
            ),
            None => removals@.len() == 0 ==> r@ == plain_block_text(
                header@,
                entries_view(entries@),
            ),
        }),
{
    let mut t = match base { Some(b) => (*b).clone(), None => toml_edit::Table::new() };
    for k in removals.iter() { t.remove(k.as_str()); }
    for (k, v) in entries.iter() { t.insert(k.as_str(), toml_edit::value(to_toml_value(v))); }
    for (_, v) in t.iter_mut() {
        if v.is_table() {
            let inline = v.clone().into_table().unwrap().into_inline_table();
            *v = toml_edit::value(inline);
        }
    }
    format!("{header}\n{t}\n")
}

} // verus!
