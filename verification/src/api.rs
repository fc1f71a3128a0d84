//! A read-only view of a parsed document: its entries and properties by
//! name and in the order of their declaration.
use crate::error::{render_text, Error, ErrorView};
use crate::grammar::{entries_of, props_of};
use crate::omap::lookup;
use crate::tokeniser::lines_view;
use crate::types::{
    entries_get, entries_get_index, entries_len, entry_view, props_contents, props_get,
    props_get_index, props_len, Entries, EntriesView, Props, PropsView, Struct, StructView, Value,
    ValueView,
};
use crate::Lines;
use vstd::prelude::*;

verus! {

/// An error together with the source and the line index that render it.
#[derive(Debug)]
pub struct JaclError<'src> {
    internal: Error<'src>,
    input: &'src str,
    lines: Lines,
}

impl<'src> JaclError<'src> {
    /// The error that is held.
    pub closed spec fn error(&self) -> ErrorView {
        self.internal@
    }

    /// The source that is held.
    pub closed spec fn source(&self) -> Seq<char> {
        self.input@
    }

    /// The line index that is held.
    pub closed spec fn index(&self) -> Seq<(int, int)> {
        lines_view(self.lines@)
    }

    /// Holds an error together with the source that it is about and the
    /// line index of that source.
    pub fn from_error(err: Error<'src>, input: &'src str, lines: Lines) -> (e: JaclError<'src>)
        ensures
            e.error() == err@,
            e.source() == input@,
            e.index() == lines_view(lines@),
    {
        JaclError { internal: err, input, lines }
    }

    /// Renders the error against the source that is held.
    pub fn render(&self) -> (r: String)
        ensures
            r@ == render_text(self.error(), self.source(), self.index()),
    {
        self.internal.render(self.input, &self.lines)
    }
}

/// A parsed document.
#[derive(Debug)]
pub struct Jacl {
    inr: Struct,
}

/// An object of a document.
#[derive(Debug)]
pub struct Object<'s> {
    jacl: &'s Jacl,
    entries: &'s Entries,
    props: &'s Props,
}

/// A table of a document.
#[derive(Debug)]
pub struct Table<'s> {
    jacl: &'s Jacl,
    entries: &'s Entries,
}

/// A map of a document.
#[derive(Debug)]
pub struct Mapping<'s> {
    jacl: &'s Jacl,
    props: &'s Props,
}

/// A structure of a document, of one of the three kinds.
#[derive(Debug)]
pub enum JaclStruct<'s> {
    Object(Object<'s>),
    Table(Table<'s>),
    Mapping(Mapping<'s>),
}

impl<'s> Object<'s> {
    /// The entries of the object.
    pub closed spec fn entries_held(&self) -> EntriesView {
        self.entries@
    }

    /// The properties of the object.
    pub closed spec fn props_held(&self) -> PropsView {
        props_contents(*self.props)
    }
}

impl<'s> Table<'s> {
    /// The entries of the table.
    pub closed spec fn entries_held(&self) -> EntriesView {
        self.entries@
    }
}

impl<'s> Mapping<'s> {
    /// The properties of the map.
    pub closed spec fn props_held(&self) -> PropsView {
        props_contents(*self.props)
    }
}

impl<'s> View for Object<'s> {
    type V = StructView;

    open spec fn view(&self) -> StructView {
        StructView::Object { entries: self.entries_held(), props: self.props_held() }
    }
}

impl<'s> View for Table<'s> {
    type V = StructView;

    open spec fn view(&self) -> StructView {
        StructView::Table { entries: self.entries_held() }
    }
}

impl<'s> View for Mapping<'s> {
    type V = StructView;

    open spec fn view(&self) -> StructView {
        StructView::Mapping { props: self.props_held() }
    }
}

impl<'s> View for JaclStruct<'s> {
    type V = StructView;

    open spec fn view(&self) -> StructView {
        match self {
            JaclStruct::Object(o) => o@,
            JaclStruct::Table(t) => t@,
            JaclStruct::Mapping(m) => m@,
        }
    }
}

/// The view of a structure that may be missing.
pub open spec fn found_view(s: Option<JaclStruct<'_>>) -> Option<StructView> {
    match s {
        Some(s) => Some(s@),
        None => None,
    }
}

/// Whether a name is one that the parser gave: such names begin with
/// `#`, which no name of the source does.
pub open spec fn is_synthetic(name: Seq<char>) -> bool {
    name.len() > 0 && name[0] == '#'
}

/// The structure that `key` holds among `entries`: none where the name
/// is unknown, and none where it is declared and not defined.
pub open spec fn entry_of(entries: EntriesView, key: Seq<char>) -> Option<StructView> {
    match lookup(entries, key) {
        Some(Some(s)) => Some(s),
        _ => None,
    }
}

/// What one element of a listing of entries says of the entry `e`: its
/// name, unless the parser gave it, and its structure.
pub open spec fn lists_entry(
    item: (Option<&String>, Option<JaclStruct<'_>>),
    e: (Seq<char>, Option<StructView>),
) -> bool {
    &&& found_view(item.1) == e.1
    &&& match item.0 {
        Some(name) => !is_synthetic(e.0) && name@ == e.0,
        None => is_synthetic(e.0),
    }
}

fn starts_with_hash(name: &str) -> (b: bool)
    ensures
        b == is_synthetic(name@),
{
    !name.is_empty() && name.get_char(0) == '#'
}

fn transform_entry<'s>(entry: &'s Option<Struct>, jacl: &'s Jacl) -> (r: Option<JaclStruct<'s>>)
    ensures
        found_view(r) == entry_view(*entry),
{
    match entry {
        Some(Struct::Object { entries, props }) => Some(
            JaclStruct::Object(Object { jacl, entries, props }),
        ),
        Some(Struct::Table { entries }) => Some(JaclStruct::Table(Table { jacl, entries })),
        Some(Struct::Mapping { props }) => Some(JaclStruct::Mapping(Mapping { jacl, props })),
        None => None,
    }
}

fn transform_entries<'s>(entries: &'s Entries, jacl: &'s Jacl) -> (r: Vec<
    (Option<&'s String>, Option<JaclStruct<'s>>),
>)
    ensures
        r@.len() == entries@.len(),
        forall|i: int| 0 <= i < r@.len() ==> lists_entry(#[trigger] r@[i], entries@[i]),
{
    let mut out: Vec<(Option<&'s String>, Option<JaclStruct<'s>>)> = Vec::new();
    let n = entries_len(entries);
    let mut i: usize = 0;
    while i < n
        invariant
            i <= n,
            n == entries@.len(),
            out@.len() == i,
            forall|j: int| 0 <= j < i ==> lists_entry(#[trigger] out@[j], entries@[j]),
        decreases n - i,
    {
        match entries_get_index(entries, i) {
            Some((key, entry)) => {
                let strct = transform_entry(entry, jacl);
                if starts_with_hash(key.as_str()) {
                    out.push((None, strct));
                } else {
                    out.push((Some(key), strct));
                }
            },
            None => {
                assert(false);
            },
        }
        i += 1;
    }
    out
}

fn list_props<'s>(props: &'s Props) -> (r: Vec<(&'s String, &'s Value)>)
    ensures
        r@.len() == props_contents(*props).len(),
        forall|i: int|
            0 <= i < r@.len() ==> (#[trigger] r@[i]).0@ == props_contents(*props)[i].0 && r@[i].1@
                == props_contents(*props)[i].1,
{
    let mut out: Vec<(&'s String, &'s Value)> = Vec::new();
    let n = props_len(props);
    let mut i: usize = 0;
    while i < n
        invariant
            i <= n,
            n == props_contents(*props).len(),
            out@.len() == i,
            forall|j: int|
                0 <= j < i ==> (#[trigger] out@[j]).0@ == props_contents(*props)[j].0 && out@[j].1@
                    == props_contents(*props)[j].1,
        decreases n - i,
    {
        match props_get_index(props, i) {
            Some(pair) => {
                out.push(pair);
            },
            None => {
                assert(false);
            },
        }
        i += 1;
    }
    out
}

/// What can be asked of a structure that holds entries.
pub trait EntryStruct<'s> {
    /// The entries that the structure holds.
    spec fn held_entries(&self) -> EntriesView;

    /// The entries in the order of their declaration, each with its
    /// name, unless the parser gave the name.
    fn entries(&self) -> (r: Vec<(Option<&String>, Option<JaclStruct<'s>>)>)
        ensures
            r@.len() == self.held_entries().len(),
            forall|i: int| 0 <= i < r@.len() ==> lists_entry(#[trigger] r@[i], self.held_entries()[i]),
    ;

    /// The structure that `key` holds.
    fn get_entry(&self, key: &str) -> (r: Option<JaclStruct<'s>>)
        ensures
            found_view(r) == entry_of(self.held_entries(), key@),
    ;

    /// The structure that a key names; none for a value that is no key.
    fn resolve_key(&self, key: &Value) -> (r: Option<JaclStruct<'s>>)
        ensures
            found_view(r) == match key@ {
                ValueView::Key(name) => entry_of(self.held_entries(), name),
                _ => None,
            },
    ;
}

/// What can be asked of a structure that holds properties.
pub trait PropertyStruct {
    /// The properties that the structure holds.
    spec fn held_props(&self) -> PropsView;

    /// The properties in the order of their declaration.
    fn properties(&self) -> (r: Vec<(&String, &Value)>)
        ensures
            r@.len() == self.held_props().len(),
            forall|i: int|
                0 <= i < r@.len() ==> (#[trigger] r@[i]).0@ == self.held_props()[i].0 && r@[i].1@
                    == self.held_props()[i].1,
    ;

    /// The value that `val` is bound to.
    fn get_property(&self, val: &str) -> (r: Option<&Value>)
        ensures
            match r {
                Some(v) => lookup(self.held_props(), val@) == Some(v@),
                None => lookup(self.held_props(), val@) is None,
            },
    ;
}

impl<'s> EntryStruct<'s> for Object<'s> {
    open spec fn held_entries(&self) -> EntriesView {
        self.entries_held()
    }

    fn entries(&self) -> (r: Vec<(Option<&String>, Option<JaclStruct<'s>>)>) {
        transform_entries(self.entries, self.jacl)
    }

    fn get_entry(&self, key: &str) -> (r: Option<JaclStruct<'s>>) {
        match entries_get(self.entries, key) {
            Some(entry) => transform_entry(entry, self.jacl),
            None => None,
        }
    }

    fn resolve_key(&self, key: &Value) -> (r: Option<JaclStruct<'s>>) {
        if let Value::Key(key) = key {
            self.get_entry(key.as_str())
        } else {
            None
        }
    }
}

impl<'s> PropertyStruct for Object<'s> {
    open spec fn held_props(&self) -> PropsView {
        self.props_held()
    }

    fn properties(&self) -> (r: Vec<(&String, &Value)>) {
        list_props(self.props)
    }

    fn get_property(&self, val: &str) -> (r: Option<&Value>) {
        props_get(self.props, val)
    }
}

impl<'s> Object<'s> {
    /// The structure that the property `val` names: none where the
    /// property is not bound, and none where it is bound to a value
    /// that is no key.
    pub fn resolve_property(&self, val: &str) -> (r: Option<JaclStruct<'s>>)
        ensures
            found_view(r) == match lookup(self.held_props(), val@) {
                Some(ValueView::Key(name)) => entry_of(self.held_entries(), name),
                _ => None,
            },
    {
        match props_get(self.props, val) {
            Some(key) => match key {
                Value::Key(_) => self.resolve_key(key),
                _ => None,
            },
            None => None,
        }
    }
}

impl<'s> EntryStruct<'s> for Table<'s> {
    open spec fn held_entries(&self) -> EntriesView {
        self.entries_held()
    }

    fn entries(&self) -> (r: Vec<(Option<&String>, Option<JaclStruct<'s>>)>) {
        transform_entries(self.entries, self.jacl)
    }

    fn get_entry(&self, key: &str) -> (r: Option<JaclStruct<'s>>) {
        match entries_get(self.entries, key) {
            Some(entry) => transform_entry(entry, self.jacl),
            None => None,
        }
    }

    fn resolve_key(&self, key: &Value) -> (r: Option<JaclStruct<'s>>) {
        if let Value::Key(key) = key {
            self.get_entry(key.as_str())
        } else {
            None
        }
    }
}

impl<'s> PropertyStruct for Mapping<'s> {
    open spec fn held_props(&self) -> PropsView {
        self.props_held()
    }

    fn properties(&self) -> (r: Vec<(&String, &Value)>) {
        list_props(self.props)
    }

    fn get_property(&self, val: &str) -> (r: Option<&Value>) {
        props_get(self.props, val)
    }
}

impl<'s> JaclStruct<'s> {
    /// The entries of an object or a table, in the order of their
    /// declaration, each with its name, unless the parser gave the
    /// name; none for a map.
    pub fn entries(&self) -> (r: Option<Vec<(Option<&String>, Option<JaclStruct<'s>>)>>)
        ensures
            match r {
                Some(v) => entries_of(self@) matches Some(e) && v@.len() == e.len() && forall|i: int|
                    0 <= i < v@.len() ==> lists_entry(#[trigger] v@[i], e[i]),
                None => entries_of(self@) is None,
            },
    {
        match self {
            JaclStruct::Object(o) => Some(o.entries()),
            JaclStruct::Table(t) => Some(t.entries()),
            JaclStruct::Mapping(_) => None,
        }
    }

    /// The structure that `key` holds in an object or a table; none for
    /// a map.
    pub fn get_entry(&self, key: &str) -> (r: Option<JaclStruct<'s>>)
        ensures
            found_view(r) == match entries_of(self@) {
                Some(e) => entry_of(e, key@),
                None => None,
            },
    {
        match self {
            JaclStruct::Object(o) => o.get_entry(key),
            JaclStruct::Table(t) => t.get_entry(key),
            JaclStruct::Mapping(_) => None,
        }
    }

    /// The properties of an object or a map, in the order of their
    /// declaration; none for a table.
    pub fn properties(&self) -> (r: Option<Vec<(&String, &Value)>>)
        ensures
            match r {
                Some(v) => props_of(self@) matches Some(p) && v@.len() == p.len() && forall|i: int|
                    0 <= i < v@.len() ==> (#[trigger] v@[i]).0@ == p[i].0 && v@[i].1@ == p[i].1,
                None => props_of(self@) is None,
            },
    {
        match self {
            JaclStruct::Object(o) => Some(o.properties()),
            JaclStruct::Table(_) => None,
            JaclStruct::Mapping(m) => Some(m.properties()),
        }
    }

    /// The value that `key` is bound to in an object or a map; none for
    /// a table.
    pub fn get_property(&self, key: &str) -> (r: Option<&Value>)
        ensures
            match r {
                Some(v) => props_of(self@) matches Some(p) && lookup(p, key@) == Some(v@),
                None => props_of(self@) matches Some(p) ==> lookup(p, key@) is None,
            },
    {
        match self {
            JaclStruct::Object(o) => o.get_property(key),
            JaclStruct::Table(_) => None,
            JaclStruct::Mapping(m) => m.get_property(key),
        }
    }

    /// The structure as one that holds entries: an object or a table,
    /// and none for a map.
    pub fn as_entry_struct(&self) -> (r: Option<&dyn EntryStruct<'s>>)
        ensures
            r is Some <==> entries_of(self@) is Some,
    {
        match self {
            JaclStruct::Mapping(_) => None,
            JaclStruct::Object(strct) => {
                let e: &dyn EntryStruct<'s> = strct;
                Some(e)
            },
            JaclStruct::Table(strct) => {
                let e: &dyn EntryStruct<'s> = strct;
                Some(e)
            },
        }
    }

    /// The structure as one that holds properties: an object or a map,
    /// and none for a table.
    pub fn as_property_struct(&self) -> (r: Option<&dyn PropertyStruct>)
        ensures
            r is Some <==> props_of(self@) is Some,
    {
        match self {
            JaclStruct::Mapping(strct) => {
                let p: &dyn PropertyStruct = strct;
                Some(p)
            },
            JaclStruct::Object(strct) => {
                let p: &dyn PropertyStruct = strct;
                Some(p)
            },
            JaclStruct::Table(_) => None,
        }
    }
}

impl Jacl {
    /// The document that is held.
    pub closed spec fn data(&self) -> StructView {
        self.inr@
    }

    /// Holds a parsed document.
    pub fn init(data: Struct) -> (j: Jacl)
        ensures
            j.data() == data@,
    {
        Jacl { inr: data }
    }

    /// The root of the document, which is an object.
    pub fn root<'s>(&'s self) -> (r: Object<'s>)
        requires
            self.data() is Object,
        ensures
            r@ == self.data(),
            r.held_entries() == self.data()->Object_entries,
            r.held_props() == self.data()->Object_props,
    {
        match &self.inr {
            Struct::Object { entries, props } => Object { jacl: self, entries, props },
            _ => {
                assert(false);
                vstd::pervasive::unreached()
            },
        }
    }
}

} // verus!
