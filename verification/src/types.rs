//! The data model: scalar values, and the three kinds of structure that
//! hold them under names, in the order of their declaration.
use crate::omap::{lookup, put, put_all};
use indexmap::IndexMap;
use std::hash::RandomState;
use vstd::prelude::*;

verus! {

/// `indexmap::IndexMap`, a hash table that keeps its pairs in the order
/// of insertion. Nothing of its inside is known here.
#[verifier::external_type_specification]
#[verifier::external_body]
#[verifier::reject_recursive_types(K)]
#[verifier::reject_recursive_types(V)]
#[verifier::reject_recursive_types(S)]
pub struct ExIndexMap<K, V, S>(IndexMap<K, V, S>);

/// A scalar or a reference.
#[derive(Debug)]
pub enum Value {
    /// A reference to a sibling entry, by name.
    Key(String),
    /// A reference to a variable that is supplied from outside.
    Var(String),
    /// A reference into another document.
    Foreign(String),
    Tuple(Vec<Value>),
    Str(String),
    Int(i64),
    /// The text of a number with a fraction: digits, `.`, digits.
    Float(String),
    Bool(bool),
}

/// The mathematical content of a [`Value`].
pub enum ValueView {
    Key(Seq<char>),
    Var(Seq<char>),
    Foreign(Seq<char>),
    Tuple(Seq<ValueView>),
    Str(Seq<char>),
    Int(i64),
    Float(Seq<char>),
    Bool(bool),
}

/// The mathematical content of `v`.
pub open spec fn value_view(v: Value) -> ValueView
    decreases v,
{
    match v {
        Value::Key(s) => ValueView::Key(s@),
        Value::Var(s) => ValueView::Var(s@),
        Value::Foreign(s) => ValueView::Foreign(s@),
        Value::Tuple(vs) => ValueView::Tuple(
            Seq::new(
                vs.len() as nat,
                |i: int|
                    if 0 <= i < vs.len() {
                        value_view(vs[i])
                    } else {
                        ValueView::Bool(false)
                    },
            ),
        ),
        Value::Str(s) => ValueView::Str(s@),
        Value::Int(i) => ValueView::Int(i),
        Value::Float(s) => ValueView::Float(s@),
        Value::Bool(b) => ValueView::Bool(b),
    }
}

impl View for Value {
    type V = ValueView;

    open spec fn view(&self) -> ValueView {
        value_view(*self)
    }
}

/// The views of a sequence of values, in order.
pub open spec fn values_view(vs: Seq<Value>) -> Seq<ValueView> {
    Seq::new(vs.len(), |i: int| vs[i]@)
}

pub proof fn lemma_tuple_view(v: Vec<Value>)
    ensures
        Value::Tuple(v)@ == ValueView::Tuple(values_view(v@)),
{
    broadcast use vstd::std_specs::vec::group_vec_axioms;

    assert(Value::Tuple(v)@->Tuple_0 =~= values_view(v@));
}

impl Clone for Value {
    fn clone(&self) -> (r: Self)
        ensures
            r@ == self@,
        decreases self,
    {
        match self {
            Value::Key(s) => Value::Key(s.clone()),
            Value::Var(s) => Value::Var(s.clone()),
            Value::Foreign(s) => Value::Foreign(s.clone()),
            Value::Tuple(v) => {
                let mut out: Vec<Value> = Vec::new();
                let mut i: usize = 0;
                while i < v.len()
                    invariant
                        i <= v.len(),
                        *self == Value::Tuple(*v),
                        out@.len() == i,
                        forall|j: int| 0 <= j < i ==> out@[j]@ == v@[j]@,
                    decreases v.len() - i,
                {
                    proof {
                        vstd::std_specs::vec::axiom_vec_index_decreases(*v, i as int);
                        assert(self->Tuple_0 == *v);
                        assert(decreases_to!(*self => self->Tuple_0));
                    }
                    let e = v[i].clone();
                    out.push(e);
                    i += 1;
                }
                proof {
                    lemma_tuple_view(out);
                    lemma_tuple_view(*v);
                    assert(values_view(out@) =~= values_view(v@));
                }
                Value::Tuple(out)
            },
            Value::Str(s) => Value::Str(s.clone()),
            Value::Int(i) => Value::Int(*i),
            Value::Float(s) => Value::Float(s.clone()),
            Value::Bool(b) => Value::Bool(*b),
        }
    }
}

/// The model of the properties of a structure.
pub type PropsView = Seq<(Seq<char>, ValueView)>;

/// The model of the entries of a structure: a name that is declared and
/// not yet defined holds `None`.
pub type EntriesView = Seq<(Seq<char>, Option<StructView>)>;

/// The properties of a structure: scalar values under names, in the
/// order in which the names were first bound.
pub type Props = IndexMap<String, Value, RandomState>;

/// The entries of a structure: nested structures under names, in the
/// order in which the names were first declared. A name that is
/// declared and not yet defined holds `None`.
#[verifier::external_body]
#[derive(Debug)]
pub struct Entries {
    map: IndexMap<String, Option<Struct>>,
}

/// One of the three kinds of structure.
#[derive(Debug)]
pub enum Struct {
    /// Holds entries and properties.
    Object { entries: Entries, props: Props },
    /// Holds entries only.
    Table { entries: Entries },
    /// Holds properties only.
    Mapping { props: Props },
}

/// The mathematical content of a [`Struct`].
pub enum StructView {
    Object { entries: EntriesView, props: PropsView },
    Table { entries: EntriesView },
    Mapping { props: PropsView },
}

/// The pairs that a map of properties holds, in its order.
pub uninterp spec fn props_contents(m: Props) -> PropsView;

/// The pairs that a map of entries holds, in its order.
pub uninterp spec fn entries_contents(e: Entries) -> EntriesView;

impl View for Entries {
    type V = EntriesView;

    open spec fn view(&self) -> EntriesView {
        entries_contents(*self)
    }
}

impl View for Struct {
    type V = StructView;

    open spec fn view(&self) -> StructView {
        match self {
            Struct::Object { entries, props } => StructView::Object {
                entries: entries_contents(*entries),
                props: props_contents(*props),
            },
            Struct::Table { entries } => StructView::Table { entries: entries_contents(*entries) },
            Struct::Mapping { props } => StructView::Mapping { props: props_contents(*props) },
        }
    }
}

/// The view of an entry's value.
pub open spec fn entry_view(o: Option<Struct>) -> Option<StructView> {
    match o {
        Some(s) => Some(s@),
        None => None,
    }
}

/// Calls `IndexMap::new`: a map without pairs.
#[verifier::external_body]
pub(crate) fn props_new() -> (m: Props)
    ensures
        props_contents(m) == Seq::<(Seq<char>, ValueView)>::empty(),
{
    IndexMap::new()
}

/// Calls `IndexMap::len`: the number of pairs.
#[verifier::external_body]
pub(crate) fn props_len(m: &Props) -> (n: usize)
    ensures
        n == props_contents(*m).len(),
{
    m.len()
}

/// Calls `IndexMap::insert`: a key that is present keeps its place and
/// gets the new value; a new key goes last.
#[verifier::external_body]
pub(crate) fn props_insert(m: &mut Props, key: String, value: Value)
    ensures
        props_contents(*final(m)) == put(props_contents(*old(m)), key@, value@),
{
    m.insert(key, value);
}

/// Calls `IndexMap::extend`, which inserts each pair of `other` in its
/// order, as `IndexMap::insert` does.
#[verifier::external_body]
pub(crate) fn props_extend(m: &mut Props, other: Props)
    ensures
        props_contents(*final(m)) == put_all(props_contents(*old(m)), props_contents(other)),
{
    m.extend(other);
}

/// Calls `IndexMap::get`: the value under `key`, if the key is present.
#[verifier::external_body]
pub(crate) fn props_get<'a>(m: &'a Props, key: &str) -> (r: Option<&'a Value>)
    ensures
        match r {
            Some(v) => lookup(props_contents(*m), key@) == Some(v@),
            None => lookup(props_contents(*m), key@) is None,
        },
{
    m.get(key)
}

/// Calls `IndexMap::get_index`: the pair at position `i`, if there are
/// more than `i` pairs.
#[verifier::external_body]
pub(crate) fn props_get_index<'a>(m: &'a Props, i: usize) -> (r: Option<(&'a String, &'a Value)>)
    ensures
        match r {
            Some(p) => i < props_contents(*m).len() && props_contents(*m)[i as int] == (p.0@, p.1@),
            None => i >= props_contents(*m).len(),
        },
{
    m.get_index(i)
}

/// Calls `IndexMap::clone`: a map with the same pairs in the same order.
#[verifier::external_body]
pub(crate) fn props_clone(m: &Props) -> (r: Props)
    ensures
        props_contents(r) == props_contents(*m),
{
    m.clone()
}

/// Calls `IndexMap::new`: a map without pairs.
#[verifier::external_body]
pub(crate) fn entries_new() -> (e: Entries)
    ensures
        entries_contents(e) == Seq::<(Seq<char>, Option<StructView>)>::empty(),
{
    Entries { map: IndexMap::new() }
}

/// Calls `IndexMap::len`: the number of pairs.
#[verifier::external_body]
pub(crate) fn entries_len(e: &Entries) -> (n: usize)
    ensures
        n == entries_contents(*e).len(),
{
    e.map.len()
}

/// Calls `IndexMap::insert`: a key that is present keeps its place and
/// gets the new value, and the value that it held is returned; a new
/// key goes last, and `None` is returned.
#[verifier::external_body]
pub(crate) fn entries_insert(e: &mut Entries, key: String, value: Option<Struct>) -> (r: Option<
    Option<Struct>,
>)
    ensures
        entries_contents(*final(e)) == put(entries_contents(*old(e)), key@, entry_view(value)),
        match r {
            Some(v) => lookup(entries_contents(*old(e)), key@) == Some(entry_view(v)),
            None => lookup(entries_contents(*old(e)), key@) is None,
        },
{
    e.map.insert(key, value)
}

/// Calls `IndexMap::get`: the value under `key`, if the key is present.
#[verifier::external_body]
pub(crate) fn entries_get<'a>(e: &'a Entries, key: &str) -> (r: Option<&'a Option<Struct>>)
    ensures
        match r {
            Some(v) => lookup(entries_contents(*e), key@) == Some(entry_view(*v)),
            None => lookup(entries_contents(*e), key@) is None,
        },
{
    e.map.get(key)
}

/// Calls `IndexMap::get_index`: the pair at position `i`, if there are
/// more than `i` pairs.
#[verifier::external_body]
pub(crate) fn entries_get_index<'a>(e: &'a Entries, i: usize) -> (r: Option<
    (&'a String, &'a Option<Struct>),
>)
    ensures
        match r {
            Some(p) => i < entries_contents(*e).len() && entries_contents(*e)[i as int] == (
                p.0@,
                entry_view(*p.1),
            ),
            None => i >= entries_contents(*e).len(),
        },
{
    e.map.get_index(i)
}

impl Entries {
    /// Entries without a name.
    pub fn new() -> (e: Entries)
        ensures
            e@ == Seq::<(Seq<char>, Option<StructView>)>::empty(),
    {
        entries_new()
    }

    /// The number of names.
    pub fn len(&self) -> (n: usize)
        ensures
            n == self@.len(),
    {
        entries_len(self)
    }

    /// What `key` holds: `None` where the name is unknown, `Some(None)`
    /// where it is declared and not defined.
    pub fn get(&self, key: &str) -> (r: Option<&Option<Struct>>)
        ensures
            match r {
                Some(v) => lookup(self@, key@) == Some(entry_view(*v)),
                None => lookup(self@, key@) is None,
            },
    {
        entries_get(self, key)
    }

    /// The `i`-th name, in the order of declaration, and what it holds.
    pub fn get_index(&self, i: usize) -> (r: Option<(&String, &Option<Struct>)>)
        ensures
            match r {
                Some(p) => i < self@.len() && self@[i as int] == (p.0@, entry_view(*p.1)),
                None => i >= self@.len(),
            },
    {
        entries_get_index(self, i)
    }

    /// Puts `value` under `key`: a name that is present keeps its place
    /// and gets the new value, a new name goes last. Returns what the
    /// name held.
    pub fn insert(&mut self, key: String, value: Option<Struct>) -> (r: Option<Option<Struct>>)
        ensures
            final(self)@ == put(old(self)@, key@, entry_view(value)),
            match r {
                Some(v) => lookup(old(self)@, key@) == Some(entry_view(v)),
                None => lookup(old(self)@, key@) is None,
            },
    {
        entries_insert(self, key, value)
    }
}

impl Clone for Entries {
    /// Calls `IndexMap::clone`: a map with the same pairs in the same
    /// order.
    #[verifier::external_body]
    fn clone(&self) -> (r: Self)
        ensures
            entries_contents(r) == entries_contents(*self),
    {
        Entries { map: self.map.clone() }
    }
}

impl Clone for Struct {
    fn clone(&self) -> (r: Self)
        ensures
            r@ == self@,
    {
        match self {
            Struct::Object { entries, props } => Struct::Object {
                entries: entries.clone(),
                props: props_clone(props),
            },
            Struct::Table { entries } => Struct::Table { entries: entries.clone() },
            Struct::Mapping { props } => Struct::Mapping { props: props_clone(props) },
        }
    }
}

} // verus!
