//! The invariant of the data model: within one structure no name occurs
//! twice among the entries, nor among the properties, at any depth. The
//! grammar keeps it: whatever the parser returns is well formed.
use crate::grammar::{
    bind, binding_names, compound_names, define, define_each, empty_mapping, empty_object, empty_table,
    entries_of, expect, merge, merge_entries, parse, parse_anon_entry, parse_inner, parse_named_item,
    parse_rhs, parse_rval, parse_struct, remaining, tok_at, Gate, RValueView,
};
use crate::omap::{index_of, lemma_index_of, lemma_put, lookup, put, put_all, put_each, unique_keys};
use crate::tokeniser::{TokValView, TokenView};
use crate::types::{EntriesView, StructView, ValueView};
use vstd::prelude::*;

verus! {

/// No name occurs twice in `s`, nor in a structure within it.
pub open spec fn well_formed(s: StructView) -> bool
    decreases s, 1nat,
{
    match s {
        StructView::Object { entries, props } => unique_keys(props) && entries_well_formed(entries),
        StructView::Table { entries } => entries_well_formed(entries),
        StructView::Mapping { props } => unique_keys(props),
    }
}

/// No name occurs twice among `e`, and every structure in it is well
/// formed.
pub open spec fn entries_well_formed(e: EntriesView) -> bool
    decreases e, 0nat,
{
    &&& unique_keys(e)
    &&& forall|i: int| 0 <= i < e.len() ==> entry_well_formed(#[trigger] e[i])
}

/// The structure that an entry holds, if it holds one, is well formed.
pub open spec fn entry_well_formed(entry: (Seq<char>, Option<StructView>)) -> bool
    decreases entry,
{
    match entry.1 {
        Some(s) => well_formed(s),
        None => true,
    }
}

/// Insertion keeps entries well formed.
pub proof fn lemma_put_entry(e: EntriesView, k: Seq<char>, v: Option<StructView>)
    requires
        entries_well_formed(e),
        v matches Some(s) ==> well_formed(s),
    ensures
        entries_well_formed(put(e, k, v)),
{
    let r = put(e, k, v);
    lemma_put(e, k, v);
    lemma_index_of(e, k);
    assert forall|i: int| 0 <= i < r.len() implies entry_well_formed(#[trigger] r[i]) by {
        if i < e.len() && index_of(e, k) != Some(i) {
            assert(entry_well_formed(e[i]));
            assert(r[i] == e[i]);
        }
    }
}

/// Insertion of every pair of `other` keeps the names unique.
pub proof fn lemma_put_all_unique<V>(m: Seq<(Seq<char>, V)>, other: Seq<(Seq<char>, V)>)
    requires
        unique_keys(m),
    ensures
        unique_keys(put_all(m, other)),
    decreases other.len(),
{
    if other.len() > 0 {
        lemma_put_all_unique(m, other.drop_last());
        lemma_put(put_all(m, other.drop_last()), other.last().0, other.last().1);
    }
}

/// Insertion of one value under every name of `names` keeps the names
/// unique.
pub proof fn lemma_put_each_unique<V>(m: Seq<(Seq<char>, V)>, names: Seq<Seq<char>>, v: V)
    requires
        unique_keys(m),
    ensures
        unique_keys(put_each(m, names, v)),
    decreases names.len(),
{
    if names.len() > 0 {
        lemma_put_each_unique(m, names.drop_last(), v);
        lemma_put(put_each(m, names.drop_last(), v), names.last(), v);
    }
}

/// What a name holds among well-formed entries is well formed.
pub proof fn lemma_lookup_entry(e: EntriesView, k: Seq<char>)
    requires
        entries_well_formed(e),
    ensures
        lookup(e, k) matches Some(Some(s)) ==> well_formed(s),
{
    lemma_index_of(e, k);
    if let Some(i) = index_of(e, k) {
        assert(entry_well_formed(e[i]));
    }
}

/// The merge of two well-formed structures is well formed.
pub proof fn lemma_merge(ex: StructView, name: Seq<char>, new: StructView, cur: Option<TokenView>)
    requires
        well_formed(ex),
        well_formed(new),
    ensures
        merge(ex, name, new, cur) matches Ok(m) ==> well_formed(m),
    decreases new, 0nat,
{
    match ex {
        StructView::Object { entries: ex_entries, props: ex_props } => match new {
            StructView::Object { entries: new_entries, props: new_props } => {
                lemma_merge_entries(ex_entries, new_entries, 0, cur);
                lemma_put_all_unique(ex_props, new_props);
            },
            _ => {},
        },
        StructView::Table { entries: ex_entries } => match new {
            StructView::Table { entries: new_entries } => {
                lemma_merge_entries(ex_entries, new_entries, 0, cur);
            },
            _ => {},
        },
        StructView::Mapping { .. } => {},
    }
}

/// The merge of well-formed entries is well formed.
pub proof fn lemma_merge_entries(ex: EntriesView, new: EntriesView, i: nat, cur: Option<TokenView>)
    requires
        entries_well_formed(ex),
        entries_well_formed(new),
    ensures
        merge_entries(ex, new, i, cur) matches Ok(m) ==> entries_well_formed(m),
    decreases new, new.len() - i,
{
    if i < new.len() {
        let k = new[i as int].0;
        assert(entry_well_formed(new[i as int]));
        lemma_lookup_entry(ex, k);
        match lookup(ex, k) {
            Some(Some(extant)) => match new[i as int].1 {
                Some(incoming) => {
                    lemma_merge(extant, k, incoming, cur);
                    if let Ok(merged) = merge(extant, k, incoming, cur) {
                        lemma_put_entry(ex, k, Some(merged));
                        lemma_merge_entries(put(ex, k, Some(merged)), new, i + 1, cur);
                    }
                },
                None => {},
            },
            _ => {
                lemma_put_entry(ex, k, new[i as int].1);
                lemma_merge_entries(put(ex, k, new[i as int].1), new, i + 1, cur);
            },
        }
    }
}

/// A definition keeps entries well formed.
pub proof fn lemma_define(entries: EntriesView, name: Seq<char>, st: StructView, cur: Option<TokenView>)
    requires
        entries_well_formed(entries),
        well_formed(st),
    ensures
        define(entries, name, st, cur) matches Ok(e) ==> entries_well_formed(e),
{
    lemma_lookup_entry(entries, name);
    match lookup(entries, name) {
        Some(Some(extant)) => {
            lemma_merge(extant, name, st, cur);
            if let Ok(merged) = merge(extant, name, st, cur) {
                lemma_put_entry(entries, name, Some(merged));
            }
        },
        _ => {
            lemma_put_entry(entries, name, Some(st));
        },
    }
}

/// A definition under several names keeps entries well formed.
pub proof fn lemma_define_each(
    entries: EntriesView,
    names: Seq<Seq<char>>,
    i: nat,
    st: StructView,
    cur: Option<TokenView>,
)
    requires
        entries_well_formed(entries),
        well_formed(st),
    ensures
        define_each(entries, names, i, st, cur) matches Ok(e) ==> entries_well_formed(e),
    decreases names.len() - i,
{
    if i < names.len() {
        lemma_define(entries, names[i as int], st, cur);
        if let Ok(e) = define(entries, names[i as int], st, cur) {
            lemma_define_each(e, names, i + 1, st, cur);
        }
    }
}

/// A binding keeps a structure well formed.
pub proof fn lemma_bind(
    strct: StructView,
    names: Seq<Seq<char>>,
    rv: RValueView,
    eq: TokenView,
    first: TokenView,
)
    requires
        well_formed(strct),
        rv matches RValueView::Struct(st) ==> well_formed(st),
    ensures
        bind(strct, names, rv, eq, first) matches Ok(s) ==> well_formed(s),
{
    match rv {
        RValueView::Value(val) => match strct {
            StructView::Object { entries, props } => {
                lemma_put_each_unique(props, names, val);
            },
            StructView::Mapping { props } => {
                lemma_put_each_unique(props, names, val);
            },
            StructView::Table { entries } => {},
        },
        RValueView::Struct(st) => match strct {
            StructView::Object { entries, props } => {
                let key = crate::grammar::anon_name(entries.len());
                lemma_put_each_unique(props, names, ValueView::Key(key));
                lemma_put_entry(entries, key, Some(st));
            },
            _ => {},
        },
    }
}

/// A structure literal is well formed.
pub proof fn lemma_struct(toks: Seq<TokenView>, pos: nat)
    ensures
        parse_struct(toks, pos) matches Ok((s, p)) ==> well_formed(s),
    decreases remaining(toks, pos), 1nat,
{
    if let Some(tok) = tok_at(toks, pos) {
        if tok.val is LBrace {
            lemma_inner(toks, pos + 1, empty_object());
        } else if tok.val is LBrack {
            lemma_inner(toks, pos + 1, empty_table());
        } else if tok.val is LBracePct {
            lemma_inner(toks, pos + 1, empty_mapping());
        }
    }
}

/// A binding that is read keeps a structure well formed.
pub proof fn lemma_rhs(toks: Seq<TokenView>, pos: nat, strct: StructView, names: Seq<Seq<char>>)
    requires
        well_formed(strct),
    ensures
        parse_rhs(toks, pos, strct, names) matches Ok((s, p)) ==> well_formed(s),
    decreases remaining(toks, pos), 3nat,
{
    if let Ok(eq) = expect(toks, pos, Gate::Equals, "'='"@) {
        if let Some(first) = tok_at(toks, pos + 1) {
            if first.val is LBrace || first.val is LBrack || first.val is LBracePct {
                lemma_struct(toks, pos + 1);
            }
            if let Ok((rv, p)) = parse_rval(toks, pos + 1) {
                lemma_bind(strct, names, rv, eq, first);
            }
        }
    }
}

/// An item that begins with a name keeps a structure well formed.
pub proof fn lemma_named_item(toks: Seq<TokenView>, pos: nat, strct: StructView)
    requires
        well_formed(strct),
    ensures
        parse_named_item(toks, pos, strct) matches Ok((s, p)) ==> well_formed(s),
    decreases remaining(toks, pos), 5nat,
{
    if let Some(next) = tok_at(toks, pos + 1) {
        match next.val {
            TokValView::Comma => {
                if let Ok((names, p)) = binding_names(toks, pos, Seq::empty()) {
                    if p > pos {
                        lemma_rhs(toks, p, strct, names);
                    }
                }
            },
            TokValView::Equals => {
                if let Some(tok) = tok_at(toks, pos) {
                    if let TokValView::Name(name) = tok.val {
                        lemma_rhs(toks, pos + 1, strct, seq![name]);
                    }
                }
            },
            TokValView::Plus => {
                if let Some(entries) = entries_of(strct) {
                    if let Ok((names, p1)) = compound_names(toks, pos, Seq::empty()) {
                        if p1 > pos {
                            lemma_struct(toks, p1);
                            if let Ok((st, p)) = parse_struct(toks, p1) {
                                lemma_define_each(entries, names, 0, st, tok_at(toks, p));
                            }
                        }
                    }
                }
            },
            TokValView::Break => {
                if let Some(entries) = entries_of(strct) {
                    if let Some(tok) = tok_at(toks, pos) {
                        if let TokValView::Name(name) = tok.val {
                            lemma_put_entry(entries, name, None);
                        }
                    }
                }
            },
            TokValView::Star => {},
            TokValView::Dollar => {},
            _ => {
                if let Some(entries) = entries_of(strct) {
                    if let Some(tok) = tok_at(toks, pos) {
                        if let TokValView::Name(name) = tok.val {
                            lemma_struct(toks, pos + 1);
                            if let Ok((st, p)) = parse_struct(toks, pos + 1) {
                                lemma_define(entries, name, st, tok_at(toks, p));
                            }
                        }
                    }
                }
            },
        }
    }
}

/// The items of a body keep a structure well formed.
pub proof fn lemma_inner(toks: Seq<TokenView>, pos: nat, strct: StructView)
    requires
        well_formed(strct),
    ensures
        parse_inner(toks, pos, strct) matches Ok((s, p)) ==> well_formed(s),
    decreases remaining(toks, pos), 6nat,
{
    if let Some(tok) = tok_at(toks, pos) {
        match tok.val {
            TokValView::Break => {
                lemma_inner(toks, pos + 1, strct);
            },
            TokValView::RBrace | TokValView::RBrack | TokValView::RBracePct => {},
            TokValView::Name(_) => {
                lemma_named_item(toks, pos, strct);
                if let Ok((s, p)) = parse_named_item(toks, pos, strct) {
                    if p > pos {
                        lemma_inner(toks, p, s);
                    }
                }
            },
            _ => {
                if let Some(entries) = entries_of(strct) {
                    lemma_struct(toks, pos);
                    if let Ok((st, p)) = parse_struct(toks, pos) {
                        lemma_put_entry(entries, crate::grammar::anon_name(entries.len()), Some(st));
                    }
                }
                if let Ok((s, p)) = parse_anon_entry(toks, pos, strct) {
                    if p > pos {
                        lemma_inner(toks, p, s);
                    }
                }
            },
        }
    }
}

/// The root that the grammar gives for a sequence of tokens is well
/// formed.
pub proof fn lemma_parse(toks: Seq<TokenView>)
    ensures
        parse(toks) matches Ok(s) ==> well_formed(s),
{
    lemma_inner(toks, 0, empty_object());
}

} // verus!
